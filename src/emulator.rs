//! A reference account fed a dated cash-flow timeline, compounding at a trial annual rate.
//!
//! Amounts are integers in minor currency units; rates are fixed-point fractions of one
//! with `RATE_SCALE` units per 1 (so 10% is `100_000`). Time is counted in whole days.
//! Within an interval, growth compounds once per whole year of 365.25 days and applies
//! simple interest over the remaining fraction of a year; every step truncates toward zero.
use vstd::prelude::*;

verus! {

/// Fixed-point units per 1 of an annual rate.
pub const RATE_SCALE: i64 = 1_000_000;

/// The highest supported annual rate (+10000%).
pub const MAX_RATE: i64 = 100_000_000;

/// Four years of 365.25 days, in days: the day-count convention.
pub const FOUR_YEARS_DAYS: i64 = 1461;

/// The largest balance magnitude that the emulated account can hold.
pub const BALANCE_LIMIT: i128 = 100_000_000_000_000_000_000_000_000;

/// An investor-initiated deposit (positive amount) or withdrawal (negative amount).
#[derive(Clone, Copy, Debug, PartialEq, Eq)]
pub struct CashFlowEvent {
    /// Day number of the event.
    pub date: i32,
    /// Signed amount in minor currency units.
    pub amount: i64,
}

#[derive(Clone, Copy, Debug, PartialEq, Eq)]
pub enum EmulationError {
    /// The events are not date-ascending, or the valuation date precedes the last event.
    Ordering,
    /// An intermediate balance left the range that the account can hold.
    Overflow,
}

pub open spec fn rate_in_domain(rate: int) -> bool {
    -RATE_SCALE <= rate <= MAX_RATE
}

/// `b * num / den`, truncated toward zero.
pub open spec fn scale(b: int, num: int, den: int) -> int {
    if b >= 0 {
        b * num / den
    } else {
        -((-b) * num / den)
    }
}

/// One whole year of compounding.
pub open spec fn annual_step(b: int, rate: int) -> int {
    scale(b, RATE_SCALE + rate, RATE_SCALE as int)
}

/// `n` whole years of compounding.
pub open spec fn grow_years(b: int, rate: int, n: nat) -> int
    decreases n,
{
    if n == 0 {
        b
    } else {
        annual_step(grow_years(b, rate, (n - 1) as nat), rate)
    }
}

/// Simple interest over `q / FOUR_YEARS_DAYS` of a year.
pub open spec fn partial_step(b: int, rate: int, q: int) -> int {
    scale(b, FOUR_YEARS_DAYS * RATE_SCALE + rate * q, FOUR_YEARS_DAYS * RATE_SCALE)
}

/// Whole years of 365.25 days in `days`.
pub open spec fn whole_years(days: int) -> nat {
    ((4 * days) / (FOUR_YEARS_DAYS as int)) as nat
}

/// What is left of `days` after whole years, in quarter days.
pub open spec fn year_remainder(days: int) -> int {
    (4 * days) % (FOUR_YEARS_DAYS as int)
}

/// Balance `b` grown at `rate` over `days` days.
pub open spec fn grow(b: int, rate: int, days: int) -> int {
    partial_step(grow_years(b, rate, whole_years(days)), rate, year_remainder(days))
}

pub open spec fn fits(b: int) -> bool {
    -BALANCE_LIMIT <= b <= BALANCE_LIMIT
}

/// Every balance met while growing `b` over `days` days fits.
pub open spec fn grow_fits(b: int, rate: int, days: int) -> bool {
    &&& forall|k: nat| k <= whole_years(days) ==> fits(#[trigger] grow_years(b, rate, k))
    &&& fits(grow(b, rate, days))
}

/// The date from which the account grows before event `i` is added.
pub open spec fn prev_date(events: Seq<CashFlowEvent>, i: int) -> int {
    if i == 0 {
        events[0].date as int
    } else {
        events[i - 1].date as int
    }
}

/// The balance right after the first `k` events were added.
pub open spec fn balance_after(events: Seq<CashFlowEvent>, rate: int, k: nat) -> int
    decreases k,
{
    if k == 0 {
        0
    } else {
        let i = k - 1;
        grow(balance_after(events, rate, i as nat), rate, events[i].date - prev_date(events, i))
            + events[i].amount
    }
}

/// Every balance met while adding the first `k` events fits.
pub open spec fn steps_fit(events: Seq<CashFlowEvent>, rate: int, k: nat) -> bool
    decreases k,
{
    if k == 0 {
        true
    } else {
        let i = k - 1;
        &&& steps_fit(events, rate, i as nat)
        &&& grow_fits(
            balance_after(events, rate, i as nat),
            rate,
            events[i].date - prev_date(events, i),
        )
        &&& fits(balance_after(events, rate, k))
    }
}

/// Dates ascend, and the valuation date is not before the last event.
pub open spec fn ordered(events: Seq<CashFlowEvent>, as_of: int) -> bool {
    &&& forall|i: int| 0 < i < events.len() ==> events[i - 1].date <= #[trigger] events[i].date
    &&& events.len() > 0 ==> events.last().date <= as_of
}

/// The balance of the reference account on day `as_of`.
pub open spec fn emulated_balance(events: Seq<CashFlowEvent>, rate: int, as_of: int) -> int {
    if events.len() == 0 {
        0
    } else {
        grow(balance_after(events, rate, events.len()), rate, as_of - events.last().date)
    }
}

/// Every balance met on the way to `emulated_balance` fits.
pub open spec fn emulation_fits(events: Seq<CashFlowEvent>, rate: int, as_of: int) -> bool {
    &&& steps_fit(events, rate, events.len())
    &&& events.len() > 0 ==> grow_fits(
        balance_after(events, rate, events.len()),
        rate,
        as_of - events.last().date,
    )
}

/// What `simulate` returns, as a function of its inputs.
pub open spec fn simulation(events: Seq<CashFlowEvent>, rate: int, as_of: int) -> Result<
    int,
    EmulationError,
> {
    if !ordered(events, as_of) {
        Err(EmulationError::Ordering)
    } else if !emulation_fits(events, rate, as_of) {
        Err(EmulationError::Overflow)
    } else {
        Ok(emulated_balance(events, rate, as_of))
    }
}

fn scale_exec(b: i128, num: i128, den: i128) -> (r: i128)
    requires
        fits(b as int),
        0 <= num <= FOUR_YEARS_DAYS * RATE_SCALE + MAX_RATE * FOUR_YEARS_DAYS,
        den > 0,
    ensures
        r == scale(b as int, num as int, den as int),
{
    let m: i128 = if b >= 0 { b } else { -b };
    assert(0 <= m * num <= BALANCE_LIMIT * (FOUR_YEARS_DAYS * RATE_SCALE + MAX_RATE
        * FOUR_YEARS_DAYS)) by (nonlinear_arith)
        requires
            0 <= m <= BALANCE_LIMIT,
            0 <= num <= FOUR_YEARS_DAYS * RATE_SCALE + MAX_RATE * FOUR_YEARS_DAYS,
    ;
    let p: i128 = m * num;
    assert(0 <= p / den <= p) by (nonlinear_arith)
        requires
            p >= 0,
            den > 0,
    ;
    if b >= 0 {
        p / den
    } else {
        -(p / den)
    }
}

proof fn lemma_grow_years_unfold(b: int, rate: int, k: nat)
    ensures
        grow_years(b, rate, k + 1) == annual_step(grow_years(b, rate, k), rate),
{
}

/// Grows `b` over `days` days, or `None` where a balance on the way does not fit.
fn grow_exec(b: i128, rate: i64, days: i64) -> (r: Option<i128>)
    requires
        fits(b as int),
        rate_in_domain(rate as int),
        0 <= days <= 0x1_0000_0000,
    ensures
        r == (if grow_fits(b as int, rate as int, days as int) {
            Some(grow(b as int, rate as int, days as int) as i128)
        } else {
            None::<i128>
        }),
        r is Some ==> r->0 == grow(b as int, rate as int, days as int),
{
    let quarters: i64 = 4 * days;
    let n: i64 = quarters / FOUR_YEARS_DAYS;
    let q: i64 = quarters % FOUR_YEARS_DAYS;
    assert(n == whole_years(days as int));
    let mut cur: i128 = b;
    let mut k: i64 = 0;
    while k < n
        invariant
            0 <= k <= n,
            n == whole_years(days as int),
            rate_in_domain(rate as int),
            cur == grow_years(b as int, rate as int, k as nat),
            forall|j: nat| j <= k ==> fits(#[trigger] grow_years(b as int, rate as int, j)),
        decreases n - k,
    {
        proof {
            lemma_grow_years_unfold(b as int, rate as int, k as nat);
        }
        let next = scale_exec(cur, (RATE_SCALE + rate) as i128, RATE_SCALE as i128);
        if next < -BALANCE_LIMIT || next > BALANCE_LIMIT {
            assert(!fits(grow_years(b as int, rate as int, (k + 1) as nat)));
            return None;
        }
        cur = next;
        k = k + 1;
    }
    assert(0 <= q < FOUR_YEARS_DAYS);
    assert(rate * q <= MAX_RATE * FOUR_YEARS_DAYS) by (nonlinear_arith)
        requires
            rate <= MAX_RATE,
            0 <= q < FOUR_YEARS_DAYS,
    ;
    assert(rate * q >= -RATE_SCALE * FOUR_YEARS_DAYS) by (nonlinear_arith)
        requires
            rate >= -RATE_SCALE,
            0 <= q < FOUR_YEARS_DAYS,
    ;
    let num: i128 = (FOUR_YEARS_DAYS as i128) * (RATE_SCALE as i128) + (rate as i128) * (q as i128);
    let res = scale_exec(cur, num, (FOUR_YEARS_DAYS as i128) * (RATE_SCALE as i128));
    if res < -BALANCE_LIMIT || res > BALANCE_LIMIT {
        None
    } else {
        Some(res)
    }
}


/// Whether the events ascend by date and none lies after `as_of`.
pub fn is_ordered(events: &Vec<CashFlowEvent>, as_of: i32) -> (r: bool)
    ensures
        r == ordered(events@, as_of as int),
{
    let mut i: usize = 1;
    while i < events.len()
        invariant
            1 <= i <= events.len() || events.len() == 0,
            forall|j: int| 0 < j < i && j < events.len() ==> events@[j - 1].date <= #[trigger] events@[j].date,
        decreases events.len() - i,
    {
        if events[i - 1].date > events[i].date {
            return false;
        }
        i = i + 1;
    }
    events.len() == 0 || events[events.len() - 1].date <= as_of
}

/// The balance on day `as_of` of a zero-balance account that receives each event's amount
/// on its date and grows at annual `rate` in between.
pub fn simulate(events: &Vec<CashFlowEvent>, rate: i64, as_of: i32) -> (r: Result<i128, EmulationError>)
    requires
        rate_in_domain(rate as int),
    ensures
        match r {
            Ok(v) => simulation(events@, rate as int, as_of as int) == Ok::<int, EmulationError>(v as int),
            Err(e) => simulation(events@, rate as int, as_of as int) == Err::<int, EmulationError>(e),
        },
{
    if !is_ordered(events, as_of) {
        return Err(EmulationError::Ordering);
    }
    let ghost s = events@;
    let ghost r = rate as int;
    let mut balance: i128 = 0;
    let mut i: usize = 0;
    while i < events.len()
        invariant
            s == events@,
            r == rate as int,
            rate_in_domain(r),
            ordered(s, as_of as int),
            0 <= i <= s.len(),
            steps_fit(s, r, i as nat),
            balance == balance_after(s, r, i as nat),
            fits(balance as int),
        decreases s.len() - i,
    {
        let from: i32 = if i == 0 { events[0].date } else { events[i - 1].date };
        assert(from == prev_date(s, i as int));
        let days: i64 = (events[i].date as i64) - (from as i64);
        let grown = grow_exec(balance, rate, days);
        match grown {
            None => {
                assert(!steps_fit(s, r, (i + 1) as nat));
                proof { lemma_steps_fit_prefix(s, r, (i + 1) as nat, s.len()); }
                return Err(EmulationError::Overflow);
            },
            Some(g) => {
                let next: i128 = g + events[i].amount as i128;
                if next < -BALANCE_LIMIT || next > BALANCE_LIMIT {
                    assert(!steps_fit(s, r, (i + 1) as nat));
                    proof { lemma_steps_fit_prefix(s, r, (i + 1) as nat, s.len()); }
                    return Err(EmulationError::Overflow);
                }
                balance = next;
            },
        }
        i = i + 1;
    }
    if events.len() == 0 {
        return Ok(0);
    }
    let days: i64 = (as_of as i64) - (events[events.len() - 1].date as i64);
    match grow_exec(balance, rate, days) {
        None => Err(EmulationError::Overflow),
        Some(g) => Ok(g),
    }
}

/// Where the first `k` steps fit, so do the first `j <= k`.
proof fn lemma_steps_fit_prefix(events: Seq<CashFlowEvent>, rate: int, j: nat, k: nat)
    requires
        j <= k,
    ensures
        steps_fit(events, rate, k) ==> steps_fit(events, rate, j),
    decreases k - j,
{
    if j < k {
        lemma_steps_fit_prefix(events, rate, j, (k - 1) as nat);
    }
}


proof fn lemma_scale_monotone(b1: int, b2: int, n1: int, n2: int, den: int)
    requires
        0 <= b1 <= b2,
        0 <= n1 <= n2,
        den > 0,
    ensures
        0 <= scale(b1, n1, den) <= scale(b2, n2, den),
{
    assert(0 <= b1 * n1 <= b2 * n2) by (nonlinear_arith)
        requires
            0 <= b1 <= b2,
            0 <= n1 <= n2,
    ;
    vstd::arithmetic::div_mod::lemma_div_is_ordered(b1 * n1, b2 * n2, den);
    vstd::arithmetic::div_mod::lemma_div_pos_is_pos(b1 * n1, den);
}

proof fn lemma_grow_years_monotone(b1: int, b2: int, r1: int, r2: int, n: nat)
    requires
        0 <= b1 <= b2,
        rate_in_domain(r1),
        rate_in_domain(r2),
        r1 <= r2,
    ensures
        0 <= grow_years(b1, r1, n) <= grow_years(b2, r2, n),
    decreases n,
{
    if n > 0 {
        lemma_grow_years_monotone(b1, b2, r1, r2, (n - 1) as nat);
        lemma_scale_monotone(
            grow_years(b1, r1, (n - 1) as nat),
            grow_years(b2, r2, (n - 1) as nat),
            RATE_SCALE + r1,
            RATE_SCALE + r2,
            RATE_SCALE as int,
        );
    }
}

proof fn lemma_grow_monotone(b1: int, b2: int, r1: int, r2: int, days: int)
    requires
        0 <= b1 <= b2,
        rate_in_domain(r1),
        rate_in_domain(r2),
        r1 <= r2,
        days >= 0,
    ensures
        0 <= grow(b1, r1, days) <= grow(b2, r2, days),
{
    let n = whole_years(days);
    let q = year_remainder(days);
    lemma_grow_years_monotone(b1, b2, r1, r2, n);
    assert(0 <= q < FOUR_YEARS_DAYS);
    assert(0 <= FOUR_YEARS_DAYS * RATE_SCALE + r1 * q <= FOUR_YEARS_DAYS * RATE_SCALE + r2 * q)
        by (nonlinear_arith)
        requires
            -RATE_SCALE <= r1 <= r2,
            0 <= q < FOUR_YEARS_DAYS,
    ;
    lemma_scale_monotone(
        grow_years(b1, r1, n),
        grow_years(b2, r2, n),
        FOUR_YEARS_DAYS * RATE_SCALE + r1 * q,
        FOUR_YEARS_DAYS * RATE_SCALE + r2 * q,
        FOUR_YEARS_DAYS * RATE_SCALE,
    );
}

pub open spec fn all_deposits(events: Seq<CashFlowEvent>) -> bool {
    forall|i: int| 0 <= i < events.len() ==> #[trigger] events[i].amount >= 0
}

proof fn lemma_balance_after_monotone(events: Seq<CashFlowEvent>, r1: int, r2: int, k: nat)
    requires
        all_deposits(events),
        ordered(events, events.last().date as int),
        rate_in_domain(r1),
        rate_in_domain(r2),
        r1 <= r2,
        k <= events.len(),
    ensures
        0 <= balance_after(events, r1, k) <= balance_after(events, r2, k),
    decreases k,
{
    if k > 0 {
        let i = k - 1;
        lemma_balance_after_monotone(events, r1, r2, i as nat);
        if i > 0 {
            assert(events[i - 1].date <= events[i].date);
        }
        lemma_grow_monotone(
            balance_after(events, r1, i as nat),
            balance_after(events, r2, i as nat),
            r1,
            r2,
            events[i].date - prev_date(events, i),
        );
        assert(events[i].amount >= 0);
    }
}

/// An account that was never fed holds nothing on any day, whatever the rate.
pub proof fn lemma_empty_timeline(rate: int, as_of: int)
    ensures
        emulated_balance(Seq::<CashFlowEvent>::empty(), rate, as_of) == 0,
        simulation(Seq::<CashFlowEvent>::empty(), rate, as_of) == Ok::<int, EmulationError>(0),
{
}

/// For a date-ascending timeline of deposits, the emulated balance never decreases
/// as the rate rises.
pub proof fn lemma_balance_monotone_in_rate(events: Seq<CashFlowEvent>, r1: int, r2: int, as_of: int)
    requires
        all_deposits(events),
        ordered(events, as_of),
        rate_in_domain(r1),
        rate_in_domain(r2),
        r1 <= r2,
    ensures
        emulated_balance(events, r1, as_of) <= emulated_balance(events, r2, as_of),
{
    if events.len() > 0 {
        assert(ordered(events, events.last().date as int));
        lemma_balance_after_monotone(events, r1, r2, events.len());
        lemma_grow_monotone(
            balance_after(events, r1, events.len()),
            balance_after(events, r2, events.len()),
            r1,
            r2,
            as_of - events.last().date,
        );
    }
}

} // verus!
