//! Solving for the annual rate at which the reference account ends at the actual value of
//! the portfolio.
use vstd::prelude::*;
use crate::emulator::{
    CashFlowEvent, EmulationError, emulated_balance, emulation_fits, ordered, rate_in_domain,
    simulate, simulation,
};

verus! {

/// The lowest rate the analyser tries (-99%).
pub const MIN_SEARCH_RATE: i64 = -990_000;

/// The highest rate the analyser tries (+1000%).
pub const MAX_SEARCH_RATE: i64 = 10_000_000;

/// How far, in minor units, the emulated balance may stay from the target.
pub const BALANCE_TOLERANCE: i64 = 1;

/// How many halvings the analyser allows.
pub const MAX_ITERATIONS: u32 = 64;

#[derive(Clone, Copy, Debug, PartialEq, Eq)]
pub enum AnalysisError {
    /// Cash flows are not date-ascending, or lie after the valuation date.
    Ordering,
    /// An amount left the range that the computation can hold.
    Overflow,
    /// No rate in the search interval brackets the actual value.
    InsufficientData,
    /// The converter had no quote for a currency pair.
    RateUnavailable,
}

pub open spec fn emulation_error(e: EmulationError) -> AnalysisError {
    match e {
        EmulationError::Ordering => AnalysisError::Ordering,
        EmulationError::Overflow => AnalysisError::Overflow,
    }
}

pub open spec fn abs(x: int) -> int {
    if x < 0 {
        -x
    } else {
        x
    }
}

/// Of the bracket ends `a` and `b`, the one whose balance is nearer `target` (`a` on a tie).
pub open spec fn nearer_end(events: Seq<CashFlowEvent>, as_of: int, target: int, a: int, b: int) -> int {
    if target - emulated_balance(events, a, as_of) <= emulated_balance(events, b, as_of) - target {
        a
    } else {
        b
    }
}

/// The rate that bisection of `[a, b]` settles on within `n` halvings.
pub open spec fn bisect(events: Seq<CashFlowEvent>, as_of: int, target: int, tol: int, a: int, b: int, n: nat) -> int
    decreases n,
{
    if n == 0 || b - a <= 1 {
        nearer_end(events, as_of, target, a, b)
    } else {
        let mid = a + (b - a) / 2;
        let f = emulated_balance(events, mid, as_of);
        if abs(f - target) <= tol {
            mid
        } else if f < target {
            bisect(events, as_of, target, tol, mid, b, (n - 1) as nat)
        } else {
            bisect(events, as_of, target, tol, a, mid, (n - 1) as nat)
        }
    }
}

/// Every rate that bisection of `[a, b]` probes can be emulated without overflow.
pub open spec fn probes_fit(events: Seq<CashFlowEvent>, as_of: int, target: int, tol: int, a: int, b: int, n: nat) -> bool
    decreases n,
{
    if n == 0 || b - a <= 1 {
        true
    } else {
        let mid = a + (b - a) / 2;
        let f = emulated_balance(events, mid, as_of);
        &&& emulation_fits(events, mid, as_of)
        &&& abs(f - target) > tol ==> if f < target {
            probes_fit(events, as_of, target, tol, mid, b, (n - 1) as nat)
        } else {
            probes_fit(events, as_of, target, tol, a, mid, (n - 1) as nat)
        }
    }
}

/// What `solve_rate` returns, as a function of its inputs.
pub open spec fn solution(
    events: Seq<CashFlowEvent>,
    as_of: int,
    target: int,
    lo: int,
    hi: int,
    tol: int,
    n: nat,
) -> Result<int, AnalysisError> {
    if !ordered(events, as_of) {
        Err(AnalysisError::Ordering)
    } else if !emulation_fits(events, lo, as_of) || !emulation_fits(events, hi, as_of) {
        Err(AnalysisError::Overflow)
    } else if emulated_balance(events, lo, as_of) > target || emulated_balance(events, hi, as_of)
        < target {
        Err(AnalysisError::InsufficientData)
    } else if !probes_fit(events, as_of, target, tol, lo, hi, n) {
        Err(AnalysisError::Overflow)
    } else {
        Ok(bisect(events, as_of, target, tol, lo, hi, n))
    }
}

fn emulate(events: &Vec<CashFlowEvent>, rate: i64, as_of: i32) -> (r: Result<i128, AnalysisError>)
    requires
        rate_in_domain(rate as int),
    ensures
        r is Ok ==> simulation(events@, rate as int, as_of as int) == Ok::<int, EmulationError>(
            r->Ok_0 as int,
        ),
        r is Err ==> simulation(events@, rate as int, as_of as int) is Err && r->Err_0
            == emulation_error(simulation(events@, rate as int, as_of as int)->Err_0),
{
    let res = simulate(events, rate, as_of);
    match res {
        Ok(v) => Ok(v),
        Err(e) => {
            let mapped = match e {
                EmulationError::Ordering => AnalysisError::Ordering,
                EmulationError::Overflow => AnalysisError::Overflow,
            };
            Err(mapped)
        },
    }
}

/// Finds by bisection over `[lo, hi]` the annual rate at which the emulated balance on
/// `as_of` reaches `target`, stopping once a probe is within `tol` of it or after
/// `max_iterations` halvings.
pub fn solve_rate(
    events: &Vec<CashFlowEvent>,
    as_of: i32,
    target: i64,
    lo: i64,
    hi: i64,
    tol: i64,
    max_iterations: u32,
) -> (r: Result<i64, AnalysisError>)
    requires
        rate_in_domain(lo as int),
        rate_in_domain(hi as int),
        lo <= hi,
        tol >= 0,
    ensures
        r is Ok ==> solution(events@, as_of as int, target as int, lo as int, hi as int, tol as int, max_iterations as nat)
            == Ok::<int, AnalysisError>(r->Ok_0 as int),
        r is Err ==> solution(events@, as_of as int, target as int, lo as int, hi as int, tol as int, max_iterations as nat)
            == Err::<int, AnalysisError>(r->Err_0),
{
    let ghost s = events@;
    let f_lo = emulate(events, lo, as_of)?;
    let f_hi = emulate(events, hi, as_of)?;
    if f_lo > target as i128 || f_hi < target as i128 {
        return Err(AnalysisError::InsufficientData);
    }
    let mut a: i64 = lo;
    let mut b: i64 = hi;
    let mut fa: i128 = f_lo;
    let mut fb: i128 = f_hi;
    let mut n: u32 = max_iterations;
    while n > 0 && b - a > 1
        invariant
            s == events@,
            ordered(s, as_of as int),
            emulation_fits(s, lo as int, as_of as int),
            emulation_fits(s, hi as int, as_of as int),
            emulated_balance(s, lo as int, as_of as int) <= target,
            emulated_balance(s, hi as int, as_of as int) >= target,
            lo <= a <= b <= hi,
            rate_in_domain(lo as int),
            rate_in_domain(hi as int),
            tol >= 0,
            fa == emulated_balance(s, a as int, as_of as int),
            fb == emulated_balance(s, b as int, as_of as int),
            crate::emulator::fits(fa as int),
            crate::emulator::fits(fb as int),
            bisect(s, as_of as int, target as int, tol as int, lo as int, hi as int, max_iterations as nat)
                == bisect(s, as_of as int, target as int, tol as int, a as int, b as int, n as nat),
            probes_fit(s, as_of as int, target as int, tol as int, lo as int, hi as int, max_iterations as nat)
                == probes_fit(s, as_of as int, target as int, tol as int, a as int, b as int, n as nat),
        decreases n,
    {
        let mid: i64 = a + (b - a) / 2;
        let fm = emulate(events, mid, as_of);
        match fm {
            Err(e) => {
                assert(!emulation_fits(s, mid as int, as_of as int));
                assert(!probes_fit(s, as_of as int, target as int, tol as int, a as int, b as int, n as nat));
                return Err(e);
            },
            Ok(fm) => {
                let diff: i128 = fm - target as i128;
                if -(tol as i128) <= diff && diff <= tol as i128 {
                    assert(probes_fit(s, as_of as int, target as int, tol as int, a as int, b as int, n as nat));
                    assert(bisect(s, as_of as int, target as int, tol as int, a as int, b as int, n as nat) == mid);
                    return Ok(mid);
                }
                if fm < target as i128 {
                    a = mid;
                    fa = fm;
                } else {
                    b = mid;
                    fb = fm;
                }
                n = n - 1;
            },
        }
    }
    if (target as i128) - fa <= fb - (target as i128) {
        Ok(a)
    } else {
        Ok(b)
    }
}


/// What bisection of a bracketing interval `[a, b]` settles on lies in it, and either brings
/// the balance within `tol` of the target or is the nearer end of a smaller bracket.
pub proof fn lemma_bisect_brackets(
    events: Seq<CashFlowEvent>,
    as_of: int,
    target: int,
    tol: int,
    a: int,
    b: int,
    n: nat,
)
    requires
        a <= b,
        emulated_balance(events, a, as_of) <= target <= emulated_balance(events, b, as_of),
    ensures
        ({
            let r = bisect(events, as_of, target, tol, a, b, n);
            &&& a <= r <= b
            &&& abs(emulated_balance(events, r, as_of) - target) <= tol || exists|x: int, y: int|
                a <= x <= y <= b && emulated_balance(events, x, as_of) <= target
                    <= emulated_balance(events, y, as_of) && r == #[trigger] nearer_end(
                    events,
                    as_of,
                    target,
                    x,
                    y,
                )
        }),
    decreases n,
{
    if n == 0 || b - a <= 1 {
        assert(nearer_end(events, as_of, target, a, b) == bisect(events, as_of, target, tol, a, b, n));
    } else {
        let mid = a + (b - a) / 2;
        let f = emulated_balance(events, mid, as_of);
        if abs(f - target) > tol {
            if f < target {
                lemma_bisect_brackets(events, as_of, target, tol, mid, b, (n - 1) as nat);
            } else {
                lemma_bisect_brackets(events, as_of, target, tol, a, mid, (n - 1) as nat);
            }
        }
    }
}

/// Fixed-point units per 1 of a currency rate (quote units per base unit).
pub const CONVERSION_SCALE: i64 = 1_000_000;

/// The kind of a cash-flow record.
#[derive(Clone, Copy, Debug, PartialEq, Eq)]
pub enum CashFlowKind {
    Deposit,
    Withdrawal,
    Fee,
    TaxWithheld,
    Interest,
    Dividend,
}

/// A dated, signed cash-flow record in its own currency.
#[derive(Clone, Debug)]
pub struct CashFlow {
    pub date: i32,
    pub amount: i64,
    pub currency: String,
    pub kind: CashFlowKind,
}

/// The value of an open position or a free cash balance, in its own currency.
#[derive(Clone, Debug)]
pub struct Holding {
    pub currency: String,
    pub amount: i64,
}

/// The outcome of an analysis: gross deposits, the current value of the portfolio and the
/// annual rate that the deposit emulation needs to reach that value.
#[derive(Clone, Copy, Debug, PartialEq, Eq)]
pub struct PerformanceResult {
    pub total_deposits: i128,
    pub current_assets: i64,
    /// Fixed-point, `RATE_SCALE` units per 1 (10% is `100_000`).
    pub annual_rate: i64,
}

/// `p / d` truncated toward zero.
pub open spec fn div_toward_zero(p: int, d: int) -> int {
    if p >= 0 {
        p / d
    } else {
        -((-p) / d)
    }
}

/// `amount` converted at `rate`.
pub open spec fn converted(amount: int, rate: int) -> int {
    div_toward_zero(amount * rate, CONVERSION_SCALE as int)
}

pub open spec fn fits_i64(x: int) -> bool {
    i64::MIN <= x <= i64::MAX
}

fn converted_wide(amount: i64, rate: i64) -> (r: i128)
    ensures
        r == converted(amount as int, rate as int),
        -0x4000_0000_0000_0000_0000_0000_0000_0000 <= r <= 0x4000_0000_0000_0000_0000_0000_0000_0000,
{
    let a: i128 = amount as i128;
    let b: i128 = rate as i128;
    assert(-0x4000_0000_0000_0000_0000_0000_0000_0000 <= a * b <= 0x4000_0000_0000_0000_0000_0000_0000_0000)
        by (nonlinear_arith)
        requires
            -0x8000_0000_0000_0000 <= a < 0x8000_0000_0000_0000,
            -0x8000_0000_0000_0000 <= b < 0x8000_0000_0000_0000,
    ;
    let p: i128 = a * b;
    let ghost m: int = if p >= 0 { p as int } else { -p };
    assert(0 <= m / (CONVERSION_SCALE as int) <= m) by (nonlinear_arith)
        requires
            m >= 0,
            CONVERSION_SCALE > 0,
    ;
    if p >= 0 {
        p / (CONVERSION_SCALE as i128)
    } else {
        -((-p) / (CONVERSION_SCALE as i128))
    }
}

/// Converts `amount` at `rate`, or fails where the result does not fit.
pub fn convert_amount(amount: i64, rate: i64) -> (r: Result<i64, AnalysisError>)
    ensures
        r is Ok <==> fits_i64(converted(amount as int, rate as int)),
        r is Ok ==> r->Ok_0 == converted(amount as int, rate as int),
        r is Err ==> r->Err_0 == AnalysisError::Overflow,
{
    let q: i128 = converted_wide(amount, rate);
    if q < i64::MIN as i128 || q > i64::MAX as i128 {
        Err(AnalysisError::Overflow)
    } else {
        Ok(q as i64)
    }
}

pub open spec fn is_capital(kind: CashFlowKind) -> bool {
    kind == CashFlowKind::Deposit || kind == CashFlowKind::Withdrawal
}

/// The investor-initiated deposits and withdrawals among `flows`, in order.
pub open spec fn capital_flows_of(flows: Seq<CashFlow>) -> Seq<CashFlow> {
    flows.filter(|f: CashFlow| is_capital(f.kind))
}

/// The deposits and withdrawals among `flows`, in order.
pub fn capital_flows(flows: &Vec<CashFlow>) -> (r: Vec<CashFlow>)
    ensures
        r@.len() == capital_flows_of(flows@).len(),
        forall|i: int|
            0 <= i < r@.len() ==> {
                let (a, b) = (#[trigger] r@[i], capital_flows_of(flows@)[i]);
                a.date == b.date && a.amount == b.amount && a.currency@ == b.currency@ && a.kind
                    == b.kind
            },
{
    let mut out: Vec<CashFlow> = Vec::new();
    let mut i: usize = 0;
    while i < flows.len()
        invariant
            0 <= i <= flows.len(),
            out@.len() == capital_flows_of(flows@.take(i as int)).len(),
            forall|k: int|
                0 <= k < out@.len() ==> {
                    let (a, b) = (#[trigger] out@[k], capital_flows_of(flows@.take(i as int))[k]);
                    a.date == b.date && a.amount == b.amount && a.currency@ == b.currency@ && a.kind
                        == b.kind
                },
        decreases flows.len() - i,
    {
        let f = &flows[i];
        proof {
            reveal(Seq::filter);
            assert(flows@.take(i + 1).drop_last() =~= flows@.take(i as int));
        }
        if matches!(f.kind, CashFlowKind::Deposit | CashFlowKind::Withdrawal) {
            out.push(CashFlow { date: f.date, amount: f.amount, currency: f.currency.clone(), kind: f.kind });
        }
        i = i + 1;
    }
    assert(flows@.take(flows.len() as int) =~= flows@);
    out
}

/// The emulator's events for `flows` converted at `rates`, or `None` where an amount does
/// not fit.
pub open spec fn converted_events(flows: Seq<CashFlow>, rates: Seq<i64>) -> Option<Seq<CashFlowEvent>>
    decreases flows.len(),
{
    if flows.len() == 0 {
        Some(Seq::empty())
    } else {
        let last = flows.len() - 1;
        let amount = converted(flows[last].amount as int, rates[last] as int);
        match converted_events(flows.drop_last(), rates) {
            Some(evs) => if fits_i64(amount) {
                Some(evs.push(CashFlowEvent { date: flows[last].date, amount: amount as i64 }))
            } else {
                None
            },
            None => None,
        }
    }
}

/// Converts each of `flows` at the rate beside it into an event of the emulator.
pub fn convert_events(flows: &Vec<CashFlow>, rates: &Vec<i64>) -> (r: Result<Vec<CashFlowEvent>, AnalysisError>)
    requires
        rates.len() == flows.len(),
    ensures
        r is Ok <==> converted_events(flows@, rates@) is Some,
        r is Ok ==> r->Ok_0@ == converted_events(flows@, rates@)->Some_0,
        r is Err ==> r->Err_0 == AnalysisError::Overflow,
{
    let mut out: Vec<CashFlowEvent> = Vec::new();
    let mut i: usize = 0;
    while i < flows.len()
        invariant
            0 <= i <= flows.len(),
            rates.len() == flows.len(),
            converted_events(flows@.take(i as int), rates@) == Some(out@),
        decreases flows.len() - i,
    {
        assert(flows@.take(i + 1).drop_last() =~= flows@.take(i as int));
        assert(flows@.take(i + 1)[i as int] == flows@[i as int]);
        let amount = convert_amount(flows[i].amount, rates[i]);
        match amount {
            Err(e) => {
                proof {
                    lemma_converted_prefix(flows@, rates@, (i + 1) as nat, flows.len() as nat);
                    assert(flows@.take(flows.len() as int) =~= flows@);
                }
                return Err(e);
            },
            Ok(a) => {
                out.push(CashFlowEvent { date: flows[i].date, amount: a });
            },
        }
        i = i + 1;
    }
    assert(flows@.take(flows.len() as int) =~= flows@);
    Ok(out)
}

proof fn lemma_converted_prefix(flows: Seq<CashFlow>, rates: Seq<i64>, j: nat, k: nat)
    requires
        j <= k <= flows.len(),
        converted_events(flows.take(j as int), rates) is None,
    ensures
        converted_events(flows.take(k as int), rates) is None,
    decreases k - j,
{
    if j < k {
        lemma_converted_prefix(flows, rates, j, (k - 1) as nat);
        assert(flows.take(k as int).drop_last() =~= flows.take(k - 1));
    }
}

/// The sum of `holdings` converted at `rates`.
pub open spec fn converted_total(holdings: Seq<Holding>, rates: Seq<i64>) -> int
    decreases holdings.len(),
{
    if holdings.len() == 0 {
        0
    } else {
        let last = holdings.len() - 1;
        converted_total(holdings.drop_last(), rates) + converted(
            holdings[last].amount as int,
            rates[last] as int,
        )
    }
}

/// Every partial sum of `converted_total` fits.
pub open spec fn total_fits(holdings: Seq<Holding>, rates: Seq<i64>) -> bool {
    forall|k: int| 0 <= k <= holdings.len() ==> fits_i64(#[trigger] converted_total(holdings.take(k), rates))
}

/// Sums `holdings` converted at the rate beside each.
pub fn convert_holdings(holdings: &Vec<Holding>, rates: &Vec<i64>) -> (r: Result<i64, AnalysisError>)
    requires
        rates.len() == holdings.len(),
    ensures
        r is Ok <==> total_fits(holdings@, rates@),
        r is Ok ==> r->Ok_0 == converted_total(holdings@, rates@),
        r is Err ==> r->Err_0 == AnalysisError::Overflow,
{
    let mut total: i64 = 0;
    let mut i: usize = 0;
    assert(holdings@.take(0) =~= Seq::<Holding>::empty());
    while i < holdings.len()
        invariant
            0 <= i <= holdings.len(),
            rates.len() == holdings.len(),
            total == converted_total(holdings@.take(i as int), rates@),
            forall|k: int| 0 <= k <= i ==> fits_i64(#[trigger] converted_total(holdings@.take(k), rates@)),
        decreases holdings.len() - i,
    {
        assert(holdings@.take(i + 1).drop_last() =~= holdings@.take(i as int));
        let q: i128 = converted_wide(holdings[i].amount, rates[i]);
        let next: i128 = total as i128 + q;
        if next < i64::MIN as i128 || next > i64::MAX as i128 {
            assert(!fits_i64(converted_total(holdings@.take(i + 1), rates@)));
            return Err(AnalysisError::Overflow);
        }
        total = next as i64;
        i = i + 1;
    }
    assert(holdings@.take(holdings.len() as int) =~= holdings@);
    Ok(total)
}


/// The sum of the positive amounts among `events`; withdrawals do not reduce it.
pub open spec fn gross_deposits(events: Seq<CashFlowEvent>) -> int
    decreases events.len(),
{
    if events.len() == 0 {
        0
    } else {
        let a = events.last().amount as int;
        gross_deposits(events.drop_last()) + if a > 0 {
            a
        } else {
            0
        }
    }
}

pub open spec fn result_view(r: PerformanceResult) -> (int, int, int) {
    (r.total_deposits as int, r.current_assets as int, r.annual_rate as int)
}

/// What `analyse_events` returns: `(total_deposits, current_assets, annual_rate)`.
///
/// Where no time passes between the first event and `as_of` the rate is `0`.
pub open spec fn performance(events: Seq<CashFlowEvent>, assets: int, as_of: int) -> Result<
    (int, int, int),
    AnalysisError,
> {
    if !ordered(events, as_of) {
        Err(AnalysisError::Ordering)
    } else if events.len() == 0 {
        Err(AnalysisError::InsufficientData)
    } else if events[0].date == as_of {
        Ok((gross_deposits(events), assets, 0))
    } else {
        match solution(
            events,
            as_of,
            assets,
            MIN_SEARCH_RATE as int,
            MAX_SEARCH_RATE as int,
            BALANCE_TOLERANCE as int,
            MAX_ITERATIONS as nat,
        ) {
            Ok(rate) => Ok((gross_deposits(events), assets, rate)),
            Err(e) => Err(e),
        }
    }
}

fn sum_deposits(events: &Vec<CashFlowEvent>) -> (r: i128)
    ensures
        r == gross_deposits(events@),
{
    let mut total: i128 = 0;
    let mut i: usize = 0;
    while i < events.len()
        invariant
            0 <= i <= events.len(),
            total == gross_deposits(events@.take(i as int)),
            0 <= total <= i * 0x7fff_ffff_ffff_ffff,
        decreases events.len() - i,
    {
        assert(events@.take(i + 1).drop_last() =~= events@.take(i as int));
        assert(i * 0x7fff_ffff_ffff_ffff + 0x7fff_ffff_ffff_ffff < 0x7fff_ffff_ffff_ffff_ffff_ffff_ffff_ffff)
            by (nonlinear_arith)
            requires
                i < 0x1_0000_0000_0000_0000,
        ;
        let a = events[i].amount;
        if a > 0 {
            total = total + a as i128;
        }
        i = i + 1;
    }
    assert(events@.take(events.len() as int) =~= events@);
    total
}

/// Analyses `events`, already in the analysis currency, against the portfolio's value
/// `current_assets` on day `as_of`.
pub fn analyse_events(events: &Vec<CashFlowEvent>, current_assets: i64, as_of: i32) -> (r: Result<PerformanceResult, AnalysisError>)
    ensures
        r is Ok ==> performance(events@, current_assets as int, as_of as int) == Ok::<
            (int, int, int),
            AnalysisError,
        >(result_view(r->Ok_0)),
        r is Err ==> performance(events@, current_assets as int, as_of as int) == Err::<
            (int, int, int),
            AnalysisError,
        >(r->Err_0),
{
    if !crate::emulator::is_ordered(events, as_of) {
        return Err(AnalysisError::Ordering);
    }
    if events.len() == 0 {
        return Err(AnalysisError::InsufficientData);
    }
    let total_deposits = sum_deposits(events);
    if events[0].date == as_of {
        return Ok(PerformanceResult { total_deposits, current_assets, annual_rate: 0 });
    }
    let rate = solve_rate(
        events,
        as_of,
        current_assets,
        MIN_SEARCH_RATE,
        MAX_SEARCH_RATE,
        BALANCE_TOLERANCE,
        MAX_ITERATIONS,
    )?;
    Ok(PerformanceResult { total_deposits, current_assets, annual_rate: rate })
}

/// What `analyse_with_rates` returns.
pub open spec fn analysis(
    flows: Seq<CashFlow>,
    flow_rates: Seq<i64>,
    holdings: Seq<Holding>,
    holding_rates: Seq<i64>,
    as_of: int,
) -> Result<(int, int, int), AnalysisError> {
    match converted_events(flows, flow_rates) {
        None => Err(AnalysisError::Overflow),
        Some(events) => if !total_fits(holdings, holding_rates) {
            Err(AnalysisError::Overflow)
        } else {
            performance(events, converted_total(holdings, holding_rates), as_of)
        },
    }
}

/// Analyses the deposits and withdrawals `flows`, each converted at the historical rate
/// beside it, against `holdings`, each converted at the current rate beside it.
pub fn analyse_with_rates(
    flows: &Vec<CashFlow>,
    flow_rates: &Vec<i64>,
    holdings: &Vec<Holding>,
    holding_rates: &Vec<i64>,
    as_of: i32,
) -> (r: Result<PerformanceResult, AnalysisError>)
    requires
        flow_rates.len() == flows.len(),
        holding_rates.len() == holdings.len(),
    ensures
        r is Ok ==> analysis(flows@, flow_rates@, holdings@, holding_rates@, as_of as int) == Ok::<
            (int, int, int),
            AnalysisError,
        >(result_view(r->Ok_0)),
        r is Err ==> analysis(flows@, flow_rates@, holdings@, holding_rates@, as_of as int) == Err::<
            (int, int, int),
            AnalysisError,
        >(r->Err_0),
{
    let events = convert_events(flows, flow_rates)?;
    let assets = convert_holdings(holdings, holding_rates)?;
    analyse_events(&events, assets, as_of)
}

/// `flows` taken as they are, without conversion.
pub open spec fn native_events(flows: Seq<CashFlow>) -> Seq<CashFlowEvent> {
    flows.map_values(|f: CashFlow| CashFlowEvent { date: f.date, amount: f.amount })
}

/// The sum of `holdings` taken as they are.
pub open spec fn native_total(holdings: Seq<Holding>) -> int
    decreases holdings.len(),
{
    if holdings.len() == 0 {
        0
    } else {
        native_total(holdings.drop_last()) + holdings.last().amount
    }
}

pub open spec fn all_identity(rates: Seq<i64>) -> bool {
    forall|i: int| 0 <= i < rates.len() ==> #[trigger] rates[i] == CONVERSION_SCALE
}

proof fn lemma_identity_rate(a: int)
    ensures
        converted(a, CONVERSION_SCALE as int) == a,
{
    if a >= 0 {
        vstd::arithmetic::div_mod::lemma_div_by_multiple(a, CONVERSION_SCALE as int);
    } else {
        vstd::arithmetic::div_mod::lemma_div_by_multiple(-a, CONVERSION_SCALE as int);
        assert((-a) * CONVERSION_SCALE == -(a * CONVERSION_SCALE)) by (nonlinear_arith);
    }
}

proof fn lemma_identity_events(flows: Seq<CashFlow>, rates: Seq<i64>)
    requires
        rates.len() >= flows.len(),
        all_identity(rates),
    ensures
        converted_events(flows, rates) == Some(native_events(flows)),
    decreases flows.len(),
{
    if flows.len() > 0 {
        let last = flows.len() - 1;
        lemma_identity_events(flows.drop_last(), rates);
        lemma_identity_rate(flows[last].amount as int);
        assert(native_events(flows.drop_last()).push(
            CashFlowEvent { date: flows[last].date, amount: flows[last].amount },
        ) =~= native_events(flows));
    }
}

proof fn lemma_identity_total(holdings: Seq<Holding>, rates: Seq<i64>)
    requires
        rates.len() >= holdings.len(),
        all_identity(rates),
    ensures
        converted_total(holdings, rates) == native_total(holdings),
    decreases holdings.len(),
{
    if holdings.len() > 0 {
        lemma_identity_total(holdings.drop_last(), rates);
        lemma_identity_rate(holdings.last().amount as int);
    }
}

/// Analysing through identity rates gives exactly what analysing the native amounts
/// directly gives.
pub proof fn lemma_identity_conversion(
    flows: Seq<CashFlow>,
    flow_rates: Seq<i64>,
    holdings: Seq<Holding>,
    holding_rates: Seq<i64>,
    as_of: int,
)
    requires
        flow_rates.len() == flows.len(),
        holding_rates.len() == holdings.len(),
        all_identity(flow_rates),
        all_identity(holding_rates),
    ensures
        analysis(flows, flow_rates, holdings, holding_rates, as_of) == (if total_fits(holdings, holding_rates) {
            performance(native_events(flows), native_total(holdings), as_of)
        } else {
            Err(AnalysisError::Overflow)
        }),
{
    lemma_identity_events(flows, flow_rates);
    lemma_identity_total(holdings, holding_rates);
}


/// The converter had no quote for a currency pair.
#[derive(Clone, Copy, Debug, PartialEq, Eq)]
pub struct RateUnavailable;

/// Quotes for currency pairs, as fixed-point rates with `CONVERSION_SCALE` units per 1.
pub trait CurrencyConverter {
    /// The rate from `base` to `quote` on day `date`.
    fn historical_rate(&self, base: &String, quote: &String, date: i32) -> Result<i64, RateUnavailable>;

    /// The rate from `base` to `quote` now.
    fn real_time_rate(&self, base: &String, quote: &String) -> Result<i64, RateUnavailable>;
}

/// A converter that knows only that a currency is worth itself.
pub struct IdentityConverter;

impl CurrencyConverter for IdentityConverter {
    fn historical_rate(&self, base: &String, quote: &String, date: i32) -> Result<i64, RateUnavailable> {
        if *base == *quote {
            Ok(CONVERSION_SCALE)
        } else {
            Err(RateUnavailable)
        }
    }

    fn real_time_rate(&self, base: &String, quote: &String) -> Result<i64, RateUnavailable> {
        if *base == *quote {
            Ok(CONVERSION_SCALE)
        } else {
            Err(RateUnavailable)
        }
    }
}

/// What the analyser reads of a statement: its cash flows, the value of its open positions
/// and free cash, and its last day.
pub struct Portfolio {
    pub cash_flows: Vec<CashFlow>,
    pub holdings: Vec<Holding>,
    pub end: i32,
}

/// `a` and `b` agree on every date and amount.
pub open spec fn same_amounts(a: Seq<CashFlow>, b: Seq<CashFlow>) -> bool {
    &&& a.len() == b.len()
    &&& forall|i: int| 0 <= i < a.len() ==> (#[trigger] a[i]).date == b[i].date && a[i].amount == b[i].amount
}

proof fn lemma_same_amounts_convert(a: Seq<CashFlow>, b: Seq<CashFlow>, rates: Seq<i64>)
    requires
        same_amounts(a, b),
    ensures
        converted_events(a, rates) == converted_events(b, rates),
    decreases a.len(),
{
    if a.len() > 0 {
        lemma_same_amounts_convert(a.drop_last(), b.drop_last(), rates);
    }
}

/// Analyses `portfolio` in `currency`: each deposit and withdrawal is converted at the
/// converter's rate on its day, each holding at the current rate.
pub fn analyse<C: CurrencyConverter>(portfolio: &Portfolio, currency: &String, converter: &C) -> (r: Result<PerformanceResult, AnalysisError>)
    ensures
        r is Ok ==> exists|fr: Seq<i64>, hr: Seq<i64>|
            fr.len() == capital_flows_of(portfolio.cash_flows@).len() && hr.len()
                == portfolio.holdings@.len() && #[trigger] analysis(
                capital_flows_of(portfolio.cash_flows@),
                fr,
                portfolio.holdings@,
                hr,
                portfolio.end as int,
            ) == Ok::<(int, int, int), AnalysisError>(result_view(r->Ok_0)),
        r is Err ==> r->Err_0 == AnalysisError::RateUnavailable || exists|fr: Seq<i64>, hr: Seq<i64>|
            fr.len() == capital_flows_of(portfolio.cash_flows@).len() && hr.len()
                == portfolio.holdings@.len() && #[trigger] analysis(
                capital_flows_of(portfolio.cash_flows@),
                fr,
                portfolio.holdings@,
                hr,
                portfolio.end as int,
            ) == Err::<(int, int, int), AnalysisError>(r->Err_0),
{
    let flows = capital_flows(&portfolio.cash_flows);
    let mut flow_rates: Vec<i64> = Vec::new();
    let mut i: usize = 0;
    while i < flows.len()
        invariant
            0 <= i <= flows.len(),
            flow_rates.len() == i,
        decreases flows.len() - i,
    {
        match converter.historical_rate(&flows[i].currency, currency, flows[i].date) {
            Ok(rate) => flow_rates.push(rate),
            Err(_) => {
                return Err(AnalysisError::RateUnavailable);
            },
        }
        i = i + 1;
    }
    let mut holding_rates: Vec<i64> = Vec::new();
    let mut k: usize = 0;
    while k < portfolio.holdings.len()
        invariant
            0 <= k <= portfolio.holdings.len(),
            holding_rates.len() == k,
        decreases portfolio.holdings.len() - k,
    {
        match converter.real_time_rate(&portfolio.holdings[k].currency, currency) {
            Ok(rate) => holding_rates.push(rate),
            Err(_) => {
                return Err(AnalysisError::RateUnavailable);
            },
        }
        k = k + 1;
    }
    let r = analyse_with_rates(&flows, &flow_rates, &portfolio.holdings, &holding_rates, portfolio.end);
    proof {
        assert(same_amounts(flows@, capital_flows_of(portfolio.cash_flows@)));
        lemma_same_amounts_convert(flows@, capital_flows_of(portfolio.cash_flows@), flow_rates@);
        assert(analysis(flows@, flow_rates@, portfolio.holdings@, holding_rates@, portfolio.end as int)
            == analysis(capital_flows_of(portfolio.cash_flows@), flow_rates@, portfolio.holdings@, holding_rates@, portfolio.end as int));
    }
    r
}

} // verus!
