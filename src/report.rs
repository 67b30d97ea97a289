//! The one-line summary of an analysis.
use vstd::prelude::*;
use vstd::string::StringExecFns;
use separator::Separatable;
use crate::performance::PerformanceResult;

verus! {

/// Minor currency units per whole unit.
pub const MINOR_UNITS: i128 = 100;

/// Rate units per hundredth of a percent.
pub const RATE_UNITS_PER_BASIS_POINT: i64 = 100;

/// `n` written in decimal with thousands separators.
pub uninterp spec fn separated_of(n: int) -> Seq<char>;

/// Relies on `separator::Separatable::separated_string` for `i128`: the result depends on
/// the number alone.
#[verifier::external_body]
fn separated(n: i128) -> (r: String)
    ensures
        r@ == separated_of(n as int),
{
    n.separated_string()
}

/// `x / d` rounded to the nearest integer, halves away from zero.
pub open spec fn round_div(x: int, d: int) -> int {
    if x >= 0 {
        (x + d / 2) / d
    } else {
        -((-x + d / 2) / d)
    }
}

pub open spec fn digit(d: int) -> Seq<char> {
    seq![(('0' as int) + d) as char]
}

/// Two decimal digits of `n < 100`.
pub open spec fn two_digits(n: int) -> Seq<char> {
    digit(n / 10) + digit(n % 10)
}

/// The rate in percent, with two decimals.
pub open spec fn percent_text(rate: int) -> Seq<char> {
    let bp = round_div(rate, RATE_UNITS_PER_BASIS_POINT as int);
    let m = if bp < 0 {
        -bp
    } else {
        bp
    };
    (if bp < 0 {
        "-"@
    } else {
        Seq::empty()
    }) + separated_of(m / 100) + "."@ + two_digits(m % 100)
}

/// `* USD: 1,000 + 100 = 1,100 (10.00%)`: deposits, profit and current assets in whole
/// units, and the annual rate.
pub open spec fn summary(currency: Seq<char>, r: PerformanceResult) -> Seq<char> {
    let deposits = round_div(r.total_deposits as int, MINOR_UNITS as int);
    let assets = round_div(r.current_assets as int, MINOR_UNITS as int);
    let profit = assets - deposits;
    "* "@ + currency + ": "@ + separated_of(deposits) + (if profit < 0 {
        " - "@
    } else {
        " + "@
    }) + separated_of(if profit < 0 {
        -profit
    } else {
        profit
    }) + " = "@ + separated_of(assets) + " ("@ + percent_text(r.annual_rate as int) + "%)"@
}

/// `m / 100` rounded, halves up.
fn round_magnitude(m: u128) -> (r: u128)
    ensures
        r == (m + 50) / 100,
        r <= m / 100 + 1,
{
    let q: u128 = m / 100;
    let rem: u128 = m % 100;
    proof {
        vstd::arithmetic::div_mod::lemma_fundamental_div_mod(m as int, 100);
        if rem >= 50 {
            vstd::arithmetic::div_mod::lemma_fundamental_div_mod_converse(m + 50, 100, q + 1, rem - 50);
        } else {
            vstd::arithmetic::div_mod::lemma_fundamental_div_mod_converse(m + 50, 100, q as int, rem + 50);
        }
    }
    if rem >= 50 {
        q + 1
    } else {
        q
    }
}

fn round_minor(x: i128) -> (r: i128)
    ensures
        r == round_div(x as int, MINOR_UNITS as int),
        -0x2000_0000_0000_0000_0000_0000_0000_0000 <= r <= 0x2000_0000_0000_0000_0000_0000_0000_0000,
{
    let m: u128 = if x >= 0 { x as u128 } else { (-(x + 1)) as u128 + 1 };
    proof {
        vstd::arithmetic::div_mod::lemma_div_is_ordered(m as int, 0x8000_0000_0000_0000_0000_0000_0000_0000, 100);
    }
    let q = round_magnitude(m);
    if x >= 0 {
        q as i128
    } else {
        -(q as i128)
    }
}

fn push_digit(s: &mut String, d: i64)
    requires
        0 <= d < 10,
    ensures
        final(s)@ == old(s)@ + digit(d as int),
{
    let t: &str = if d == 0 {
        "0"
    } else if d == 1 {
        "1"
    } else if d == 2 {
        "2"
    } else if d == 3 {
        "3"
    } else if d == 4 {
        "4"
    } else if d == 5 {
        "5"
    } else if d == 6 {
        "6"
    } else if d == 7 {
        "7"
    } else if d == 8 {
        "8"
    } else {
        "9"
    };
    proof {
        reveal_strlit("0");
        reveal_strlit("1");
        reveal_strlit("2");
        reveal_strlit("3");
        reveal_strlit("4");
        reveal_strlit("5");
        reveal_strlit("6");
        reveal_strlit("7");
        reveal_strlit("8");
        reveal_strlit("9");
    }
    assert(t@ =~= digit(d as int));
    s.append(t);
}

fn append_percent(s: &mut String, rate: i64)
    ensures
        final(s)@ == old(s)@ + percent_text(rate as int),
{
    let ghost start = s@;
    let x: i128 = rate as i128;
    let half: i128 = (RATE_UNITS_PER_BASIS_POINT / 2) as i128;
    let unit: i128 = RATE_UNITS_PER_BASIS_POINT as i128;
    let bp: i128 = if x >= 0 { (x + half) / unit } else { -((-x + half) / unit) };
    assert(bp == round_div(rate as int, RATE_UNITS_PER_BASIS_POINT as int));
    let m: i128 = if bp < 0 { -bp } else { bp };
    if bp < 0 {
        s.append("-");
    }
    proof {
        reveal_strlit("-");
    }
    let whole_text = separated(m / 100);
    s.append(whole_text.as_str());
    s.append(".");
    push_digit(s, ((m % 100) / 10) as i64);
    push_digit(s, (m % 10) as i64);
    assert((m % 100) / 10 == (m % 100) / 10 && m % 10 == (m % 100) % 10) by (nonlinear_arith)
        requires
            m >= 0,
    ;
    assert(s@ =~= start + percent_text(rate as int));
}

/// The summary line of `r` in `currency`.
pub fn performance_line(currency: &String, r: &PerformanceResult) -> (s: String)
    ensures
        s@ == summary(currency@, *r),
{
    let deposits = round_minor(r.total_deposits);
    let assets = round_minor(r.current_assets as i128);
    let profit: i128 = assets - deposits;
    let mut s = String::from_str("* ");
    s.append(currency.as_str());
    s.append(": ");
    let dep_text = separated(deposits);
    s.append(dep_text.as_str());
    let ghost head = s@;
    assert(head == "* "@ + currency@ + ": "@ + separated_of(deposits as int));
    if profit < 0 {
        s.append(" - ");
    } else {
        s.append(" + ");
    }
    let profit_text = separated(if profit < 0 { -profit } else { profit });
    s.append(profit_text.as_str());
    s.append(" = ");
    let assets_text = separated(assets);
    s.append(assets_text.as_str());
    s.append(" (");
    append_percent(&mut s, r.annual_rate);
    s.append("%)");
    s
}

} // verus!
