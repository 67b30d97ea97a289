use investments::emulator::{simulate, CashFlowEvent, EmulationError, MAX_RATE, RATE_SCALE};
use investments::performance::{
    analyse_events, analyse_with_rates, capital_flows, convert_amount, convert_events,
    convert_holdings, solve_rate, AnalysisError, CashFlow, CashFlowKind, Holding,
    CONVERSION_SCALE,
};

fn ev(date: i32, amount: i64) -> CashFlowEvent {
    CashFlowEvent { date, amount }
}

#[test]
fn empty_timeline_is_zero_at_any_rate() {
    for rate in [-RATE_SCALE, -500_000, 0, 100_000, MAX_RATE] {
        assert_eq!(simulate(&Vec::new(), rate, 0), Ok(0));
        assert_eq!(simulate(&Vec::new(), rate, 10_000), Ok(0));
    }
}

#[test]
fn balance_rises_with_rate() {
    let events = vec![ev(0, 100_000), ev(100, 50_000), ev(400, 25_000)];
    let mut last = i128::MIN;
    for rate in [-RATE_SCALE, -990_000, -100_000, 0, 1, 50_000, 100_000, 1_000_000, MAX_RATE] {
        let b = simulate(&events, rate, 1000).unwrap();
        assert!(b >= last);
        last = b;
    }
}

#[test]
fn one_year_of_ten_percent() {
    // 1461 days are four years of 365.25 days.
    assert_eq!(simulate(&vec![ev(0, 100_000)], 100_000, 1461), Ok(146_410));
    assert_eq!(simulate(&vec![ev(0, 100_000)], 100_000, 365), Ok(109_993));
    assert_eq!(simulate(&vec![ev(0, 100_000)], 0, 365), Ok(100_000));
}

#[test]
fn same_day_applies_no_growth() {
    assert_eq!(simulate(&vec![ev(5, 100), ev(5, 200)], 100_000, 5), Ok(300));
}

#[test]
fn negative_balance_is_allowed() {
    assert_eq!(simulate(&vec![ev(0, 100), ev(0, -300)], 0, 10), Ok(-200));
}

#[test]
fn unordered_events_are_refused() {
    assert_eq!(simulate(&vec![ev(10, 100), ev(5, 100)], 0, 20), Err(EmulationError::Ordering));
    assert_eq!(simulate(&vec![ev(10, 100)], 0, 9), Err(EmulationError::Ordering));
}

#[test]
fn huge_growth_overflows() {
    assert_eq!(simulate(&vec![ev(0, i64::MAX)], MAX_RATE, 40_000), Err(EmulationError::Overflow));
}

#[test]
fn zero_elapsed_time_gives_zero_rate() {
    let r = analyse_events(&vec![ev(0, 100_000)], 100_000, 0).unwrap();
    assert_eq!(r.annual_rate, 0);
    assert_eq!(r.total_deposits, 100_000);
    assert_eq!(r.current_assets, 100_000);
}

#[test]
fn ten_percent_over_a_year() {
    let r = analyse_events(&vec![ev(0, 100_000)], 110_000, 365).unwrap();
    // Within 0.01% of 10%: one unit is 0.0001%.
    assert!((r.annual_rate - 100_000).abs() <= 100, "rate {}", r.annual_rate);
    assert_eq!(r.total_deposits, 100_000);
}

#[test]
fn withdrawal_keeps_gross_deposits() {
    let events = vec![ev(0, 100_000), ev(180, -50_000)];
    let a = analyse_events(&events, 60_000, 365).unwrap();
    let b = analyse_events(&events, 60_000, 365).unwrap();
    assert_eq!(a, b);
    assert_eq!(a.total_deposits, 100_000);
    assert!(a.annual_rate > 120_000 && a.annual_rate < 135_000, "rate {}", a.annual_rate);
}

#[test]
fn no_bracket_is_insufficient_data() {
    assert_eq!(analyse_events(&vec![ev(0, 100)], 1_000_000, 10), Err(AnalysisError::InsufficientData));
    assert_eq!(analyse_events(&Vec::new(), 0, 10), Err(AnalysisError::InsufficientData));
}

#[test]
fn analyse_refuses_unordered_events() {
    assert_eq!(analyse_events(&vec![ev(3, 1), ev(1, 1)], 2, 10), Err(AnalysisError::Ordering));
}

#[test]
fn solver_returns_nearer_end_at_resolution() {
    // The balance does not depend on the rate, so every probe is within tolerance.
    assert_eq!(solve_rate(&vec![ev(0, 100)], 0, 100, 0, 10, 0, 64), Ok(5));
    assert_eq!(solve_rate(&vec![ev(0, 100)], 0, 100, 3, 3, 0, 64), Ok(3));
}

#[test]
fn convert_amount_scales() {
    assert_eq!(convert_amount(1_000, 2 * CONVERSION_SCALE), Ok(2_000));
    assert_eq!(convert_amount(-1_000, CONVERSION_SCALE / 2), Ok(-500));
    assert_eq!(convert_amount(-3, CONVERSION_SCALE / 2), Ok(-1));
    assert_eq!(convert_amount(i64::MAX, 2 * CONVERSION_SCALE), Err(AnalysisError::Overflow));
}

fn flow(date: i32, amount: i64, kind: CashFlowKind) -> CashFlow {
    CashFlow { date, amount, currency: "USD".to_string(), kind }
}

#[test]
fn capital_flows_keep_deposits_and_withdrawals() {
    let flows = vec![
        flow(0, 100, CashFlowKind::Deposit),
        flow(1, -2, CashFlowKind::Fee),
        flow(2, 5, CashFlowKind::Dividend),
        flow(3, -50, CashFlowKind::Withdrawal),
        flow(4, 1, CashFlowKind::Interest),
        flow(5, -1, CashFlowKind::TaxWithheld),
    ];
    let c = capital_flows(&flows);
    assert_eq!(c.len(), 2);
    assert_eq!((c[0].date, c[0].amount), (0, 100));
    assert_eq!((c[1].date, c[1].amount), (3, -50));
}

#[test]
fn identity_conversion_matches_native_analysis() {
    let flows = vec![flow(0, 100_000, CashFlowKind::Deposit), flow(180, -50_000, CashFlowKind::Withdrawal)];
    let holdings = vec![
        Holding { currency: "USD".to_string(), amount: 40_000 },
        Holding { currency: "USD".to_string(), amount: 20_000 },
    ];
    let ids = vec![CONVERSION_SCALE; 2];
    let converted = analyse_with_rates(&flows, &ids, &holdings, &ids, 365).unwrap();
    let native = analyse_events(&vec![ev(0, 100_000), ev(180, -50_000)], 60_000, 365).unwrap();
    assert_eq!(converted, native);
}

#[test]
fn conversion_uses_the_given_rates() {
    let flows = vec![flow(0, 1_000, CashFlowKind::Deposit)];
    let events = convert_events(&flows, &vec![75 * CONVERSION_SCALE]).unwrap();
    assert_eq!(events, vec![ev(0, 75_000)]);
    let holdings = vec![Holding { currency: "USD".to_string(), amount: 10 }];
    assert_eq!(convert_holdings(&holdings, &vec![3 * CONVERSION_SCALE]), Ok(30));
    assert_eq!(
        convert_holdings(&vec![Holding { currency: "X".to_string(), amount: i64::MAX }; 2], &vec![CONVERSION_SCALE; 2]),
        Err(AnalysisError::Overflow)
    );
}
