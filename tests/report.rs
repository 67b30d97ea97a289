use investments::performance::PerformanceResult;
use investments::report::performance_line;

#[test]
fn summary_line_separates_thousands() {
    let r = PerformanceResult { total_deposits: 123_456_700, current_assets: 135_800_000, annual_rate: 100_068 };
    assert_eq!(performance_line(&"USD".to_string(), &r), "* USD: 1,234,567 + 123,433 = 1,358,000 (10.01%)");
}

#[test]
fn summary_line_shows_losses() {
    let r = PerformanceResult { total_deposits: 100_000, current_assets: 95_050, annual_rate: -5_049 };
    assert_eq!(performance_line(&"RUB".to_string(), &r), "* RUB: 1,000 - 49 = 951 (-0.50%)");
}
