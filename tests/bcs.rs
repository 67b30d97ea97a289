use investments::bcs::StatementReader;
use investments::statement::StatementError;

fn row(cells: &[&str]) -> Vec<String> {
    cells.iter().map(|c| c.to_string()).collect()
}

fn bcs_document() -> Vec<Vec<String>> {
    vec![
        row(&["Период:", "с 01.01.2020 по 31.12.2020"]),
        row(&["1. Движение денежных средств"]),
        row(&["1.1. Движение денежных средств по совершенным сделкам:"]),
        row(&["1.1.1. Движение денежных средств по совершенным сделкам (иным операциям) с ценными бумагами, по срочным сделкам, а также сделкам с иностранной валютой:"]),
        row(&["Остаток денежных средств на начало периода (Рубль):", "0"]),
        row(&["Остаток денежных средств на конец периода (Рубль):", "150"]),
        row(&["Рубль"]),
        row(&["10.01.2020", "Приход ДС", "1000"]),
        row(&["11.01.2020", "Покупка", "-850"]),
        row(&["2.1. Сделки:"]),
        row(&["Пай"]),
        row(&["11.01.2020", "FXUS", "1", "850"]),
        row(&["3. Активы:"]),
        row(&["Вид актива"]),
        row(&["Денежные средства", "150"]),
        row(&["FXUS", "1"]),
    ]
}

#[test]
fn parse_real() {
    let reader = StatementReader::new();
    assert!(reader.is_statement("testdata/bcs/statement.xls"));
    let statement = reader.read(&bcs_document()).unwrap();

    assert!(!statement.cash_flows.is_empty());
    assert!(!statement.cash_assets.is_empty());

    assert!(!statement.stock_buys.is_empty());

    assert!(!statement.open_positions.is_empty());
    assert_eq!(statement.period, vec![0]);
    assert_eq!(statement.cash_flows, vec![7, 8]);
    assert_eq!(statement.stock_buys, vec![11]);
    assert_eq!(statement.cash_assets, vec![14]);
    assert_eq!(statement.open_positions, vec![15]);
}

#[test]
fn bcs_is_statement_needs_xls() {
    let reader = StatementReader::new();
    assert!(reader.is_statement("a.xls"));
    assert!(!reader.is_statement("a.xlsx"));
    assert!(!reader.is_statement("xls"));
    assert!(!reader.is_statement(""));
}

#[test]
fn bcs_optional_trades_may_be_absent() {
    let mut doc = bcs_document();
    doc.drain(9..12);
    let statement = StatementReader::new().read(&doc).unwrap();
    assert!(statement.stock_buys.is_empty());
    assert_eq!(statement.cash_assets, vec![11]);
}

#[test]
fn bcs_missing_assets_section_is_named() {
    let mut doc = bcs_document();
    doc.truncate(12);
    match StatementReader::new().read(&doc) {
        Err(StatementError::MissingSection(names)) => {
            assert_eq!(names, vec!["3. Активы:".to_string(), "Вид актива".to_string()]);
        },
        other => panic!("unexpected {:?}", other),
    }
}

#[test]
fn bcs_empty_record_row_fails() {
    let mut doc = bcs_document();
    doc.insert(8, Vec::new());
    match StatementReader::new().read(&doc) {
        Err(StatementError::Parse { section, row }) => {
            assert_eq!(section, "Рубль");
            assert_eq!(row, 8);
        },
        other => panic!("unexpected {:?}", other),
    }
}
