use investments::registry::{match_sections, Block, HandlerKind, Section};

fn registry() -> Vec<Section> {
    vec![
        Section::new("A").required(),
        Section::new("B").parser(HandlerKind::CashFlow),
        Section::new("C").parser(HandlerKind::Trades).required(),
        Section::new("D"),
    ]
}

fn rows(texts: &[&str]) -> Vec<String> {
    texts.iter().map(|t| t.to_string()).collect()
}

#[test]
fn subset_in_order_matches_blocks() {
    let r = match_sections(&registry(), &rows(&["A", "x", "C", "y", "z"])).unwrap();
    assert_eq!(
        r,
        vec![
            Block { section: 0, start: 0, end: 2 },
            Block { section: 2, start: 2, end: 5 },
        ]
    );
}

#[test]
fn all_sections_present_match_in_document_order() {
    let r = match_sections(&registry(), &rows(&["A", "B", "b", "C", "D", "d"])).unwrap();
    let order: Vec<usize> = r.iter().map(|b| b.section).collect();
    assert_eq!(order, vec![0, 1, 2, 3]);
    assert_eq!(r[1], Block { section: 1, start: 1, end: 3 });
    assert_eq!(r[3], Block { section: 3, start: 4, end: 6 });
}

#[test]
fn omitted_required_section_is_named() {
    assert_eq!(match_sections(&registry(), &rows(&["A", "B", "b", "D"])), Err(vec![2]));
    assert_eq!(match_sections(&registry(), &rows(&["A", "B", "b"])), Err(vec![2]));
    assert_eq!(match_sections(&registry(), &rows(&["C", "c"])), Err(vec![0]));
}

#[test]
fn end_of_rows_names_every_missing_required_section() {
    assert_eq!(match_sections(&registry(), &rows(&[])), Err(vec![0, 2]));
}

#[test]
fn empty_registry_matches_nothing() {
    assert_eq!(match_sections(&Vec::new(), &rows(&["A"])), Ok(Vec::new()));
}
