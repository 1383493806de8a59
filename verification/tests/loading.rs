//! The spreadsheet row-selection rules.

use ino_checker::loader::{load_rows, CellValue, Item};

fn text(s: &str) -> CellValue {
    CellValue::Text(s.to_string())
}

fn row(cells: Vec<CellValue>) -> Vec<CellValue> {
    cells
}

fn header() -> Vec<CellValue> {
    row(vec![CellValue::Empty, text("h"), CellValue::Empty, CellValue::Empty, CellValue::Empty])
}

#[test]
fn too_small_sheets_load_nothing() {
    let rows = vec![header(), header()];
    assert!(load_rows(&rows, 10, "sanctioned").is_empty());
    let rows4 = vec![header(), header(), header(), header()];
    assert!(load_rows(&rows4, 9, "sanctioned").is_empty());
}

#[test]
fn data_rows_after_the_headers_become_items() {
    let rows = vec![
        header(),
        header(),
        header(),
        row(vec![CellValue::Empty, text("Иванов"), CellValue::Empty, CellValue::Empty, CellValue::Empty]),
        row(vec![CellValue::Empty, text("Петров"), CellValue::Empty, CellValue::Empty, text("x")]),
    ];
    let items: Vec<Item> = load_rows(&rows, 10, "sanctioned");
    assert_eq!(items.len(), 2);
    assert_eq!(items[0].name, "Иванов");
    assert!(!items[0].is_removed);
    assert_eq!(items[0].status, "sanctioned");
    assert!(items[0].embedding.is_empty());
    assert_eq!(items[1].name, "Петров");
    assert!(items[1].is_removed);
}

#[test]
fn blank_markers_do_not_mean_removed() {
    let rows = vec![
        header(),
        header(),
        header(),
        row(vec![CellValue::Empty, text("Иванов"), CellValue::Empty, CellValue::Empty, text("   ")]),
    ];
    let items = load_rows(&rows, 10, "s");
    assert_eq!(items.len(), 1);
    assert!(!items[0].is_removed);
}

#[test]
fn empty_rows_and_short_rows_are_skipped() {
    let rows = vec![
        header(),
        header(),
        header(),
        row(vec![CellValue::Empty, text(""), CellValue::Empty, CellValue::Empty, CellValue::Empty]),
        row(vec![CellValue::Empty, text("x")]),
        row(vec![CellValue::Empty, CellValue::Other("42".to_string()), CellValue::Empty,
            CellValue::Empty, CellValue::Empty]),
    ];
    let items = load_rows(&rows, 10, "s");
    assert_eq!(items.len(), 1);
    assert_eq!(items[0].name, "42");
}
