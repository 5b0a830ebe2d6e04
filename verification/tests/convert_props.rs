//! Tests of the width estimator, the sheet naming, the write plan, and the
//! delimited-text side of the conversion.

use sheetconv::convert::csv_to_workbook_plan;
use sheetconv::csvio::encode_csv_rows;
use sheetconv::csvio::parse_csv_table;
use sheetconv::error::ConvError;
use sheetconv::naming::find_duplicate;
use sheetconv::naming::resolve_sheet_names;
use sheetconv::naming::sheet_name_for;
use sheetconv::naming::usize_to_decimal;
use sheetconv::plan::sheet_cells;
use sheetconv::plan::sheet_plan;
use sheetconv::plan::workbook_plan;
use sheetconv::widths::column_max_lengths;
use sheetconv::widths::column_widths;
use sheetconv::widths::width_for;

fn table(rows: &[&[&str]]) -> Vec<Vec<String>> {
    rows.iter().map(|r| r.iter().map(|c| c.to_string()).collect()).collect()
}

#[test]
fn width_clamps_short_column_up() {
    assert_eq!(width_for(2, None), 5);
}

#[test]
fn width_clamps_long_column_down() {
    assert_eq!(width_for(200, None), 70);
}

#[test]
fn width_keeps_middling_column() {
    assert_eq!(width_for(12, None), 12);
}

#[test]
fn width_forced_overrides_everything() {
    assert_eq!(width_for(2, Some(25)), 25);
    assert_eq!(width_for(12, Some(25)), 25);
    assert_eq!(width_for(200, Some(25)), 25);
}

#[test]
fn column_maxes_over_ragged_rows() {
    let t = table(&[&["ab", "c"], &["x", "defgh", "yy"]]);
    assert_eq!(column_max_lengths(&t), vec![2, 5, 2]);
}

#[test]
fn column_without_content_is_not_sized() {
    let t = table(&[&["ab", "", "c"], &["x", ""]]);
    let widths = column_widths(&t, None);
    let cols: Vec<usize> = widths.iter().map(|w| w.col).collect();
    let ws: Vec<usize> = widths.iter().map(|w| w.width).collect();
    assert_eq!(cols, vec![0, 2]);
    assert_eq!(ws, vec![5, 5]);
}

#[test]
fn decimal_rendering() {
    assert_eq!(usize_to_decimal(0), "0");
    assert_eq!(usize_to_decimal(7), "7");
    assert_eq!(usize_to_decimal(10), "10");
    assert_eq!(usize_to_decimal(12034), "12034");
}

#[test]
fn fallback_names_are_one_based() {
    let names: Vec<String> = vec![];
    assert_eq!(sheet_name_for(&names, 0), "Sheet1");
    assert_eq!(sheet_name_for(&names, 9), "Sheet10");
}

#[test]
fn three_tables_one_explicit_name() {
    let names = vec!["The first".to_string()];
    let resolved = resolve_sheet_names(&names, 3);
    assert_eq!(resolved, vec!["The first", "Sheet2", "Sheet3"]);
}

#[test]
fn duplicate_detection() {
    let names: Vec<String> = vec!["A".to_string(), "B".to_string(), "A".to_string()];
    assert_eq!(find_duplicate(&names), Some(2));
    let distinct: Vec<String> = vec!["A".to_string(), "B".to_string()];
    assert_eq!(find_duplicate(&distinct), None);
}

#[test]
fn empty_cells_are_skipped() {
    let t = table(&[&["a", "", "b"], &["", "", "x"]]);
    let cells = sheet_cells(&t);
    let got: Vec<(usize, usize, String)> =
        cells.iter().map(|c| (c.row, c.col, c.value.clone())).collect();
    assert_eq!(
        got,
        vec![
            (0, 0, "a".to_string()),
            (0, 2, "b".to_string()),
            (1, 2, "x".to_string()),
        ]
    );
    assert!(!got.iter().any(|t| (t.0, t.1) == (1, 1)));
    assert!(!got.iter().any(|t| (t.0, t.1) == (1, 0)));
}

#[test]
fn plan_for_one_sheet() {
    let t = table(&[&["hello", "x"], &["yo", "world wide"]]);
    let p = sheet_plan("S".to_string(), &t, None);
    assert_eq!(p.name, "S");
    assert_eq!(p.cells.len(), 4);
    let cols: Vec<(usize, usize)> = p.widths.iter().map(|w| (w.col, w.width)).collect();
    assert_eq!(cols, vec![(0, 5), (1, 10)]);
}

#[test]
fn workbook_plan_rejects_colliding_default_name() {
    let tables = vec![table(&[&["a"]]), table(&[&["b"]])];
    let names = vec!["Sheet2".to_string()];
    match workbook_plan(&tables, &names, None) {
        Err(ConvError::DuplicateSheetName(j)) => assert_eq!(j, 1),
        other => panic!("expected a duplicate-name error, got {:?}", other.is_ok()),
    }
}

#[test]
fn csv_fields_are_trimmed_and_rows_ragged() {
    let data = b" a , b\nlonger field\n".to_vec();
    let t = parse_csv_table(&data, 0).unwrap();
    assert_eq!(t, vec![vec!["a".to_string(), "b".to_string()], vec!["longer field".to_string()]]);
}

#[test]
fn csv_invalid_utf8_is_malformed() {
    let data = vec![0xff, 0xfe, b'a'];
    match parse_csv_table(&data, 3) {
        Err(ConvError::MalformedRecord(i)) => assert_eq!(i, 3),
        _ => panic!("expected a malformed-record error"),
    }
}

#[test]
fn csv_encoding_quotes_only_where_needed() {
    let rows = table(&[&["a", "b,c"], &["plain"]]);
    let bytes = encode_csv_rows(&rows);
    assert_eq!(String::from_utf8(bytes).unwrap(), "a,\"b,c\"\nplain\n");
}

#[test]
fn csv_encode_then_parse_round_trips() {
    let rows = table(&[&["a", "b", ""], &["c"], &["x y", "z\"q"]]);
    let bytes = encode_csv_rows(&rows);
    let back = parse_csv_table(&bytes, 0).unwrap();
    assert_eq!(back, rows);
}

#[test]
fn csv_pipeline_builds_plans_in_input_order() {
    let inputs = vec![b"a,bb\nccc\n".to_vec(), b"x\n".to_vec()];
    let names = vec!["One".to_string()];
    let plans = csv_to_workbook_plan(&inputs, &names, None).unwrap();
    assert_eq!(plans.len(), 2);
    assert_eq!(plans[0].name, "One");
    assert_eq!(plans[1].name, "Sheet2");
    let got: Vec<(usize, usize, String)> =
        plans[0].cells.iter().map(|c| (c.row, c.col, c.value.clone())).collect();
    assert_eq!(
        got,
        vec![
            (0, 0, "a".to_string()),
            (0, 1, "bb".to_string()),
            (1, 0, "ccc".to_string()),
        ]
    );
    assert_eq!(plans[1].cells.len(), 1);
}

#[test]
fn csv_pipeline_reports_first_malformed_input() {
    let inputs = vec![b"fine\n".to_vec(), vec![0xff, 0xfe]];
    let names: Vec<String> = vec![];
    match csv_to_workbook_plan(&inputs, &names, None) {
        Err(ConvError::MalformedRecord(j)) => assert_eq!(j, 1),
        _ => panic!("expected a malformed-record error"),
    }
}

#[test]
fn forced_width_reaches_every_sized_column() {
    let t = table(&[&["ab", "this one is much longer than seventy characters? no, but long enough"]]);
    let widths = column_widths(&t, Some(25));
    let ws: Vec<usize> = widths.iter().map(|w| w.width).collect();
    assert_eq!(ws, vec![25, 25]);
}

#[test]
fn csv_encoding_of_no_rows_is_empty() {
    let rows: Vec<Vec<String>> = vec![];
    let bytes = encode_csv_rows(&rows);
    assert!(bytes.is_empty());
}
