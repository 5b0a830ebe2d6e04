//! Tests of the spreadsheet-reading side against real workbook bytes: a
//! minimal xlsx container is assembled in memory and read back through the
//! library, covering format auto-detection, sheet selection by index and
//! by name, the fatal misses, and the write/read round trip.

use std::io::Write;

use sheetconv::convert::workbook_to_csv;
use sheetconv::error::ConvError;
use sheetconv::plan::sheet_plan;
use sheetconv::reader::SheetSelector;
use sheetconv::reader::open_workbook_bytes;
use sheetconv::reader::read_sheet_rows;

/// The A1-style reference of a 0-based position (columns under 26 only).
fn cell_ref(row: usize, col: usize) -> String {
    assert!(col < 26);
    format!("{}{}", (b'A' + col as u8) as char, row + 1)
}

/// The sheetData XML for cells given as (row, col, value), row-major.
fn sheet_xml(cells: &[(usize, usize, String)]) -> String {
    let mut body = String::new();
    body.push_str("<?xml version=\"1.0\" encoding=\"UTF-8\" standalone=\"yes\"?>");
    body.push_str(
        "<worksheet xmlns=\"http://schemas.openxmlformats.org/spreadsheetml/2006/main\"><sheetData>",
    );
    let mut row_of = |r: usize| -> String {
        let mut s = format!("<row r=\"{}\">", r + 1);
        for &(rr, cc, ref v) in cells.iter() {
            if rr == r {
                s.push_str(&format!(
                    "<c r=\"{}\" t=\"inlineStr\"><is><t>{}</t></is></c>",
                    cell_ref(rr, cc),
                    v
                ));
            }
        }
        s.push_str("</row>");
        s
    };
    let max_row = cells.iter().map(|c| c.0).max().unwrap_or(0);
    for r in 0..=max_row {
        body.push_str(&row_of(r));
    }
    body.push_str("</sheetData></worksheet>");
    body
}

/// A minimal xlsx workbook holding the named sheets, in memory.
fn build_xlsx(sheets: &[(&str, Vec<(usize, usize, String)>)]) -> Vec<u8> {
    let mut zw = zip::ZipWriter::new(std::io::Cursor::new(Vec::new()));
    let opts = zip::write::SimpleFileOptions::default()
        .compression_method(zip::CompressionMethod::Stored);

    zw.start_file("_rels/.rels", opts).unwrap();
    let root_rels = "<?xml version=\"1.0\" encoding=\"UTF-8\" standalone=\"yes\"?>\
        <Relationships xmlns=\"http://schemas.openxmlformats.org/package/2006/relationships\">\
        <Relationship Id=\"rId1\" \
        Type=\"http://schemas.openxmlformats.org/officeDocument/2006/relationships/officeDocument\" \
        Target=\"xl/workbook.xml\"/></Relationships>";
    zw.write_all(root_rels.as_bytes()).unwrap();

    let mut workbook = String::from(
        "<?xml version=\"1.0\" encoding=\"UTF-8\" standalone=\"yes\"?>\
        <workbook xmlns=\"http://schemas.openxmlformats.org/spreadsheetml/2006/main\" \
        xmlns:r=\"http://schemas.openxmlformats.org/officeDocument/2006/relationships\"><sheets>",
    );
    let mut rels = String::from(
        "<?xml version=\"1.0\" encoding=\"UTF-8\" standalone=\"yes\"?>\
        <Relationships xmlns=\"http://schemas.openxmlformats.org/package/2006/relationships\">",
    );
    for (i, (name, _)) in sheets.iter().enumerate() {
        workbook.push_str(&format!(
            "<sheet name=\"{}\" sheetId=\"{}\" r:id=\"rId{}\"/>",
            name,
            i + 1,
            i + 1
        ));
        rels.push_str(&format!(
            "<Relationship Id=\"rId{}\" \
             Type=\"http://schemas.openxmlformats.org/officeDocument/2006/relationships/worksheet\" \
             Target=\"worksheets/sheet{}.xml\"/>",
            i + 1,
            i + 1
        ));
    }
    workbook.push_str("</sheets></workbook>");
    rels.push_str("</Relationships>");

    zw.start_file("xl/workbook.xml", opts).unwrap();
    zw.write_all(workbook.as_bytes()).unwrap();
    zw.start_file("xl/_rels/workbook.xml.rels", opts).unwrap();
    zw.write_all(rels.as_bytes()).unwrap();
    for (i, (_, cells)) in sheets.iter().enumerate() {
        zw.start_file(format!("xl/worksheets/sheet{}.xml", i + 1), opts).unwrap();
        zw.write_all(sheet_xml(cells).as_bytes()).unwrap();
    }
    zw.finish().unwrap().into_inner()
}

fn cells_of(rows: &[&[&str]]) -> Vec<(usize, usize, String)> {
    let mut out = Vec::new();
    for (r, row) in rows.iter().enumerate() {
        for (c, v) in row.iter().enumerate() {
            if !v.is_empty() {
                out.push((r, c, v.to_string()));
            }
        }
    }
    out
}

fn strings(rows: &[&[&str]]) -> Vec<Vec<String>> {
    rows.iter().map(|r| r.iter().map(|c| c.to_string()).collect()).collect()
}

fn strip_trailing_empties(mut rows: Vec<Vec<String>>) -> Vec<Vec<String>> {
    for row in rows.iter_mut() {
        while row.last().map(|s| s.is_empty()).unwrap_or(false) {
            row.pop();
        }
    }
    rows
}

#[test]
fn detects_second_format_after_first_rejects() {
    // A zip container is no file of the first-priority binary format, so
    // opening must fall through to the next format and still succeed.
    let data = build_xlsx(&[("Only", cells_of(&[&["v"]]))]);
    assert!(open_workbook_bytes(&data).is_ok());
}

#[test]
fn unknown_bytes_are_unsupported() {
    let data = b"this is not a workbook of any known format".to_vec();
    match read_sheet_rows(&data, &SheetSelector::Index(0)) {
        Err(ConvError::UnsupportedFormat) => {},
        _ => panic!("expected an unsupported-format error"),
    }
}

#[test]
fn selects_sheets_by_index_and_by_name() {
    let data = build_xlsx(&[
        ("First sheet", cells_of(&[&["a", "b"], &["c", "d"]])),
        ("Second sheet hello", cells_of(&[&["x"], &["y", "z"]])),
    ]);
    let first = read_sheet_rows(&data, &SheetSelector::Index(0)).unwrap();
    assert_eq!(first, strings(&[&["a", "b"], &["c", "d"]]));
    let second =
        read_sheet_rows(&data, &SheetSelector::Name("Second sheet hello".to_string())).unwrap();
    assert_eq!(
        strip_trailing_empties(second),
        strip_trailing_empties(strings(&[&["x"], &["y", "z"]]))
    );
    match read_sheet_rows(&data, &SheetSelector::Index(2)) {
        Err(ConvError::SheetNotFound) => {},
        _ => panic!("expected a sheet-not-found error for the out-of-range index"),
    }
}

#[test]
fn missing_name_is_fatal() {
    let data = build_xlsx(&[("Here", cells_of(&[&["v"]]))]);
    match read_sheet_rows(&data, &SheetSelector::Name("Elsewhere".to_string())) {
        Err(ConvError::SheetNotFound) => {},
        _ => panic!("expected a sheet-not-found error for the unknown name"),
    }
    match workbook_to_csv(&data, &SheetSelector::Name("Elsewhere".to_string())) {
        Err(ConvError::SheetNotFound) => {},
        _ => panic!("the whole conversion must abort on the unknown name"),
    }
}

#[test]
fn round_trip_preserves_cells_up_to_trailing_empties() {
    let original = strings(&[&["a", "", "b"], &["c", ""], &["", "x"]]);
    // Write side: the verified plan decides which cells exist.
    let plan = sheet_plan("T".to_string(), &original, None);
    let cells: Vec<(usize, usize, String)> =
        plan.cells.iter().map(|c| (c.row, c.col, c.value.clone())).collect();
    assert!(!cells.iter().any(|c| c.2.is_empty()));
    let data = build_xlsx(&[("T", cells)]);
    let back = read_sheet_rows(&data, &SheetSelector::Index(0)).unwrap();
    assert_eq!(
        strip_trailing_empties(back),
        strip_trailing_empties(original)
    );
}

#[test]
fn empty_cell_reads_back_as_empty_string() {
    let original = strings(&[&["a", "b", "c"], &["d", "", "f"]]);
    let plan = sheet_plan("T".to_string(), &original, None);
    let cells: Vec<(usize, usize, String)> =
        plan.cells.iter().map(|c| (c.row, c.col, c.value.clone())).collect();
    assert!(!cells.iter().any(|c| (c.0, c.1) == (1, 1)));
    let data = build_xlsx(&[("T", cells)]);
    let back = read_sheet_rows(&data, &SheetSelector::Index(0)).unwrap();
    assert_eq!(back, original);
}

#[test]
fn workbook_extracts_to_delimited_text() {
    let data = build_xlsx(&[
        ("A", cells_of(&[&["a", "b"], &["c", "d"]])),
        ("B", cells_of(&[&["2nd"]])),
    ]);
    let bytes = workbook_to_csv(&data, &SheetSelector::Index(0)).unwrap();
    assert_eq!(String::from_utf8(bytes).unwrap(), "a,b\nc,d\n");
    let bytes = workbook_to_csv(&data, &SheetSelector::Name("B".to_string())).unwrap();
    assert_eq!(String::from_utf8(bytes).unwrap(), "2nd\n");
}
