//! Reading one worksheet out of a spreadsheet workbook file held in
//! memory. Opening tries each of the four known container formats in a
//! fixed priority order and the first that parses wins; the worksheet is
//! then selected by 0-based index or by name. The container formats
//! themselves are decoded by the calamine crate behind trusted items; the
//! fallback chain and the selection are verified here.

use vstd::prelude::*;
use calamine::Reader;
use crate::error::ConvError;

verus! {

#[verifier::external_type_specification]
#[verifier::external_body]
#[verifier::reject_recursive_types(RS)]
pub struct ExSheets<RS>(calamine::Sheets<RS>);

#[verifier::external_type_specification]
#[verifier::external_body]
#[verifier::reject_recursive_types(T)]
pub struct ExCursor<T>(std::io::Cursor<T>);

/// What a workbook holds, worksheet by worksheet in workbook order: the
/// worksheet's name, and its cell grid with every cell stringified by the
/// codec's default rendering (an empty cell as the empty string). The grid
/// is `None` for a worksheet whose part of the file cannot be loaded: the
/// codecs parse worksheets lazily but deterministically from the same
/// in-memory bytes, so loadability is part of what the workbook holds.
pub uninterp spec fn wb_model(wb: calamine::Sheets<std::io::Cursor<Vec<u8>>>) -> Seq<
    (Seq<char>, Option<Seq<Seq<Seq<char>>>>),
>;

/// What parsing `data` under the first container format yields: `None`
/// where the bytes are not valid under it, the workbook's contents
/// otherwise. A function of the bytes alone.
pub uninterp spec fn xls_workbook(data: Seq<u8>) -> Option<
    Seq<(Seq<char>, Option<Seq<Seq<Seq<char>>>>)>,
>;

/// As [`xls_workbook`], under the second container format.
pub uninterp spec fn xlsx_workbook(data: Seq<u8>) -> Option<
    Seq<(Seq<char>, Option<Seq<Seq<Seq<char>>>>)>,
>;

/// As [`xls_workbook`], under the third container format.
pub uninterp spec fn xlsb_workbook(data: Seq<u8>) -> Option<
    Seq<(Seq<char>, Option<Seq<Seq<Seq<char>>>>)>,
>;

/// As [`xls_workbook`], under the fourth container format.
pub uninterp spec fn ods_workbook(data: Seq<u8>) -> Option<
    Seq<(Seq<char>, Option<Seq<Seq<Seq<char>>>>)>,
>;

/// Relies on calamine::Xls::new: whether the bytes parse, and what they
/// hold, depends on the bytes alone.
#[verifier::external_body]
fn try_open_xls(data: &Vec<u8>) -> (r: Option<calamine::Sheets<std::io::Cursor<Vec<u8>>>>)
    ensures
        r is Some <==> xls_workbook(data@) is Some,
        r is Some ==> wb_model(r.unwrap()) == xls_workbook(data@).unwrap(),
{
    match calamine::Xls::new(std::io::Cursor::new(data.clone())) {
        Ok(wb) => Some(calamine::Sheets::Xls(wb)),
        Err(_) => None,
    }
}

/// Relies on calamine::Xlsx::new, as [`try_open_xls`] does on Xls::new.
#[verifier::external_body]
fn try_open_xlsx(data: &Vec<u8>) -> (r: Option<calamine::Sheets<std::io::Cursor<Vec<u8>>>>)
    ensures
        r is Some <==> xlsx_workbook(data@) is Some,
        r is Some ==> wb_model(r.unwrap()) == xlsx_workbook(data@).unwrap(),
{
    match calamine::Xlsx::new(std::io::Cursor::new(data.clone())) {
        Ok(wb) => Some(calamine::Sheets::Xlsx(wb)),
        Err(_) => None,
    }
}

/// Relies on calamine::Xlsb::new, as [`try_open_xls`] does on Xls::new.
#[verifier::external_body]
fn try_open_xlsb(data: &Vec<u8>) -> (r: Option<calamine::Sheets<std::io::Cursor<Vec<u8>>>>)
    ensures
        r is Some <==> xlsb_workbook(data@) is Some,
        r is Some ==> wb_model(r.unwrap()) == xlsb_workbook(data@).unwrap(),
{
    match calamine::Xlsb::new(std::io::Cursor::new(data.clone())) {
        Ok(wb) => Some(calamine::Sheets::Xlsb(wb)),
        Err(_) => None,
    }
}

/// Relies on calamine::Ods::new, as [`try_open_xls`] does on Xls::new.
#[verifier::external_body]
fn try_open_ods(data: &Vec<u8>) -> (r: Option<calamine::Sheets<std::io::Cursor<Vec<u8>>>>)
    ensures
        r is Some <==> ods_workbook(data@) is Some,
        r is Some ==> wb_model(r.unwrap()) == ods_workbook(data@).unwrap(),
{
    match calamine::Ods::new(std::io::Cursor::new(data.clone())) {
        Ok(wb) => Some(calamine::Sheets::Ods(wb)),
        Err(_) => None,
    }
}

/// Relies on calamine::Reader::sheet_names: the worksheet names, in
/// workbook order.
#[verifier::external_body]
fn sheet_names_of(wb: &calamine::Sheets<std::io::Cursor<Vec<u8>>>) -> (r: Vec<String>)
    ensures
        r.deep_view().len() == wb_model(*wb).len(),
        forall|i: int| 0 <= i < r.deep_view().len() ==> r.deep_view()[i] == wb_model(*wb)[i].0,
{
    wb.sheet_names()
}

/// Relies on calamine::Reader::worksheet_range_at: `None` exactly for an
/// index at or beyond the worksheet count or for a worksheet whose part of
/// the file cannot be loaded, the worksheet's cell grid otherwise, every
/// cell stringified with the codec's default rendering. The lazy load
/// reads the same in-memory bytes every time and does not change what the
/// workbook holds.
#[verifier::external_body]
fn worksheet_at(wb: &mut calamine::Sheets<std::io::Cursor<Vec<u8>>>, i: usize) -> (r: Option<
    Vec<Vec<String>>,
>)
    ensures
        wb_model(*final(wb)) == wb_model(*old(wb)),
        r is Some <==> i < wb_model(*old(wb)).len() && wb_model(*old(wb))[i as int].1 is Some,
        r is Some ==> r.unwrap().deep_view() == wb_model(*old(wb))[i as int].1.unwrap(),
{
    match wb.worksheet_range_at(i) {
        Some(Ok(range)) => Some(
            range.rows().map(|row| row.iter().map(|cell| cell.to_string()).collect()).collect(),
        ),
        _ => None,
    }
}

/// What opening `data` yields: the contents under the first of the four
/// container formats that parses the bytes, `None` where none does.
pub open spec fn open_spec(data: Seq<u8>) -> Option<Seq<(Seq<char>, Option<Seq<Seq<Seq<char>>>>)>> {
    if xls_workbook(data) is Some {
        xls_workbook(data)
    } else if xlsx_workbook(data) is Some {
        xlsx_workbook(data)
    } else if xlsb_workbook(data) is Some {
        xlsb_workbook(data)
    } else {
        ods_workbook(data)
    }
}

/// The fallback law of format auto-detection: a file that any known format
/// parses is opened, by the first format in priority order that parses it;
/// a file is unsupported only where every format rejects it. In
/// particular, a file one format rejects but a later one parses is never
/// reported unsupported.
pub proof fn lemma_format_fallback(data: Seq<u8>)
    ensures
        open_spec(data) is Some <==> (xls_workbook(data) is Some || xlsx_workbook(data) is Some
            || xlsb_workbook(data) is Some || ods_workbook(data) is Some),
        xls_workbook(data) is Some ==> open_spec(data) == xls_workbook(data),
        xls_workbook(data) is None && xlsx_workbook(data) is Some ==> open_spec(data)
            == xlsx_workbook(data),
        xls_workbook(data) is None && xlsx_workbook(data) is None && xlsb_workbook(data) is Some
            ==> open_spec(data) == xlsb_workbook(data),
        xls_workbook(data) is None && xlsx_workbook(data) is None && xlsb_workbook(data) is None
            ==> open_spec(data) == ods_workbook(data),
{
}

/// Opens an in-memory workbook file, trying each known container format in
/// priority order; the first that parses wins, and a file none parses is
/// rejected as unsupported.
pub fn open_workbook_bytes(data: &Vec<u8>) -> (r: Result<
    calamine::Sheets<std::io::Cursor<Vec<u8>>>,
    ConvError,
>)
    ensures
        r is Ok <==> open_spec(data@) is Some,
        r is Ok ==> wb_model(r->Ok_0) == open_spec(data@).unwrap(),
        r is Err ==> r->Err_0 == ConvError::UnsupportedFormat,
{
    if let Some(wb) = try_open_xls(data) {
        return Ok(wb);
    }
    if let Some(wb) = try_open_xlsx(data) {
        return Ok(wb);
    }
    if let Some(wb) = try_open_xlsb(data) {
        return Ok(wb);
    }
    if let Some(wb) = try_open_ods(data) {
        return Ok(wb);
    }
    Err(ConvError::UnsupportedFormat)
}

/// Which worksheet to read: a 0-based position, or a name.
pub enum SheetSelector {
    Index(usize),
    Name(String),
}

/// Some worksheet carries this name.
pub open spec fn has_name(names: Seq<Seq<char>>, want: Seq<char>) -> bool {
    exists|i: int| 0 <= i < names.len() && names[i] == want
}

/// The selector picks worksheet `j` of the workbook: the given position
/// for an index, the first worksheet carrying the given name for a name.
pub open spec fn selects(
    model: Seq<(Seq<char>, Option<Seq<Seq<Seq<char>>>>)>,
    sel: SheetSelector,
    j: int,
) -> bool {
    match sel {
        SheetSelector::Index(i) => 0 <= j < model.len() && j == i,
        SheetSelector::Name(s) => 0 <= j < model.len() && model[j].0 == s@ && (forall|k: int|
            0 <= k < j ==> model[k].0 != s@),
    }
}

/// The first position carrying the wanted name, or `None` where no
/// position does.
pub fn find_sheet_index(names: &Vec<String>, want: &String) -> (r: Option<usize>)
    ensures
        match r {
            Some(i) => i < names.deep_view().len() && names.deep_view()[i as int] == want@
                && (forall|k: int| 0 <= k < i ==> names.deep_view()[k] != want@),
            None => !has_name(names.deep_view(), want@),
        },
{
    let ghost dv = names.deep_view();
    let mut i: usize = 0;
    while i < names.len()
        invariant
            i <= names@.len(),
            dv == names.deep_view(),
            dv.len() == names@.len(),
            forall|k: int| 0 <= k < i ==> dv[k] != want@,
        decreases names@.len() - i,
    {
        if names[i] == *want {
            assert(dv[i as int] == want@);
            return Some(i);
        }
        i += 1;
    }
    assert(!has_name(dv, want@));
    None
}

/// Reads one worksheet of an in-memory workbook file as a grid of string
/// cells. Fails with `UnsupportedFormat` exactly where no known container
/// format parses the bytes, and with `SheetNotFound` exactly where the
/// selected index is out of range, the selected name matches no worksheet,
/// or the codec cannot load the selected worksheet's part of the file;
/// succeeds otherwise, with the selected worksheet's grid (for a name, the
/// first worksheet carrying it).
pub fn read_sheet_rows(data: &Vec<u8>, sel: &SheetSelector) -> (r: Result<
    Vec<Vec<String>>,
    ConvError,
>)
    ensures
        r is Err ==> (r->Err_0 == ConvError::UnsupportedFormat || r->Err_0
            == ConvError::SheetNotFound),
        open_spec(data@) is None <==> r->Err_0 == ConvError::UnsupportedFormat && r is Err,
        r is Ok <==> open_spec(data@) is Some && (exists|j: int|
            #[trigger] selects(open_spec(data@).unwrap(), *sel, j) && open_spec(
                data@,
            ).unwrap()[j].1 is Some),
        r is Ok ==> exists|j: int|
            #[trigger] selects(open_spec(data@).unwrap(), *sel, j) && open_spec(
                data@,
            ).unwrap()[j].1 is Some && (r->Ok_0).deep_view() == open_spec(
                data@,
            ).unwrap()[j].1.unwrap(),
        open_spec(data@) is Some ==> match *sel {
            SheetSelector::Index(i) => i >= open_spec(data@).unwrap().len() ==> r == Err::<
                Vec<Vec<String>>,
                ConvError,
            >(ConvError::SheetNotFound),
            SheetSelector::Name(ref s) => (forall|j: int|
                0 <= j < open_spec(data@).unwrap().len() ==> #[trigger] open_spec(
                    data@,
                ).unwrap()[j].0 != s@) ==> r == Err::<Vec<Vec<String>>, ConvError>(
                ConvError::SheetNotFound,
            ),
        },
{
    let mut wb = match open_workbook_bytes(data) {
        Ok(wb) => wb,
        Err(e) => {
            return Err(e);
        },
    };
    let ghost model = open_spec(data@).unwrap();
    let index: usize = match sel {
        SheetSelector::Index(i) => *i,
        SheetSelector::Name(s) => {
            let names = sheet_names_of(&wb);
            match find_sheet_index(&names, s) {
                Some(i) => {
                    proof {
                        assert(names.deep_view()[i as int] == model[i as int].0);
                        assert(model[i as int].0 == s@);
                        assert forall|k: int| 0 <= k < i implies #[trigger] model[k].0 != s@ by {
                            assert(names.deep_view()[k] == model[k].0);
                        }
                        assert(selects(model, *sel, i as int));
                    }
                    i
                },
                None => {
                    proof {
                        assert forall|j: int| 0 <= j < model.len() implies #[trigger] model[j].0
                            != s@ by {
                            assert(names.deep_view()[j] == model[j].0);
                            assert(!has_name(names.deep_view(), s@));
                        }
                        assert forall|j: int| !(#[trigger] selects(model, *sel, j)
                            && model[j].1 is Some) by {
                            if selects(model, *sel, j) {
                                assert(model[j].0 != s@);
                            }
                        }
                    }
                    return Err(ConvError::SheetNotFound);
                },
            }
        },
    };
    match worksheet_at(&mut wb, index) {
        Some(rows) => {
            proof {
                assert(index < model.len() && model[index as int].1 is Some);
                if let SheetSelector::Index(i) = *sel {
                    assert(selects(model, *sel, index as int));
                }
                assert(selects(model, *sel, index as int) && model[index as int].1 is Some
                    && rows.deep_view() == model[index as int].1.unwrap());
            }
            Ok(rows)
        },
        None => {
            proof {
                // The index misses, or the selected worksheet does not load:
                // nothing the selector picks is loadable.
                assert forall|j: int| !(#[trigger] selects(model, *sel, j)
                    && model[j].1 is Some) by {
                    if selects(model, *sel, j) {
                        match *sel {
                            SheetSelector::Index(i) => {
                                assert(j == index as int);
                            },
                            SheetSelector::Name(ref s) => {
                                assert(model[j].0 == s@);
                                assert(model[index as int].0 == s@);
                                if j < index as int {
                                    assert(model[j].0 != s@);
                                } else if j > index as int {
                                    assert(model[index as int].0 != s@);
                                }
                                assert(j == index as int);
                            },
                        }
                    }
                }
            }
            Err(ConvError::SheetNotFound)
        },
    }
}

} // verus!
