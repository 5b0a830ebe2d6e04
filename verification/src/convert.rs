//! The two conversion pipelines, as far as they go from plain values to
//! plain values: delimited-text inputs to a workbook write plan, and an
//! in-memory workbook file to delimited-text output. Reading the input
//! files, carrying the plan out against a workbook file, and writing the
//! output bytes stay with the caller.

use vstd::prelude::*;
use crate::csvio::csv_encode;
use crate::csvio::csv_parse;
use crate::csvio::encode_csv_rows;
use crate::csvio::parse_csv_table;
use crate::error::ConvError;
use crate::naming::has_earlier_dup;
use crate::plan::SheetPlan;
use crate::plan::resolved_names;
use crate::plan::workbook_plan;
use crate::reader::SheetSelector;
use crate::reader::open_spec;
use crate::reader::read_sheet_rows;
use crate::reader::selects;
use crate::widths::opt_width;

verus! {

/// Plans one workbook from delimited-text inputs, one worksheet per input
/// in order. Each input is parsed as comma-delimited text; the first that
/// cannot be tokenized is fatal with `MalformedRecord` and its index.
/// Worksheet names come from `names` with the `Sheet<N>` fallback past its
/// end, and a repeated name is fatal with `DuplicateSheetName`. On success
/// every worksheet plan holds exactly its input's cells (empty values
/// skipped) and column widths, under [`crate::plan::SheetPlan::is_plan_for`].
pub fn csv_to_workbook_plan(inputs: &Vec<Vec<u8>>, names: &Vec<String>, forced: Option<usize>) -> (r:
    Result<Vec<SheetPlan>, ConvError>)
    ensures
        match r {
            Ok(plans) => {
                let resolved = resolved_names(names.deep_view(), inputs@.len() as nat);
                &&& forall|k: int|
                    0 <= k < inputs@.len() ==> csv_parse(#[trigger] inputs@[k]@) is Some
                &&& forall|k: int| 0 <= k < resolved.len() ==> !has_earlier_dup(resolved, k)
                &&& plans@.len() == inputs@.len()
                &&& forall|i: int|
                    0 <= i < plans@.len() ==> plans@[i].is_plan_for(
                        resolved[i],
                        csv_parse(inputs@[i]@).unwrap(),
                        opt_width(forced),
                    )
            },
            Err(e) => {
                let resolved = resolved_names(names.deep_view(), inputs@.len() as nat);
                match e {
                    ConvError::MalformedRecord(j) => j < inputs@.len() && csv_parse(
                        inputs@[j as int]@,
                    ) is None && (forall|k: int|
                        0 <= k < j ==> csv_parse(#[trigger] inputs@[k]@) is Some),
                    ConvError::DuplicateSheetName(j) => (forall|k: int|
                        0 <= k < inputs@.len() ==> csv_parse(#[trigger] inputs@[k]@) is Some) && j
                        < resolved.len() && has_earlier_dup(resolved, j as int) && (forall|k: int|
                        0 <= k < j ==> !has_earlier_dup(resolved, k)),
                    _ => false,
                }
            },
        },
{
    let mut tables: Vec<Vec<Vec<String>>> = Vec::new();
    let mut i: usize = 0;
    while i < inputs.len()
        invariant
            i <= inputs@.len(),
            tables@.len() == i,
            tables.deep_view().len() == i,
            forall|k: int| 0 <= k < i ==> csv_parse(#[trigger] inputs@[k]@) is Some,
            forall|k: int|
                0 <= k < i ==> tables.deep_view()[k] == csv_parse(#[trigger] inputs@[k]@).unwrap(),
        decreases inputs@.len() - i,
    {
        let table = match parse_csv_table(&inputs[i], i) {
            Ok(t) => t,
            Err(e) => {
                return Err(e);
            },
        };
        let ghost tv = table.deep_view();
        tables.push(table);
        proof {
            assert(tables.deep_view() =~= tables.deep_view().take(tables@.len() - 1).push(tv));
            assert(forall|k: int|
                0 <= k < tables@.len() - 1 ==> tables.deep_view().take(tables@.len() - 1)[k]
                    == tables.deep_view()[k]);
        }
        i += 1;
    }
    let r = workbook_plan(&tables, names, forced);
    proof {
        assert(forall|k: int|
            0 <= k < tables@.len() ==> tables.deep_view()[k] == csv_parse(
                #[trigger] inputs@[k]@,
            ).unwrap());
    }
    r
}

/// Extracts one worksheet of an in-memory workbook file as delimited
/// text. Fails with `UnsupportedFormat` exactly where no known container
/// format parses the bytes, and with `SheetNotFound` exactly where the
/// selected index is out of range, the selected name matches no worksheet,
/// or the selected worksheet's part of the file cannot be loaded; succeeds
/// otherwise, with the delimited-text encoding of the selected worksheet's
/// cell grid.
pub fn workbook_to_csv(data: &Vec<u8>, sel: &SheetSelector) -> (r: Result<Vec<u8>, ConvError>)
    ensures
        r is Err ==> (r->Err_0 == ConvError::UnsupportedFormat || r->Err_0
            == ConvError::SheetNotFound),
        open_spec(data@) is None <==> (r is Err && r->Err_0 == ConvError::UnsupportedFormat),
        r is Ok <==> open_spec(data@) is Some && (exists|j: int|
            #[trigger] selects(open_spec(data@).unwrap(), *sel, j) && open_spec(
                data@,
            ).unwrap()[j].1 is Some),
        r is Ok ==> exists|j: int|
            #[trigger] selects(open_spec(data@).unwrap(), *sel, j) && open_spec(
                data@,
            ).unwrap()[j].1 is Some && (r->Ok_0)@ == csv_encode(
                open_spec(data@).unwrap()[j].1.unwrap(),
            ),
        open_spec(data@) is Some ==> match *sel {
            SheetSelector::Index(i) => i >= open_spec(data@).unwrap().len() ==> r == Err::<
                Vec<u8>,
                ConvError,
            >(ConvError::SheetNotFound),
            SheetSelector::Name(ref s) => (forall|j: int|
                0 <= j < open_spec(data@).unwrap().len() ==> #[trigger] open_spec(
                    data@,
                ).unwrap()[j].0 != s@) ==> r == Err::<Vec<u8>, ConvError>(ConvError::SheetNotFound),
        },
{
    let rows = match read_sheet_rows(data, sel) {
        Ok(rows) => rows,
        Err(e) => {
            return Err(e);
        },
    };
    let bytes = encode_csv_rows(&rows);
    proof {
        let model = open_spec(data@).unwrap();
        let j = choose|j: int|
            #[trigger] selects(model, *sel, j) && model[j].1 is Some && rows.deep_view()
                == model[j].1.unwrap();
        assert(selects(model, *sel, j) && model[j].1 is Some && bytes@ == csv_encode(
            model[j].1.unwrap(),
        ));
    }
    Ok(bytes)
}

} // verus!
