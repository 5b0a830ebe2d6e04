//! The write plan for one workbook: per worksheet a name, the cell writes
//! (empty values are skipped, a deliberate space optimization), and the
//! column-width settings. A plan is pure data; carrying it out against a
//! workbook file is the caller's, unverified, side.

use vstd::prelude::*;
use crate::error::ConvError;
use crate::naming::has_earlier_dup;
use crate::naming::resolve_sheet_names;
use crate::naming::sheet_name_spec;
use crate::naming::find_duplicate;
use crate::widths::ColumnWidth;
use crate::widths::column_widths;
use crate::widths::opt_width;
use crate::widths::widths_spec;

verus! {

/// One cell write: `value` goes to the 0-based position `(row, col)`.
pub struct CellWrite {
    pub row: usize,
    pub col: usize,
    pub value: String,
}

impl CellWrite {
    /// The triple this write stands for.
    pub open spec fn model(self) -> (nat, nat, Seq<char>) {
        (self.row as nat, self.col as nat, self.value@)
    }
}

/// The nonempty cells of `t` at or after position `(r, c)` in row-major
/// order, each as `(row, column, value)`.
pub open spec fn cells_from(t: Seq<Seq<Seq<char>>>, r: nat, c: nat) -> Seq<(nat, nat, Seq<char>)>
    decreases
            t.len() - r,
            (if (r as int) < t.len() {
                t[r as int].len() as int - c
            } else {
                0int
            }),
{
    if r >= t.len() {
        Seq::empty()
    } else if c >= t[r as int].len() {
        cells_from(t, (r + 1) as nat, 0)
    } else if t[r as int][c as int].len() > 0 {
        seq![(r, c, t[r as int][c as int])] + cells_from(t, r, (c + 1) as nat)
    } else {
        cells_from(t, r, (c + 1) as nat)
    }
}

/// All cell writes for table `t`: its nonempty cells in row-major order.
pub open spec fn table_cells(t: Seq<Seq<Seq<char>>>) -> Seq<(nat, nat, Seq<char>)> {
    cells_from(t, 0, 0)
}

/// The plan for one worksheet.
pub struct SheetPlan {
    /// The worksheet's name.
    pub name: String,
    /// The cell writes, in row-major order; cells whose value is the
    /// empty string are not written at all.
    pub cells: Vec<CellWrite>,
    /// The column-width settings, in increasing column order.
    pub widths: Vec<ColumnWidth>,
}

impl SheetPlan {
    /// The plan is exactly the one for table `t` under worksheet name
    /// `name` and forced width `forced`.
    pub open spec fn is_plan_for(self, name: Seq<char>, t: Seq<Seq<Seq<char>>>, forced: Option<nat>) -> bool {
        &&& self.name@ == name
        &&& self.cells@.map_values(|cw: CellWrite| cw.model()) == table_cells(t)
        &&& self.widths@.map_values(|w: ColumnWidth| w.model()) == widths_spec(t, forced)
    }
}

/// The names the worksheets of a workbook get when `count` tables arrive
/// with the supplied name list.
pub open spec fn resolved_names(names: Seq<Seq<char>>, count: nat) -> Seq<Seq<char>> {
    Seq::new(count, |i: int| sheet_name_spec(names, i as nat))
}

/// The cell writes for `table`: every cell holding at least one character,
/// in row-major order, at its own coordinates.
pub fn sheet_cells(table: &Vec<Vec<String>>) -> (cells: Vec<CellWrite>)
    ensures
        cells@.map_values(|cw: CellWrite| cw.model()) == table_cells(table.deep_view()),
{
    let ghost t = table.deep_view();
    let mut cells: Vec<CellWrite> = Vec::new();
    proof {
        assert(cells@.map_values(|cw: CellWrite| cw.model()) + table_cells(t) =~= table_cells(t));
    }
    let mut r: usize = 0;
    while r < table.len()
        invariant
            r <= table@.len(),
            t == table.deep_view(),
            t.len() == table@.len(),
            cells@.map_values(|cw: CellWrite| cw.model()) + cells_from(t, r as nat, 0)
                =~= table_cells(t),
        decreases table@.len() - r,
    {
        let row = &table[r];
        assert(row.deep_view() == t[r as int]);
        let mut c: usize = 0;
        while c < row.len()
            invariant
                c <= row@.len(),
                r < t.len(),
                t == table.deep_view(),
                row.deep_view() == t[r as int],
                row@.len() == t[r as int].len(),
                cells@.map_values(|cw: CellWrite| cw.model()) + cells_from(t, r as nat, c as nat)
                    =~= table_cells(t),
            decreases row@.len() - c,
        {
            assert(row@[c as int]@ == t[r as int][c as int]);
            if !row[c].as_str().is_empty() {
                let ghost before = cells@;
                let cw = CellWrite { row: r, col: c, value: row[c].clone() };
                assert(cw.model() == (r as nat, c as nat, t[r as int][c as int]));
                cells.push(cw);
                proof {
                    assert(cells@.map_values(|cw: CellWrite| cw.model()) =~= before.map_values(
                        |cw: CellWrite| cw.model(),
                    ).push((r as nat, c as nat, t[r as int][c as int])));
                    assert(cells_from(t, r as nat, c as nat) == seq![
                        (r as nat, c as nat, t[r as int][c as int]),
                    ] + cells_from(t, r as nat, (c + 1) as nat));
                    assert(cells@.map_values(|cw: CellWrite| cw.model()) + cells_from(
                        t,
                        r as nat,
                        (c + 1) as nat,
                    ) =~= before.map_values(|cw: CellWrite| cw.model()) + cells_from(
                        t,
                        r as nat,
                        c as nat,
                    ));
                }
            }
            c += 1;
        }
        r += 1;
    }
    proof {
        assert(cells_from(t, r as nat, 0) =~= Seq::<(nat, nat, Seq<char>)>::empty());
        assert(cells@.map_values(|cw: CellWrite| cw.model()) =~= table_cells(t));
    }
    cells
}

/// The full plan for one worksheet holding `table` under `name`.
pub fn sheet_plan(name: String, table: &Vec<Vec<String>>, forced: Option<usize>) -> (p: SheetPlan)
    ensures
        p.is_plan_for(name@, table.deep_view(), opt_width(forced)),
{
    let cells = sheet_cells(table);
    let widths = column_widths(table, forced);
    SheetPlan { name, cells, widths }
}

/// The plan for one workbook holding the tables in `tables`, one worksheet
/// per table in input order. Worksheet names come from `names` where that
/// list reaches, and fall back to `Sheet<N>` (1-based) past its end; a
/// repeated name is fatal and yields `DuplicateSheetName` with the
/// position of the later of the two, before any sheet is planned.
pub fn workbook_plan(tables: &Vec<Vec<Vec<String>>>, names: &Vec<String>, forced: Option<usize>) -> (r:
    Result<Vec<SheetPlan>, ConvError>)
    ensures
        match r {
            Ok(plans) => {
                let resolved = resolved_names(names.deep_view(), tables@.len() as nat);
                &&& forall|k: int| 0 <= k < resolved.len() ==> !has_earlier_dup(resolved, k)
                &&& plans@.len() == tables@.len()
                &&& forall|i: int|
                    0 <= i < plans@.len() ==> plans@[i].is_plan_for(
                        resolved[i],
                        tables.deep_view()[i],
                        opt_width(forced),
                    )
            },
            Err(e) => {
                let resolved = resolved_names(names.deep_view(), tables@.len() as nat);
                match e {
                    ConvError::DuplicateSheetName(j) => j < resolved.len() && has_earlier_dup(
                        resolved,
                        j as int,
                    ) && (forall|k: int| 0 <= k < j ==> !has_earlier_dup(resolved, k)),
                    _ => false,
                }
            },
        },
{
    let ghost resolved = resolved_names(names.deep_view(), tables@.len() as nat);
    let sheet_names = resolve_sheet_names(names, tables.len());
    proof {
        assert(sheet_names.deep_view() =~= resolved);
    }
    if let Some(j) = find_duplicate(&sheet_names) {
        return Err(ConvError::DuplicateSheetName(j));
    }
    let mut plans: Vec<SheetPlan> = Vec::new();
    let mut i: usize = 0;
    while i < tables.len()
        invariant
            i <= tables@.len(),
            sheet_names.deep_view() == resolved,
            resolved.len() == tables@.len(),
            sheet_names@.len() == tables@.len(),
            tables.deep_view().len() == tables@.len(),
            plans@.len() == i,
            forall|k: int|
                0 <= k < i ==> plans@[k].is_plan_for(
                    resolved[k],
                    tables.deep_view()[k],
                    opt_width(forced),
                ),
        decreases tables@.len() - i,
    {
        assert(sheet_names@[i as int]@ == resolved[i as int]);
        assert(tables@[i as int].deep_view() == tables.deep_view()[i as int]);
        let p = sheet_plan(sheet_names[i].clone(), &tables[i], forced);
        plans.push(p);
        i += 1;
    }
    Ok(plans)
}

} // verus!
