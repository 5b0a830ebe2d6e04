//! What a worksheet written from a table reads back as. The writer stores
//! only the nonempty cells ([`crate::plan::table_cells`]); a reader sees
//! rows up to the last stored cell. This module models that store, proves
//! how it reconstructs, and states the round-trip law: the table comes
//! back exactly up to trailing empty cells of each row.

use vstd::prelude::*;
use crate::plan::CellWrite;
use crate::plan::SheetPlan;
use crate::plan::cells_from;
use crate::plan::table_cells;
use crate::widths::nat_max;

verus! {

/// The largest row index among the stored cells (0 for an empty store).
pub open spec fn max_row(cells: Seq<(nat, nat, Seq<char>)>) -> nat
    decreases cells.len(),
{
    if cells.len() == 0 {
        0
    } else {
        nat_max(max_row(cells.drop_last()), cells.last().0)
    }
}

/// How many rows a reader sees: up to the last row holding a stored cell.
pub open spec fn height(cells: Seq<(nat, nat, Seq<char>)>) -> nat {
    if cells.len() == 0 {
        0
    } else {
        max_row(cells) + 1
    }
}

/// How many cells of row `r` a reader sees: up to the last stored cell of
/// that row (0 for a row without stored cells).
pub open spec fn row_width(cells: Seq<(nat, nat, Seq<char>)>, r: nat) -> nat
    decreases cells.len(),
{
    if cells.len() == 0 {
        0
    } else if cells.last().0 == r {
        nat_max(row_width(cells.drop_last(), r), cells.last().1 + 1)
    } else {
        row_width(cells.drop_last(), r)
    }
}

/// The value a reader sees at `(r, c)`: the stored value where one exists,
/// the empty string otherwise.
pub open spec fn value_at(cells: Seq<(nat, nat, Seq<char>)>, r: nat, c: nat) -> Seq<char>
    decreases cells.len(),
{
    if cells.len() == 0 {
        Seq::empty()
    } else if cells.last().0 == r && cells.last().1 == c {
        cells.last().2
    } else {
        value_at(cells.drop_last(), r, c)
    }
}

/// The table a reader recovers from a store of cells.
pub open spec fn read_back(cells: Seq<(nat, nat, Seq<char>)>) -> Seq<Seq<Seq<char>>> {
    Seq::new(
        height(cells),
        |r: int| Seq::new(row_width(cells, r as nat), |c: int| value_at(cells, r as nat, c as nat)),
    )
}

/// The largest column index of `row` holding a nonempty value, and -1
/// where there is none.
pub open spec fn last_nonempty(row: Seq<Seq<char>>) -> int
    decreases row.len(),
{
    if row.len() == 0 {
        -1
    } else if row.last().len() > 0 {
        row.len() - 1
    } else {
        last_nonempty(row.drop_last())
    }
}

/// `row` with its trailing empty values dropped.
pub open spec fn strip_row(row: Seq<Seq<char>>) -> Seq<Seq<char>> {
    row.take(last_nonempty(row) + 1)
}

/// `t` with the trailing empty values of every row dropped.
pub open spec fn strip_table(t: Seq<Seq<Seq<char>>>) -> Seq<Seq<Seq<char>>> {
    Seq::new(t.len(), |r: int| strip_row(t[r]))
}

/// Some cell of `row` holds at least one character.
pub open spec fn row_has_content(row: Seq<Seq<char>>) -> bool {
    exists|c: int| 0 <= c < row.len() && row[c].len() > 0
}

/// `max_row` is the row of some stored cell, and no stored cell lies below it.
proof fn lemma_max_row(cells: Seq<(nat, nat, Seq<char>)>)
    requires
        cells.len() > 0,
    ensures
        exists|k: int| 0 <= k < cells.len() && #[trigger] cells[k].0 == max_row(cells),
        forall|k: int| 0 <= k < cells.len() ==> #[trigger] cells[k].0 <= max_row(cells),
    decreases cells.len(),
{
    let rest = cells.drop_last();
    if cells.len() > 1 {
        lemma_max_row(rest);
        if max_row(rest) >= cells.last().0 {
            let k = choose|k: int| 0 <= k < rest.len() && #[trigger] rest[k].0 == max_row(rest);
            assert(cells[k] == rest[k]);
            assert(cells[k].0 == max_row(cells));
        } else {
            assert(cells[cells.len() - 1].0 == max_row(cells));
        }
        assert forall|k: int| 0 <= k < cells.len() implies #[trigger] cells[k].0 <= max_row(
            cells,
        ) by {
            if k < cells.len() - 1 {
                assert(cells[k] == rest[k]);
                assert(rest[k].0 <= max_row(rest));
            } else {
                assert(cells[k] == cells.last());
            }
        }
    } else {
        assert(rest.len() == 0);
        assert(max_row(rest) == 0);
        assert(max_row(cells) == nat_max(0, cells.last().0));
        assert(cells[0] == cells.last());
        assert(cells[0].0 == max_row(cells));
    }
}

/// `row_width` is one past the column of some stored cell of row `r` (when
/// positive), and every stored cell of row `r` lies left of it.
proof fn lemma_row_width(cells: Seq<(nat, nat, Seq<char>)>, r: nat)
    ensures
        row_width(cells, r) > 0 ==> exists|k: int|
            0 <= k < cells.len() && #[trigger] cells[k].0 == r && cells[k].1 + 1 == row_width(
                cells,
                r,
            ),
        forall|k: int|
            0 <= k < cells.len() && #[trigger] cells[k].0 == r ==> cells[k].1 < row_width(cells, r),
    decreases cells.len(),
{
    let rest = cells.drop_last();
    if cells.len() > 0 {
        lemma_row_width(rest, r);
        if row_width(cells, r) > 0 {
            if cells.last().0 == r && row_width(cells, r) == cells.last().1 + 1 {
                assert(cells[cells.len() - 1] == cells.last());
                assert(cells[cells.len() - 1].0 == r && cells[cells.len() - 1].1 + 1 == row_width(
                    cells,
                    r,
                ));
            } else {
                assert(row_width(cells, r) == row_width(rest, r));
                let k = choose|k: int|
                    0 <= k < rest.len() && #[trigger] rest[k].0 == r && rest[k].1 + 1 == row_width(
                        rest,
                        r,
                    );
                assert(cells[k] == rest[k]);
                assert(cells[k].0 == r && cells[k].1 + 1 == row_width(cells, r));
            }
        }
        assert forall|k: int|
            0 <= k < cells.len() && #[trigger] cells[k].0 == r implies cells[k].1 < row_width(
            cells,
            r,
        ) by {
            if k < cells.len() - 1 {
                assert(cells[k] == rest[k]);
                assert(rest[k].0 == r ==> rest[k].1 < row_width(rest, r));
                assert(row_width(cells, r) >= row_width(rest, r));
            } else {
                assert(cells[k] == cells.last());
            }
        }
    }
}

/// The value read at `(r, c)` is a stored value where one exists there,
/// and empty where none does.
proof fn lemma_value_at(cells: Seq<(nat, nat, Seq<char>)>, r: nat, c: nat)
    ensures
        (exists|k: int| 0 <= k < cells.len() && #[trigger] cells[k].0 == r && cells[k].1 == c)
            ==> exists|k: int|
            0 <= k < cells.len() && #[trigger] cells[k].0 == r && cells[k].1 == c && cells[k].2
                == value_at(cells, r, c),
        !(exists|k: int| 0 <= k < cells.len() && #[trigger] cells[k].0 == r && cells[k].1 == c)
            ==> value_at(cells, r, c) == Seq::<char>::empty(),
    decreases cells.len(),
{
    if cells.len() > 0 {
        lemma_value_at(cells.drop_last(), r, c);
        assert(forall|k: int|
            0 <= k < cells.len() - 1 ==> cells[k] == #[trigger] cells.drop_last()[k]);
        if cells.last().0 == r && cells.last().1 == c {
            assert(cells[cells.len() - 1].0 == r && cells[cells.len() - 1].1 == c && cells[cells.len()
                - 1].2 == value_at(cells, r, c));
        } else {
            if exists|k: int|
                0 <= k < cells.len() && #[trigger] cells[k].0 == r && cells[k].1 == c {
                let k = choose|k: int|
                    0 <= k < cells.len() && #[trigger] cells[k].0 == r && cells[k].1 == c;
                assert(cells.drop_last()[k].0 == r && cells.drop_last()[k].1 == c);
            }
        }
    }
}

/// A position `(rr, cc)` lies at or after `(r, c)` in row-major order.
pub open spec fn at_or_after(rr: nat, cc: nat, r: nat, c: nat) -> bool {
    rr > r || (rr == r && cc >= c)
}

/// The cells stored for a table are exactly its nonempty cells at or after
/// the starting position, each carrying the table's value.
proof fn lemma_cells_from_exact(t: Seq<Seq<Seq<char>>>, r: nat, c: nat)
    ensures
        forall|k: int|
            0 <= k < cells_from(t, r, c).len() ==> {
                let e = #[trigger] cells_from(t, r, c)[k];
                &&& at_or_after(e.0, e.1, r, c)
                &&& e.0 < t.len()
                &&& e.1 < t[e.0 as int].len()
                &&& e.2 == t[e.0 as int][e.1 as int]
                &&& e.2.len() > 0
            },
        forall|rr: nat, cc: nat|
            #[trigger] at_or_after(rr, cc, r, c) && rr < t.len() && cc < t[rr as int].len()
                && t[rr as int][cc as int].len() > 0 ==> exists|k: int|
                0 <= k < cells_from(t, r, c).len() && #[trigger] cells_from(t, r, c)[k] == (
                rr,
                cc,
                t[rr as int][cc as int],
            ),
    decreases
            t.len() - r,
            (if (r as int) < t.len() {
                t[r as int].len() as int - c
            } else {
                0int
            }),
{
    if r >= t.len() {
        assert forall|rr: nat, cc: nat|
            #[trigger] at_or_after(rr, cc, r, c) && rr < t.len() && cc < t[rr as int].len()
                && t[rr as int][cc as int].len() > 0 implies false by {}
    } else if c >= t[r as int].len() {
        lemma_cells_from_exact(t, (r + 1) as nat, 0);
        assert(cells_from(t, r, c) == cells_from(t, (r + 1) as nat, 0));
        assert forall|rr: nat, cc: nat|
            #[trigger] at_or_after(rr, cc, r, c) && rr < t.len() && cc < t[rr as int].len()
                && t[rr as int][cc as int].len() > 0 implies exists|k: int|
            0 <= k < cells_from(t, r, c).len() && #[trigger] cells_from(t, r, c)[k] == (
            rr,
            cc,
            t[rr as int][cc as int],
        ) by {
            assert(at_or_after(rr, cc, (r + 1) as nat, 0));
            let k = choose|k: int|
                0 <= k < cells_from(t, (r + 1) as nat, 0).len() && #[trigger] cells_from(
                    t,
                    (r + 1) as nat,
                    0,
                )[k] == (rr, cc, t[rr as int][cc as int]);
            assert(cells_from(t, r, c)[k] == (rr, cc, t[rr as int][cc as int]));
        }
    } else {
        lemma_cells_from_exact(t, r, (c + 1) as nat);
        let rest = cells_from(t, r, (c + 1) as nat);
        if t[r as int][c as int].len() > 0 {
            let own = seq![(r, c, t[r as int][c as int])];
            assert(cells_from(t, r, c) == own + rest);
            assert(forall|k: int| 0 <= k < rest.len() ==> rest[k] == #[trigger] (own + rest)[k + 1]);
            assert((own + rest)[0] == (r, c, t[r as int][c as int]));
            assert forall|rr: nat, cc: nat|
                #[trigger] at_or_after(rr, cc, r, c) && rr < t.len() && cc < t[rr as int].len()
                    && t[rr as int][cc as int].len() > 0 implies exists|k: int|
                0 <= k < cells_from(t, r, c).len() && #[trigger] cells_from(t, r, c)[k] == (
                rr,
                cc,
                t[rr as int][cc as int],
            ) by {
                if rr == r && cc == c {
                    assert(cells_from(t, r, c)[0] == (rr, cc, t[rr as int][cc as int]));
                } else {
                    assert(at_or_after(rr, cc, r, (c + 1) as nat));
                    let k = choose|k: int|
                        0 <= k < rest.len() && #[trigger] rest[k] == (
                        rr,
                        cc,
                        t[rr as int][cc as int],
                    );
                    assert(cells_from(t, r, c)[k + 1] == (rr, cc, t[rr as int][cc as int]));
                }
            }
        } else {
            assert(cells_from(t, r, c) == cells_from(t, r, (c + 1) as nat));
            assert forall|rr: nat, cc: nat|
                #[trigger] at_or_after(rr, cc, r, c) && rr < t.len() && cc < t[rr as int].len()
                    && t[rr as int][cc as int].len() > 0 implies exists|k: int|
                0 <= k < cells_from(t, r, c).len() && #[trigger] cells_from(t, r, c)[k] == (
                rr,
                cc,
                t[rr as int][cc as int],
            ) by {
                assert(at_or_after(rr, cc, r, (c + 1) as nat));
                let k = choose|k: int|
                    0 <= k < cells_from(t, r, (c + 1) as nat).len() && #[trigger] cells_from(
                        t,
                        r,
                        (c + 1) as nat,
                    )[k] == (rr, cc, t[rr as int][cc as int]);
                assert(cells_from(t, r, c)[k] == (rr, cc, t[rr as int][cc as int]));
            }
        }
    }
}

/// `last_nonempty` names the last column holding content: it is in range,
/// nonempty itself, and everything right of it is empty.
proof fn lemma_last_nonempty(row: Seq<Seq<char>>)
    ensures
        -1 <= last_nonempty(row) < row.len(),
        last_nonempty(row) >= 0 ==> row[last_nonempty(row)].len() > 0,
        forall|c: int| last_nonempty(row) < c < row.len() ==> row[c].len() == 0,
        row_has_content(row) <==> last_nonempty(row) >= 0,
    decreases row.len(),
{
    let rest = row.drop_last();
    if row.len() > 0 {
        lemma_last_nonempty(rest);
        if row.last().len() > 0 {
            assert(row[row.len() - 1] == row.last());
            assert(row[row.len() - 1].len() > 0);
        } else {
            if last_nonempty(rest) >= 0 {
                assert(row[last_nonempty(rest)] == rest[last_nonempty(rest)]);
            }
            assert forall|c: int| last_nonempty(row) < c < row.len() implies row[c].len() == 0 by {
                if c < row.len() - 1 {
                    assert(row[c] == rest[c]);
                    assert(rest[c].len() == 0);
                } else {
                    assert(row[c] == row.last());
                }
            }
            if row_has_content(row) {
                let c = choose|c: int| 0 <= c < row.len() && row[c].len() > 0;
                assert(rest[c] == row[c]);
                assert(row_has_content(rest));
            }
            if row_has_content(rest) {
                let c = choose|c: int| 0 <= c < rest.len() && rest[c].len() > 0;
                assert(row[c] == rest[c]);
                assert(row[c].len() > 0);
                assert(row_has_content(row));
            }
        }
    }
}

/// The round-trip law. A table written as a store of its nonempty cells
/// reads back as the table itself, except that each row loses its trailing
/// empty values; rows without any content must not occur, as the store
/// could not say how many such rows once stood below its last cell.
pub proof fn lemma_round_trip(t: Seq<Seq<Seq<char>>>)
    requires
        forall|r: int| 0 <= r < t.len() ==> row_has_content(#[trigger] t[r]),
    ensures
        read_back(table_cells(t)) == strip_table(t),
{
    let cells = table_cells(t);
    lemma_cells_from_exact(t, 0, 0);
    if t.len() == 0 {
        assert(cells.len() == 0);
        assert(read_back(cells) =~~= strip_table(t));
    } else {
        // Every row holds content, so the store reaches exactly to the last row.
        let lr = (t.len() - 1) as nat;
        lemma_last_nonempty(t[lr as int]);
        let lc = last_nonempty(t[lr as int]);
        assert(t[lr as int][lc].len() > 0);
        assert(at_or_after(lr, lc as nat, 0, 0));
        assert(cells.len() > 0);
        lemma_max_row(cells);
        assert(max_row(cells) >= lr);
        assert(max_row(cells) == lr);
        assert(height(cells) == t.len());

        assert forall|r: int| 0 <= r < t.len() implies (Seq::new(
            row_width(cells, r as nat),
            |c: int| value_at(cells, r as nat, c as nat),
        ) =~= strip_row(t[r])) by {
            lemma_last_nonempty(t[r]);
            lemma_row_width(cells, r as nat);
            let ln = last_nonempty(t[r]);
            // The last content cell is stored, so the width reaches past it ...
            assert(ln >= 0);
            assert(t[r][ln].len() > 0);
            assert(at_or_after(r as nat, ln as nat, 0, 0));
            assert(row_width(cells, r as nat) > ln);
            // ... and nothing beyond it is stored, so the width stops there.
            assert(row_width(cells, r as nat) <= ln + 1);
            assert(strip_row(t[r]).len() == ln + 1);
            assert forall|c: int| 0 <= c <= ln implies value_at(cells, r as nat, c as nat) == t[r][c] by {
                lemma_value_at(cells, r as nat, c as nat);
                if t[r][c].len() > 0 {
                    assert(at_or_after(r as nat, c as nat, 0, 0));
                    assert(exists|k: int|
                        0 <= k < cells.len() && #[trigger] cells[k] == (
                        r as nat,
                        c as nat,
                        t[r][c],
                    ));
                    let k = choose|k: int|
                        0 <= k < cells.len() && #[trigger] cells[k] == (r as nat, c as nat, t[r][c]);
                    assert(cells[k].0 == r as nat && cells[k].1 == c as nat);
                    let k2 = choose|k2: int|
                        0 <= k2 < cells.len() && #[trigger] cells[k2].0 == r as nat && cells[k2].1
                            == c as nat && cells[k2].2 == value_at(cells, r as nat, c as nat);
                    assert(cells[k2].2 == t[r][c]);
                } else {
                    if exists|k: int|
                        0 <= k < cells.len() && #[trigger] cells[k].0 == r as nat && cells[k].1
                            == c as nat {
                        let k = choose|k: int|
                            0 <= k < cells.len() && #[trigger] cells[k].0 == r as nat && cells[k].1
                                == c as nat;
                        assert(cells[k].2.len() > 0 && cells[k].2 == t[r][c]);
                    }
                    assert(value_at(cells, r as nat, c as nat) =~= t[r][c]);
                }
            }
        }
        assert(read_back(cells) =~~= strip_table(t));
    }
}

/// The empty-cell law, with no assumption on the rest of the table: an
/// empty cell is never stored, so a reader sees the empty string at its
/// position whenever content follows it in its own row, and sees the row
/// end at or before its position otherwise.
pub proof fn lemma_empty_cell_readback(t: Seq<Seq<Seq<char>>>, r: int, c: int)
    requires
        0 <= r < t.len(),
        0 <= c < t[r].len(),
        t[r][c].len() == 0,
    ensures
        value_at(table_cells(t), r as nat, c as nat) == Seq::<char>::empty(),
        last_nonempty(t[r]) > c ==> c < row_width(table_cells(t), r as nat),
        last_nonempty(t[r]) < c ==> row_width(table_cells(t), r as nat) <= c,
{
    let cells = table_cells(t);
    lemma_cells_from_exact(t, 0, 0);
    lemma_value_at(cells, r as nat, c as nat);
    lemma_row_width(cells, r as nat);
    lemma_last_nonempty(t[r]);
    // Nothing is stored at (r, c): a stored cell carries a nonempty value.
    if exists|k: int|
        0 <= k < cells.len() && #[trigger] cells[k].0 == r as nat && cells[k].1 == c as nat {
        let k = choose|k: int|
            0 <= k < cells.len() && #[trigger] cells[k].0 == r as nat && cells[k].1 == c as nat;
        assert(cells[k].2 == t[r][c] && cells[k].2.len() > 0);
        assert(false);
    }
    assert(value_at(cells, r as nat, c as nat) == Seq::<char>::empty());
    let ln = last_nonempty(t[r]);
    if ln > c {
        // The last content cell of the row is stored, so the row reaches past c.
        assert(t[r][ln].len() > 0);
        assert(at_or_after(r as nat, ln as nat, 0, 0));
        let k = choose|k: int|
            0 <= k < cells.len() && #[trigger] cells[k] == (r as nat, ln as nat, t[r][ln]);
        assert(cells[k].0 == r as nat && cells[k].1 < row_width(cells, r as nat));
        assert(c < row_width(cells, r as nat));
    }
    if ln < c {
        // Every stored cell of the row lies at or before ln, so the row
        // ends at or before c.
        if row_width(cells, r as nat) > 0 {
            let k = choose|k: int|
                0 <= k < cells.len() && #[trigger] cells[k].0 == r as nat && cells[k].1 + 1
                    == row_width(cells, r as nat);
            assert(cells[k].1 < t[r].len() && t[r][cells[k].1 as int] == cells[k].2
                && cells[k].2.len() > 0);
            assert(cells[k].1 <= ln);
            assert(row_width(cells, r as nat) <= ln + 1);
        }
    }
}

/// The round-trip law carried onto a worksheet plan: the cells a plan
/// writes for a table whose every row holds content read back as the table
/// with each row's trailing empty values dropped.
pub proof fn lemma_plan_round_trip(
    p: SheetPlan,
    name: Seq<char>,
    t: Seq<Seq<Seq<char>>>,
    forced: Option<nat>,
)
    requires
        p.is_plan_for(name, t, forced),
        forall|r: int| 0 <= r < t.len() ==> row_has_content(#[trigger] t[r]),
    ensures
        read_back(p.cells@.map_values(|cw: CellWrite| cw.model())) == strip_table(t),
{
    lemma_round_trip(t);
}

} // verus!
