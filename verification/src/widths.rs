//! The column-size estimator: a display width for each column of a table,
//! from the longest cell value observed in that column.

use vstd::prelude::*;
use vstd::pervasive::VecAdditionalExecFns;
use vstd::string::StrSliceExecFns;

verus! {

/// Narrowest display width the estimator assigns to a sized column.
pub const MIN_WIDTH: usize = 5;

/// Widest display width the estimator assigns to a sized column.
pub const MAX_WIDTH: usize = 70;

/// The larger of two naturals.
pub open spec fn nat_max(a: nat, b: nat) -> nat {
    if a >= b {
        a
    } else {
        b
    }
}

/// The length of the cell at `(r, c)` of table `t`, and 0 where the table
/// has no such cell (row index out of range, or a row too short).
pub open spec fn cell_len(t: Seq<Seq<Seq<char>>>, r: int, c: int) -> nat {
    if 0 <= r < t.len() && 0 <= c < t[r].len() {
        t[r][c].len()
    } else {
        0
    }
}

/// The longest cell observed in column `c` over all rows of `t`.
pub open spec fn col_max(t: Seq<Seq<Seq<char>>>, c: int) -> nat
    decreases t.len(),
{
    if t.len() == 0 {
        0
    } else {
        nat_max(col_max(t.drop_last(), c), cell_len(t, t.len() - 1, c))
    }
}

/// The number of columns of `t`: the length of its longest row.
pub open spec fn ncols(t: Seq<Seq<Seq<char>>>) -> nat
    decreases t.len(),
{
    if t.len() == 0 {
        0
    } else {
        nat_max(ncols(t.drop_last()), t.last().len())
    }
}

/// The display width of a column whose longest observed value has
/// `max_len` characters: a forced width overrides the estimate uniformly;
/// otherwise the estimate is `max_len` clamped to `[MIN_WIDTH, MAX_WIDTH]`.
pub open spec fn width_spec(max_len: nat, forced: Option<nat>) -> nat {
    match forced {
        Some(w) => w,
        None => if max_len < MIN_WIDTH as nat {
            MIN_WIDTH as nat
        } else if max_len > MAX_WIDTH as nat {
            MAX_WIDTH as nat
        } else {
            max_len
        },
    }
}

/// A forced width as the estimator's model sees it.
pub open spec fn opt_width(forced: Option<usize>) -> Option<nat> {
    match forced {
        Some(w) => Some(w as nat),
        None => None,
    }
}

/// The width settings for the columns of `t` from column `c` on, in
/// increasing column order: every column in which some cell has at least
/// one character gets a width; columns without observed content are left
/// unsized.
pub open spec fn widths_from(t: Seq<Seq<Seq<char>>>, forced: Option<nat>, c: nat) -> Seq<(nat, nat)>
    decreases ncols(t) - c,
{
    if c >= ncols(t) {
        Seq::empty()
    } else if col_max(t, c as int) > 0 {
        seq![(c, width_spec(col_max(t, c as int), forced))] + widths_from(t, forced, (c + 1) as nat)
    } else {
        widths_from(t, forced, (c + 1) as nat)
    }
}

/// All width settings for table `t`.
pub open spec fn widths_spec(t: Seq<Seq<Seq<char>>>, forced: Option<nat>) -> Seq<(nat, nat)> {
    widths_from(t, forced, 0)
}

/// One column-width setting of a sheet plan: column `col` is displayed
/// `width` characters wide.
#[derive(Debug, Clone, Copy, PartialEq, Eq, Structural)]
pub struct ColumnWidth {
    pub col: usize,
    pub width: usize,
}

impl ColumnWidth {
    /// The pair this setting stands for.
    pub open spec fn model(self) -> (nat, nat) {
        (self.col as nat, self.width as nat)
    }
}

/// The display width for one column, from the longest value observed in it.
pub fn width_for(max_len: usize, forced: Option<usize>) -> (w: usize)
    ensures
        w as nat == width_spec(max_len as nat, opt_width(forced)),
{
    match forced {
        Some(w) => w,
        None => if max_len < MIN_WIDTH {
            MIN_WIDTH
        } else if max_len > MAX_WIDTH {
            MAX_WIDTH
        } else {
            max_len
        },
    }
}

proof fn lemma_take_succ_views(t: Seq<Seq<Seq<char>>>, i: int)
    requires
        0 <= i < t.len(),
    ensures
        t.take(i + 1).drop_last() =~~= t.take(i),
        t.take(i + 1).last() == t[i],
{
}

/// Extending the observed rows by row `i` extends each column maximum by
/// that row's cell.
proof fn lemma_col_max_take_succ(t: Seq<Seq<Seq<char>>>, i: int, c: int)
    requires
        0 <= i < t.len(),
    ensures
        col_max(t.take(i + 1), c) == nat_max(col_max(t.take(i), c), cell_len(t, i, c)),
{
    lemma_take_succ_views(t, i);
    assert(cell_len(t.take(i + 1), i, c) == cell_len(t, i, c));
}

/// A column index at or beyond the column count observes no cell at all.
proof fn lemma_col_max_zero_beyond(t: Seq<Seq<Seq<char>>>, c: int)
    requires
        c >= ncols(t),
    ensures
        col_max(t, c) == 0,
    decreases t.len(),
{
    if t.len() > 0 {
        lemma_col_max_zero_beyond(t.drop_last(), c);
    }
}

/// Extending the observed rows by row `i` extends the column count by that
/// row's length.
proof fn lemma_ncols_take_succ(t: Seq<Seq<Seq<char>>>, i: int)
    requires
        0 <= i < t.len(),
    ensures
        ncols(t.take(i + 1)) == nat_max(ncols(t.take(i)), t[i].len()),
{
    lemma_take_succ_views(t, i);
}

/// The longest observed value of each column of `table`, as one maximum
/// per column index, over all rows; a column index beyond a row's length
/// contributes nothing for that row.
pub fn column_max_lengths(table: &Vec<Vec<String>>) -> (maxes: Vec<usize>)
    ensures
        maxes@.len() == ncols(table.deep_view()),
        forall|c: int|
            0 <= c < maxes@.len() ==> maxes@[c] as nat == col_max(table.deep_view(), c),
{
    let ghost t = table.deep_view();
    let mut maxes: Vec<usize> = Vec::new();
    let mut i: usize = 0;
    proof {
        assert(t.take(0int) =~~= Seq::<Seq<Seq<char>>>::empty());
    }
    while i < table.len()
        invariant
            i <= table@.len(),
            t == table.deep_view(),
            t.len() == table@.len(),
            maxes@.len() == ncols(t.take(i as int)),
            forall|c: int|
                0 <= c < maxes@.len() ==> maxes@[c] as nat == col_max(t.take(i as int), c),
        decreases table@.len() - i,
    {
        let row = &table[i];
        assert(row.deep_view() == t[i as int]);
        let mut j: usize = 0;
        while j < row.len()
            invariant
                j <= row@.len(),
                t == table.deep_view(),
                i < t.len(),
                row.deep_view() == t[i as int],
                row@.len() == t[i as int].len(),
                maxes@.len() == nat_max(ncols(t.take(i as int)), j as nat),
                forall|c: int|
                    0 <= c < maxes@.len() ==> maxes@[c] as nat == nat_max(
                        col_max(t.take(i as int), c),
                        if c < j { cell_len(t, i as int, c) } else { 0 },
                    ),
            decreases row@.len() - j,
        {
            let l = row[j].as_str().unicode_len();
            assert(row@[j as int]@ == t[i as int][j as int]);
            assert(l as nat == cell_len(t, i as int, j as int));
            if j < maxes.len() {
                if l > maxes[j] {
                    maxes.set(j, l);
                }
            } else {
                proof {
                    lemma_col_max_zero_beyond(t.take(i as int), j as int);
                }
                maxes.push(l);
            }
            j += 1;
        }
        proof {
            lemma_ncols_take_succ(t, i as int);
            assert forall|c: int| 0 <= c < maxes@.len() implies maxes@[c] as nat == col_max(
                t.take(i as int + 1),
                c,
            ) by {
                lemma_col_max_take_succ(t, i as int, c);
            }
            assert(maxes@.len() == ncols(t.take(i as int + 1)));
        }
        i += 1;
    }
    proof {
        assert(t.take(t.len() as int) =~~= t);
    }
    maxes
}

/// The width settings for `table`: one per column with observed content,
/// in increasing column order, each width from [`width_for`].
pub fn column_widths(table: &Vec<Vec<String>>, forced: Option<usize>) -> (r: Vec<ColumnWidth>)
    ensures
        r@.map_values(|cw: ColumnWidth| cw.model()) == widths_spec(
            table.deep_view(),
            opt_width(forced),
        ),
{
    let ghost t = table.deep_view();
    let ghost f = opt_width(forced);
    let maxes = column_max_lengths(table);
    let mut r: Vec<ColumnWidth> = Vec::new();
    let mut c: usize = 0;
    while c < maxes.len()
        invariant
            c <= maxes@.len(),
            maxes@.len() == ncols(t),
            forall|k: int| 0 <= k < maxes@.len() ==> maxes@[k] as nat == col_max(t, k),
            f == opt_width(forced),
            r@.map_values(|cw: ColumnWidth| cw.model()) + widths_from(t, f, c as nat)
                =~= widths_from(t, f, 0),
        decreases maxes@.len() - c,
    {
        let ghost before = r@;
        if maxes[c] > 0 {
            let w = width_for(maxes[c], forced);
            r.push(ColumnWidth { col: c, width: w });
            proof {
                assert(r@.map_values(|cw: ColumnWidth| cw.model()) =~= before.map_values(
                    |cw: ColumnWidth| cw.model(),
                ).push((c as nat, width_spec(col_max(t, c as int), f))));
                assert(widths_from(t, f, c as nat) == seq![
                    (c as nat, width_spec(col_max(t, c as int), f)),
                ] + widths_from(t, f, (c + 1) as nat));
                assert(before.map_values(|cw: ColumnWidth| cw.model()) + widths_from(t, f, c as nat)
                    =~= r@.map_values(|cw: ColumnWidth| cw.model()) + widths_from(
                    t,
                    f,
                    (c + 1) as nat,
                ));
            }
        }
        c += 1;
    }
    proof {
        assert(widths_from(t, f, c as nat) =~= Seq::<(nat, nat)>::empty());
        assert(r@.map_values(|cw: ColumnWidth| cw.model()) =~= widths_from(t, f, 0));
    }
    r
}

} // verus!
