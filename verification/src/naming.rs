//! Worksheet names: explicit names from a caller-supplied list, the
//! `Sheet<N>` fallback pattern past its end, and the duplicate check.

use vstd::prelude::*;
use vstd::string::StrSliceExecFns;
use vstd::string::StringExecFns;

verus! {

/// The character for one decimal digit.
pub open spec fn digit_char(d: nat) -> char {
    if d == 0 {
        '0'
    } else if d == 1 {
        '1'
    } else if d == 2 {
        '2'
    } else if d == 3 {
        '3'
    } else if d == 4 {
        '4'
    } else if d == 5 {
        '5'
    } else if d == 6 {
        '6'
    } else if d == 7 {
        '7'
    } else if d == 8 {
        '8'
    } else {
        '9'
    }
}

/// The decimal rendering of `n`, most significant digit first, without
/// leading zeros (a single `'0'` for 0).
pub open spec fn decimal_of(n: nat) -> Seq<char>
    decreases n,
{
    if n < 10 {
        seq![digit_char(n)]
    } else {
        decimal_of(n / 10) + seq![digit_char(n % 10)]
    }
}

/// The name of worksheet `i` (0-based) when the caller supplied the names
/// in `names`: the supplied name where there is one, else `Sheet<i+1>`.
pub open spec fn sheet_name_spec(names: Seq<Seq<char>>, i: nat) -> Seq<char> {
    if i < names.len() {
        names[i as int]
    } else {
        "Sheet"@ + decimal_of((i + 1) as nat)
    }
}

/// Worksheet `j` repeats the name of an earlier worksheet.
pub open spec fn has_earlier_dup(names: Seq<Seq<char>>, j: int) -> bool {
    exists|i: int| 0 <= i < j && names[i] == names[j]
}

/// The string slice for one decimal digit.
fn digit_str(d: usize) -> (r: &'static str)
    requires
        d < 10,
    ensures
        r@ == seq![digit_char(d as nat)],
{
    let r: &'static str = match d {
        0 => "0",
        1 => "1",
        2 => "2",
        3 => "3",
        4 => "4",
        5 => "5",
        6 => "6",
        7 => "7",
        8 => "8",
        _ => "9",
    };
    proof {
        reveal_strlit("0");
        reveal_strlit("1");
        reveal_strlit("2");
        reveal_strlit("3");
        reveal_strlit("4");
        reveal_strlit("5");
        reveal_strlit("6");
        reveal_strlit("7");
        reveal_strlit("8");
        reveal_strlit("9");
        assert(r@ =~= seq![digit_char(d as nat)]);
    }
    r
}

/// Appends the decimal rendering of `n` to `out`.
fn push_decimal(n: usize, out: &mut String)
    ensures
        final(out)@ == old(out)@ + decimal_of(n as nat),
    decreases n,
{
    if n >= 10 {
        push_decimal(n / 10, out);
        out.append(digit_str(n % 10));
        proof {
            assert(final(out)@ =~= old(out)@ + decimal_of(n as nat));
        }
    } else {
        out.append(digit_str(n));
        proof {
            assert(final(out)@ =~= old(out)@ + decimal_of(n as nat));
        }
    }
}

/// The decimal rendering of `n` as an owned string.
pub fn usize_to_decimal(n: usize) -> (r: String)
    ensures
        r@ == decimal_of(n as nat),
{
    let mut s = String::new();
    push_decimal(n, &mut s);
    proof {
        assert(s@ =~= decimal_of(n as nat));
    }
    s
}

/// The name of worksheet `i`: `names[i]` where the list reaches that far,
/// else the fallback `Sheet<i+1>` (1-based).
pub fn sheet_name_for(names: &Vec<String>, i: usize) -> (r: String)
    requires
        i < usize::MAX,
    ensures
        r@ == sheet_name_spec(names.deep_view(), i as nat),
{
    if i < names.len() {
        names[i].clone()
    } else {
        let mut s = String::from_str("Sheet");
        let digits = usize_to_decimal(i + 1);
        s.append(digits.as_str());
        s
    }
}

/// The names of `count` worksheets, one per input table in order: the
/// supplied names first, the `Sheet<N>` fallback past their end.
pub fn resolve_sheet_names(names: &Vec<String>, count: usize) -> (r: Vec<String>)
    ensures
        r.deep_view().len() == count,
        forall|k: int|
            0 <= k < count ==> r.deep_view()[k] == sheet_name_spec(names.deep_view(), k as nat),
{
    let mut r: Vec<String> = Vec::new();
    let mut i: usize = 0;
    while i < count
        invariant
            i <= count,
            r.deep_view().len() == i,
            forall|k: int|
                0 <= k < i ==> r.deep_view()[k] == sheet_name_spec(names.deep_view(), k as nat),
        decreases count - i,
    {
        let ghost before = r.deep_view();
        let name = sheet_name_for(names, i);
        let ghost nv = name@;
        r.push(name);
        proof {
            assert(r.deep_view() =~= before.push(nv));
        }
        i += 1;
    }
    r
}

/// Looks for a repeated name: `Some(j)` gives the first position whose
/// name already appeared earlier in the list, `None` says all names are
/// distinct.
pub fn find_duplicate(names: &Vec<String>) -> (r: Option<usize>)
    ensures
        match r {
            Some(j) => j < names.deep_view().len() && has_earlier_dup(names.deep_view(), j as int)
                && (forall|k: int| 0 <= k < j ==> !has_earlier_dup(names.deep_view(), k)),
            None => forall|k: int|
                0 <= k < names.deep_view().len() ==> !has_earlier_dup(names.deep_view(), k),
        },
{
    let ghost dv = names.deep_view();
    let mut j: usize = 0;
    while j < names.len()
        invariant
            j <= names@.len(),
            dv == names.deep_view(),
            dv.len() == names@.len(),
            forall|k: int| 0 <= k < j ==> !has_earlier_dup(dv, k),
        decreases names@.len() - j,
    {
        let mut i: usize = 0;
        while i < j
            invariant
                i <= j,
                j < names@.len(),
                dv == names.deep_view(),
                dv.len() == names@.len(),
                forall|k: int| 0 <= k < i ==> dv[k] != dv[j as int],
                forall|k: int| 0 <= k < j ==> !has_earlier_dup(dv, k),
            decreases j - i,
        {
            if names[i] == names[j] {
                assert(dv[i as int] == dv[j as int]);
                assert(has_earlier_dup(dv, j as int));
                return Some(j);
            }
            i += 1;
        }
        assert(!has_earlier_dup(dv, j as int));
        j += 1;
    }
    None
}

} // verus!
