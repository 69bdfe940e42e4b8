//! Lines and columns: where a position in the source lies, counted from 1.
use vstd::prelude::*;

verus! {

/// The line of position `p` in `s`: one more than the number of line feeds before `p`.
pub open spec fn line_at(s: Seq<char>, p: int) -> nat
    decreases p,
{
    if p <= 0 {
        1
    } else if s[p - 1] == '\n' {
        line_at(s, p - 1) + 1
    } else {
        line_at(s, p - 1)
    }
}

/// The column of position `p` in `s`: one more than the number of characters
/// between the last line feed before `p` and `p`.
pub open spec fn col_at(s: Seq<char>, p: int) -> nat
    decreases p,
{
    if p <= 0 {
        1
    } else if s[p - 1] == '\n' {
        1
    } else {
        col_at(s, p - 1) + 1
    }
}

/// Neither the line nor the column of a position exceeds the position plus one.
pub proof fn lemma_line_col_bounds(s: Seq<char>, p: int)
    requires
        0 <= p,
    ensures
        1 <= line_at(s, p) <= p + 1,
        1 <= col_at(s, p) <= p + 1,
    decreases p,
{
    if p > 0 {
        lemma_line_col_bounds(s, p - 1);
    }
}

} // verus!
