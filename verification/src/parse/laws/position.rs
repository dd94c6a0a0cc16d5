//! What holds of places in the input.
use vstd::prelude::*;
use crate::parse::{line_breaks, line_start, position_at};

verus! {

/// The first byte is in the first column of the first line.
pub proof fn law_first_position(s: Seq<u8>)
    ensures
        position_at(s, 0).line == 1,
        position_at(s, 0).col == 1,
{
}

/// After a line feed comes the first column of the next line, and after any other byte the next
/// column of the same line.
pub proof fn law_next_position(s: Seq<u8>, at: int)
    requires
        0 <= at < s.len() < usize::MAX,
    ensures
        s[at] == 10 ==> position_at(s, at + 1).line == position_at(s, at).line + 1 && position_at(
            s,
            at + 1,
        ).col == 1,
        s[at] != 10 ==> position_at(s, at + 1).line == position_at(s, at).line && position_at(
            s,
            at + 1,
        ).col == position_at(s, at).col + 1,
{
    lemma_bounds(s, at);
}

/// There are no more lines or columns than bytes.
proof fn lemma_bounds(s: Seq<u8>, at: int)
    requires
        0 <= at <= s.len(),
    ensures
        0 <= line_breaks(s, at) <= at,
        0 <= line_start(s, at) <= at,
    decreases at,
{
    if at > 0 {
        lemma_bounds(s, at - 1);
    }
}

} // verus!
