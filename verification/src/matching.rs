//! What it means for a `]` to match a `[`.
use vstd::prelude::*;

use crate::machine::{CLOSE, OPEN};

verus! {

/// The effect of one bracket on the nesting depth: `[` opens, `]` closes.
pub open spec fn depth_change(b: u8) -> int {
    if b == OPEN {
        1
    } else if b == CLOSE {
        -1
    } else {
        0
    }
}

/// The number of `[` minus the number of `]` in `code[from..to]`.
pub open spec fn balance(code: Seq<u8>, from: int, to: int) -> int
    decreases to - from,
{
    if to <= from {
        0
    } else {
        balance(code, from, to - 1) + depth_change(code[to - 1])
    }
}

/// Whether the `]` at `j` closes the `[` at `pos`, ignoring what lies between:
/// the brackets strictly between them balance out.
pub open spec fn closes(code: Seq<u8>, pos: int, j: int) -> bool {
    &&& pos < j < code.len()
    &&& code[j] == CLOSE
    &&& balance(code, pos + 1, j) == 0
}

/// Whether `j` is the matching `]` of the bracket at `pos`: the first
/// position after `pos` that closes it.
pub open spec fn is_match(code: Seq<u8>, pos: int, j: int) -> bool {
    &&& closes(code, pos, j)
    &&& forall|k: int| pos < k < j ==> !#[trigger] closes(code, pos, k)
}

/// The matching `]` of the bracket at `pos`, if there is one.
pub open spec fn matching(code: Seq<u8>, pos: int) -> Option<int> {
    if exists|j: int| is_match(code, pos, j) {
        Some(choose|j: int| is_match(code, pos, j))
    } else {
        None
    }
}

/// A bracket has at most one match.
pub proof fn lemma_match_unique(code: Seq<u8>, pos: int, j1: int, j2: int)
    requires
        is_match(code, pos, j1),
        is_match(code, pos, j2),
    ensures
        j1 == j2,
{
    if j1 < j2 {
        assert(!closes(code, pos, j1));
    } else if j2 < j1 {
        assert(!closes(code, pos, j2));
    }
}

/// `matching` names the match where there is one.
pub proof fn lemma_matching(code: Seq<u8>, pos: int, j: int)
    requires
        is_match(code, pos, j),
    ensures
        matching(code, pos) == Some(j),
{
    let c = choose|j: int| is_match(code, pos, j);
    lemma_match_unique(code, pos, j, c);
}

} // verus!
