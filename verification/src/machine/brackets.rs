//! The bracket table: which `[` belongs to which `]`.
use std::collections::HashMap;

use vstd::prelude::*;

use super::error::{Error, Result};
use crate::matching::{balance, closes, depth_change, is_match, lemma_matching, matching};

verus! {

broadcast use vstd::std_specs::hash::group_hash_axioms;

/// The byte of the instruction `[`.
pub const OPEN: u8 = 0x5b;

/// The byte of the instruction `]`.
pub const CLOSE: u8 = 0x5d;

/// Scans `p` from position `i` on, with the open brackets in `stack` still
/// waiting for their partner and the pairs found so far in `m`.
///
/// Each `[` is pushed; each `]` pairs with the most recent unpaired `[`, and
/// both positions are entered in the table, each mapping to the other.
/// A `]` with no unpaired `[` before it ends the scan with its position.
/// A `[` that is still unpaired at the end is simply left out of the table.
pub open spec fn scan_brackets(
    p: Seq<u8>,
    i: int,
    stack: Seq<usize>,
    m: Map<usize, usize>,
) -> core::result::Result<Map<usize, usize>, usize>
    decreases p.len() - i,
{
    if i < 0 || i >= p.len() {
        Ok(m)
    } else if p[i] == OPEN {
        scan_brackets(p, i + 1, stack.push(i as usize), m)
    } else if p[i] == CLOSE {
        if stack.len() == 0 {
            Err(i as usize)
        } else {
            let open = stack.last();
            scan_brackets(p, i + 1, stack.drop_last(), m.insert(open, i as usize).insert(i as usize, open))
        }
    } else {
        scan_brackets(p, i + 1, stack, m)
    }
}

/// The bracket table of a program, or the position of the first `]` that
/// has no `[` to pair with.
pub open spec fn bracket_table(p: Seq<u8>) -> core::result::Result<Map<usize, usize>, usize> {
    scan_brackets(p, 0, Seq::empty(), Map::empty())
}

/// Every position in a scan's table, and every position it maps to, lies in
/// the program.
proof fn lemma_scan_positions(p: Seq<u8>, i: int, stack: Seq<usize>, m: Map<usize, usize>)
    requires
        0 <= i <= p.len(),
        p.len() <= usize::MAX,
        forall|k: usize| #[trigger] m.contains_key(k) ==> k < i && m[k] < i,
        forall|j: int| 0 <= j < stack.len() ==> #[trigger] stack[j] < i,
    ensures
        scan_brackets(p, i, stack, m) matches Ok(t) ==> forall|k: usize|
            #[trigger] t.contains_key(k) ==> k < p.len() && t[k] < p.len(),
    decreases p.len() - i,
{
    if i < p.len() {
        if p[i] == OPEN {
            lemma_scan_positions(p, i + 1, stack.push(i as usize), m);
        } else if p[i] == CLOSE {
            if stack.len() > 0 {
                let open = stack.last();
                lemma_scan_positions(
                    p,
                    i + 1,
                    stack.drop_last(),
                    m.insert(open, i as usize).insert(i as usize, open),
                );
            }
        } else {
            lemma_scan_positions(p, i + 1, stack, m);
        }
    }
}

/// Every position in a program's bracket table, and every position it maps
/// to, lies in the program.
pub proof fn lemma_table_positions(p: Seq<u8>)
    requires
        p.len() <= usize::MAX,
    ensures
        bracket_table(p) matches Ok(t) ==> forall|k: usize|
            #[trigger] t.contains_key(k) ==> k < p.len() && t[k] < p.len(),
{
    lemma_scan_positions(p, 0, Seq::empty(), Map::empty());
}

/// What holds of a scan's state at position `i` when nothing went wrong
/// before it.
pub open spec fn scan_inv(p: Seq<u8>, i: int, stack: Seq<usize>, m: Map<usize, usize>) -> bool {
    &&& 0 <= i <= p.len()
    &&& p.len() <= usize::MAX
    // the open brackets not yet closed, in order
    &&& forall|j: int| #![trigger stack[j]] 0 <= j < stack.len() ==> {
        &&& stack[j] < i
        &&& p[stack[j] as int] == OPEN
        &&& !m.contains_key(stack[j])
        &&& balance(p, stack[j] + 1, i) == stack.len() - 1 - j
        &&& forall|t: int| stack[j] < t < i ==> !#[trigger] closes(p, stack[j] as int, t)
    }
    &&& forall|j1: int, j2: int| 0 <= j1 < j2 < stack.len() ==> stack[j1] < stack[j2]
    // the pairs found, each entered both ways
    &&& forall|k: usize| #[trigger] m.contains_key(k) ==> {
        &&& k < i
        &&& m[k] < i
        &&& m.contains_key(m[k])
        &&& m[m[k]] == k
        &&& (p[k as int] == OPEN && is_match(p, k as int, m[k] as int)) || (p[k as int] == CLOSE
            && p[m[k] as int] == OPEN && m[k] < k)
    }
    // every bracket before `i` is paired, or an open one waits on the stack
    &&& forall|k: int| 0 <= k < i && #[trigger] p[k] == CLOSE ==> m.contains_key(k as usize)
    &&& forall|k: int|
        0 <= k < i && #[trigger] p[k] == OPEN ==> m.contains_key(k as usize) || stack.contains(
            k as usize,
        )
}

/// What a finished scan's table is: every pair of matching brackets,
/// entered both ways, and nothing else.
pub open spec fn table_pairs(p: Seq<u8>, t: Map<usize, usize>) -> bool {
    &&& forall|k: usize| #[trigger] t.contains_key(k) ==> {
        &&& k < p.len()
        &&& t[k] < p.len()
        &&& t.contains_key(t[k])
        &&& t[t[k]] == k
        &&& (p[k as int] == OPEN && p[t[k] as int] == CLOSE && k < t[k] && matching(p, k as int)
            == Some(t[k] as int)) || (p[k as int] == CLOSE && p[t[k] as int] == OPEN && t[k] < k)
    }
    &&& forall|k: int| 0 <= k < p.len() && #[trigger] p[k] == CLOSE ==> t.contains_key(k as usize)
    &&& forall|k: int|
        0 <= k < p.len() && #[trigger] p[k] == OPEN && !t.contains_key(k as usize) ==> matching(
            p,
            k,
        ) is None
}

/// The stack of the scan after position `i`.
pub open spec fn scan_next_stack(p: Seq<u8>, i: int, stack: Seq<usize>) -> Seq<usize> {
    if p[i] == OPEN {
        stack.push(i as usize)
    } else if p[i] == CLOSE && stack.len() > 0 {
        stack.drop_last()
    } else {
        stack
    }
}

/// The table of the scan after position `i`.
pub open spec fn scan_next_map(p: Seq<u8>, i: int, stack: Seq<usize>, m: Map<usize, usize>) -> Map<
    usize,
    usize,
> {
    if p[i] == CLOSE && stack.len() > 0 {
        m.insert(stack.last(), i as usize).insert(i as usize, stack.last())
    } else {
        m
    }
}

/// One step of the scan keeps `scan_inv`.
proof fn lemma_scan_inv_next(p: Seq<u8>, i: int, stack: Seq<usize>, m: Map<usize, usize>)
    requires
        scan_inv(p, i, stack, m),
        i < p.len(),
        !(p[i] == CLOSE && stack.len() == 0),
    ensures
        scan_inv(p, i + 1, scan_next_stack(p, i, stack), scan_next_map(p, i, stack, m)),
        scan_brackets(p, i, stack, m) == scan_brackets(
            p,
            i + 1,
            scan_next_stack(p, i, stack),
            scan_next_map(p, i, stack, m),
        ),
{
        let c = p[i];
        let iu = i as usize;
        assert(iu as int == i);
        if c == OPEN {
            let s2 = stack.push(iu);
            assert forall|j: int| #![trigger s2[j]] 0 <= j < s2.len() implies {
                &&& s2[j] < i + 1
                &&& p[s2[j] as int] == OPEN
                &&& !m.contains_key(s2[j])
                &&& balance(p, s2[j] + 1, i + 1) == s2.len() - 1 - j
                &&& forall|t: int| s2[j] < t < i + 1 ==> !#[trigger] closes(p, s2[j] as int, t)
            } by {
                if j < stack.len() {
                    assert(s2[j] == stack[j]);
                    assert(balance(p, stack[j] + 1, i + 1) == balance(p, stack[j] + 1, i) + 1);
                    assert forall|t: int| s2[j] < t < i + 1 implies !#[trigger] closes(p, s2[j] as int, t) by {
                        if t < i {
                        } else {
                            assert(p[t] == OPEN);
                        }
                    }
                } else {
                    assert(s2[j] == iu);
                }
            }
            assert forall|k: int| 0 <= k < i + 1 && #[trigger] p[k] == OPEN implies m.contains_key(k as usize) || s2.contains(k as usize) by {
                if k == i {
                    assert(s2[s2.len() - 1] == iu);
                } else if !m.contains_key(k as usize) {
                    assert(stack.contains(k as usize));
                    let j = choose|j: int| 0 <= j < stack.len() && stack[j] == k as usize;
                    assert(s2[j] == stack[j]);
                }
            }
            assert(scan_inv(p, i + 1, s2, m));
        } else if c == CLOSE {
            if stack.len() > 0 {
                let n = stack.len() - 1;
                let open = stack.last();
                let s2 = stack.drop_last();
                let m2 = m.insert(open, iu).insert(iu, open);
                assert(stack[n] == open);
                assert(balance(p, open + 1, i) == 0);
                assert(closes(p, open as int, i));
                assert(is_match(p, open as int, i));
                assert forall|j: int| #![trigger s2[j]] 0 <= j < s2.len() implies {
                    &&& s2[j] < i + 1
                    &&& p[s2[j] as int] == OPEN
                    &&& !m2.contains_key(s2[j])
                    &&& balance(p, s2[j] + 1, i + 1) == s2.len() - 1 - j
                    &&& forall|t: int| s2[j] < t < i + 1 ==> !#[trigger] closes(p, s2[j] as int, t)
                } by {
                    assert(s2[j] == stack[j]);
                    assert(stack[j] < stack[n]);
                    assert(balance(p, stack[j] + 1, i + 1) == balance(p, stack[j] + 1, i) - 1);
                    assert forall|t: int| s2[j] < t < i + 1 implies !#[trigger] closes(p, s2[j] as int, t) by {
                        if t == i {
                            assert(balance(p, stack[j] + 1, i) == stack.len() - 1 - j);
                        }
                    }
                }
                assert forall|k: usize| #[trigger] m2.contains_key(k) implies {
                    &&& k < i + 1
                    &&& m2[k] < i + 1
                    &&& m2.contains_key(m2[k])
                    &&& m2[m2[k]] == k
                    &&& (p[k as int] == OPEN && is_match(p, k as int, m2[k] as int)) || (p[k as int] == CLOSE
                        && p[m2[k] as int] == OPEN && m2[k] < k)
                } by {
                    if k == iu {
                    } else if k == open {
                    } else {
                        assert(m.contains_key(k));
                        assert(m[k] != open);
                        assert(m[k] != iu);
                    }
                }
                assert forall|k: int| 0 <= k < i + 1 && #[trigger] p[k] == OPEN implies m2.contains_key(k as usize) || s2.contains(k as usize) by {
                    if !m.contains_key(k as usize) {
                        assert(stack.contains(k as usize));
                        let j = choose|j: int| 0 <= j < stack.len() && stack[j] == k as usize;
                        if j < n {
                            assert(s2[j] == stack[j]);
                        }
                    }
                }
                assert(scan_inv(p, i + 1, s2, m2));
            }
        } else {
            assert forall|j: int| #![trigger stack[j]] 0 <= j < stack.len() implies {
                &&& balance(p, stack[j] + 1, i + 1) == stack.len() - 1 - j
                &&& forall|t: int| stack[j] < t < i + 1 ==> !#[trigger] closes(p, stack[j] as int, t)
            } by {
                assert(balance(p, stack[j] + 1, i + 1) == balance(p, stack[j] + 1, i));
            }
            assert(scan_inv(p, i + 1, stack, m));
        }
    }

/// A finished scan's table has `table_pairs`.
proof fn lemma_scan_inv(p: Seq<u8>, i: int, stack: Seq<usize>, m: Map<usize, usize>)
    requires
        scan_inv(p, i, stack, m),
    ensures
        scan_brackets(p, i, stack, m) matches Ok(t) ==> table_pairs(p, t),
    decreases p.len() - i,
{
    if i >= p.len() {
        assert forall|k: usize| #[trigger] m.contains_key(k) implies (p[k as int] == OPEN && p[m[k] as int] == CLOSE && k < m[k] && matching(p, k as int) == Some(m[k] as int)) || (p[k as int] == CLOSE && p[m[k] as int] == OPEN && m[k] < k) by {
            if p[k as int] == OPEN {
                lemma_matching(p, k as int, m[k] as int);
            }
        }
        assert forall|k: int| 0 <= k < p.len() && #[trigger] p[k] == OPEN && !m.contains_key(k as usize) implies matching(p, k) is None by {
            assert(stack.contains(k as usize));
            let j = choose|j: int| 0 <= j < stack.len() && stack[j] == k as usize;
            assert(stack[j] == k);
            if matching(p, k) is Some {
                let c = choose|c: int| is_match(p, k, c);
                assert(is_match(p, k, c));
                assert(!closes(p, stack[j] as int, c));
            }
        }
    } else if !(p[i] == CLOSE && stack.len() == 0) {
        lemma_scan_inv_next(p, i, stack, m);
        lemma_scan_inv(p, i + 1, scan_next_stack(p, i, stack), scan_next_map(p, i, stack, m));
    }
}

/// The bracket table pairs each `]` with the `[` it closes, both ways round,
/// and pairs a `[` exactly when it has a matching `]`: the partner of a `[`
/// is its match.
pub proof fn lemma_bracket_table_pairs(p: Seq<u8>)
    requires
        p.len() <= usize::MAX,
    ensures
        bracket_table(p) matches Ok(t) ==> table_pairs(p, t),
{
    lemma_scan_inv(p, 0, Seq::empty(), Map::empty());
}

/// The open brackets that enclose position `i`: the positions of the `[`
/// before `i` still waiting for their `]`, innermost last. A `]` with none
/// waiting changes nothing.
pub open spec fn open_stack(p: Seq<u8>, i: int) -> Seq<usize>
    decreases i,
{
    if i <= 0 {
        Seq::empty()
    } else {
        scan_next_stack(p, i - 1, open_stack(p, i - 1))
    }
}

/// The enclosing brackets are `[`s before `i`, in increasing order.
pub proof fn lemma_open_stack_shape(p: Seq<u8>, i: int)
    requires
        0 <= i <= p.len(),
        p.len() <= usize::MAX,
    ensures
        forall|j: int| #![trigger open_stack(p, i)[j]] 0 <= j < open_stack(p, i).len() ==> open_stack(p, i)[j] < i
            && p[open_stack(p, i)[j] as int] == OPEN,
        forall|j1: int, j2: int| 0 <= j1 < j2 < open_stack(p, i).len() ==> open_stack(p, i)[j1] < open_stack(p, i)[j2],
    decreases i,
{
    if i > 0 {
        lemma_open_stack_shape(p, i - 1);
        let s = open_stack(p, i - 1);
        assert((i - 1) as usize as int == i - 1);
    }
}

/// A `[` on the stack of enclosing brackets sits on exactly the brackets
/// that enclosed it when it was met: what lies below it never changes.
pub proof fn lemma_open_stack_below(p: Seq<u8>, o: int, i: int, idx: int)
    requires
        p.len() <= usize::MAX,
        0 <= o < i <= p.len(),
        p[o] == OPEN,
        0 <= idx < open_stack(p, i).len(),
        open_stack(p, i)[idx] == o,
    ensures
        idx == open_stack(p, o).len(),
        open_stack(p, i).take(idx) == open_stack(p, o),
    decreases i - o,
{
    lemma_open_stack_shape(p, o);
    lemma_open_stack_shape(p, i - 1);
    let s = open_stack(p, i - 1);
    if i == o + 1 {
        assert(open_stack(p, i) == s.push(o as usize));
        if idx < s.len() {
            assert(s[idx] < o);
        }
        assert(s.push(o as usize).take(idx) =~= s);
    } else {
        let c = p[i - 1];
        if c == OPEN {
            assert(open_stack(p, i) == s.push((i - 1) as usize));
            if idx == s.len() {
                assert(open_stack(p, i)[idx] == i - 1);
            }
            assert(s[idx] == o);
            lemma_open_stack_below(p, o, i - 1, idx);
            assert(s.push((i - 1) as usize).take(idx) =~= s.take(idx));
        } else if c == CLOSE && s.len() > 0 {
            assert(open_stack(p, i) == s.drop_last());
            assert(s[idx] == o);
            lemma_open_stack_below(p, o, i - 1, idx);
            assert(s.drop_last().take(idx) =~= s.take(idx));
        } else {
            lemma_open_stack_below(p, o, i - 1, idx);
        }
    }
}

/// While it scans, the scan's stack is the stack of enclosing brackets, the
/// pairs already found stay, and each later `]` is paired with the innermost
/// enclosing `[`.
proof fn lemma_scan_tracks(p: Seq<u8>, i: int, stack: Seq<usize>, m: Map<usize, usize>)
    requires
        scan_inv(p, i, stack, m),
        stack == open_stack(p, i),
    ensures
        scan_brackets(p, i, stack, m) matches Ok(t) ==> {
            &&& forall|k: usize| #[trigger] m.contains_key(k) ==> t.contains_key(k) && t[k] == m[k]
            &&& forall|k: int|
                i <= k < p.len() && #[trigger] p[k] == CLOSE ==> open_stack(p, k).len() > 0
                    && t.contains_key(k as usize) && t[k as usize] == open_stack(p, k).last()
        },
    decreases p.len() - i,
{
    if i < p.len() && !(p[i] == CLOSE && stack.len() == 0) {
        lemma_scan_inv_next(p, i, stack, m);
        let s2 = scan_next_stack(p, i, stack);
        let m2 = scan_next_map(p, i, stack, m);
        assert(open_stack(p, i + 1) == s2);
        lemma_scan_tracks(p, i + 1, s2, m2);
        let iu = i as usize;
        assert(iu as int == i);
        if p[i] == CLOSE {
            let open = stack.last();
            assert(stack[stack.len() - 1] == open);
            assert(!m.contains_key(open));
            assert forall|k: usize| #[trigger] m.contains_key(k) implies m2.contains_key(k) && m2[k] == m[k] by {
                assert(k < i);
            }
        }
    }
}

/// In a program with a bracket table, every `]` has an enclosing `[`, and
/// the table pairs it with the innermost one.
pub proof fn lemma_table_closes_innermost(p: Seq<u8>)
    requires
        p.len() <= usize::MAX,
    ensures
        bracket_table(p) matches Ok(t) ==> forall|k: int|
            0 <= k < p.len() && #[trigger] p[k] == CLOSE ==> open_stack(p, k).len() > 0
                && t.contains_key(k as usize) && t[k as usize] == open_stack(p, k).last(),
{
    assert(open_stack(p, 0) == Seq::<usize>::empty());
    lemma_scan_tracks(p, 0, Seq::empty(), Map::empty());
}

/// Whether the `]` at `pos` closes nothing: every `[` before it is already
/// closed.
pub open spec fn stray_close(p: Seq<u8>, pos: int) -> bool {
    &&& 0 <= pos < p.len()
    &&& p[pos] == CLOSE
    &&& balance(p, 0, pos) == 0
}

proof fn lemma_scan_fails_at_stray(p: Seq<u8>, i: int, stack: Seq<usize>, m: Map<usize, usize>)
    requires
        p.len() <= usize::MAX,
        0 <= i <= p.len(),
        stack.len() == balance(p, 0, i),
        forall|k: int| 0 <= k < i ==> !#[trigger] stray_close(p, k),
    ensures
        scan_brackets(p, i, stack, m) is Err <==> exists|pos: int| #[trigger] stray_close(p, pos),
        scan_brackets(p, i, stack, m) matches Err(pos) ==> stray_close(p, pos as int) && forall|k: int|
            0 <= k < pos ==> !#[trigger] stray_close(p, k),
    decreases p.len() - i,
{
    if i < p.len() {
        let iu = i as usize;
        assert(iu as int == i);
        assert(balance(p, 0, i + 1) == balance(p, 0, i) + depth_change(p[i]));
        if p[i] == CLOSE && stack.len() == 0 {
            assert(stray_close(p, i));
        } else {
            assert(!stray_close(p, i));
            let s2 = scan_next_stack(p, i, stack);
            let m2 = scan_next_map(p, i, stack, m);
            assert(scan_brackets(p, i, stack, m) == scan_brackets(p, i + 1, s2, m2));
            assert forall|k: int| 0 <= k < i + 1 implies !#[trigger] stray_close(p, k) by {
                if k < i {
                }
            }
            lemma_scan_fails_at_stray(p, i + 1, s2, m2);
        }
    } else {
        assert forall|pos: int| !#[trigger] stray_close(p, pos) by {
            if 0 <= pos < p.len() {
            }
        }
    }
}

/// A program has a bracket table exactly when it has no `]` that closes
/// nothing; otherwise loading fails at the first such `]`.
pub proof fn lemma_table_fails_only_at_stray_close(p: Seq<u8>)
    requires
        p.len() <= usize::MAX,
    ensures
        bracket_table(p) is Ok <==> forall|pos: int| !#[trigger] stray_close(p, pos),
        bracket_table(p) matches Err(pos) ==> stray_close(p, pos as int) && forall|k: int|
            0 <= k < pos ==> !#[trigger] stray_close(p, k),
{
    lemma_scan_fails_at_stray(p, 0, Seq::empty(), Map::empty());
}

/// Builds the table that maps the position of each paired bracket to the
/// position of its partner.
///
/// Fails with `NoMatchingBracket` at the first `]` that closes nothing.
pub fn build_bracket_mapping(program: &[u8]) -> (res: Result<HashMap<usize, usize>>)
    ensures
        match res {
            Ok(m) => bracket_table(program@) == Ok::<Map<usize, usize>, usize>(m@),
            Err(e) => exists|pos: usize|
                bracket_table(program@) == Err::<Map<usize, usize>, usize>(pos)
                    && e == Error::NoMatchingBracket(pos),
        },
{
    let mut stack: Vec<usize> = Vec::new();
    let mut res: HashMap<usize, usize> = HashMap::new();
    let len = program.len();
    let mut pos: usize = 0;
    assert(res@ == Map::<usize, usize>::empty());
    assert(stack@ == Seq::<usize>::empty());
    while pos < len
        invariant
            len == program@.len(),
            pos <= len,
            bracket_table(program@) == scan_brackets(program@, pos as int, stack@, res@),
        decreases len - pos,
    {
        let b = program[pos];
        if b == OPEN {
            stack.push(pos);
        } else if b == CLOSE {
            match stack.pop() {
                Some(open) => {
                    res.insert(open, pos);
                    res.insert(pos, open);
                },
                None => {
                    return Err(Error::NoMatchingBracket(pos));
                },
            }
        }
        pos = pos + 1;
    }
    Ok(res)
}

} // verus!
