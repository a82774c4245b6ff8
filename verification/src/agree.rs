//! The two interpreters agree: on a program that has a bracket table, the
//! machine that uses the table and the machine that searches for brackets
//! go through the same states and stop alike.
use vstd::prelude::*;

use crate::legacy;
use crate::machine::{
    self, bracket_table, lemma_bracket_table_pairs, lemma_open_jumps_past_match,
    lemma_open_stack_below, lemma_open_stack_shape, lemma_table_closes_innermost, open_stack,
    table_pairs, zeroed, Effect, MachineView, RunOutcome, CLOSE, IN, OPEN, OUT,
};
use crate::matching::matching;

verus! {

/// Whether two errors are the same variant with the same payload.
pub open spec fn same_error(a: machine::Error, b: legacy::Error) -> bool {
    match (a, b) {
        (machine::Error::DataPointerOutOfBounds, legacy::Error::DataPointerOutOfBounds) => true,
        (machine::Error::InvalidMemoryAccess, legacy::Error::InvalidMemoryAccess) => true,
        (machine::Error::InvalidCharacter(x), legacy::Error::InvalidCharacter(y)) => x == y,
        (machine::Error::InvalidBracket(x), legacy::Error::InvalidBracket(y)) => x == y,
        (machine::Error::NoMatchingBracket(x), legacy::Error::NoMatchingBracket(y)) => x == y,
        (machine::Error::EndOfProgram, legacy::Error::EndOfProgram) => true,
        (machine::Error::Io(_), legacy::Error::Io(_)) => true,
        _ => false,
    }
}

/// Whether two results are the same success or the same error.
pub open spec fn same_result<T>(
    a: core::result::Result<T, machine::Error>,
    b: core::result::Result<T, legacy::Error>,
) -> bool {
    match (a, b) {
        (Ok(x), Ok(y)) => x == y,
        (Err(x), Err(y)) => same_error(x, y),
        _ => false,
    }
}

/// The two machines are in the same state: the same program, which has a
/// bracket table, the same pointers and cells, and the loop stack holding
/// exactly the brackets that enclose the instruction pointer.
pub open spec fn corresponds(v: MachineView, l: legacy::MachineView) -> bool {
    &&& v.program.len() <= usize::MAX
    &&& bracket_table(v.program) == Ok::<Map<usize, usize>, usize>(v.brackets)
    &&& l.program == v.program
    &&& l.dp == v.dp
    &&& l.mem == v.mem
    &&& l.ip == v.ip
    &&& v.ip <= v.program.len()
    &&& l.stack == open_stack(v.program, v.ip as int)
}

/// Two new machines on a program with a bracket table, with the same cells,
/// correspond.
pub proof fn lemma_start_corresponds(p: Seq<u8>, t: Map<usize, usize>, mem: Seq<u8>)
    requires
        p.len() <= usize::MAX,
        bracket_table(p) == Ok::<Map<usize, usize>, usize>(t),
    ensures
        corresponds(
            MachineView { dp: 0, mem, ip: 0, program: p, brackets: t },
            legacy::MachineView { dp: 0, mem, ip: 0, program: p, stack: Seq::empty() },
        ),
{
    assert(open_stack(p, 0) == Seq::<usize>::empty());
}

/// A step of corresponding machines gives the same result and leaves them
/// corresponding.
pub proof fn lemma_step_agrees(v: MachineView, l: legacy::MachineView)
    requires
        corresponds(v, l),
    ensures
        same_result(v.step().1, l.step().1),
        corresponds(v.step().0, l.step().0),
{
    let p = v.program;
    let k = v.ip as int;
    if k < p.len() {
        lemma_open_stack_shape(p, k);
        assert(open_stack(p, k + 1) == machine::scan_next_stack(p, k, open_stack(p, k)));
        let c = p[k];
        if c == OPEN && v.cell_ok() {
            if v.cell() == 0 {
                lemma_open_jumps_past_match(v);
                legacy::lemma_open_skips_to_match(l);
                if let Some(j) = matching(p, k) {
                    lemma_bracket_table_pairs(p);
                    lemma_table_closes_innermost(p);
                    assert(table_pairs(p, v.brackets));
                    // the `]` at `j` closes `k`, the innermost bracket at `j`
                    assert(v.brackets.contains_key(k as usize));
                    assert(v.brackets[k as usize] == j);
                    let ju = j as usize;
                    assert(ju as int == j);
                    assert(v.brackets.contains_key(ju));
                    assert(v.brackets[ju] == k);
                    let sj = open_stack(p, j);
                    assert(p[j] == CLOSE);
                    assert(sj.len() > 0 && sj.last() == k);
                    lemma_open_stack_below(p, k, j, sj.len() - 1);
                    assert(open_stack(p, j + 1) == machine::scan_next_stack(p, j, sj));
                    assert(sj.drop_last() =~= sj.take(sj.len() - 1));
                }
            } else {
                if open_stack(p, k).len() > 0 {
                    let s = open_stack(p, k);
                    assert(s[s.len() - 1] < k);
                }
            }
        } else if c == CLOSE && v.cell_ok() {
            lemma_table_closes_innermost(p);
            let s = open_stack(p, k);
            assert(s.len() > 0);
            if v.cell() != 0 {
                let o = s.last();
                assert(s[s.len() - 1] == o);
                assert(p[o as int] == OPEN && o < k);
                lemma_open_stack_below(p, o as int, k, s.len() - 1);
                assert(open_stack(p, o + 1) == machine::scan_next_stack(p, o as int, open_stack(p, o as int)));
                assert(s =~= s.take(s.len() - 1).push(o));
            }
        }
    }
}

/// Completing an input command with the same byte keeps corresponding
/// machines corresponding, with the same result; so does completing an
/// output command.
pub proof fn lemma_io_agrees(v: MachineView, l: legacy::MachineView, b: u8)
    requires
        corresponds(v, l),
        v.ip < v.program.len(),
        v.instruction() == IN || (v.instruction() == OUT && v.cell_ok()),
    ensures
        v.instruction() == IN ==> same_result(v.accept(b).1, l.accept(b).1) && corresponds(
            v.accept(b).0,
            l.accept(b).0,
        ),
        v.instruction() == OUT ==> corresponds(v.advance(), l.advance()),
{
    let p = v.program;
    let k = v.ip as int;
    assert(open_stack(p, k + 1) == machine::scan_next_stack(p, k, open_stack(p, k)));
}

/// Runs of corresponding machines give the same result and end in
/// corresponding states: the two interpreters agree.
pub proof fn lemma_run_agrees(v: MachineView, l: legacy::MachineView, fuel: nat)
    requires
        corresponds(v, l),
    ensures
        same_result(v.run(fuel).1, l.run(fuel).1),
        corresponds(v.run(fuel).0, l.run(fuel).0),
    decreases fuel,
{
    if fuel > 0 {
        lemma_step_agrees(v, l);
        let (vn, vr) = v.step();
        let (ln, lr) = l.step();
        if vr == Ok::<Effect, machine::Error>(Effect::Continue) {
            lemma_run_agrees(vn, ln, (fuel - 1) as nat);
        }
    }
}

/// From the start, on a program with a bracket table and the same number of
/// cells, the two interpreters run alike.
pub proof fn lemma_interpreters_agree(p: Seq<u8>, t: Map<usize, usize>, n: nat, fuel: nat)
    requires
        p.len() <= usize::MAX,
        bracket_table(p) == Ok::<Map<usize, usize>, usize>(t),
    ensures
        ({
            let v = MachineView { dp: 0, mem: zeroed(n), ip: 0, program: p, brackets: t };
            let l = legacy::MachineView {
                dp: 0,
                mem: zeroed(n),
                ip: 0,
                program: p,
                stack: Seq::empty(),
            };
            &&& same_result(v.run(fuel).1, l.run(fuel).1)
            &&& corresponds(v.run(fuel).0, l.run(fuel).0)
        }),
{
    lemma_start_corresponds(p, t, zeroed(n));
    let v = MachineView { dp: 0, mem: zeroed(n), ip: 0, program: p, brackets: t };
    let l = legacy::MachineView { dp: 0, mem: zeroed(n), ip: 0, program: p, stack: Seq::empty() };
    lemma_run_agrees(v, l, fuel);
}

} // verus!
