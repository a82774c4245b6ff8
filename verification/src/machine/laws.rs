//! Properties of the machine that span several steps or several functions.
use vstd::prelude::*;

use super::brackets::{bracket_table, lemma_bracket_table_pairs, table_pairs, CLOSE, OPEN};
use super::error::Error;
use super::{cell_dec, cell_inc, Effect, MachineView, RunOutcome, DEC, IN, INC, OUT, SHL, SHR};
use crate::legacy;
use crate::matching::{is_match, matching};

verus! {

/// A cell incremented and then decremented, or decremented and then
/// incremented, is back where it was: cells count modulo 256.
pub proof fn lemma_cell_inc_dec(b: u8)
    ensures
        cell_dec(cell_inc(b)) == b,
        cell_inc(cell_dec(b)) == b,
{
}

/// The program `+-` leaves the tape as it found it: two steps later the
/// cells are unchanged and the instruction pointer is two further on.
pub proof fn lemma_inc_then_dec(v: MachineView)
    requires
        v.program.len() <= usize::MAX,
        v.ip + 1 < v.program.len(),
        v.program[v.ip as int] == INC,
        v.program[v.ip + 1] == DEC,
        v.cell_ok(),
    ensures
        ({
            let (w1, r1) = v.step();
            let (w2, r2) = w1.step();
            &&& r1 == Ok::<Effect, Error>(Effect::Continue)
            &&& r2 == Ok::<Effect, Error>(Effect::Continue)
            &&& w2 == MachineView { ip: (v.ip + 2) as usize, ..v }
        }),
{
    let w1 = v.step().0;
    lemma_cell_inc_dec(v.cell());
    assert(w1.mem.update(v.dp as int, v.cell()) =~= v.mem);
    let w2 = w1.step().0;
    assert(w2 =~= MachineView { ip: (v.ip + 2) as usize, ..v });
}

/// The program `><` leaves the data pointer where it was, as long as it is
/// not at the end of the range of `usize`.
pub proof fn lemma_right_then_left(v: MachineView)
    requires
        v.program.len() <= usize::MAX,
        v.ip + 1 < v.program.len(),
        v.program[v.ip as int] == SHR,
        v.program[v.ip + 1] == SHL,
        v.dp < usize::MAX,
    ensures
        ({
            let (w1, r1) = v.step();
            let (w2, r2) = w1.step();
            &&& r1 == Ok::<Effect, Error>(Effect::Continue)
            &&& r2 == Ok::<Effect, Error>(Effect::Continue)
            &&& w2 == MachineView { ip: (v.ip + 2) as usize, ..v }
        }),
{
}

/// A step touches at most the current cell, moves the data pointer by at
/// most one, and never changes the program or the bracket table.
pub proof fn lemma_step_is_local(v: MachineView)
    ensures
        ({
            let w = v.step().0;
            &&& w.program == v.program
            &&& w.brackets == v.brackets
            &&& w.mem.len() == v.mem.len()
            &&& forall|i: int| 0 <= i < v.mem.len() && i != v.dp ==> w.mem[i] == v.mem[i]
            &&& v.dp - 1 <= w.dp <= v.dp + 1
        }),
{
}

/// A run stops exactly where a step would not complete on its own: at an
/// output or input command, which the next step reports again, at the end
/// of the program, or at an error, which the next step reports again.
pub proof fn lemma_run_stops_where_step_stops(v: MachineView, fuel: nat)
    ensures
        ({
            let (w, r) = v.run(fuel);
            &&& r == Ok::<RunOutcome, Error>(RunOutcome::Finished) ==> w.ip >= w.program.len()
                && w == v.run(fuel + 1).0
            &&& (r matches Ok(RunOutcome::Output(b)) ==> w.step() == (w, Ok::<Effect, Error>(Effect::Output(b))))
            &&& (r == Ok::<RunOutcome, Error>(RunOutcome::Input) ==> w.step() == (w, Ok::<Effect, Error>(Effect::Input)))
            &&& (r matches Err(e) ==> w.step() == (w, Err::<Effect, Error>(e)))
        }),
    decreases fuel,
{
    if fuel > 0 {
        let (next, r) = v.step();
        if r == Ok::<Effect, Error>(Effect::Continue) {
            lemma_run_stops_where_step_stops(next, (fuel - 1) as nat);
        }
    }
}

/// With the bracket table of its own program, the machine jumps from a `[`
/// on a zero cell to just after the `]` that matches it, and fails exactly
/// when that `[` has no match.
pub proof fn lemma_open_jumps_past_match(v: MachineView)
    requires
        v.program.len() <= usize::MAX,
        bracket_table(v.program) == Ok::<Map<usize, usize>, usize>(v.brackets),
        v.ip < v.program.len(),
        v.instruction() == OPEN,
        v.cell_ok(),
        v.cell() == 0,
    ensures
        ({
            let (w, r) = v.step();
            match matching(v.program, v.ip as int) {
                Some(j) => r == Ok::<Effect, Error>(Effect::Continue) && w == MachineView {
                    ip: (j + 1) as usize,
                    ..v
                } && v.program[j] == CLOSE,
                None => r == Err::<Effect, Error>(Error::NoMatchingBracket(v.ip)) && w == v,
            }
        }),
{
    lemma_bracket_table_pairs(v.program);
    assert(table_pairs(v.program, v.brackets));
    if v.brackets.contains_key(v.ip) {
        assert(matching(v.program, v.ip as int) == Some(v.brackets[v.ip] as int));
    }
}

/// With the bracket table of its own program, the machine jumps from a `]`
/// on a nonzero cell to just after the `[` that it matches.
pub proof fn lemma_close_jumps_past_match(v: MachineView)
    requires
        v.program.len() <= usize::MAX,
        bracket_table(v.program) == Ok::<Map<usize, usize>, usize>(v.brackets),
        v.ip < v.program.len(),
        v.instruction() == CLOSE,
        v.cell_ok(),
        v.cell() != 0,
    ensures
        ({
            let (w, r) = v.step();
            &&& r == Ok::<Effect, Error>(Effect::Continue)
            &&& w.ip >= 1
            &&& v.program[w.ip - 1] == OPEN
            &&& is_match(v.program, w.ip - 1, v.ip as int)
            &&& w == MachineView { ip: w.ip, ..v }
        }),
{
    lemma_bracket_table_pairs(v.program);
    assert(table_pairs(v.program, v.brackets));
    let k = v.ip;
    assert(v.program[k as int] == CLOSE);
    assert(v.brackets.contains_key(k));
    let o = v.brackets[k];
    assert(v.brackets.contains_key(o));
    assert(v.brackets[o] == k);
    assert(matching(v.program, o as int) == Some(k as int));
    let c = choose|c: int| is_match(v.program, o as int, c);
    assert(is_match(v.program, o as int, c));
}

/// The two interpreters agree on a `[` over a zero cell: the machine with a
/// bracket table of its own program lands where the machine that searches
/// for the match lands, and both fail alike when there is no match.
pub proof fn lemma_open_jump_agrees(v: MachineView, l: legacy::MachineView)
    requires
        v.program.len() <= usize::MAX,
        bracket_table(v.program) == Ok::<Map<usize, usize>, usize>(v.brackets),
        l.dp == v.dp,
        l.mem == v.mem,
        l.ip == v.ip,
        l.program == v.program,
        v.ip < v.program.len(),
        v.instruction() == OPEN,
        v.cell_ok(),
        v.cell() == 0,
    ensures
        v.step().0.ip == l.step().0.ip,
        v.step().1 is Ok <==> l.step().1 is Ok,
        v.step().1 is Err ==> l.step().1 == Err::<Effect, legacy::Error>(
            legacy::Error::NoMatchingBracket(l.ip),
        ),
{
    lemma_open_jumps_past_match(v);
}


/// Whether a byte is one of the eight commands `> < + - . , [ ]`.
pub open spec fn is_command(c: u8) -> bool {
    c == SHR || c == SHL || c == INC || c == DEC || c == OUT || c == IN || c == OPEN || c == CLOSE
}

/// What one step does, command by command, in terms of the pointers, the
/// cells and the program: every byte that is not a command is a comment
/// and is stepped over; cells count modulo 256; `.` and `,` wait without
/// changing anything; the end of the program is reported as such.
pub proof fn lemma_step_semantics(v: MachineView)
    ensures
        v.ip >= v.program.len() ==> v.step() == (v, Err::<Effect, Error>(Error::EndOfProgram)),
        v.ip < v.program.len() ==> ({
            let c = v.program[v.ip as int];
            let next_ip = (v.ip + 1) as usize;
            let ok = v.dp < v.mem.len();
            &&& !is_command(c) ==> v.step() == (MachineView { ip: next_ip, ..v }, Ok::<Effect, Error>(Effect::Continue))
            &&& c == SHR && v.dp < usize::MAX ==> v.step() == (MachineView { dp: (v.dp + 1) as usize, ip: next_ip, ..v }, Ok::<Effect, Error>(Effect::Continue))
            &&& c == SHR && v.dp == usize::MAX ==> v.step() == (v, Err::<Effect, Error>(Error::DataPointerOutOfBounds))
            &&& c == SHL && v.dp > 0 ==> v.step() == (MachineView { dp: (v.dp - 1) as usize, ip: next_ip, ..v }, Ok::<Effect, Error>(Effect::Continue))
            &&& c == SHL && v.dp == 0 ==> v.step() == (v, Err::<Effect, Error>(Error::DataPointerOutOfBounds))
            &&& (c == INC || c == DEC || c == OUT || c == OPEN || c == CLOSE) && !ok ==> v.step() == (v, Err::<Effect, Error>(Error::InvalidMemoryAccess))
            &&& c == INC && ok ==> v.step() == (MachineView {
                mem: v.mem.update(v.dp as int, ((v.mem[v.dp as int] + 1) % 256) as u8),
                ip: next_ip,
                ..v
            }, Ok::<Effect, Error>(Effect::Continue))
            &&& c == DEC && ok ==> v.step() == (MachineView {
                mem: v.mem.update(v.dp as int, ((v.mem[v.dp as int] + 255) % 256) as u8),
                ip: next_ip,
                ..v
            }, Ok::<Effect, Error>(Effect::Continue))
            &&& c == OUT && ok ==> v.step() == (v, Ok::<Effect, Error>(Effect::Output(v.mem[v.dp as int])))
            &&& c == IN ==> v.step() == (v, Ok::<Effect, Error>(Effect::Input))
            &&& c == OPEN && ok && v.mem[v.dp as int] != 0 ==> v.step() == (MachineView { ip: next_ip, ..v }, Ok::<Effect, Error>(Effect::Continue))
            &&& c == CLOSE && ok && v.mem[v.dp as int] == 0 ==> v.step() == (MachineView { ip: next_ip, ..v }, Ok::<Effect, Error>(Effect::Continue))
            &&& (c == OPEN && ok && v.mem[v.dp as int] == 0) || (c == CLOSE && ok && v.mem[v.dp as int] != 0) ==> (
                if v.brackets.contains_key(v.ip) {
                    v.step() == (MachineView { ip: (v.brackets[v.ip] + 1) as usize, ..v }, Ok::<Effect, Error>(Effect::Continue))
                } else {
                    v.step() == (v, Err::<Effect, Error>(Error::NoMatchingBracket(v.ip)))
                })
            &&& c == IN ==> (ok ==> v.accept(0).1 is Ok) && forall|b: u8| #[trigger] v.accept(b) == (if ok {
                (MachineView { mem: v.mem.update(v.dp as int, b), ip: next_ip, ..v }, Ok::<(), Error>(()))
            } else {
                (v, Err::<(), Error>(Error::InvalidMemoryAccess))
            })
        }),
{
}

/// A step that completes on its own never stops a run: the run goes on from
/// the state after that step, with one step less of fuel. So a run pauses
/// only when its fuel is used up.
pub proof fn lemma_run_goes_on(v: MachineView, fuel: nat)
    requires
        fuel > 0,
        v.step().1 == Ok::<Effect, Error>(Effect::Continue),
    ensures
        v.run(fuel) == v.step().0.run((fuel - 1) as nat),
{
}

/// A run pauses only after `fuel` steps that each completed on their own:
/// with fuel left, it stops at the end of the program, at I/O or at an
/// error, exactly as the next step does.
pub proof fn lemma_run_pauses_only_without_fuel(v: MachineView, fuel: nat)
    ensures
        fuel == 0 ==> v.run(fuel) == (v, Ok::<RunOutcome, Error>(RunOutcome::Paused)),
        fuel > 0 ==> match v.step().1 {
            Ok(Effect::Continue) => v.run(fuel) == v.step().0.run((fuel - 1) as nat),
            Ok(Effect::Output(b)) => v.run(fuel) == (v.step().0, Ok::<RunOutcome, Error>(RunOutcome::Output(b))),
            Ok(Effect::Input) => v.run(fuel) == (v.step().0, Ok::<RunOutcome, Error>(RunOutcome::Input)),
            Err(Error::EndOfProgram) => v.run(fuel) == (v.step().0, Ok::<RunOutcome, Error>(RunOutcome::Finished)),
            Err(e) => v.run(fuel) == (v.step().0, Err::<RunOutcome, Error>(e)),
        },
{
}

} // verus!
