//! The Brainfuck abstract machine with a precomputed bracket table.
mod brackets;
mod error;
mod ext;
mod laws;

pub use self::brackets::{
    bracket_table, build_bracket_mapping, lemma_bracket_table_pairs, lemma_open_stack_below,
    lemma_open_stack_shape, lemma_table_closes_innermost, lemma_table_fails_only_at_stray_close,
    lemma_table_positions, open_stack, stray_close,
    scan_brackets, scan_inv, scan_next_map, scan_next_stack, table_pairs, CLOSE, OPEN,
};
pub use self::laws::{
    is_command, lemma_cell_inc_dec, lemma_close_jumps_past_match, lemma_inc_then_dec,
    lemma_open_jump_agrees, lemma_open_jumps_past_match, lemma_right_then_left, lemma_run_goes_on,
    lemma_run_pauses_only_without_fuel, lemma_run_stops_where_step_stops, lemma_step_is_local,
    lemma_step_semantics,
};
pub use self::error::{Error, ExIoError, Result};
pub use self::ext::ReadOne;

use std::collections::HashMap;

use vstd::prelude::*;

verus! {

broadcast use vstd::std_specs::hash::group_hash_axioms;

/// The byte of the instruction `>`.
pub const SHR: u8 = 0x3e;

/// The byte of the instruction `<`.
pub const SHL: u8 = 0x3c;

/// The byte of the instruction `+`.
pub const INC: u8 = 0x2b;

/// The byte of the instruction `-`.
pub const DEC: u8 = 0x2d;

/// The byte of the instruction `.`.
pub const OUT: u8 = 0x2e;

/// The byte of the instruction `,`.
pub const IN: u8 = 0x2c;

/// What a step asks of its caller before the current instruction can complete.
///
/// The machine performs no I/O itself: an output or input instruction is left
/// pending, and the caller performs the I/O and then completes the instruction.
#[derive(Clone, Copy, Debug, PartialEq, Eq, Structural)]
pub enum Effect {
    /// The instruction was executed completely.
    Continue,
    /// The instruction `.` waits for the current cell, this byte, to be
    /// written out.
    Output(u8),
    /// The instruction `,` waits for one byte of input.
    Input,
}

/// Why a run stopped without an error.
#[derive(Clone, Copy, Debug, PartialEq, Eq, Structural)]
pub enum RunOutcome {
    /// The instruction pointer went past the last instruction.
    Finished,
    /// The instruction `.` waits for this byte to be written out.
    Output(u8),
    /// The instruction `,` waits for one byte of input.
    Input,
    /// The run used up its budget of steps; running again continues it.
    Paused,
}

/// The state of a machine, as the contracts see it.
#[verifier::ext_equal]
pub struct MachineView {
    /// The data pointer: the index of the current cell.
    pub dp: usize,
    /// The tape of memory cells.
    pub mem: Seq<u8>,
    /// The instruction pointer: the index of the next instruction.
    pub ip: usize,
    /// The program.
    pub program: Seq<u8>,
    /// The bracket table: each paired bracket maps to its partner.
    pub brackets: Map<usize, usize>,
}

/// A cell incremented modulo 256.
pub open spec fn cell_inc(b: u8) -> u8 {
    ((b + 1) % 256) as u8
}

/// A cell decremented modulo 256.
pub open spec fn cell_dec(b: u8) -> u8 {
    ((b + 255) % 256) as u8
}

/// The number of cells a new machine starts with.
pub open spec fn default_num_cells() -> nat {
    30000
}

/// A tape of `n` cells that are all zero.
pub open spec fn zeroed(n: nat) -> Seq<u8> {
    Seq::new(n, |i: int| 0u8)
}

/// A zeroed tape has `n` cells, each zero.
pub proof fn lemma_zeroed(n: nat)
    ensures
        zeroed(n).len() == n,
        forall|i: int| 0 <= i < n ==> #[trigger] zeroed(n)[i] == 0,
{
}

impl MachineView {
    /// Whether the data pointer points at a cell.
    pub open spec fn cell_ok(self) -> bool {
        self.dp < self.mem.len()
    }

    /// The current cell.
    pub open spec fn cell(self) -> u8 {
        self.mem[self.dp as int]
    }

    /// The current instruction.
    pub open spec fn instruction(self) -> u8 {
        self.program[self.ip as int]
    }

    /// The same state with the instruction pointer on the next instruction.
    pub open spec fn advance(self) -> MachineView {
        MachineView { ip: (self.ip + 1) as usize, ..self }
    }

    /// The same state with the current cell set to `b`, on the next instruction.
    pub open spec fn store(self, b: u8) -> MachineView {
        MachineView { mem: self.mem.update(self.dp as int, b), ip: (self.ip + 1) as usize, ..self }
    }

    /// The same state with the instruction pointer just after the partner of
    /// the current bracket, or an error if the current bracket has none.
    pub open spec fn jump(self) -> (MachineView, core::result::Result<Effect, Error>) {
        if self.brackets.contains_key(self.ip) {
            (
                MachineView { ip: (self.brackets[self.ip] + 1) as usize, ..self },
                Ok(Effect::Continue),
            )
        } else {
            (self, Err(Error::NoMatchingBracket(self.ip)))
        }
    }

    /// Executes the current instruction as far as the machine can alone.
    ///
    /// On an error the state is unchanged. `.` and `,` leave the state
    /// unchanged and report what they wait for.
    pub open spec fn step(self) -> (MachineView, core::result::Result<Effect, Error>) {
        if self.ip >= self.program.len() {
            (self, Err(Error::EndOfProgram))
        } else {
            let c = self.instruction();
            if c == SHR {
                if self.dp == usize::MAX {
                    (self, Err(Error::DataPointerOutOfBounds))
                } else {
                    (MachineView { dp: (self.dp + 1) as usize, ..self.advance() }, Ok(Effect::Continue))
                }
            } else if c == SHL {
                if self.dp == 0 {
                    (self, Err(Error::DataPointerOutOfBounds))
                } else {
                    (MachineView { dp: (self.dp - 1) as usize, ..self.advance() }, Ok(Effect::Continue))
                }
            } else if c == IN {
                (self, Ok(Effect::Input))
            } else if c == INC || c == DEC || c == OUT || c == OPEN || c == CLOSE {
                if !self.cell_ok() {
                    (self, Err(Error::InvalidMemoryAccess))
                } else if c == INC {
                    (self.store(cell_inc(self.cell())), Ok(Effect::Continue))
                } else if c == DEC {
                    (self.store(cell_dec(self.cell())), Ok(Effect::Continue))
                } else if c == OUT {
                    (self, Ok(Effect::Output(self.cell())))
                } else if c == OPEN {
                    if self.cell() == 0 {
                        self.jump()
                    } else {
                        (self.advance(), Ok(Effect::Continue))
                    }
                } else {
                    if self.cell() != 0 {
                        self.jump()
                    } else {
                        (self.advance(), Ok(Effect::Continue))
                    }
                }
            } else {
                (self.advance(), Ok(Effect::Continue))
            }
        }
    }

    /// Completes a pending `,` with the byte `b`.
    pub open spec fn accept(self, b: u8) -> (MachineView, core::result::Result<(), Error>) {
        if self.cell_ok() {
            (self.store(b), Ok(()))
        } else {
            (self, Err(Error::InvalidMemoryAccess))
        }
    }

    /// Runs at most `fuel` steps, stopping at the first step that does not
    /// complete on its own.
    pub open spec fn run(self, fuel: nat) -> (MachineView, core::result::Result<RunOutcome, Error>)
        decreases fuel,
    {
        if fuel == 0 {
            (self, Ok(RunOutcome::Paused))
        } else {
            let (next, r) = self.step();
            match r {
                Ok(Effect::Continue) => next.run((fuel - 1) as nat),
                Ok(Effect::Output(b)) => (next, Ok(RunOutcome::Output(b))),
                Ok(Effect::Input) => (next, Ok(RunOutcome::Input)),
                Err(Error::EndOfProgram) => (next, Ok(RunOutcome::Finished)),
                Err(e) => (next, Err(e)),
            }
        }
    }
}

/// The state of the machine as the debugger shows it.
#[derive(Clone, Debug, PartialEq, Eq, Structural)]
pub struct DebugInfo {
    pub data_pointer: usize,
    pub current_cell: u8,
    pub instruction_pointer: usize,
    pub current_instruction: u8,
}

/// A Brainfuck abstract machine: a tape of byte cells, a data pointer, a
/// program with an instruction pointer, and the program's bracket table.
pub struct AbstractMachine {
    // Data pointer, indicating the current cell being pointed at.
    dp: usize,
    // The one-dimensional tape of memory cells that the Brainfuck program operates.
    mem: Vec<u8>,
    // Instruction pointer, which points to the next command to be executed.
    ip: usize,
    // The actual Brainfuck source code that we're running.
    program: Vec<u8>,
    // Each paired bracket mapped to its partner.
    brackets: BracketTable,
}

impl View for AbstractMachine {
    type V = MachineView;

    closed spec fn view(&self) -> MachineView {
        MachineView {
            dp: self.dp,
            mem: self.mem@,
            ip: self.ip,
            program: self.program@,
            brackets: self.brackets@,
        }
    }
}

/// A bracket table whose targets all lie below `usize::MAX`, so that the
/// position after a target always exists.
pub struct BracketTable {
    map: HashMap<usize, usize>,
}

impl View for BracketTable {
    type V = Map<usize, usize>;

    closed spec fn view(&self) -> Map<usize, usize> {
        self.map@
    }
}

impl BracketTable {
    #[verifier::type_invariant]
    closed spec fn targets_fit(self) -> bool {
        forall|k: usize| #[trigger] self.map@.contains_key(k) ==> self.map@[k] < usize::MAX
    }

    /// Wraps a table whose targets all lie below `usize::MAX`.
    fn from_map(map: HashMap<usize, usize>) -> (res: Self)
        requires
            forall|k: usize| #[trigger] map@.contains_key(k) ==> map@[k] < usize::MAX,
        ensures
            res@ == map@,
    {
        BracketTable { map }
    }

    /// The partner of the bracket at `pos`, if it has one.
    fn partner(&self, pos: usize) -> (res: Option<usize>)
        ensures
            match res {
                Some(t) => self@.contains_key(pos) && t == self@[pos] && t < usize::MAX,
                None => !self@.contains_key(pos),
            },
    {
        proof {
            use_type_invariant(self);
        }
        match self.map.get(&pos) {
            Some(t) => Some(*t),
            None => None,
        }
    }
}

impl AbstractMachine {
    pub const DEFAULT_NUM_CELLS: usize = 30000;

    /// A tape of `n` zeroed cells.
    fn zeroed_cells(n: usize) -> (mem: Vec<u8>)
        ensures
            mem@ == zeroed(n as nat),
    {
        let mem = vec![0u8; n];
        assert(mem@ =~= zeroed(n as nat));
        mem
    }

    /// Creates a new Brainfuck abstract machine to run the given program.
    ///
    /// Fails with `NoMatchingBracket` at the first `]` that closes nothing.
    pub fn new(program: Vec<u8>) -> (res: Result<Self>)
        ensures
            match res {
                Ok(m) => bracket_table(program@) matches Ok(t) && m@ == (MachineView {
                    dp: 0,
                    mem: zeroed(default_num_cells()),
                    ip: 0,
                    program: program@,
                    brackets: t,
                }),
                Err(e) => exists|pos: usize|
                    bracket_table(program@) == Err::<Map<usize, usize>, usize>(pos)
                        && e == Error::NoMatchingBracket(pos),
            },
    {
        let brackets = match build_bracket_mapping(program.as_slice()) {
            Ok(b) => b,
            Err(e) => return Err(e),
        };
        proof {
            assert(program@.len() == program.len());
            brackets::lemma_table_positions(program@);
        }
        Ok(AbstractMachine {
            dp: 0,
            mem: Self::zeroed_cells(Self::DEFAULT_NUM_CELLS),
            ip: 0,
            program,
            brackets: BracketTable::from_map(brackets),
        })
    }
}


impl AbstractMachine {
    /// Given an abstract machine, it initializes its memory with `num_cells`
    /// cells set to zero.
    pub fn with_num_cells(self, num_cells: usize) -> (res: Self)
        ensures
            res@ == (MachineView { mem: zeroed(num_cells as nat), ..self@ }),
    {
        let mut res = self;
        res.mem = Self::zeroed_cells(num_cells);
        res
    }

    /// Replaces the program; the bracket table is kept as it is.
    pub fn with_program(self, program: Vec<u8>) -> (res: Self)
        ensures
            res@ == (MachineView { program: program@, ..self@ }),
    {
        let mut res = self;
        res.program = program;
        res
    }

    /// Replaces the memory tape.
    pub fn with_mem(self, mem: Vec<u8>) -> (res: Self)
        ensures
            res@ == (MachineView { mem: mem@, ..self@ }),
    {
        let mut res = self;
        res.mem = mem;
        res
    }

    /// Sets the instruction pointer.
    pub fn with_ip(self, ip: usize) -> (res: Self)
        ensures
            res@ == (MachineView { ip, ..self@ }),
    {
        let mut res = self;
        res.ip = ip;
        res
    }

    /// The data pointer.
    pub fn data_pointer(&self) -> (res: usize)
        ensures
            res == self@.dp,
    {
        self.dp
    }

    /// The instruction pointer.
    pub fn instruction_pointer(&self) -> (res: usize)
        ensures
            res == self@.ip,
    {
        self.ip
    }

    /// The cell at `index`, if the tape has one there.
    pub fn cell(&self, index: usize) -> (res: Option<u8>)
        ensures
            index < self@.mem.len() ==> res == Some(self@.mem[index as int]),
            index >= self@.mem.len() ==> res is None,
    {
        if index < self.mem.len() {
            Some(self.mem[index])
        } else {
            None
        }
    }

    /// The number of commands in the program.
    pub fn program_len(&self) -> (res: usize)
        ensures
            res == self@.program.len(),
    {
        self.program.len()
    }

    /// The number of cells on the tape.
    pub fn num_cells(&self) -> (res: usize)
        ensures
            res == self@.mem.len(),
    {
        self.mem.len()
    }

    /// Puts the machine back at its start: both pointers at zero and every
    /// cell zero; the tape keeps its length, the program and its table stay.
    pub fn restart(&mut self)
        ensures
            final(self)@ == (MachineView {
                dp: 0,
                ip: 0,
                mem: zeroed(old(self)@.mem.len()),
                ..old(self)@
            }),
    {
        self.dp = 0;
        self.ip = 0;
        let len = self.mem.len();
        let mut i: usize = 0;
        while i < len
            invariant
                self.dp == 0,
                self.ip == 0,
                self.program@ == old(self).program@,
                self.brackets@ == old(self).brackets@,
                self.mem@.len() == len,
                len == old(self).mem@.len(),
                i <= len,
                forall|j: int| 0 <= j < i ==> self.mem@[j] == 0,
            decreases len - i,
        {
            self.mem.set(i, 0);
            i = i + 1;
        }
        assert(self.mem@ =~= zeroed(len as nat));
    }

    /// The pointers, the current cell and the current instruction.
    pub fn to_debug_info(&self) -> (res: DebugInfo)
        requires
            self@.cell_ok(),
            self@.ip < self@.program.len(),
        ensures
            res == (DebugInfo {
                data_pointer: self@.dp,
                current_cell: self@.cell(),
                instruction_pointer: self@.ip,
                current_instruction: self@.instruction(),
            }),
    {
        DebugInfo {
            data_pointer: self.dp,
            current_cell: self.mem[self.dp],
            instruction_pointer: self.ip,
            current_instruction: self.program[self.ip],
        }
    }

    /// The current cell.
    fn read_byte(&self) -> (res: Result<u8>)
        ensures
            match res {
                Ok(b) => self@.cell_ok() && b == self@.cell(),
                Err(e) => !self@.cell_ok() && e == Error::InvalidMemoryAccess,
            },
    {
        if self.dp < self.mem.len() {
            Ok(self.mem[self.dp])
        } else {
            Err(Error::InvalidMemoryAccess)
        }
    }

    /// Sets the current cell.
    fn write_byte(&mut self, value: u8) -> (res: Result<()>)
        ensures
            old(self)@.cell_ok() ==> res is Ok && final(self)@ == (MachineView {
                mem: old(self)@.mem.update(old(self)@.dp as int, value),
                ..old(self)@
            }),
            !old(self)@.cell_ok() ==> res == Err::<(), Error>(Error::InvalidMemoryAccess)
                && final(self)@ == old(self)@,
    {
        if self.dp < self.mem.len() {
            self.mem.set(self.dp, value);
            Ok(())
        } else {
            Err(Error::InvalidMemoryAccess)
        }
    }

    // increment the data pointer by one (move right)
    fn execute_shr(&mut self) -> (res: Result<()>)
        ensures
            old(self)@.dp < usize::MAX ==> res is Ok
                && final(self)@ == (MachineView { dp: (old(self)@.dp + 1) as usize, ..old(self)@ }),
            old(self)@.dp == usize::MAX ==> res == Err::<(), Error>(Error::DataPointerOutOfBounds)
                && final(self)@ == old(self)@,
    {
        match self.dp.checked_add(1) {
            Some(value) => {
                self.dp = value;
                Ok(())
            },
            None => Err(Error::DataPointerOutOfBounds),
        }
    }

    // decrement the data pointer by one (move left)
    fn execute_shl(&mut self) -> (res: Result<()>)
        ensures
            old(self)@.dp > 0 ==> res is Ok
                && final(self)@ == (MachineView { dp: (old(self)@.dp - 1) as usize, ..old(self)@ }),
            old(self)@.dp == 0 ==> res == Err::<(), Error>(Error::DataPointerOutOfBounds)
                && final(self)@ == old(self)@,
    {
        match self.dp.checked_sub(1) {
            Some(value) => {
                self.dp = value;
                Ok(())
            },
            None => Err(Error::DataPointerOutOfBounds),
        }
    }

    // increment the byte at the data pointer by one modulo 256.
    fn execute_inc(&mut self) -> (res: Result<()>)
        ensures
            old(self)@.cell_ok() ==> res is Ok && final(self)@ == (MachineView {
                mem: old(self)@.mem.update(old(self)@.dp as int, cell_inc(old(self)@.cell())),
                ..old(self)@
            }),
            !old(self)@.cell_ok() ==> res == Err::<(), Error>(Error::InvalidMemoryAccess)
                && final(self)@ == old(self)@,
    {
        let byte = match self.read_byte() {
            Ok(b) => b,
            Err(e) => return Err(e),
        };
        self.write_byte(byte.wrapping_add(1))
    }

    // decrement the byte at the data pointer by one modulo 256.
    fn execute_dec(&mut self) -> (res: Result<()>)
        ensures
            old(self)@.cell_ok() ==> res is Ok && final(self)@ == (MachineView {
                mem: old(self)@.mem.update(old(self)@.dp as int, cell_dec(old(self)@.cell())),
                ..old(self)@
            }),
            !old(self)@.cell_ok() ==> res == Err::<(), Error>(Error::InvalidMemoryAccess)
                && final(self)@ == old(self)@,
    {
        let byte = match self.read_byte() {
            Ok(b) => b,
            Err(e) => return Err(e),
        };
        self.write_byte(byte.wrapping_sub(1))
    }

    // the byte at the data pointer, which `.` waits to have written out
    fn execute_out(&self) -> (res: Result<Effect>)
        ensures
            match res {
                Ok(eff) => self@.cell_ok() && eff == Effect::Output(self@.cell()),
                Err(e) => !self@.cell_ok() && e == Error::InvalidMemoryAccess,
            },
    {
        match self.read_byte() {
            Ok(b) => Ok(Effect::Output(b)),
            Err(e) => Err(e),
        }
    }

    // move the instruction pointer onto the partner of the current bracket
    fn jump_to_partner(&mut self) -> (res: Result<()>)
        ensures
            final(self)@.ip < usize::MAX || final(self)@.ip == old(self)@.ip,
            old(self)@.brackets.contains_key(old(self)@.ip) ==> res is Ok && final(self)@ == (
            MachineView { ip: old(self)@.brackets[old(self)@.ip], ..old(self)@ }),
            !old(self)@.brackets.contains_key(old(self)@.ip) ==> res == Err::<(), Error>(
                Error::NoMatchingBracket(old(self)@.ip),
            ) && final(self)@ == old(self)@,
    {
        match self.brackets.partner(self.ip) {
            Some(target) => {
                self.ip = target;
                Ok(())
            },
            None => Err(Error::NoMatchingBracket(self.ip)),
        }
    }

    /// Executes the next command indexed by the instruction pointer.
    ///
    /// The I/O commands are left pending: for `.` the result is the byte to
    /// write out, to be followed by `complete_output`; for `,` the result
    /// asks for a byte, to be given to `complete_input`. On an error the
    /// machine is unchanged.
    pub fn step(&mut self) -> (res: Result<Effect>)
        ensures
            (final(self)@, res) == old(self)@.step(),
    {
        if self.ip >= self.program.len() {
            return Err(Error::EndOfProgram);
        }
        let command = self.program[self.ip];
        let outcome = if command == SHR {
            self.execute_shr()
        } else if command == SHL {
            self.execute_shl()
        } else if command == INC {
            self.execute_inc()
        } else if command == DEC {
            self.execute_dec()
        } else if command == OUT {
            return self.execute_out();
        } else if command == IN {
            return Ok(Effect::Input);
        } else if command == OPEN || command == CLOSE {
            let byte = match self.read_byte() {
                Ok(b) => b,
                Err(e) => return Err(e),
            };
            if (command == OPEN && byte == 0) || (command == CLOSE && byte != 0) {
                self.jump_to_partner()
            } else {
                Ok(())
            }
        } else {
            Ok(())
        };
        match outcome {
            Ok(()) => {
                self.ip = self.ip + 1;
                Ok(Effect::Continue)
            },
            Err(e) => Err(e),
        }
    }

    /// Completes a pending `.` once its byte has been written out.
    pub fn complete_output(&mut self)
        requires
            old(self)@.step().1 matches Ok(Effect::Output(_)),
        ensures
            final(self)@ == old(self)@.advance(),
    {
        assert(self.program@.len() == self.program.len());
        self.ip = self.ip + 1;
    }

    /// Completes a pending `,` with the byte that was read.
    pub fn complete_input(&mut self, byte: u8) -> (res: Result<()>)
        requires
            old(self)@.step().1 matches Ok(Effect::Input),
        ensures
            (final(self)@, res) == old(self)@.accept(byte),
    {
        assert(self.program@.len() == self.program.len());
        match self.write_byte(byte) {
            Ok(()) => {
                self.ip = self.ip + 1;
                Ok(())
            },
            Err(e) => Err(e),
        }
    }

    /// Completes a pending `,` with one byte from `reader`.
    ///
    /// The reader's result is not known to the contract: whatever byte it
    /// returned is stored; when it fails, its error is returned and the
    /// machine is unchanged.
    pub fn execute_in<R: ReadOne>(&mut self, reader: &mut R) -> (res: Result<()>)
        requires
            old(self)@.step().1 matches Ok(Effect::Input),
        ensures
            res is Ok ==> exists|b: u8| #[trigger] old(self)@.accept(b) == (final(self)@, res),
            res is Err ==> final(self)@ == old(self)@,
            !old(self)@.cell_ok() ==> res is Err,
    {
        let c = match reader.read_one() {
            Ok(c) => c,
            Err(e) => return Err(e),
        };
        self.complete_input(c)
    }

    /// Runs steps until the program ends, an error occurs, or a command
    /// waits for I/O; after `u64::MAX` steps it pauses, and running again
    /// continues.
    ///
    /// The end of the program is `Finished`, not an error.
    pub fn run(&mut self) -> (res: Result<RunOutcome>)
        ensures
            (final(self)@, res) == old(self)@.run(u64::MAX as nat),
    {
        let mut fuel: u64 = u64::MAX;
        while fuel > 0
            invariant
                old(self)@.run(u64::MAX as nat) == self@.run(fuel as nat),
            decreases fuel,
        {
            match self.step() {
                Ok(Effect::Continue) => {},
                Ok(Effect::Output(b)) => return Ok(RunOutcome::Output(b)),
                Ok(Effect::Input) => return Ok(RunOutcome::Input),
                Err(Error::EndOfProgram) => return Ok(RunOutcome::Finished),
                Err(e) => return Err(e),
            }
            fuel = fuel - 1;
        }
        Ok(RunOutcome::Paused)
    }
}

} // verus!
