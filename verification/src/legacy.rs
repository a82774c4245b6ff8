//! The Brainfuck abstract machine that looks for matching brackets while it
//! runs, remembering the loops it has entered on a stack.
use vstd::prelude::*;

use crate::machine::{
    cell_dec, cell_inc, zeroed, Effect, RunOutcome, CLOSE, DEC, IN, INC, OPEN, OUT, SHL, SHR,
};
use crate::matching::{balance, closes, is_match, lemma_matching, matching};

verus! {

/// Everything that can go wrong while running a program.
#[derive(Debug)]
pub enum Error {
    /// The data pointer would leave the range of `usize`.
    DataPointerOutOfBounds,
    /// The data pointer does not point at a memory cell.
    InvalidMemoryAccess,
    /// A byte could not be converted into a character.
    InvalidCharacter(u8),
    /// A byte is not a bracket.
    InvalidBracket(u8),
    /// The bracket at this position has no partner.
    NoMatchingBracket(usize),
    /// The instruction pointer is past the last instruction.
    EndOfProgram,
    /// Reading or writing failed.
    Io(std::io::Error),
}

/// The result type of this module.
pub type Result<T> = core::result::Result<T, Error>;

/// Finds the position of the `]` that matches the `[` at `pos`, skipping over
/// the nested pairs in between.
pub fn find_matching(pos: usize, code: &[u8]) -> (res: Result<usize>)
    requires
        pos < usize::MAX,
    ensures
        match res {
            Ok(j) => is_match(code@, pos as int, j as int) && matching(code@, pos as int) == Some(
                j as int,
            ),
            Err(e) => e == Error::NoMatchingBracket(pos) && matching(code@, pos as int) is None
                && forall|j: int| !#[trigger] closes(code@, pos as int, j),
        },
{
    let mut curr = pos + 1;
    let mut skipped: usize = 0;

    while curr < code.len()
        invariant
            pos < curr,
            skipped == balance(code@, pos + 1, curr as int),
            skipped <= curr - pos - 1,
            forall|k: int| pos < k < curr ==> !#[trigger] closes(code@, pos as int, k),
        decreases code@.len() - curr,
    {
        if code[curr] == CLOSE {
            if skipped == 0 {
                proof {
                    lemma_matching(code@, pos as int, curr as int);
                }
                return Ok(curr);
            } else {
                skipped -= 1;
            }
        } else if code[curr] == OPEN {
            skipped += 1;
        }
        curr += 1;
    }
    assert forall|j: int| !#[trigger] closes(code@, pos as int, j) by {
        if closes(code@, pos as int, j) {
            assert(pos < j < curr);
        }
    }
    Err(Error::NoMatchingBracket(pos))
}


/// The state of a machine, as the contracts see it.
#[verifier::ext_equal]
pub struct MachineView {
    /// The data pointer: the index of the current cell.
    pub dp: usize,
    /// The tape of memory cells.
    pub mem: Seq<u8>,
    /// The instruction pointer: the index of the next instruction.
    pub ip: usize,
    /// The program.
    pub program: Seq<u8>,
    /// The positions of the `[` of the loops entered, innermost last.
    pub stack: Seq<usize>,
}

impl MachineView {
    /// Whether the data pointer points at a cell.
    pub open spec fn cell_ok(self) -> bool {
        self.dp < self.mem.len()
    }

    /// The current cell.
    pub open spec fn cell(self) -> u8 {
        self.mem[self.dp as int]
    }

    /// The current instruction.
    pub open spec fn instruction(self) -> u8 {
        self.program[self.ip as int]
    }

    /// The same state with the instruction pointer on the next instruction.
    pub open spec fn advance(self) -> MachineView {
        MachineView { ip: (self.ip + 1) as usize, ..self }
    }

    /// The same state with the current cell set to `b`, on the next instruction.
    pub open spec fn store(self, b: u8) -> MachineView {
        MachineView { mem: self.mem.update(self.dp as int, b), ip: (self.ip + 1) as usize, ..self }
    }

    /// `[`: on a zero cell, jump past the matching `]`; otherwise enter the
    /// loop, remembering its `[` unless it is already the innermost one.
    pub open spec fn open_bracket(self) -> (MachineView, core::result::Result<Effect, Error>) {
        if self.cell() == 0 {
            match matching(self.program, self.ip as int) {
                Some(j) => (MachineView { ip: (j + 1) as usize, ..self }, Ok(Effect::Continue)),
                None => (self, Err(Error::NoMatchingBracket(self.ip))),
            }
        } else {
            let stack = if self.stack.len() > 0 && self.stack.last() == self.ip {
                self.stack
            } else {
                self.stack.push(self.ip)
            };
            (MachineView { stack, ..self.advance() }, Ok(Effect::Continue))
        }
    }

    /// `]`: on a zero cell, leave the innermost loop; otherwise jump back to
    /// just after its `[`.
    pub open spec fn close_bracket(self) -> (MachineView, core::result::Result<Effect, Error>) {
        if self.cell() == 0 {
            let stack = if self.stack.len() > 0 {
                self.stack.drop_last()
            } else {
                self.stack
            };
            (MachineView { stack, ..self.advance() }, Ok(Effect::Continue))
        } else if self.stack.len() == 0 {
            (self, Err(Error::NoMatchingBracket(self.ip)))
        } else {
            (MachineView { ip: (self.stack.last() + 1) as usize, ..self }, Ok(Effect::Continue))
        }
    }

    /// Executes the current instruction as far as the machine can alone.
    ///
    /// On an error the state is unchanged. `.` and `,` leave the state
    /// unchanged and report what they wait for.
    pub open spec fn step(self) -> (MachineView, core::result::Result<Effect, Error>) {
        if self.ip >= self.program.len() {
            (self, Err(Error::EndOfProgram))
        } else {
            let c = self.instruction();
            if c == SHR {
                if self.dp == usize::MAX {
                    (self, Err(Error::DataPointerOutOfBounds))
                } else {
                    (MachineView { dp: (self.dp + 1) as usize, ..self.advance() }, Ok(Effect::Continue))
                }
            } else if c == SHL {
                if self.dp == 0 {
                    (self, Err(Error::DataPointerOutOfBounds))
                } else {
                    (MachineView { dp: (self.dp - 1) as usize, ..self.advance() }, Ok(Effect::Continue))
                }
            } else if c == IN {
                (self, Ok(Effect::Input))
            } else if c == INC || c == DEC || c == OUT || c == OPEN || c == CLOSE {
                if !self.cell_ok() {
                    (self, Err(Error::InvalidMemoryAccess))
                } else if c == INC {
                    (self.store(cell_inc(self.cell())), Ok(Effect::Continue))
                } else if c == DEC {
                    (self.store(cell_dec(self.cell())), Ok(Effect::Continue))
                } else if c == OUT {
                    (self, Ok(Effect::Output(self.cell())))
                } else if c == OPEN {
                    self.open_bracket()
                } else {
                    self.close_bracket()
                }
            } else {
                (self.advance(), Ok(Effect::Continue))
            }
        }
    }

    /// Completes a pending `,` with the byte `b`.
    pub open spec fn accept(self, b: u8) -> (MachineView, core::result::Result<(), Error>) {
        if self.cell_ok() {
            (self.store(b), Ok(()))
        } else {
            (self, Err(Error::InvalidMemoryAccess))
        }
    }

    /// Runs at most `fuel` steps, stopping at the first step that does not
    /// complete on its own.
    pub open spec fn run(self, fuel: nat) -> (MachineView, core::result::Result<RunOutcome, Error>)
        decreases fuel,
    {
        if fuel == 0 {
            (self, Ok(RunOutcome::Paused))
        } else {
            let (next, r) = self.step();
            match r {
                Ok(Effect::Continue) => next.run((fuel - 1) as nat),
                Ok(Effect::Output(b)) => (next, Ok(RunOutcome::Output(b))),
                Ok(Effect::Input) => (next, Ok(RunOutcome::Input)),
                Err(Error::EndOfProgram) => (next, Ok(RunOutcome::Finished)),
                Err(e) => (next, Err(e)),
            }
        }
    }
}

/// The UTF-8 encoding of the character whose code point is `b`: one byte
/// below 128, two bytes from 128 on.
pub open spec fn char_utf8(b: u8) -> Seq<u8> {
    if b < 0x80 {
        seq![b]
    } else {
        seq![(0xc0 + b / 64) as u8, (0x80 + b % 64) as u8]
    }
}

/// A stack of loop positions, each below `usize::MAX`, so that the position
/// after each one always exists.
pub struct LoopStack {
    items: Vec<usize>,
}

impl View for LoopStack {
    type V = Seq<usize>;

    closed spec fn view(&self) -> Seq<usize> {
        self.items@
    }
}

impl LoopStack {
    #[verifier::type_invariant]
    closed spec fn positions_fit(self) -> bool {
        forall|i: int| 0 <= i < self.items@.len() ==> #[trigger] self.items@[i] < usize::MAX
    }

    /// Wraps positions that all lie below `usize::MAX`.
    fn from_vec(items: Vec<usize>) -> (res: Self)
        requires
            forall|i: int| 0 <= i < items@.len() ==> #[trigger] items@[i] < usize::MAX,
        ensures
            res@ == items@,
    {
        LoopStack { items }
    }

    /// The innermost position.
    fn last(&self) -> (res: Option<usize>)
        ensures
            match res {
                Some(p) => self@.len() > 0 && p == self@.last() && p < usize::MAX,
                None => self@.len() == 0,
            },
    {
        proof {
            use_type_invariant(self);
        }
        let n = self.items.len();
        if n == 0 {
            None
        } else {
            Some(self.items[n - 1])
        }
    }

    /// Pushes a position below `usize::MAX`.
    fn push(&mut self, p: usize)
        requires
            p < usize::MAX,
        ensures
            final(self)@ == old(self)@.push(p),
    {
        proof {
            use_type_invariant(&*self);
        }
        let mut items: Vec<usize> = Vec::new();
        std::mem::swap(&mut items, &mut self.items);
        items.push(p);
        self.items = items;
    }

    /// Pops the innermost position, if there is one.
    fn pop(&mut self)
        ensures
            old(self)@.len() > 0 ==> final(self)@ == old(self)@.drop_last(),
            old(self)@.len() == 0 ==> final(self)@ == old(self)@,
    {
        proof {
            use_type_invariant(&*self);
        }
        let mut items: Vec<usize> = Vec::new();
        std::mem::swap(&mut items, &mut self.items);
        items.pop();
        self.items = items;
    }
}

/// Where the instruction pointer goes after a command.
#[derive(Clone, Copy, Debug, PartialEq, Eq, Structural)]
enum InstructionPointer {
    Next,
    Jump(usize),
}

/// A Brainfuck abstract machine: a tape of byte cells, a data pointer, a
/// program with an instruction pointer, and the stack of loops entered.
pub struct AbstractMachine<'a> {
    // Data pointer, indicating the current cell being pointed at.
    dp: usize,
    // The one-dimensional tape of memory cells that the Brainfuck program operates.
    mem: Vec<u8>,
    // Instruction pointer, which points to the next command to be executed.
    ip: usize,
    // The actual Brainfuck source code that we're running.
    program: &'a [u8],
    // The positions of the `[` of the loops entered.
    stack: LoopStack,
}

impl<'a> View for AbstractMachine<'a> {
    type V = MachineView;

    closed spec fn view(&self) -> MachineView {
        MachineView {
            dp: self.dp,
            mem: self.mem@,
            ip: self.ip,
            program: self.program@,
            stack: self.stack@,
        }
    }
}

impl<'a> AbstractMachine<'a> {
    pub const DEFAULT_NUM_CELLS: usize = 30000;

    /// A tape of `n` zeroed cells.
    fn zeroed_cells(n: usize) -> (mem: Vec<u8>)
        ensures
            mem@ == zeroed(n as nat),
    {
        let mem = vec![0u8; n];
        assert(mem@ =~= zeroed(n as nat));
        mem
    }

    /// Creates a new Brainfuck abstract machine to run the given program.
    pub fn new(program: &'a [u8]) -> (res: Self)
        ensures
            res@ == (MachineView {
                dp: 0,
                mem: zeroed(30000),
                ip: 0,
                program: program@,
                stack: Seq::empty(),
            }),
    {
        AbstractMachine {
            dp: 0,
            mem: Self::zeroed_cells(Self::DEFAULT_NUM_CELLS),
            ip: 0,
            program,
            stack: LoopStack::from_vec(Vec::new()),
        }
    }

    /// Given an abstract machine, it initializes its memory with `num_cells`
    /// cells set to zero.
    pub fn with_num_cells(self, num_cells: usize) -> (res: Self)
        ensures
            res@ == (MachineView { mem: zeroed(num_cells as nat), ..self@ }),
    {
        let mut res = self;
        res.mem = Self::zeroed_cells(num_cells);
        res
    }

    /// Replaces the memory tape.
    pub fn with_mem(self, mem: Vec<u8>) -> (res: Self)
        ensures
            res@ == (MachineView { mem: mem@, ..self@ }),
    {
        let mut res = self;
        res.mem = mem;
        res
    }

    /// Replaces the stack of loops entered.
    pub fn with_stack(self, stack: Vec<usize>) -> (res: Self)
        requires
            forall|i: int| 0 <= i < stack@.len() ==> #[trigger] stack@[i] < usize::MAX,
        ensures
            res@ == (MachineView { stack: stack@, ..self@ }),
    {
        let mut res = self;
        res.stack = LoopStack::from_vec(stack);
        res
    }

    /// Sets the instruction pointer.
    pub fn with_ip(self, ip: usize) -> (res: Self)
        ensures
            res@ == (MachineView { ip, ..self@ }),
    {
        let mut res = self;
        res.ip = ip;
        res
    }

    /// The data pointer.
    pub fn data_pointer(&self) -> (res: usize)
        ensures
            res == self@.dp,
    {
        self.dp
    }

    /// The instruction pointer.
    pub fn instruction_pointer(&self) -> (res: usize)
        ensures
            res == self@.ip,
    {
        self.ip
    }

    /// The cell at `index`, if the tape has one there.
    pub fn cell(&self, index: usize) -> (res: Option<u8>)
        ensures
            index < self@.mem.len() ==> res == Some(self@.mem[index as int]),
            index >= self@.mem.len() ==> res is None,
    {
        if index < self.mem.len() {
            Some(self.mem[index])
        } else {
            None
        }
    }

    /// The innermost loop entered, if any.
    pub fn innermost_loop(&self) -> (res: Option<usize>)
        ensures
            self@.stack.len() > 0 ==> res == Some(self@.stack.last()),
            self@.stack.len() == 0 ==> res is None,
    {
        self.stack.last()
    }

    /// The number of loops entered.
    pub fn loop_depth(&self) -> (res: usize)
        ensures
            res == self@.stack.len(),
    {
        self.stack.items.len()
    }

    /// The current cell.
    fn read_byte(&self) -> (res: Result<u8>)
        ensures
            match res {
                Ok(b) => self@.cell_ok() && b == self@.cell(),
                Err(e) => !self@.cell_ok() && e == Error::InvalidMemoryAccess,
            },
    {
        if self.dp < self.mem.len() {
            Ok(self.mem[self.dp])
        } else {
            Err(Error::InvalidMemoryAccess)
        }
    }

    /// Sets the current cell.
    fn write_byte(&mut self, value: u8) -> (res: Result<()>)
        ensures
            old(self)@.cell_ok() ==> res is Ok && final(self)@ == (MachineView {
                mem: old(self)@.mem.update(old(self)@.dp as int, value),
                ..old(self)@
            }),
            !old(self)@.cell_ok() ==> res == Err::<(), Error>(Error::InvalidMemoryAccess)
                && final(self)@ == old(self)@,
    {
        if self.dp < self.mem.len() {
            self.mem.set(self.dp, value);
            Ok(())
        } else {
            Err(Error::InvalidMemoryAccess)
        }
    }

    // increment the data pointer by one (move right)
    fn execute_shr(&mut self) -> (res: Result<InstructionPointer>)
        ensures
            old(self)@.dp < usize::MAX ==> res == Ok::<InstructionPointer, Error>(
                InstructionPointer::Next,
            ) && final(self)@ == (MachineView { dp: (old(self)@.dp + 1) as usize, ..old(self)@ }),
            old(self)@.dp == usize::MAX ==> res == Err::<InstructionPointer, Error>(
                Error::DataPointerOutOfBounds,
            ) && final(self)@ == old(self)@,
    {
        match self.dp.checked_add(1) {
            Some(value) => {
                self.dp = value;
                Ok(InstructionPointer::Next)
            },
            None => Err(Error::DataPointerOutOfBounds),
        }
    }

    // decrement the data pointer by one (move left)
    fn execute_shl(&mut self) -> (res: Result<InstructionPointer>)
        ensures
            old(self)@.dp > 0 ==> res == Ok::<InstructionPointer, Error>(InstructionPointer::Next)
                && final(self)@ == (MachineView { dp: (old(self)@.dp - 1) as usize, ..old(self)@ }),
            old(self)@.dp == 0 ==> res == Err::<InstructionPointer, Error>(
                Error::DataPointerOutOfBounds,
            ) && final(self)@ == old(self)@,
    {
        match self.dp.checked_sub(1) {
            Some(value) => {
                self.dp = value;
                Ok(InstructionPointer::Next)
            },
            None => Err(Error::DataPointerOutOfBounds),
        }
    }

    // increment the byte at the data pointer by one modulo 256.
    fn execute_inc(&mut self) -> (res: Result<InstructionPointer>)
        ensures
            old(self)@.cell_ok() ==> res == Ok::<InstructionPointer, Error>(
                InstructionPointer::Next,
            ) && final(self)@ == (MachineView {
                mem: old(self)@.mem.update(old(self)@.dp as int, cell_inc(old(self)@.cell())),
                ..old(self)@
            }),
            !old(self)@.cell_ok() ==> res == Err::<InstructionPointer, Error>(
                Error::InvalidMemoryAccess,
            ) && final(self)@ == old(self)@,
    {
        let byte = match self.read_byte() {
            Ok(b) => b,
            Err(e) => return Err(e),
        };
        match self.write_byte(byte.wrapping_add(1)) {
            Ok(()) => Ok(InstructionPointer::Next),
            Err(e) => Err(e),
        }
    }

    // decrement the byte at the data pointer by one modulo 256.
    fn execute_dec(&mut self) -> (res: Result<InstructionPointer>)
        ensures
            old(self)@.cell_ok() ==> res == Ok::<InstructionPointer, Error>(
                InstructionPointer::Next,
            ) && final(self)@ == (MachineView {
                mem: old(self)@.mem.update(old(self)@.dp as int, cell_dec(old(self)@.cell())),
                ..old(self)@
            }),
            !old(self)@.cell_ok() ==> res == Err::<InstructionPointer, Error>(
                Error::InvalidMemoryAccess,
            ) && final(self)@ == old(self)@,
    {
        let byte = match self.read_byte() {
            Ok(b) => b,
            Err(e) => return Err(e),
        };
        match self.write_byte(byte.wrapping_sub(1)) {
            Ok(()) => Ok(InstructionPointer::Next),
            Err(e) => Err(e),
        }
    }

    // if the byte at the data pointer is zero, instead of moving the instruction pointer
    // forward to the next command, jump it forward to the command after the matching ']'
    // command
    fn execute_openbrk(&mut self) -> (res: Result<InstructionPointer>)
        requires
            old(self)@.ip < usize::MAX,
        ensures
            !old(self)@.cell_ok() ==> res == Err::<InstructionPointer, Error>(Error::InvalidMemoryAccess)
                && final(self)@ == old(self)@,
            old(self)@.cell_ok() ==> ({
                let (next, r) = old(self)@.open_bracket();
                match res {
                    Ok(InstructionPointer::Next) => r is Ok && final(self)@ == MachineView {
                        ip: old(self)@.ip,
                        ..next
                    } && next.ip == (old(self)@.ip + 1) as usize,
                    Ok(InstructionPointer::Jump(t)) => r is Ok && final(self)@ == MachineView {
                        ip: old(self)@.ip,
                        ..next
                    } && t == next.ip,
                    Err(e) => r == Err::<Effect, Error>(e) && final(self)@ == old(self)@,
                }
            }),
    {
        let byte = match self.read_byte() {
            Ok(b) => b,
            Err(e) => return Err(e),
        };
        assert(self.program@.len() == self.program.len());
        if byte == 0 {
            let matching_pos = match find_matching(self.ip, self.program) {
                Ok(j) => j,
                Err(e) => return Err(e),
            };
            Ok(InstructionPointer::Jump(matching_pos + 1))
        } else {
            // we only insert the location of the `[` if it isn't already on the top of the
            // stack
            let must_insert = match self.stack.last() {
                Some(x) => x != self.ip,
                None => true,
            };
            if must_insert {
                self.stack.push(self.ip);
            }
            Ok(InstructionPointer::Next)
        }
    }

    // if the byte at the data pointer is nonzero, then instead of moving the instruction
    // pointer forward to the next command, jump it back to the command after the matching
    // '['
    fn execute_closebrk(&mut self) -> (res: Result<InstructionPointer>)
        ensures
            !old(self)@.cell_ok() ==> res == Err::<InstructionPointer, Error>(Error::InvalidMemoryAccess)
                && final(self)@ == old(self)@,
            old(self)@.cell_ok() ==> ({
                let (next, r) = old(self)@.close_bracket();
                match res {
                    Ok(InstructionPointer::Next) => r is Ok && final(self)@ == MachineView {
                        ip: old(self)@.ip,
                        ..next
                    } && next.ip == (old(self)@.ip + 1) as usize,
                    Ok(InstructionPointer::Jump(t)) => r is Ok && final(self)@ == MachineView {
                        ip: old(self)@.ip,
                        ..next
                    } && t == next.ip,
                    Err(e) => r == Err::<Effect, Error>(e) && final(self)@ == old(self)@,
                }
            }),
    {
        let byte = match self.read_byte() {
            Ok(b) => b,
            Err(e) => return Err(e),
        };
        assert(self.program@.len() == self.program.len());
        if byte == 0 {
            self.stack.pop();
            Ok(InstructionPointer::Next)
        } else {
            match self.stack.last() {
                Some(pos) => Ok(InstructionPointer::Jump(pos + 1)),
                None => Err(Error::NoMatchingBracket(self.ip)),
            }
        }
    }

    /// The bytes that `.` writes for the current cell: the UTF-8 encoding of
    /// the character whose code point is the cell.
    pub fn execute_out(&self) -> (res: Result<Vec<u8>>)
        ensures
            match res {
                Ok(bytes) => self@.cell_ok() && bytes@ == char_utf8(self@.cell()),
                Err(e) => !self@.cell_ok() && e == Error::InvalidMemoryAccess,
            },
    {
        let byte = match self.read_byte() {
            Ok(b) => b,
            Err(e) => return Err(e),
        };
        let mut bytes: Vec<u8> = Vec::new();
        if byte < 0x80 {
            bytes.push(byte);
        } else {
            bytes.push(0xc0 + byte / 64);
            bytes.push(0x80 + byte % 64);
        }
        assert(bytes@ =~= char_utf8(byte));
        Ok(bytes)
    }

    /// Executes the next command indexed by the instruction pointer.
    ///
    /// The I/O commands are left pending: for `.` the result is the current
    /// cell, whose character is written out as the bytes of `execute_out`,
    /// to be followed by `complete_output`; for `,` the result
    /// asks for a byte, to be given to `complete_input`. On an error the
    /// machine is unchanged.
    pub fn step(&mut self) -> (res: Result<Effect>)
        ensures
            (final(self)@, res) == old(self)@.step(),
    {
        if self.ip >= self.program.len() {
            return Err(Error::EndOfProgram);
        }
        let command = self.program[self.ip];
        let ip = if command == SHR {
            self.execute_shr()
        } else if command == SHL {
            self.execute_shl()
        } else if command == INC {
            self.execute_inc()
        } else if command == DEC {
            self.execute_dec()
        } else if command == OUT {
            return match self.read_byte() {
                Ok(b) => Ok(Effect::Output(b)),
                Err(e) => Err(e),
            };
        } else if command == IN {
            return Ok(Effect::Input);
        } else if command == OPEN {
            self.execute_openbrk()
        } else if command == CLOSE {
            self.execute_closebrk()
        } else {
            Ok(InstructionPointer::Next)
        };
        match ip {
            Ok(InstructionPointer::Next) => {
                self.ip = self.ip + 1;
                Ok(Effect::Continue)
            },
            Ok(InstructionPointer::Jump(addr)) => {
                self.ip = addr;
                Ok(Effect::Continue)
            },
            Err(e) => Err(e),
        }
    }

    /// Completes a pending `.` once the bytes of `execute_out` have been
    /// written out.
    pub fn complete_output(&mut self)
        requires
            old(self)@.step().1 matches Ok(Effect::Output(_)),
        ensures
            final(self)@ == old(self)@.advance(),
    {
        assert(self.program@.len() == self.program.len());
        self.ip = self.ip + 1;
    }

    /// Completes a pending `,` with the byte that was read.
    pub fn complete_input(&mut self, byte: u8) -> (res: Result<()>)
        requires
            old(self)@.step().1 matches Ok(Effect::Input),
        ensures
            (final(self)@, res) == old(self)@.accept(byte),
    {
        assert(self.program@.len() == self.program.len());
        match self.write_byte(byte) {
            Ok(()) => {
                self.ip = self.ip + 1;
                Ok(())
            },
            Err(e) => Err(e),
        }
    }

    /// Runs steps until the program ends, an error occurs, or a command
    /// waits for I/O; after `u64::MAX` steps it pauses, and running again
    /// continues.
    ///
    /// The end of the program is `Finished`, not an error.
    pub fn run(&mut self) -> (res: Result<RunOutcome>)
        ensures
            (final(self)@, res) == old(self)@.run(u64::MAX as nat),
    {
        let mut fuel: u64 = u64::MAX;
        while fuel > 0
            invariant
                old(self)@.run(u64::MAX as nat) == self@.run(fuel as nat),
            decreases fuel,
        {
            match self.step() {
                Ok(Effect::Continue) => {},
                Ok(Effect::Output(b)) => return Ok(RunOutcome::Output(b)),
                Ok(Effect::Input) => return Ok(RunOutcome::Input),
                Err(Error::EndOfProgram) => return Ok(RunOutcome::Finished),
                Err(e) => return Err(e),
            }
            fuel = fuel - 1;
        }
        Ok(RunOutcome::Paused)
    }
}


/// Entering a loop records its `[` once: on a nonzero cell, a `[` ends up as
/// the innermost loop, pushed only when it was not already innermost, and
/// nothing else on the stack changes.
pub proof fn lemma_open_records_loop_once(v: MachineView)
    requires
        v.program.len() <= usize::MAX,
        v.ip < v.program.len(),
        v.instruction() == OPEN,
        v.cell_ok(),
        v.cell() != 0,
    ensures
        ({
            let (w, r) = v.step();
            &&& r == Ok::<Effect, Error>(Effect::Continue)
            &&& w.stack.len() > 0 && w.stack.last() == v.ip
            &&& (v.stack.len() > 0 && v.stack.last() == v.ip) ==> w.stack == v.stack
            &&& !(v.stack.len() > 0 && v.stack.last() == v.ip) ==> w.stack == v.stack.push(v.ip)
        }),
{
}

/// A `]` on a nonzero cell goes back to just after the `[` of the innermost
/// loop and keeps the loop on the stack; on a zero cell it leaves the loop.
pub proof fn lemma_close_returns_to_innermost(v: MachineView)
    requires
        v.program.len() <= usize::MAX,
        v.ip < v.program.len(),
        v.instruction() == CLOSE,
        v.cell_ok(),
        v.stack.len() > 0,
        v.stack.last() < usize::MAX,
    ensures
        ({
            let (w, r) = v.step();
            &&& r == Ok::<Effect, Error>(Effect::Continue)
            &&& v.cell() != 0 ==> w.ip == v.stack.last() + 1 && w.stack == v.stack
            &&& v.cell() == 0 ==> w.ip == v.ip + 1 && w.stack == v.stack.drop_last()
        }),
{
}

/// From a `[` on a zero cell, the machine goes to just after the matching
/// `]`, and fails exactly when there is none.
pub proof fn lemma_open_skips_to_match(v: MachineView)
    requires
        v.program.len() <= usize::MAX,
        v.ip < v.program.len(),
        v.instruction() == OPEN,
        v.cell_ok(),
        v.cell() == 0,
    ensures
        ({
            let (w, r) = v.step();
            match matching(v.program, v.ip as int) {
                Some(j) => r == Ok::<Effect, Error>(Effect::Continue) && w.ip == j + 1 && is_match(
                    v.program,
                    v.ip as int,
                    j,
                ) && w == MachineView { ip: w.ip, ..v },
                None => r == Err::<Effect, Error>(Error::NoMatchingBracket(v.ip)) && w == v,
            }
        }),
{
    if let Some(j) = matching(v.program, v.ip as int) {
        assert(exists|j: int| is_match(v.program, v.ip as int, j));
    }
}


/// Whether a byte is one of the eight commands `> < + - . , [ ]`.
pub open spec fn is_command(c: u8) -> bool {
    c == SHR || c == SHL || c == INC || c == DEC || c == OUT || c == IN || c == OPEN || c == CLOSE
}

/// What one step does, command by command, in terms of the pointers, the
/// cells, the loop stack and the program: every byte that is not a command
/// is a comment and is stepped over; cells count modulo 256; `.` and `,`
/// wait without changing anything; `[` on a zero cell goes past its match,
/// otherwise it enters the loop once; `]` on a nonzero cell goes back after
/// the innermost `[`, otherwise it leaves the loop.
pub proof fn lemma_step_semantics(v: MachineView)
    ensures
        v.ip >= v.program.len() ==> v.step() == (v, Err::<Effect, Error>(Error::EndOfProgram)),
        v.ip < v.program.len() ==> ({
            let c = v.program[v.ip as int];
            let next_ip = (v.ip + 1) as usize;
            let ok = v.dp < v.mem.len();
            &&& !is_command(c) ==> v.step() == (MachineView { ip: next_ip, ..v }, Ok::<Effect, Error>(Effect::Continue))
            &&& c == SHR && v.dp < usize::MAX ==> v.step() == (MachineView { dp: (v.dp + 1) as usize, ip: next_ip, ..v }, Ok::<Effect, Error>(Effect::Continue))
            &&& c == SHR && v.dp == usize::MAX ==> v.step() == (v, Err::<Effect, Error>(Error::DataPointerOutOfBounds))
            &&& c == SHL && v.dp > 0 ==> v.step() == (MachineView { dp: (v.dp - 1) as usize, ip: next_ip, ..v }, Ok::<Effect, Error>(Effect::Continue))
            &&& c == SHL && v.dp == 0 ==> v.step() == (v, Err::<Effect, Error>(Error::DataPointerOutOfBounds))
            &&& (c == INC || c == DEC || c == OUT || c == OPEN || c == CLOSE) && !ok ==> v.step() == (v, Err::<Effect, Error>(Error::InvalidMemoryAccess))
            &&& c == INC && ok ==> v.step() == (MachineView {
                mem: v.mem.update(v.dp as int, ((v.mem[v.dp as int] + 1) % 256) as u8),
                ip: next_ip,
                ..v
            }, Ok::<Effect, Error>(Effect::Continue))
            &&& c == DEC && ok ==> v.step() == (MachineView {
                mem: v.mem.update(v.dp as int, ((v.mem[v.dp as int] + 255) % 256) as u8),
                ip: next_ip,
                ..v
            }, Ok::<Effect, Error>(Effect::Continue))
            &&& c == OUT && ok ==> v.step() == (v, Ok::<Effect, Error>(Effect::Output(v.mem[v.dp as int])))
            &&& c == IN ==> v.step() == (v, Ok::<Effect, Error>(Effect::Input))
            &&& c == OPEN && ok && v.mem[v.dp as int] != 0 ==> v.step() == (MachineView {
                ip: next_ip,
                stack: if v.stack.len() > 0 && v.stack[v.stack.len() - 1] == v.ip {
                    v.stack
                } else {
                    v.stack.push(v.ip)
                },
                ..v
            }, Ok::<Effect, Error>(Effect::Continue))
            &&& c == OPEN && ok && v.mem[v.dp as int] == 0 ==> (
                if exists|j: int| is_match(v.program, v.ip as int, j) {
                    exists|j: int| #[trigger] is_match(v.program, v.ip as int, j)
                        && v.step() == (MachineView { ip: (j + 1) as usize, ..v }, Ok::<Effect, Error>(Effect::Continue))
                } else {
                    v.step() == (v, Err::<Effect, Error>(Error::NoMatchingBracket(v.ip)))
                })
            &&& c == CLOSE && ok && v.mem[v.dp as int] == 0 ==> v.step() == (MachineView {
                ip: next_ip,
                stack: if v.stack.len() > 0 {
                    v.stack.subrange(0, v.stack.len() - 1)
                } else {
                    v.stack
                },
                ..v
            }, Ok::<Effect, Error>(Effect::Continue))
            &&& c == CLOSE && ok && v.mem[v.dp as int] != 0 ==> v.step() == (if v.stack.len() > 0 {
                (MachineView { ip: (v.stack[v.stack.len() - 1] + 1) as usize, ..v }, Ok::<Effect, Error>(Effect::Continue))
            } else {
                (v, Err::<Effect, Error>(Error::NoMatchingBracket(v.ip)))
            })
            &&& c == IN ==> forall|b: u8| #[trigger] v.accept(b) == (if ok {
                (MachineView { mem: v.mem.update(v.dp as int, b), ip: next_ip, ..v }, Ok::<(), Error>(()))
            } else {
                (v, Err::<(), Error>(Error::InvalidMemoryAccess))
            })
        }),
{
    if v.ip < v.program.len() && v.program[v.ip as int] == OPEN && v.dp < v.mem.len() && v.mem[v.dp as int] == 0 {
        if exists|j: int| is_match(v.program, v.ip as int, j) {
            let j = choose|j: int| is_match(v.program, v.ip as int, j);
            lemma_matching(v.program, v.ip as int, j);
        }
    }
}

/// A step that completes on its own never stops a run: the run goes on from
/// the state after that step, with one step less of fuel. So a run pauses
/// only when its fuel is used up.
pub proof fn lemma_run_goes_on(v: MachineView, fuel: nat)
    requires
        fuel > 0,
        v.step().1 == Ok::<Effect, Error>(Effect::Continue),
    ensures
        v.run(fuel) == v.step().0.run((fuel - 1) as nat),
{
}

/// Whether `s` is a UTF-8 encoding of the code point `cp` in one or two
/// bytes: one byte `0xxxxxxx` for code points below 128, or `110xxxxx
/// 10xxxxxx` holding the code point's bits, which must be at least 128.
pub open spec fn utf8_encodes(s: Seq<u8>, cp: int) -> bool {
    ||| s.len() == 1 && s[0] < 0x80 && cp == s[0]
    ||| s.len() == 2 && 0xc0 <= s[0] < 0xe0 && 0x80 <= s[1] < 0xc0 && cp == (s[0] - 0xc0) * 64 + (
    s[1] - 0x80) && cp >= 0x80
}

/// The bytes `.` writes are the UTF-8 encoding of the cell as a code point:
/// one byte, the cell itself, for an ASCII cell; two bytes from 128 on.
pub proof fn lemma_char_utf8_encodes(b: u8)
    ensures
        utf8_encodes(char_utf8(b), b as int),
        b < 0x80 ==> char_utf8(b) == seq![b],
        b >= 0x80 ==> char_utf8(b).len() == 2,
{
    if b >= 0x80 {
        let hi = b / 64;
        let lo = b % 64;
        assert(2 <= hi <= 3 && 0 <= lo < 64 && b == hi * 64 + lo) by (nonlinear_arith)
            requires
                128 <= b <= 255,
                hi == b / 64,
                lo == b % 64,
        ;
        let s = char_utf8(b);
        assert(s[0] == 0xc0 + hi);
        assert(s[1] == 0x80 + lo);
    }
}

} // verus!
