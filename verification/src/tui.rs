//! The state of the terminal debugger: what it shows, where it is scrolled
//! to, and how it runs the machine.
use vstd::prelude::*;

use crate::machine::{self, AbstractMachine, DebugInfo, Effect, MachineView, ReadOne, OUT};

verus! {

/// Everything that can go wrong in the debugger.
#[derive(Debug)]
pub enum Error {
    /// The debugger has no machine to run.
    AbstractMachineMissing,
    /// The machine failed.
    BffCore(machine::Error),
    /// Reading or writing failed.
    Io(std::io::Error),
    /// A lock could not be acquired.
    Lock,
}

impl From<machine::Error> for Error {
    fn from(value: machine::Error) -> (res: Self) {
        Error::BffCore(value)
    }
}

impl vstd::std_specs::convert::FromSpecImpl<machine::Error> for Error {
    open spec fn obeys_from_spec() -> bool {
        true
    }

    open spec fn from_spec(v: machine::Error) -> Self {
        Error::BffCore(v)
    }
}

/// The result type of this module.
pub type Result<T> = core::result::Result<T, Error>;

/// The byte that ends a line.
pub const NEWLINE: u8 = 0x0a;

/// How long lines are broken.
#[derive(Clone, Copy, Debug, PartialEq, Eq, Structural)]
pub enum WrapLine {
    /// Lines end only at a newline.
    Never,
    /// Lines end at a newline and after this many bytes.
    Width(usize),
}

impl Default for WrapLine {
    fn default() -> (res: Self)
        ensures
            res == WrapLine::Never,
    {
        WrapLine::Never
    }
}

/// The screen the debugger shows.
#[derive(Clone, Copy, Debug, PartialEq, Eq, Structural)]
pub enum CurrentScreen {
    Main,
    Running,
    Exiting,
}

impl Default for CurrentScreen {
    fn default() -> (res: Self)
        ensures
            res == CurrentScreen::Main,
    {
        CurrentScreen::Main
    }
}

/// How the debugger runs the program.
#[derive(Clone, Copy, Debug, PartialEq, Eq, Structural)]
pub enum RunningMode {
    /// One command at a time.
    StepByStep,
    /// To the end.
    OneShot,
}

impl Default for RunningMode {
    fn default() -> (res: Self)
        ensures
            res == RunningMode::OneShot,
    {
        RunningMode::OneShot
    }
}

/// The lines of `xs`: the pieces between newlines, the last one possibly
/// empty.
pub open spec fn split_lines(xs: Seq<u8>) -> Seq<Seq<u8>>
    decreases xs.len(),
{
    if xs.len() == 0 {
        seq![Seq::empty()]
    } else {
        let front = split_lines(xs.drop_last());
        if xs.last() == NEWLINE {
            front.push(Seq::empty())
        } else {
            front.update(front.len() - 1, front.last().push(xs.last()))
        }
    }
}

/// The lines of `xs` cut into pieces of `width` bytes first; nothing for an
/// empty `xs`.
pub open spec fn wrapped_lines(xs: Seq<u8>, width: nat) -> Seq<Seq<u8>>
    recommends
        width > 0,
    decreases xs.len(),
{
    if xs.len() == 0 || width == 0 {
        Seq::empty()
    } else if xs.len() <= width {
        split_lines(xs)
    } else {
        split_lines(xs.take(width as int)) + wrapped_lines(xs.skip(width as int), width)
    }
}

/// The lines of `xs` broken as `wrap` says.
pub open spec fn lines_of(xs: Seq<u8>, wrap: WrapLine) -> Seq<Seq<u8>> {
    match wrap {
        WrapLine::Never => split_lines(xs),
        WrapLine::Width(w) => wrapped_lines(xs, w as nat),
    }
}

/// A split always has at least one line.
proof fn lemma_split_lines_len(xs: Seq<u8>)
    ensures
        split_lines(xs).len() >= 1,
    decreases xs.len(),
{
    if xs.len() > 0 {
        lemma_split_lines_len(xs.drop_last());
    }
}

/// The number of newlines in `xs`.
pub open spec fn count_newlines(xs: Seq<u8>) -> nat
    decreases xs.len(),
{
    if xs.len() == 0 {
        0
    } else {
        count_newlines(xs.drop_last()) + if xs.last() == NEWLINE {
            1nat
        } else {
            0nat
        }
    }
}

/// `xs` has one line more than it has newlines, and no line holds a
/// newline.
pub proof fn lemma_split_lines_count(xs: Seq<u8>)
    ensures
        split_lines(xs).len() == count_newlines(xs) + 1,
        forall|i: int, j: int|
            0 <= i < split_lines(xs).len() && 0 <= j < split_lines(xs)[i].len() ==> #[trigger] split_lines(xs)[i][j] != NEWLINE,
    decreases xs.len(),
{
    if xs.len() > 0 {
        lemma_split_lines_count(xs.drop_last());
        lemma_split_lines_len(xs.drop_last());
    }
}

/// `xs` with every newline taken out.
pub open spec fn without_newlines(xs: Seq<u8>) -> Seq<u8>
    decreases xs.len(),
{
    if xs.len() == 0 {
        Seq::empty()
    } else {
        let front = without_newlines(xs.drop_last());
        if xs.last() == NEWLINE {
            front
        } else {
            front.push(xs.last())
        }
    }
}

proof fn lemma_without_newlines_concat(a: Seq<u8>, b: Seq<u8>)
    ensures
        without_newlines(a + b) == without_newlines(a) + without_newlines(b),
    decreases b.len(),
{
    if b.len() == 0 {
        assert(a + b =~= a);
        assert(without_newlines(a) + Seq::<u8>::empty() =~= without_newlines(a));
    } else {
        assert((a + b).drop_last() =~= a + b.drop_last());
        lemma_without_newlines_concat(a, b.drop_last());
        if b.last() != NEWLINE {
            assert(without_newlines(a) + without_newlines(b.drop_last()).push(b.last())
                =~= (without_newlines(a) + without_newlines(b.drop_last())).push(b.last()));
        }
    }
}

/// The lines of `xs` joined together are `xs` without its newlines, and no
/// line is longer than `xs`.
proof fn lemma_split_lines_content(xs: Seq<u8>)
    ensures
        split_lines(xs).flatten_alt() == without_newlines(xs),
        forall|i: int| 0 <= i < split_lines(xs).len() ==> #[trigger] split_lines(xs)[i].len() <= xs.len(),
    decreases xs.len(),
{
    if xs.len() == 0 {
        let e: Seq<u8> = Seq::empty();
        assert(seq![e].drop_last() =~= Seq::<Seq<u8>>::empty());
        assert(Seq::<Seq<u8>>::empty().flatten_alt() == e);
        assert(Seq::<u8>::empty() + e =~= e);
        assert(split_lines(xs) == seq![e]);
        assert(seq![e].flatten_alt() == seq![e].drop_last().flatten_alt() + e);
    } else {
        let f = xs.drop_last();
        lemma_split_lines_content(f);
        lemma_split_lines_len(f);
        let sf = split_lines(f);
        if xs.last() == NEWLINE {
            let e: Seq<u8> = Seq::empty();
            assert(sf.push(e).drop_last() =~= sf);
            assert(sf.flatten_alt() + e =~= sf.flatten_alt());
            assert(sf.push(e).flatten_alt() == sf.push(e).drop_last().flatten_alt() + e);
        } else {
            let n = sf.len() - 1;
            let s2 = sf.update(n, sf.last().push(xs.last()));
            assert(s2.drop_last() =~= sf.drop_last());
            assert(sf.flatten_alt() == sf.drop_last().flatten_alt() + sf.last());
            assert(s2.flatten_alt() =~= sf.flatten_alt().push(xs.last()));
        }
    }
}

/// Broken at a width, every line is at most that wide, and the lines joined
/// together are `xs` without its newlines.
proof fn lemma_wrapped_lines_content(xs: Seq<u8>, width: nat)
    requires
        width > 0,
    ensures
        wrapped_lines(xs, width).flatten() == without_newlines(xs),
        forall|i: int| 0 <= i < wrapped_lines(xs, width).len() ==> #[trigger] wrapped_lines(xs, width)[i].len() <= width,
    decreases xs.len(),
{
    if xs.len() == 0 {
    } else if xs.len() <= width {
        lemma_split_lines_content(xs);
        split_lines(xs).lemma_flatten_and_flatten_alt_are_equivalent();
    } else {
        let a = xs.take(width as int);
        let b = xs.skip(width as int);
        lemma_split_lines_content(a);
        split_lines(a).lemma_flatten_and_flatten_alt_are_equivalent();
        lemma_wrapped_lines_content(b, width);
        vstd::seq_lib::lemma_flatten_concat(split_lines(a), wrapped_lines(b, width));
        assert(a + b =~= xs);
        lemma_without_newlines_concat(a, b);
        let all = split_lines(a) + wrapped_lines(b, width);
        assert forall|i: int| 0 <= i < all.len() implies #[trigger] all[i].len() <= width by {
            if i >= split_lines(a).len() {
                assert(all[i] == wrapped_lines(b, width)[i - split_lines(a).len()]);
            }
        }
    }
}

/// Lines broken at a width `w` are at most `w` long, and joined together
/// they are the lines broken only at newlines, joined together.
pub proof fn lemma_wrapped_lines(xs: Seq<u8>, w: nat)
    requires
        w > 0,
    ensures
        forall|i: int| 0 <= i < wrapped_lines(xs, w).len() ==> #[trigger] wrapped_lines(xs, w)[i].len() <= w,
        wrapped_lines(xs, w).flatten() == split_lines(xs).flatten(),
        split_lines(xs).flatten() == without_newlines(xs),
{
    lemma_wrapped_lines_content(xs, w);
    lemma_split_lines_content(xs);
    split_lines(xs).lemma_flatten_and_flatten_alt_are_equivalent();
}

// the lines of `xs`, broken at newlines
fn break_lines(xs: &[u8]) -> (res: Vec<Vec<u8>>)
    ensures
        res.deep_view() == split_lines(xs@),
{
    let mut res: Vec<Vec<u8>> = Vec::new();
    let mut line: Vec<u8> = Vec::new();
    let n = xs.len();
    let mut i: usize = 0;
    assert(xs@.take(0) =~= Seq::<u8>::empty());
    while i < n
        invariant
            n == xs@.len(),
            i <= n,
            split_lines(xs@.take(i as int)) == res.deep_view().push(line@),
        decreases n - i,
    {
        let b = xs[i];
        proof {
            assert(xs@.take(i + 1).drop_last() =~= xs@.take(i as int));
            lemma_split_lines_len(xs@.take(i as int));
        }
        let ghost old_res = res.deep_view();
        if b == NEWLINE {
            let done = line;
            res.push(done);
            line = Vec::new();
            proof {
                assert(done.deep_view() =~= done@);
                assert(res.deep_view() =~= old_res.push(done@));
            }
        } else {
            line.push(b);
            proof {
                assert(res.deep_view() =~= old_res);
            }
        }
        i = i + 1;
        proof {
            assert(split_lines(xs@.take(i as int)) =~= res.deep_view().push(line@));
        }
    }
    let ghost old_res = res.deep_view();
    let last = line;
    res.push(last);
    proof {
        assert(last.deep_view() =~= last@);
        assert(res.deep_view() =~= old_res.push(last@));
        assert(xs@.take(n as int) =~= xs@);
    }
    res
}

/// The lines of `xs`, broken at newlines and, with a width, also after
/// every `width` bytes.
pub fn bytes_to_lines(xs: &[u8], wrap: WrapLine) -> (res: Vec<Vec<u8>>)
    requires
        wrap matches WrapLine::Width(w) ==> w > 0,
    ensures
        res.deep_view() == lines_of(xs@, wrap),
{
    match wrap {
        WrapLine::Never => break_lines(xs),
        WrapLine::Width(width) => {
            let mut res: Vec<Vec<u8>> = Vec::new();
            let n = xs.len();
            let mut start: usize = 0;
            assert(xs@.skip(0) =~= xs@);
            while start < n
                invariant
                    n == xs@.len(),
                    width > 0,
                    start <= n,
                    wrapped_lines(xs@, width as nat) == res.deep_view() + wrapped_lines(
                        xs@.skip(start as int),
                        width as nat,
                    ),
                decreases n - start,
            {
                let end = if n - start <= width {
                    n
                } else {
                    start + width
                };
                let chunk = &xs[start..end];
                let lines = break_lines(chunk);
                let ghost rest = xs@.skip(start as int);
                proof {
                    assert(chunk@ =~= rest.take((end - start) as int));
                    if n - start > width {
                        assert(rest.skip(width as int) =~= xs@.skip(end as int));
                    } else {
                        assert(rest.take((end - start) as int) =~= rest);
                        assert(xs@.skip(end as int) =~= Seq::<u8>::empty());
                    }
                }
                let ghost before = res.deep_view();
                let ghost added = lines.deep_view();
                let mut lines = lines;
                res.append(&mut lines);
                proof {
                    assert(res.deep_view() =~= before + added);
                    assert(wrapped_lines(rest, width as nat) =~= added
                        + wrapped_lines(xs@.skip(end as int), width as nat));
                    assert(res.deep_view() + wrapped_lines(xs@.skip(end as int), width as nat)
                        =~= before + wrapped_lines(rest, width as nat));
                }
                start = end;
            }
            assert(xs@.skip(n as int) =~= Seq::<u8>::empty());
            assert(res.deep_view() + Seq::<Seq<u8>>::empty() =~= res.deep_view());
            res
        },
    }
}


/// One command carried out completely: its output appended to `out`, and
/// `read` used as the input when the command is `,`.
pub open spec fn perform(v: MachineView, out: Seq<u8>, read: core::result::Result<u8, machine::Error>) -> (
    MachineView,
    Seq<u8>,
    core::result::Result<(), machine::Error>,
) {
    let (w, r) = v.step();
    match r {
        Ok(Effect::Continue) => (w, out, Ok(())),
        Ok(Effect::Output(b)) => (v.advance(), out.push(b), Ok(())),
        Ok(Effect::Input) => match read {
            Ok(b) => {
                let (w2, r2) = v.accept(b);
                (w2, out, r2)
            },
            Err(e) => (v, out, Err(e)),
        },
        Err(e) => (w, out, Err(e)),
    }
}

/// Carrying out a `.` appends exactly the current cell to the output, be it
/// a newline or any other byte, and moves on to the next command; every
/// other command leaves the output as it is.
pub proof fn lemma_perform_output(
    v: MachineView,
    out: Seq<u8>,
    read: core::result::Result<u8, machine::Error>,
)
    ensures
        v.ip < v.program.len() && v.program[v.ip as int] == OUT && v.dp < v.mem.len() ==> perform(
            v,
            out,
            read,
        ) == (MachineView { ip: (v.ip + 1) as usize, ..v }, out.push(v.mem[v.dp as int]), Ok::<(), machine::Error>(())),
        !(v.ip < v.program.len() && v.program[v.ip as int] == OUT) ==> perform(v, out, read).1 == out,
{
}

/// Whether the next command reads input.
pub open spec fn reads_input(v: MachineView) -> bool {
    v.step().1 == Ok::<Effect, machine::Error>(Effect::Input)
}

/// The input results the next command uses up: one when it reads input.
pub open spec fn reads_used(v: MachineView) -> nat {
    if reads_input(v) {
        1
    } else {
        0
    }
}

/// At most `fuel` commands carried out completely, each `,` taking the next
/// of `reads` (or the end of the program once they run out), until the
/// program ends, which is no error, or a command fails.
pub open spec fn session(
    v: MachineView,
    out: Seq<u8>,
    reads: Seq<core::result::Result<u8, machine::Error>>,
    fuel: nat,
) -> (MachineView, Seq<u8>, core::result::Result<(), machine::Error>)
    decreases fuel,
{
    if fuel == 0 {
        (v, out, Ok(()))
    } else {
        let read = if reads.len() > 0 {
            reads[0]
        } else {
            Err(machine::Error::EndOfProgram)
        };
        let (w, o, r) = perform(v, out, read);
        match r {
            Ok(()) => session(w, o, reads.skip(reads_used(v) as int), (fuel - 1) as nat),
            Err(machine::Error::EndOfProgram) => (w, o, Ok(())),
            Err(e) => (w, o, Err(e)),
        }
    }
}

/// The machine's result as the debugger's.
pub open spec fn lift(r: core::result::Result<(), machine::Error>) -> core::result::Result<(), Error> {
    match r {
        Ok(()) => Ok(()),
        Err(e) => Err(Error::BffCore(e)),
    }
}

/// One more, stopping at `usize::MAX`.
pub open spec fn saturating_inc(n: usize) -> usize {
    if n == usize::MAX {
        usize::MAX
    } else {
        (n + 1) as usize
    }
}

/// One less, stopping at zero.
pub open spec fn saturating_dec(n: usize) -> usize {
    if n == 0 {
        0
    } else {
        (n - 1) as usize
    }
}

/// Scrolling one step and back returns to where the view was, away from the
/// ends where scrolling stops: down then up below `usize::MAX`, up then down
/// above zero (and likewise right and left).
pub proof fn lemma_scroll_round_trip(n: usize)
    ensures
        n < usize::MAX ==> saturating_dec(saturating_inc(n)) == n,
        n > 0 ==> saturating_inc(saturating_dec(n)) == n,
        n < usize::MAX ==> saturating_inc(n) == n + 1,
        saturating_inc(usize::MAX) == usize::MAX,
        n > 0 ==> saturating_dec(n) == n - 1,
        saturating_dec(0) == 0,
{
}

/// What running the program does to the debugger `a`, giving `b` and
/// `res`: one command in step-by-step mode, where the end of the program is
/// an error, or a whole session otherwise; the input comes from some
/// sequence of reader results.
pub open spec fn program_ran(a: AppView, b: AppView, res: Result<()>) -> bool {
    &&& b == (AppView { machine: b.machine, output: b.output, ..a })
    &&& a.running_mode == RunningMode::StepByStep ==> exists|read: core::result::Result<u8, machine::Error>| {
        let (w, o, r) = #[trigger] perform(a.machine, a.output, read);
        &&& b.machine == w
        &&& b.output == o
        &&& res == lift(r)
    }
    &&& a.running_mode == RunningMode::OneShot ==> exists|reads: Seq<core::result::Result<u8, machine::Error>>| {
        let (w, o, r) = #[trigger] session(a.machine, a.output, reads, u64::MAX as nat);
        &&& b.machine == w
        &&& b.output == o
        &&& res == lift(r)
    }
}

/// A key pressed in the debugger.
#[derive(Clone, Copy, Debug, PartialEq, Eq, Structural)]
pub enum Key {
    Char(char),
    Enter,
    Esc,
    Other,
}

/// Whether the debugger goes on after a key.
#[derive(Clone, Copy, Debug, PartialEq, Eq, Structural)]
pub enum Flow {
    Continue,
    Quit,
}

/// The result of running the program, as the result of a key.
pub open spec fn as_flow(r: Result<()>) -> Result<Flow> {
    match r {
        Ok(()) => Ok(Flow::Continue),
        Err(e) => Err(e),
    }
}

/// The debugger with its output forgotten and its machine back at the start.
pub open spec fn restarted(a: AppView) -> AppView {
    AppView {
        output: Seq::empty(),
        machine: MachineView {
            dp: 0,
            ip: 0,
            mem: machine::zeroed(a.machine.mem.len()),
            ..a.machine
        },
        ..a
    }
}

/// What a key does on the main screen: `r` starts running in one go, `q`
/// asks to quit, `h` `j` `k` `l` scroll left, down, up and right.
pub open spec fn main_key(a: AppView, key: Key) -> AppView {
    if key == Key::Char('r') {
        AppView { current_screen: CurrentScreen::Running, running_mode: RunningMode::OneShot, ..a }
    } else if key == Key::Char('q') {
        AppView { current_screen: CurrentScreen::Exiting, ..a }
    } else if key == Key::Char('h') {
        AppView { horizontal_scroll: saturating_dec(a.horizontal_scroll), ..a }
    } else if key == Key::Char('j') {
        AppView { vertical_scroll: saturating_inc(a.vertical_scroll), ..a }
    } else if key == Key::Char('k') {
        AppView { vertical_scroll: saturating_dec(a.vertical_scroll), ..a }
    } else if key == Key::Char('l') {
        AppView { horizontal_scroll: saturating_inc(a.horizontal_scroll), ..a }
    } else {
        a
    }
}

/// What a key other than Enter does on the running screen: `o` and `s`
/// choose one go or step by step, `r` restarts, Esc goes back to the main
/// screen.
pub open spec fn running_key(a: AppView, key: Key) -> AppView {
    if key == Key::Char('o') {
        AppView { current_screen: CurrentScreen::Running, running_mode: RunningMode::OneShot, ..a }
    } else if key == Key::Char('s') {
        AppView { current_screen: CurrentScreen::Running, running_mode: RunningMode::StepByStep, ..a }
    } else if key == Key::Char('r') {
        restarted(a)
    } else if key == Key::Esc {
        AppView { current_screen: CurrentScreen::Main, ..a }
    } else {
        a
    }
}

/// What a key does on the exiting screen: Esc goes back to the main screen;
/// `q` quits, leaving the state as it is.
pub open spec fn exiting_key(a: AppView, key: Key) -> AppView {
    if key == Key::Esc {
        AppView { current_screen: CurrentScreen::Main, ..a }
    } else {
        a
    }
}

/// The state of the debugger, as the contracts see it.
#[verifier::ext_equal]
pub struct AppView {
    pub output: Seq<u8>,
    pub program: Seq<u8>,
    pub horizontal_scroll: usize,
    pub vertical_scroll: usize,
    pub current_screen: CurrentScreen,
    pub running_mode: RunningMode,
    pub machine: MachineView,
}

/// The debugger: the program, what it printed, the machine running it, the
/// screen shown and how far it is scrolled.
pub struct App {
    output: Vec<u8>,
    program: Vec<u8>,
    horizontal_scroll: usize,
    vertical_scroll: usize,
    current_screen: CurrentScreen,
    running_mode: RunningMode,
    machine: AbstractMachine,
}

impl View for App {
    type V = AppView;

    closed spec fn view(&self) -> AppView {
        AppView {
            output: self.output@,
            program: self.program@,
            horizontal_scroll: self.horizontal_scroll,
            vertical_scroll: self.vertical_scroll,
            current_screen: self.current_screen,
            running_mode: self.running_mode,
            machine: self.machine@,
        }
    }
}

impl App {
    /// A debugger on the main screen, scrolled to the top, running in one
    /// go.
    pub fn new(output: Vec<u8>, program: Vec<u8>, machine: AbstractMachine) -> (res: Self)
        ensures
            res@ == (AppView {
                output: output@,
                program: program@,
                horizontal_scroll: 0,
                vertical_scroll: 0,
                current_screen: CurrentScreen::Main,
                running_mode: RunningMode::OneShot,
                machine: machine@,
            }),
    {
        App {
            output,
            program,
            horizontal_scroll: 0,
            vertical_scroll: 0,
            current_screen: CurrentScreen::default(),
            running_mode: RunningMode::default(),
            machine,
        }
    }

    // one command carried out completely
    fn perform_one<R: ReadOne>(&mut self, reader: &mut R) -> (res: core::result::Result<(), machine::Error>)
        ensures
            exists|read: core::result::Result<u8, machine::Error>| #[trigger] perform(old(self).machine@, old(self).output@, read)
                == (final(self).machine@, final(self).output@, res),
            final(self)@ == (AppView { machine: final(self)@.machine, output: final(self)@.output, ..old(self)@ }),
    {
        let ghost v = self.machine@;
        let ghost out0 = self.output@;
        match self.machine.step() {
            Ok(Effect::Continue) => {
                assert(perform(v, out0, Ok(0u8)) == (self.machine@, self.output@, Ok::<(), machine::Error>(())));
                Ok(())
            },
            Ok(Effect::Output(b)) => {
                self.output.push(b);
                self.machine.complete_output();
                assert(perform(v, out0, Ok(0u8)) == (self.machine@, self.output@, Ok::<(), machine::Error>(())));
                Ok(())
            },
            Ok(Effect::Input) => {
                let r = self.machine.execute_in(reader);
                let ghost gr = r;
                proof {
                    match gr {
                        Ok(()) => {
                            let b = choose|b: u8| #[trigger] v.accept(b) == (self.machine@, gr);
                            assert(perform(v, out0, Ok(b)) == (self.machine@, self.output@, gr));
                        },
                        Err(e) => {
                            assert(perform(v, out0, Err(e)) == (self.machine@, self.output@, gr));
                        },
                    }
                }
                r
            },
            Err(e) => {
                assert(perform(v, out0, Ok(0u8)) == (self.machine@, self.output@, Err::<(), machine::Error>(e)));
                Err(e)
            },
        }
    }

    /// Runs the program: one command in step-by-step mode, where the end of
    /// the program is an error; otherwise to the end, pausing after
    /// `u64::MAX` commands.
    ///
    /// Output is appended to the debugger's output; input comes from
    /// `reader`, whose results are not known to the contract, so the
    /// contract holds for some sequence of reader results.
    pub fn run_program<R: ReadOne>(&mut self, reader: &mut R) -> (res: Result<()>)
        ensures
            program_ran(old(self)@, final(self)@, res),
    {
        match self.running_mode {
            RunningMode::StepByStep => {
                let r = self.perform_one(reader);
                match r {
                    Ok(()) => Ok(()),
                    Err(e) => Err(Error::BffCore(e)),
                }
            },
            RunningMode::OneShot => {
                let ghost start = self@;
                let ghost mut used: Seq<core::result::Result<u8, machine::Error>> = Seq::empty();
                let mut fuel: u64 = u64::MAX;
                while fuel > 0
                    invariant
                        start == old(self)@,
                        start.running_mode == RunningMode::OneShot,
                        self@ == (AppView { machine: self@.machine, output: self@.output, ..start }),
                        forall|future: Seq<core::result::Result<u8, machine::Error>>|
                            #[trigger] session(start.machine, start.output, used + future, u64::MAX as nat)
                                == session(self@.machine, self@.output, future, fuel as nat),
                    decreases fuel,
                {
                    let ghost before = self@;
                    let r = self.perform_one(reader);
                    let ghost read = choose|read: core::result::Result<u8, machine::Error>| #[trigger] perform(before.machine, before.output, read)
                        == (self@.machine, self@.output, r);
                    let ghost step_reads: Seq<core::result::Result<u8, machine::Error>> = if reads_input(before.machine) {
                        seq![read]
                    } else {
                        Seq::empty()
                    };
                    proof {
                        assert forall|future: Seq<core::result::Result<u8, machine::Error>>|
                            session(before.machine, before.output, step_reads + future, fuel as nat)
                                == if r is Ok {
                                    session(self@.machine, self@.output, future, (fuel - 1) as nat)
                                } else if r == Err::<(), machine::Error>(machine::Error::EndOfProgram) {
                                    (self@.machine, self@.output, Ok(()))
                                } else {
                                    (self@.machine, self@.output, r)
                                } by {
                            let all = step_reads + future;
                            if reads_input(before.machine) {
                                assert(all[0] == read);
                                assert(all.skip(1) =~= future);
                            } else {
                                assert(all =~= future);
                                assert(perform(before.machine, before.output, read) == perform(before.machine, before.output, if all.len() > 0 { all[0] } else { Err(machine::Error::EndOfProgram) }));
                                assert(all.skip(0) =~= future);
                            }
                        }
                        assert forall|future: Seq<core::result::Result<u8, machine::Error>>|
                            #[trigger] session(start.machine, start.output, (used + step_reads) + future, u64::MAX as nat)
                                == session(before.machine, before.output, step_reads + future, fuel as nat) by {
                            assert((used + step_reads) + future =~= used + (step_reads + future));
                        }
                    }
                    match r {
                        Ok(()) => {},
                        Err(machine::Error::EndOfProgram) => {
                            proof {
                                let reads = used + step_reads;
                                assert(reads + Seq::empty() =~= reads);
                                assert(session(start.machine, start.output, reads + Seq::empty(), u64::MAX as nat).2 == Ok::<(), machine::Error>(()));
                            }
                            return Ok(());
                        },
                        Err(e) => {
                            proof {
                                let reads = used + step_reads;
                                assert(reads + Seq::empty() =~= reads);
                                assert(session(start.machine, start.output, reads + Seq::empty(), u64::MAX as nat).2 == Err::<(), machine::Error>(e));
                            }
                            return Err(Error::BffCore(e));
                        },
                    }
                    proof {
                        used = used + step_reads;
                    }
                    fuel = fuel - 1;
                }
                proof {
                    assert(used + Seq::empty() =~= used);
                    assert(session(start.machine, start.output, used + Seq::empty(), u64::MAX as nat).2 == Ok::<(), machine::Error>(()));
                }
                Ok(())
            },
        }
    }

    /// Does what `key` means on the screen shown.
    ///
    /// The debugger quits exactly on `q` pressed on the exiting screen.
    pub fn handle_key<R: ReadOne>(&mut self, key: Key, reader: &mut R) -> (res: Result<Flow>)
        ensures
            res == Ok::<Flow, Error>(Flow::Quit) <==> (old(self)@.current_screen
                == CurrentScreen::Exiting && key == Key::Char('q')),
            old(self)@.current_screen == CurrentScreen::Main ==> res == Ok::<Flow, Error>(
                Flow::Continue,
            ) && final(self)@ == main_key(old(self)@, key),
            old(self)@.current_screen == CurrentScreen::Running && key == Key::Enter ==> exists|
                r: Result<()>,
            | #[trigger] program_ran(old(self)@, final(self)@, r) && res == as_flow(r),
            old(self)@.current_screen == CurrentScreen::Running && key != Key::Enter ==> res
                == Ok::<Flow, Error>(Flow::Continue) && final(self)@ == running_key(
                old(self)@,
                key,
            ),
            old(self)@.current_screen == CurrentScreen::Exiting ==> final(self)@ == exiting_key(
                old(self)@,
                key,
            ),
    {
        match self.current_screen {
            CurrentScreen::Main => {
                match key {
                    Key::Char('r') => {
                        self.current_screen = CurrentScreen::Running;
                        self.running_mode = RunningMode::default();
                    },
                    Key::Char('q') => {
                        self.current_screen = CurrentScreen::Exiting;
                    },
                    // scrolling keys
                    Key::Char('h') => {
                        self.horizontal_scroll = self.horizontal_scroll.saturating_sub(1);
                    },
                    Key::Char('j') => {
                        self.vertical_scroll = self.vertical_scroll.saturating_add(1);
                    },
                    Key::Char('k') => {
                        self.vertical_scroll = self.vertical_scroll.saturating_sub(1);
                    },
                    Key::Char('l') => {
                        self.horizontal_scroll = self.horizontal_scroll.saturating_add(1);
                    },
                    _ => {},
                }
                Ok(Flow::Continue)
            },
            CurrentScreen::Running => {
                match key {
                    Key::Enter => {
                        let r = self.run_program(reader);
                        match r {
                            Ok(()) => Ok(Flow::Continue),
                            Err(e) => Err(e),
                        }
                    },
                    Key::Char('o') => {
                        self.running_mode = RunningMode::OneShot;
                        Ok(Flow::Continue)
                    },
                    Key::Char('s') => {
                        self.running_mode = RunningMode::StepByStep;
                        Ok(Flow::Continue)
                    },
                    Key::Char('r') => {
                        self.restart();
                        Ok(Flow::Continue)
                    },
                    Key::Esc => {
                        self.current_screen = CurrentScreen::Main;
                        Ok(Flow::Continue)
                    },
                    _ => Ok(Flow::Continue),
                }
            },
            CurrentScreen::Exiting => {
                match key {
                    Key::Char('q') => Ok(Flow::Quit),
                    Key::Esc => {
                        self.current_screen = CurrentScreen::Main;
                        Ok(Flow::Continue)
                    },
                    _ => Ok(Flow::Continue),
                }
            },
        }
    }

    /// The same debugger on another screen.
    pub fn with_current_screen(self, current_screen: CurrentScreen) -> (res: Self)
        ensures
            res@ == (AppView { current_screen, ..self@ }),
    {
        let mut res = self;
        res.current_screen = current_screen;
        res
    }

    /// The program's lines, broken as `wrap` says.
    pub fn program_to_lines(&self, wrap: WrapLine) -> (res: Vec<Vec<u8>>)
        requires
            wrap matches WrapLine::Width(w) ==> w > 0,
        ensures
            res.deep_view() == lines_of(self@.program, wrap),
    {
        bytes_to_lines(self.program.as_slice(), wrap)
    }

    /// What the program printed so far.
    pub fn output(&self) -> (res: Vec<u8>)
        ensures
            res@ == self@.output,
    {
        self.output.clone()
    }

    /// The machine's pointers, current cell and current instruction.
    pub fn debug_info(&self) -> (res: DebugInfo)
        requires
            self@.machine.cell_ok(),
            self@.machine.ip < self@.machine.program.len(),
        ensures
            res == (DebugInfo {
                data_pointer: self@.machine.dp,
                current_cell: self@.machine.cell(),
                instruction_pointer: self@.machine.ip,
                current_instruction: self@.machine.instruction(),
            }),
    {
        self.machine.to_debug_info()
    }

    /// The machine that runs the program.
    pub fn machine(&self) -> (res: &AbstractMachine)
        ensures
            res@ == self@.machine,
    {
        &self.machine
    }

    /// The screen shown.
    pub fn current_screen(&self) -> (res: CurrentScreen)
        ensures
            res == self@.current_screen,
    {
        self.current_screen
    }

    /// How the program is run.
    pub fn running_mode(&self) -> (res: RunningMode)
        ensures
            res == self@.running_mode,
    {
        self.running_mode
    }

    /// The same debugger on the running screen, running as `running_mode`
    /// says.
    pub fn into_running_mode(self, running_mode: RunningMode) -> (res: Self)
        ensures
            res@ == (AppView { current_screen: CurrentScreen::Running, running_mode, ..self@ }),
    {
        let mut res = self;
        res.current_screen = CurrentScreen::Running;
        res.running_mode = running_mode;
        res
    }

    /// Forgets the output and puts the machine back at its start.
    pub fn restart(&mut self)
        ensures
            final(self)@ == (AppView {
                output: Seq::empty(),
                machine: MachineView {
                    dp: 0,
                    ip: 0,
                    mem: machine::zeroed(old(self)@.machine.mem.len()),
                    ..old(self)@.machine
                },
                ..old(self)@
            }),
    {
        self.clear_output();
        self.machine.restart();
    }

    /// Forgets the output.
    pub fn clear_output(&mut self)
        ensures
            final(self)@ == (AppView { output: Seq::empty(), ..old(self)@ }),
    {
        self.output.clear();
    }

    /// Scrolled one line further down, stopping at `usize::MAX`.
    pub fn scroll_down(self) -> (res: Self)
        ensures
            res@ == (AppView {
                vertical_scroll: saturating_inc(self@.vertical_scroll),
                ..self@
            }),
    {
        let mut res = self;
        res.vertical_scroll = res.vertical_scroll.saturating_add(1);
        res
    }

    /// Scrolled one line further up, stopping at zero.
    pub fn scroll_up(self) -> (res: Self)
        ensures
            res@ == (AppView {
                vertical_scroll: saturating_dec(self@.vertical_scroll),
                ..self@
            }),
    {
        let mut res = self;
        res.vertical_scroll = res.vertical_scroll.saturating_sub(1);
        res
    }

    /// Scrolled one column further left, stopping at zero.
    pub fn scroll_left(self) -> (res: Self)
        ensures
            res@ == (AppView {
                horizontal_scroll: saturating_dec(self@.horizontal_scroll),
                ..self@
            }),
    {
        let mut res = self;
        res.horizontal_scroll = res.horizontal_scroll.saturating_sub(1);
        res
    }

    /// Scrolled one column further right, stopping at `usize::MAX`.
    pub fn scroll_right(self) -> (res: Self)
        ensures
            res@ == (AppView {
                horizontal_scroll: saturating_inc(self@.horizontal_scroll),
                ..self@
            }),
    {
        let mut res = self;
        res.horizontal_scroll = res.horizontal_scroll.saturating_add(1);
        res
    }

    /// How far the view is scrolled down.
    pub fn vertical_scroll(&self) -> (res: usize)
        ensures
            res == self@.vertical_scroll,
    {
        self.vertical_scroll
    }

    /// How far the view is scrolled right.
    pub fn horizontal_scroll(&self) -> (res: usize)
        ensures
            res == self@.horizontal_scroll,
    {
        self.horizontal_scroll
    }
}


/// What each key does, screen by screen, in terms of the debugger's fields:
/// on the main screen `r` runs in one go, `q` asks to quit, `h` `j` `k` `l`
/// move one column left, one line down, one line up, one column right;
/// on the running screen `o` and `s` pick the mode, `r` clears the output
/// and zeroes the machine, Esc goes back; on the exiting screen Esc goes
/// back. Any other key changes nothing.
pub proof fn lemma_key_table(a: AppView, key: Key)
    ensures
        key == Key::Char('r') ==> main_key(a, key) == (AppView {
            current_screen: CurrentScreen::Running,
            running_mode: RunningMode::OneShot,
            ..a
        }),
        key == Key::Char('q') ==> main_key(a, key) == (AppView {
            current_screen: CurrentScreen::Exiting,
            ..a
        }),
        key == Key::Char('h') ==> main_key(a, key) == (AppView {
            horizontal_scroll: if a.horizontal_scroll > 0 { (a.horizontal_scroll - 1) as usize } else { 0 },
            ..a
        }),
        key == Key::Char('j') ==> main_key(a, key) == (AppView {
            vertical_scroll: if a.vertical_scroll < usize::MAX { (a.vertical_scroll + 1) as usize } else { usize::MAX },
            ..a
        }),
        key == Key::Char('k') ==> main_key(a, key) == (AppView {
            vertical_scroll: if a.vertical_scroll > 0 { (a.vertical_scroll - 1) as usize } else { 0 },
            ..a
        }),
        key == Key::Char('l') ==> main_key(a, key) == (AppView {
            horizontal_scroll: if a.horizontal_scroll < usize::MAX { (a.horizontal_scroll + 1) as usize } else { usize::MAX },
            ..a
        }),
        key != Key::Char('r') && key != Key::Char('q') && key != Key::Char('h') && key != Key::Char('j')
            && key != Key::Char('k') && key != Key::Char('l') ==> main_key(a, key) == a,
        key == Key::Char('o') ==> running_key(a, key).running_mode == RunningMode::OneShot
            && running_key(a, key).current_screen == CurrentScreen::Running,
        key == Key::Char('s') ==> running_key(a, key).running_mode == RunningMode::StepByStep
            && running_key(a, key).current_screen == CurrentScreen::Running,
        key == Key::Char('r') ==> running_key(a, key).output.len() == 0 && running_key(a, key).machine.dp == 0
            && running_key(a, key).machine.ip == 0 && running_key(a, key).machine.mem.len() == a.machine.mem.len()
            && (forall|i: int| 0 <= i < a.machine.mem.len() ==> #[trigger] running_key(a, key).machine.mem[i] == 0)
            && running_key(a, key).machine.program == a.machine.program
            && running_key(a, key).program == a.program,
        key == Key::Esc ==> running_key(a, key) == (AppView { current_screen: CurrentScreen::Main, ..a }),
        key == Key::Esc ==> exiting_key(a, key) == (AppView { current_screen: CurrentScreen::Main, ..a }),
        key != Key::Char('o') && key != Key::Char('s') && key != Key::Char('r') && key != Key::Esc
            ==> running_key(a, key) == a,
        key != Key::Esc ==> exiting_key(a, key) == a,
{
}

/// A command carried out without an error never ends a session: the
/// session goes on from the state after it, with the input it used taken
/// off, and one command less of fuel; the session stops only at an error,
/// at the end of the program or when its fuel is used up.
pub proof fn lemma_session_goes_on(
    v: MachineView,
    out: Seq<u8>,
    reads: Seq<core::result::Result<u8, machine::Error>>,
    fuel: nat,
)
    ensures
        fuel == 0 ==> session(v, out, reads, fuel) == (v, out, Ok::<(), machine::Error>(())),
        fuel > 0 ==> ({
            let read = if reads.len() > 0 {
                reads[0]
            } else {
                Err(machine::Error::EndOfProgram)
            };
            let (w, o, r) = perform(v, out, read);
            &&& r is Ok ==> session(v, out, reads, fuel) == session(
                w,
                o,
                if reads_input(v) { reads.drop_first() } else { reads },
                (fuel - 1) as nat,
            )
            &&& r == Err::<(), machine::Error>(machine::Error::EndOfProgram) ==> session(v, out, reads, fuel) == (w, o, Ok::<(), machine::Error>(()))
            &&& (r is Err && r != Err::<(), machine::Error>(machine::Error::EndOfProgram)) ==> session(v, out, reads, fuel) == (w, o, r)
        }),
{
    if fuel > 0 {
        if reads_input(v) {
            assert(reads.skip(1) =~= reads.drop_first());
        } else {
            assert(reads.skip(0) =~= reads);
        }
    }
}

} // verus!
