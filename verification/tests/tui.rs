use rs_bff::machine::{self, AbstractMachine, ReadOne};
use rs_bff::tui::{bytes_to_lines, App, CurrentScreen, Error, Flow, Key, RunningMode, WrapLine};

struct Bytes(Vec<u8>);

impl ReadOne for Bytes {
    fn read_one(&mut self) -> machine::Result<u8> {
        if self.0.is_empty() {
            Err(machine::Error::EndOfProgram)
        } else {
            Ok(self.0.remove(0))
        }
    }
}

fn app(program: &[u8]) -> App {
    let machine = AbstractMachine::new(program.to_vec()).expect("valid program");
    App::new(Vec::new(), program.to_vec(), machine)
}

#[test]
fn lines_split_at_newlines() {
    let lines = bytes_to_lines(b"ab\ncd\n", WrapLine::Never);
    assert_eq!(lines, vec![b"ab".to_vec(), b"cd".to_vec(), Vec::new()]);
    assert_eq!(bytes_to_lines(b"", WrapLine::Never), vec![Vec::<u8>::new()]);
}

#[test]
fn lines_wrap_at_width() {
    let lines = bytes_to_lines(b"abcde\nf", WrapLine::Width(3));
    assert_eq!(
        lines,
        vec![b"abc".to_vec(), b"de".to_vec(), Vec::new(), b"f".to_vec()]
    );
    assert!(bytes_to_lines(b"", WrapLine::Width(4)).is_empty());
}

#[test]
fn defaults_match_the_debugger_start() {
    assert_eq!(WrapLine::default(), WrapLine::Never);
    assert_eq!(CurrentScreen::default(), CurrentScreen::Main);
    assert_eq!(RunningMode::default(), RunningMode::OneShot);
}

#[test]
fn scrolling_saturates() {
    let a = app(b"+");
    let a = a.scroll_up().scroll_left();
    assert_eq!(a.vertical_scroll(), 0);
    assert_eq!(a.horizontal_scroll(), 0);
    let a = a.scroll_down().scroll_down().scroll_right().scroll_up();
    assert_eq!(a.vertical_scroll(), 1);
    assert_eq!(a.horizontal_scroll(), 1);
}

#[test]
fn screens_and_modes_switch() {
    let a = app(b"+");
    assert_eq!(a.current_screen(), CurrentScreen::Main);
    let a = a.into_running_mode(RunningMode::StepByStep);
    assert_eq!(a.current_screen(), CurrentScreen::Running);
    assert_eq!(a.running_mode(), RunningMode::StepByStep);
    let a = a.with_current_screen(CurrentScreen::Exiting);
    assert_eq!(a.current_screen(), CurrentScreen::Exiting);
}

#[test]
fn one_shot_run_collects_output() {
    let mut a = app(b"++++++++[>++++++++<-]>+.+.").into_running_mode(RunningMode::OneShot);
    a.run_program(&mut Bytes(Vec::new())).expect("runs");
    assert_eq!(a.output(), b"AB".to_vec());
    a.restart();
    assert!(a.output().is_empty());
    assert_eq!(a.machine().instruction_pointer(), 0);
}

#[test]
fn step_by_step_runs_one_command() {
    let mut a = app(b",.").into_running_mode(RunningMode::StepByStep);
    let mut input = Bytes(b"z".to_vec());
    a.run_program(&mut input).expect("reads");
    assert_eq!(a.machine().cell(0), Some(b'z'));
    assert!(a.output().is_empty());
    a.run_program(&mut input).expect("writes");
    assert_eq!(a.output(), b"z".to_vec());
    assert!(matches!(
        a.run_program(&mut input),
        Err(Error::BffCore(machine::Error::EndOfProgram))
    ));
}

#[test]
fn one_shot_run_ends_when_input_ends() {
    let mut a = app(b",.,.,.");
    a.run_program(&mut Bytes(b"x".to_vec())).expect("input ran out");
    assert_eq!(a.output(), b"x".to_vec());
}

#[test]
fn debug_info_and_program_lines() {
    let a = app(b"+\n>");
    let di = a.debug_info();
    assert_eq!(di.current_instruction, b'+');
    assert_eq!(
        a.program_to_lines(WrapLine::Never),
        vec![b"+".to_vec(), b">".to_vec()]
    );
}

#[test]
fn keys_move_between_screens() {
    let mut a = app(b"+.");
    let mut input = Bytes(Vec::new());
    assert!(matches!(a.handle_key(Key::Char('j'), &mut input), Ok(Flow::Continue)));
    assert_eq!(a.vertical_scroll(), 1);
    assert!(matches!(a.handle_key(Key::Char('q'), &mut input), Ok(Flow::Continue)));
    assert_eq!(a.current_screen(), CurrentScreen::Exiting);
    assert!(matches!(a.handle_key(Key::Esc, &mut input), Ok(Flow::Continue)));
    assert_eq!(a.current_screen(), CurrentScreen::Main);
    assert!(matches!(a.handle_key(Key::Char('r'), &mut input), Ok(Flow::Continue)));
    assert_eq!(a.current_screen(), CurrentScreen::Running);
    assert_eq!(a.running_mode(), RunningMode::OneShot);
    assert!(matches!(a.handle_key(Key::Char('s'), &mut input), Ok(Flow::Continue)));
    assert_eq!(a.running_mode(), RunningMode::StepByStep);
    assert!(matches!(a.handle_key(Key::Enter, &mut input), Ok(Flow::Continue)));
    assert!(matches!(a.handle_key(Key::Enter, &mut input), Ok(Flow::Continue)));
    assert_eq!(a.output(), vec![1]);
    assert!(matches!(a.handle_key(Key::Char('r'), &mut input), Ok(Flow::Continue)));
    assert!(a.output().is_empty());
    assert!(matches!(a.handle_key(Key::Char('q'), &mut input), Ok(Flow::Continue)));
    assert_eq!(a.current_screen(), CurrentScreen::Running);
    assert!(matches!(a.handle_key(Key::Esc, &mut input), Ok(Flow::Continue)));
    assert!(matches!(a.handle_key(Key::Char('q'), &mut input), Ok(Flow::Continue)));
    assert!(matches!(a.handle_key(Key::Char('q'), &mut input), Ok(Flow::Quit)));
}
