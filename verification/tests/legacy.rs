use rs_bff::legacy::{find_matching, AbstractMachine, Error};
use rs_bff::machine::{Effect, RunOutcome};

#[test]
fn lib_increment_and_decrement_data_pointer() {
    let program = [b'>', b'<'];
    let mut machine = AbstractMachine::new(&program);
    machine.step().expect("valid operation >");
    assert_eq!(1, machine.data_pointer());
    machine.step().expect("valid operation <");
    assert_eq!(0, machine.data_pointer());
}

#[test]
fn lib_increment_and_decrement_byte_at_data_pointer() {
    let program = [b'+', b'-'];
    let mut machine = AbstractMachine::new(&program);
    machine.step().expect("valid operation +");
    assert_eq!(Some(1), machine.cell(0));
    machine.step().expect("valid operation -");
    assert_eq!(Some(0), machine.cell(0));
}

#[test]
fn find_matching_success() {
    let program = [b'[', b']'];
    assert_eq!(1, find_matching(0, &program).expect("should find matching"));
    let program = [b'>', b']', b'[', b'.', b']'];
    assert_eq!(4, find_matching(2, &program).expect("should find matching"));
    let program = [b'[', b'[', b'[', b']', b']', b']'];
    for (matching, pos) in [(5, 0), (4, 1), (3, 2)] {
        assert_eq!(
            matching,
            find_matching(pos, &program).expect("should find matching")
        );
    }
}

#[test]
fn find_matching_failure() {
    let program = [b'[', b']', b'[', b'>', b'[', b']'];
    assert_eq!(5, find_matching(4, &program).expect("should find matching"));
    assert!(find_matching(2, &program).is_err());
}

#[test]
fn insert_open_bracket_on_stack() {
    let program = [b'[', b'+', b']', b'>'];
    let mut machine = AbstractMachine::new(&program).with_mem(vec![1, 2, 3]);
    machine.step().expect("valid operation");
    assert_eq!(machine.innermost_loop(), Some(0));
}

#[test]
fn skip_insert_existing_open_bracket_on_stack() {
    let program = [b'[', b'+', b']', b'>'];
    let mut machine = AbstractMachine::new(&program)
        .with_mem(vec![1, 2, 3])
        .with_stack(vec![0]);
    machine.step().expect("valid operation");
    assert_eq!(machine.innermost_loop(), Some(0));
    assert_eq!(1, machine.loop_depth());
}

#[test]
fn lib_jump_to_instruction_after_matching_open_bracket() {
    let program = [b'[', b'+', b']', b'>'];
    let machine = AbstractMachine::new(&program)
        .with_mem(vec![1, 2, 3])
        .with_stack(vec![0]);
    let mut machine = machine.with_ip(2); // ip points to ']'
    machine.step().expect("valid operation");
    // instruction pointer points at the instruction after '['
    assert_eq!(1, machine.instruction_pointer());
}

#[test]
fn find_matching_reports_position_of_unmatched_bracket() {
    match find_matching(0, b"[[]") {
        Err(Error::NoMatchingBracket(0)) => {}
        _ => panic!("expected NoMatchingBracket(0)"),
    }
    assert!(find_matching(3, b"[]").is_err());
}

#[test]
fn close_bracket_on_zero_leaves_loop() {
    let program = *b"]";
    let mut machine = AbstractMachine::new(&program).with_stack(vec![0]);
    machine.step().expect("valid ]");
    assert_eq!(0, machine.loop_depth());
    assert_eq!(1, machine.instruction_pointer());
}

#[test]
fn close_bracket_without_loop_fails() {
    let program = *b"+]";
    let mut machine = AbstractMachine::new(&program);
    machine.step().expect("valid +");
    assert!(matches!(machine.step(), Err(Error::NoMatchingBracket(1))));
    assert_eq!(1, machine.instruction_pointer());
}

#[test]
fn legacy_open_bracket_on_zero_skips_loop() {
    let program = *b"[[-]]+";
    let mut machine = AbstractMachine::new(&program);
    machine.step().expect("valid [");
    assert_eq!(5, machine.instruction_pointer());
}

#[test]
fn legacy_runs_hello_world() {
    let program = b"++++++++[>++++[>++>+++>+++>+<<<<-]>+>+>->>+[<]<-]>>.>---.+++++++..+++.>>.<-.<.+++.------.--------.>>+.>++.";
    let mut m = AbstractMachine::new(program);
    let mut out = Vec::new();
    loop {
        match m.run().expect("runs") {
            RunOutcome::Finished => break,
            RunOutcome::Output(b) => {
                out.push(b);
                m.complete_output();
            }
            RunOutcome::Input => panic!("no input expected"),
            RunOutcome::Paused => {}
        }
    }
    assert_eq!(out, b"Hello World!\n".to_vec());
}

#[test]
fn legacy_input_and_output_are_pending() {
    let program = *b",.";
    let mut m = AbstractMachine::new(&program).with_num_cells(2);
    assert!(matches!(m.step(), Ok(Effect::Input)));
    m.complete_input(65).expect("cell exists");
    assert!(matches!(m.step(), Ok(Effect::Output(65))));
    m.complete_output();
    assert!(matches!(m.step(), Err(Error::EndOfProgram)));
}

#[test]
fn legacy_output_is_utf8_of_the_cell() {
    let program = *b".";
    let m = AbstractMachine::new(&program).with_mem(vec![0xe9]);
    assert_eq!(m.execute_out().expect("cell exists"), vec![0xc3, 0xa9]);
    let m = AbstractMachine::new(&program).with_mem(vec![b'A']);
    assert_eq!(m.execute_out().expect("cell exists"), vec![b'A']);
    let m = AbstractMachine::new(&program).with_mem(vec![]);
    assert!(matches!(m.execute_out(), Err(Error::InvalidMemoryAccess)));
}
