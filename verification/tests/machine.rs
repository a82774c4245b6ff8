use rs_bff::machine::{
    build_bracket_mapping, AbstractMachine, DebugInfo, Effect, Error, RunOutcome,
};

fn machine(program: &[u8]) -> AbstractMachine {
    AbstractMachine::new(program.to_vec()).expect("valid program")
}

#[test]
fn increment_and_decrement_data_pointer() {
    let mut machine = machine(&[b'>', b'<']);
    machine.step().expect("valid operation >");
    assert_eq!(1, machine.data_pointer());
    machine.step().expect("valid operation <");
    assert_eq!(0, machine.data_pointer());
}

#[test]
fn increment_and_decrement_byte_at_data_pointer() {
    let mut machine = machine(&[b'+', b'-']);
    machine.step().expect("valid operation +");
    assert_eq!(Some(1), machine.cell(0));
    machine.step().expect("valid operation -");
    assert_eq!(Some(0), machine.cell(0));
}

#[test]
fn jump_to_instruction_after_matching_open_bracket() {
    let machine = machine(&[b'[', b'+', b']', b'>']);
    let mut machine = machine.with_mem(vec![1, 2, 3]).with_ip(2); // ip points to ']'
    machine.step().expect("valid operation");
    // instruction pointer points at the instruction after '['
    assert_eq!(1, machine.instruction_pointer());
}

#[test]
fn bracket_table_maps_both_ways() {
    let table = build_bracket_mapping(b"+[>[-]<]").expect("balanced");
    assert_eq!(table.len(), 4);
    assert_eq!(table.get(&1), Some(&7));
    assert_eq!(table.get(&7), Some(&1));
    assert_eq!(table.get(&3), Some(&5));
    assert_eq!(table.get(&5), Some(&3));
}

#[test]
fn bracket_table_leaves_out_unclosed_open_bracket() {
    let table = build_bracket_mapping(b"[[]").expect("no stray ]");
    assert_eq!(table.len(), 2);
    assert_eq!(table.get(&1), Some(&2));
    assert_eq!(table.get(&0), None);
}

#[test]
fn stray_close_bracket_is_refused() {
    match build_bracket_mapping(b"+]]") {
        Err(Error::NoMatchingBracket(1)) => {}
        _ => panic!("expected NoMatchingBracket(1)"),
    }
    assert!(matches!(
        AbstractMachine::new(b"[]]".to_vec()),
        Err(Error::NoMatchingBracket(2))
    ));
}

#[test]
fn new_machine_has_default_cells() {
    let m = machine(b"");
    assert_eq!(m.num_cells(), AbstractMachine::DEFAULT_NUM_CELLS);
    assert_eq!(m.cell(29_999), Some(0));
    assert_eq!(m.cell(30_000), None);
}

#[test]
fn cells_wrap_modulo_256() {
    let mut m = machine(b"-+");
    m.step().expect("valid -");
    assert_eq!(Some(255), m.cell(0));
    m.step().expect("valid +");
    assert_eq!(Some(0), m.cell(0));
}

#[test]
fn data_pointer_cannot_go_left_of_zero() {
    let mut m = machine(b"<");
    assert!(matches!(m.step(), Err(Error::DataPointerOutOfBounds)));
    assert_eq!(0, m.instruction_pointer());
}

#[test]
fn cell_outside_tape_is_invalid() {
    let mut m = machine(b">+").with_num_cells(1);
    m.step().expect("valid >");
    assert!(matches!(m.step(), Err(Error::InvalidMemoryAccess)));
    assert_eq!(1, m.instruction_pointer());
}

#[test]
fn end_of_program_is_reported() {
    let mut m = machine(b"+");
    m.step().expect("valid +");
    assert!(matches!(m.step(), Err(Error::EndOfProgram)));
}

#[test]
fn unmatched_open_bracket_fails_only_when_skipped() {
    let mut m = machine(b"[");
    assert!(matches!(m.step(), Err(Error::NoMatchingBracket(0))));
    let mut m = machine(b"+[").with_num_cells(1);
    m.step().expect("valid +");
    assert!(matches!(m.step(), Ok(Effect::Continue)));
    assert_eq!(2, m.instruction_pointer());
}

#[test]
fn open_bracket_on_zero_skips_loop() {
    let mut m = machine(b"[+]>");
    m.step().expect("valid [");
    assert_eq!(3, m.instruction_pointer());
}

#[test]
fn output_is_left_pending() {
    let mut m = machine(b"+++.");
    assert!(matches!(m.run(), Ok(RunOutcome::Output(3))));
    assert_eq!(3, m.instruction_pointer());
    assert!(matches!(m.step(), Ok(Effect::Output(3))));
    m.complete_output();
    assert!(matches!(m.run(), Ok(RunOutcome::Finished)));
}

#[test]
fn input_is_stored_in_current_cell() {
    let mut m = machine(b",.");
    assert!(matches!(m.run(), Ok(RunOutcome::Input)));
    m.complete_input(b'x').expect("cell exists");
    assert_eq!(Some(b'x'), m.cell(0));
    assert!(matches!(m.run(), Ok(RunOutcome::Output(b'x'))));
}

#[test]
fn input_into_missing_cell_fails() {
    let mut m = machine(b",").with_num_cells(0);
    assert!(matches!(m.step(), Ok(Effect::Input)));
    assert!(matches!(m.complete_input(7), Err(Error::InvalidMemoryAccess)));
    assert_eq!(0, m.instruction_pointer());
}

struct Bytes(Vec<u8>);

impl rs_bff::machine::ReadOne for Bytes {
    fn read_one(&mut self) -> rs_bff::machine::Result<u8> {
        if self.0.is_empty() {
            Err(Error::EndOfProgram)
        } else {
            Ok(self.0.remove(0))
        }
    }
}

#[test]
fn execute_in_reads_from_reader() {
    let mut reader = Bytes(b"hi".to_vec());
    let mut m = machine(b",>,");
    assert!(matches!(m.step(), Ok(Effect::Input)));
    m.execute_in(&mut reader).expect("byte available");
    m.step().expect("valid >");
    assert!(matches!(m.step(), Ok(Effect::Input)));
    m.execute_in(&mut reader).expect("byte available");
    assert_eq!(Some(b'h'), m.cell(0));
    assert_eq!(Some(b'i'), m.cell(1));
    let mut m = machine(b",");
    assert!(m.execute_in(&mut reader).is_err());
    assert_eq!(0, m.instruction_pointer());
}

#[test]
fn hello_world_prints_hello() {
    let program = b"++++++++[>++++[>++>+++>+++>+<<<<-]>+>+>->>+[<]<-]>>.>---.+++++++..+++.>>.<-.<.+++.------.--------.>>+.>++.";
    let mut m = machine(program);
    let mut out = Vec::new();
    loop {
        match m.run().expect("runs") {
            RunOutcome::Finished => break,
            RunOutcome::Output(b) => {
                out.push(b);
                m.complete_output();
            }
            RunOutcome::Input => panic!("no input expected"),
            RunOutcome::Paused => {}
        }
    }
    assert_eq!(out, b"Hello World!\n".to_vec());
}

#[test]
fn restart_zeroes_cells_and_pointers() {
    let mut m = machine(b"+>+").with_num_cells(4);
    m.run().expect("runs");
    assert_eq!(Some(1), m.cell(1));
    m.restart();
    assert_eq!(0, m.data_pointer());
    assert_eq!(0, m.instruction_pointer());
    assert_eq!(4, m.num_cells());
    for i in 0..4 {
        assert_eq!(Some(0), m.cell(i));
    }
}

#[test]
fn with_program_keeps_bracket_table() {
    let m = machine(b"[]").with_program(b"[+]".to_vec());
    let mut m = m;
    m.step().expect("jumps using the old table");
    assert_eq!(2, m.instruction_pointer());
}

#[test]
fn debug_info_reports_current_state() {
    let mut m = machine(b"+>");
    m.step().expect("valid +");
    assert_eq!(
        m.to_debug_info(),
        DebugInfo {
            data_pointer: 0,
            current_cell: 1,
            instruction_pointer: 1,
            current_instruction: b'>',
        }
    );
}
