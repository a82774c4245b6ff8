# rs_bff

A Brainfuck interpreter (8-bit cells, ASCII) whose machines are specified and
verified with Verus.

* `src/machine/` – the abstract machine that resolves all brackets up front
  (`build_bracket_mapping`), its contracts (`MachineView::step`,
  `MachineView::run`) and the laws about brackets and steps.
* `src/legacy.rs` – the machine that looks for the matching `]` while it runs
  (`find_matching`) and keeps a stack of the loops it entered.
* `src/matching.rs` – what a matching bracket is; both machines are proved
  against it.
* `src/agree.rs` – the proof that both machines run alike on every program
  that has a bracket table.
* `src/tui.rs` – the state of the terminal debugger: what each key does on
  each screen (`App::handle_key`), scrolling, line breaking and running the
  machine.
* `src/util.rs` – a sequence with a separator after every `n` items.
* `app/` – the `bff` command-line program and, when the binary is invoked
  under a name starting with `bff-tui`, the terminal debugger: arguments,
  files, drawing, reading keys, and the I/O that the machines ask for.

The machines perform no I/O themselves: a `.` or `,` is reported to the
caller (`Effect`, `RunOutcome`), which writes or reads the byte and completes
the command.
The searching machine writes a cell as the UTF-8 encoding of the character
with that code point (`legacy::AbstractMachine::execute_out`); the other
machine writes the cell's byte itself.
