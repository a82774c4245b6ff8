//! A Brainfuck interpreter whose abstract machines are specified and verified.
//!
//! * [`machine`] is the interpreter that resolves brackets once, up front.
//! * [`legacy`] is the interpreter that searches for brackets while it runs.
//! * [`agree`] proves that the two interpreters run alike.
//! * [`matching`] says what a matching bracket is; both interpreters are proved
//!   against it.
//! * [`tui`] holds the state logic of the terminal debugger.
//! * [`util`] holds small helpers.
pub mod machine;
pub mod agree;
pub mod legacy;
pub mod matching;
pub mod tui;
pub mod util;
