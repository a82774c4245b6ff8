use vstd::prelude::*;

verus! {

/// The I/O error of the standard library, carried opaquely.
#[verifier::external_type_specification]
#[verifier::external_body]
pub struct ExIoError(std::io::Error);

/// Everything that can go wrong while running a program.
#[derive(Debug)]
pub enum Error {
    /// The data pointer would leave the range of `usize`.
    DataPointerOutOfBounds,
    /// The data pointer does not point at a memory cell.
    InvalidMemoryAccess,
    /// A byte could not be converted into a character.
    InvalidCharacter(u8),
    /// A byte is not a bracket.
    InvalidBracket(u8),
    /// The bracket at this position has no partner.
    NoMatchingBracket(usize),
    /// The instruction pointer is past the last instruction.
    EndOfProgram,
    /// Reading or writing failed.
    Io(std::io::Error),
    /// A lock could not be acquired.
    RwLock,
}

/// The result type of this module.
pub type Result<T> = core::result::Result<T, Error>;

} // verus!
