use vstd::prelude::*;

use super::error::Result;

verus! {

/// A source of input bytes, one at a time.
pub trait ReadOne {
    /// Reads one byte.
    fn read_one(&mut self) -> Result<u8>;
}

} // verus!
