//! The ways in which an input can be refused.

use vstd::prelude::*;

verus! {

/// Why an operation refused its input. Every refusal is decided by the input
/// alone, before any output is produced.
#[derive(Debug, Clone, Copy, PartialEq, Eq)]
pub enum CipherError {
    /// The input holds `actual` bytes, but the operation needs at least
    /// `minimum` bytes and, behind any prefix, a whole number of blocks.
    InvalidLength { minimum: usize, actual: usize },
    /// The last byte of a `len`-byte buffer, `marker`, is not the count of
    /// padding bytes of any padded message: it is zero, more than a block, or
    /// more than the buffer holds. An empty buffer reports `marker` 0.
    MalformedPadding { marker: u8, len: usize },
    /// A key of `actual` bytes was offered where the cipher takes `expected`.
    KeyLengthMismatch { expected: usize, actual: usize },
}

/// A result as contracts speak of it: the bytes of the vector on success, the
/// error as it is otherwise.
pub open spec fn outcome(r: Result<Vec<u8>, CipherError>) -> Result<Seq<u8>, CipherError> {
    match r {
        Ok(v) => Ok(v@),
        Err(e) => Err(e),
    }
}

} // verus!
