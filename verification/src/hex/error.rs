//! What can be wrong with a hexadecimal text.

use vstd::prelude::*;

verus! {

/// Why a text was not decoded. Positions count characters of the whole text
/// from zero; lengths count the digits that follow the prefix.
#[derive(Clone, Copy, Debug, PartialEq, Eq, Structural)]
pub enum HexError {
    /// The character at `position` is no hexadecimal digit.
    InvalidChar { position: usize, char: char },
    /// The text stands for another number of bytes than the `expected` one.
    IncorrectLen { expected: usize, len: usize },
    /// The text stands for more than `max` bytes.
    LenTooLong { max: usize, len: usize },
    /// The number of digits is odd where whole bytes are asked for.
    OddLen { len: usize },
}

impl HexError {
    /// The number of digits that was found, where the error is one of length
    /// against a buffer.
    pub fn invalid_length(&self) -> (r: Option<usize>)
        ensures
            r == match *self {
                HexError::IncorrectLen { len, .. } => Some(len),
                HexError::LenTooLong { len, .. } => Some(len),
                _ => None,
            },
    {
        match self {
            HexError::IncorrectLen { len, .. } => Some(*len),
            HexError::LenTooLong { len, .. } => Some(*len),
            _ => None,
        }
    }
}

} // verus!
