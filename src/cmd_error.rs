//! The errors of the socketcand command reader.
use vstd::prelude::*;

verus! {

/// Errors of the command reader.
#[derive(Clone, Copy, Debug, PartialEq, Eq, Structural)]
pub enum Error {
    /// The received command is invalid.
    ParseError,
    /// The item was not found.
    NotFound,
    /// The buffer is full and data has been lost.
    BufIsFull,
    /// No start sign was found in the byte stream.
    NoBeginFound,
    /// The function is not supported.
    NotSupported,
}

} // verus!
