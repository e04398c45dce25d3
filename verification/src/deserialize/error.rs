//! The error that the caller of a decoding call is handed.

use vstd::prelude::*;

verus! {

/// A decoding call failed: the message says why.
#[derive(Debug, Clone)]
pub struct DeserializeError {
    pub message: String,
}

impl DeserializeError {
    /// The error with the message `message`.
    pub fn new(message: String) -> (e: Self)
        ensures
            e.message == message,
    {
        DeserializeError { message }
    }
}

} // verus!
