//! The errors an operation can report.
//!
//! Every error is terminal for its operation: a rejected operation leaves
//! the targeted record exactly as it was.

use vstd::prelude::*;

verus! {

/// Why an operation was rejected.
#[derive(PartialEq, Eq, Structural, Clone, Copy, Debug)]
pub enum ChatError {
    /// The content pointer of a message exceeds its declared bound.
    HashTooLong,
    /// A nickname exceeds its declared bound.
    NicknameTooLong,
    /// The acting identity is not a participant of the conversation.
    Unauthorized,
}

} // verus!
