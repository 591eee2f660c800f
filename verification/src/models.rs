//! What a host command reports back to its caller.

use vstd::prelude::*;

verus! {

/// The outcome of one host command: whether it succeeded, and a message
/// when there is something to say.
pub struct CommandStatus {
    /// Whether the command succeeded.
    pub status: bool,
    /// The command's message, if any.
    pub message: Option<String>,
}

} // verus!
