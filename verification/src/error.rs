//! The errors the registry and the board return.

use vstd::prelude::*;

verus! {

/// An operation's failure: a duplicate registration, a lookup miss, or a
/// catch-all kept for conditions no current operation raises.
#[derive(Debug)]
pub enum CanisterError {
    /// Registering an identifier that is already taken.
    UserAlreadyExists,
    /// Fetching a job identifier that is not on the board.
    JobNotFound,
    /// Reserved for future conditions; no operation returns it.
    Other(String),
}

impl CanisterError {
    /// The human-readable message of this error.
    pub open spec fn message_spec(self) -> Seq<char> {
        match self {
            CanisterError::UserAlreadyExists => "User already exists"@,
            CanisterError::JobNotFound => "Job not found"@,
            CanisterError::Other(msg) => msg@,
        }
    }

    /// A human-readable message for this error.
    pub fn message(&self) -> (r: &str)
        ensures
            r@ == self.message_spec(),
    {
        match self {
            CanisterError::UserAlreadyExists => "User already exists",
            CanisterError::JobNotFound => "Job not found",
            CanisterError::Other(msg) => msg.as_str(),
        }
    }
}

} // verus!
