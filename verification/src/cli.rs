//! The command line's exit statuses, which automation relies on.
use vstd::prelude::*;

verus! {

/// How a command failed, as far as its exit status tells.
#[derive(Debug, Clone, Copy, PartialEq, Eq, Structural)]
pub enum Failure {
    /// Invalid arguments, or an empty session ID.
    InvalidArguments,
    /// The session, provider or workspace route asked for does not exist.
    NotFound,
    /// The Codex home, a rollout, a scan, a store or the output failed.
    Other,
}

/// The exit status of a failed command: 2 for invalid arguments, 3 for
/// something that was not found, 4 for any other failure.  Success is 0.
pub fn exit_code(failure: Failure) -> (res: u8)
    ensures
        res == match failure {
            Failure::InvalidArguments => 2u8,
            Failure::NotFound => 3u8,
            Failure::Other => 4u8,
        },
{
    match failure {
        Failure::InvalidArguments => 2,
        Failure::NotFound => 3,
        Failure::Other => 4,
    }
}

} // verus!
