//! The recoverable error type shared by argument binding, completion and
//! job dispatch, together with its constructors.

use vstd::prelude::*;

verus! {

/// A recoverable failure: binding and classification short-circuit with one
/// of these, and job dispatch converts them into reported messages.
#[derive(Debug, Clone, PartialEq, Eq)]
pub struct JobError {
    pub message: String,
}

/// Error for source text the parser rejected.
pub fn parse_error(message: &str) -> (r: JobError)
    ensures
        r.message@ == message@,
{
    JobError { message: message.to_owned() }
}

/// Error for a violated argument-binding precondition.
pub fn argument_error(message: &str) -> (r: JobError)
    ensures
        r.message@ == message@,
{
    JobError { message: message.to_owned() }
}

/// Error for any other recoverable failure.
pub fn error(message: &str) -> (r: JobError)
    ensures
        r.message@ == message@,
{
    JobError { message: message.to_owned() }
}

} // verus!
