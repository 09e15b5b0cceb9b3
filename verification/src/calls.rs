//! How a failed call to the server reaches the page: the server's own
//! fixed, page-safe message, or a generic transport line (never a raw
//! transport error).

use vstd::prelude::*;
use crate::text::string_from;

verus! {

/// A failed call, as the pages tell its kinds apart.
#[derive(Debug, Clone, PartialEq, Eq)]
pub enum CallError {
    /// The server answered with its user-facing message.
    Server(String),
    /// The call failed before the server could answer.
    Transport,
}

/// The page text of a failed call: the server's message, or the generic
/// line asking for a refresh.
pub open spec fn error_text_of(e: CallError) -> Seq<char> {
    match e {
        CallError::Server(m) => m@,
        CallError::Transport => "Could not reach the server. Refresh to see the current state."@,
    }
}

/// The page text of a failed call (see [`error_text_of`]).
pub fn error_text(e: &CallError) -> (r: String)
    ensures
        r@ == error_text_of(*e),
{
    match e {
        CallError::Server(m) => m.clone(),
        CallError::Transport => string_from("Could not reach the server. Refresh to see the current state."),
    }
}

/// The text of a failed candidate decision (the same mapping).
pub fn candidate_error_text(e: &CallError) -> (r: String)
    ensures
        r@ == error_text_of(*e),
{
    error_text(e)
}

/// The text of a failed signal track / dismiss press: the server's message
/// when it has one, else a short retry line.
pub open spec fn signal_error_of(e: CallError) -> Seq<char> {
    match e {
        CallError::Server(m) => if m@.len() > 0 { m@ } else { "could not reach the server, try again"@ },
        CallError::Transport => "could not reach the server, try again"@,
    }
}

/// The text of a failed signal track / dismiss press.
pub fn signal_action_error_text(e: &CallError) -> (r: String)
    ensures
        r@ == signal_error_of(*e),
{
    match e {
        CallError::Server(m) => {
            if m.as_str().unicode_len() > 0 {
                m.clone()
            } else {
                string_from("could not reach the server, try again")
            }
        },
        CallError::Transport => string_from("could not reach the server, try again"),
    }
}

} // verus!
