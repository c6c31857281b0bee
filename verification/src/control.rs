//! Decisions of the session controller: how one run of the external tool is
//! interpreted, and the errors surfaced to the interaction boundary.

use crate::protocol::{parse_sessions, parse_sessions_spec};
use crate::text::{contains_seq, str_contains};
use vstd::prelude::*;
use vstd::string::StringExecFns;

verus! {

/// An error surfaced by a session operation.
#[derive(Debug, Clone, PartialEq, Eq)]
pub enum SessionError {
    /// The tool could not be invoked at all; carries the underlying cause.
    ToolUnavailable(String),
    /// The tool ran and failed with an unrecognized message; carries its
    /// error output verbatim.
    ToolReportedError(String),
    /// Replacing the process image for create or attach could not be
    /// initiated; carries the underlying cause.
    ExecFailed(String),
    /// The delete subcommand exited with a failure status; carries the
    /// session name.
    DeleteFailed(String),
    /// A selection was requested against an empty session list.
    NoSessionsAvailable,
}

/// The error-output text with which the tool reports that no sessions
/// exist: benign, not an error.
pub open spec fn no_sessions_sentinel() -> Seq<char> {
    "No active zellij sessions found"@
}

/// Recognizes the tool's benign no-sessions notice in its error output.
/// The fragile substring match lives here and nowhere else, so a future
/// structured signal from the tool is a one-point change.
pub fn is_no_sessions_notice(stderr: &str) -> (r: bool)
    ensures
        r == contains_seq(stderr@, no_sessions_sentinel()),
{
    str_contains(stderr, "No active zellij sessions found")
}

/// Interprets one run of the session-listing subcommand, given its exit
/// status and captured output: on success the parsed session names; on
/// failure an empty list when the error output carries the benign
/// no-sessions notice, and the reported error verbatim otherwise.
pub fn interpret_list_output(success: bool, stdout: &str, stderr: &str) -> (r: Result<
    Vec<String>,
    SessionError,
>)
    ensures
        success ==> (r matches Ok(names) && names.deep_view() == parse_sessions_spec(stdout@)),
        !success && contains_seq(stderr@, no_sessions_sentinel()) ==> (r matches Ok(names)
            && names.deep_view() == Seq::<Seq<char>>::empty()),
        !success && !contains_seq(stderr@, no_sessions_sentinel()) ==> (r matches Err(e)
            && e matches SessionError::ToolReportedError(msg) && msg@ == stderr@),
{
    if success {
        Ok(parse_sessions(stdout))
    } else if is_no_sessions_notice(stderr) {
        let names: Vec<String> = Vec::new();
        proof {
            assert(names.deep_view() =~= Seq::<Seq<char>>::empty());
        }
        Ok(names)
    } else {
        Err(SessionError::ToolReportedError(stderr.to_owned()))
    }
}

/// Interprets the exit of one delete-subcommand run: a failure status turns
/// into an error carrying the session name that could not be deleted.
pub fn interpret_delete_status(success: bool, name: &str) -> (r: Result<(), SessionError>)
    ensures
        success <==> r is Ok,
        !success ==> (r matches Err(e) && e matches SessionError::DeleteFailed(n) && n@
            == name@),
{
    if success {
        Ok(())
    } else {
        Err(SessionError::DeleteFailed(name.to_owned()))
    }
}

/// Guards a selection prompt: an empty session list cannot be selected
/// from.
pub fn check_selectable(sessions: &Vec<String>) -> (r: Result<(), SessionError>)
    ensures
        sessions.len() > 0 <==> r is Ok,
        sessions.len() == 0 ==> (r matches Err(e) && e == SessionError::NoSessionsAvailable),
{
    if sessions.len() == 0 {
        Err(SessionError::NoSessionsAvailable)
    } else {
        Ok(())
    }
}

impl SessionError {
    /// The user-facing description of this error.
    pub open spec fn message_spec(&self) -> Seq<char> {
        match self {
            SessionError::ToolUnavailable(cause) => "Failed to run zellij. Is it installed? ("@
                + cause@ + ")"@,
            SessionError::ToolReportedError(msg) => "zellij list-sessions failed: "@ + msg@,
            SessionError::ExecFailed(cause) => "Failed to exec zellij: "@ + cause@,
            SessionError::DeleteFailed(name) => "Failed to delete session '"@ + name@ + "'"@,
            SessionError::NoSessionsAvailable => "No sessions available to select."@,
        }
    }

    /// Renders the user-facing description of this error.
    pub fn message(&self) -> (r: String)
        ensures
            r@ == self.message_spec(),
    {
        match self {
            SessionError::ToolUnavailable(cause) => String::from_str(
                "Failed to run zellij. Is it installed? (",
            ).concat(cause.as_str()).concat(")"),
            SessionError::ToolReportedError(msg) => String::from_str(
                "zellij list-sessions failed: ",
            ).concat(msg.as_str()),
            SessionError::ExecFailed(cause) => String::from_str("Failed to exec zellij: ").concat(
                cause.as_str(),
            ),
            SessionError::DeleteFailed(name) => String::from_str("Failed to delete session '")
                .concat(name.as_str()).concat("'"),
            SessionError::NoSessionsAvailable => String::from_str(
                "No sessions available to select.",
            ),
        }
    }
}

} // verus!
