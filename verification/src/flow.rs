//! Decisions of the interactive flow: which prompt follows the chosen
//! action, whether a typed session name is acceptable, and when the
//! delete round ends.

use crate::action::Action;
use crate::protocol::build_delete_args;
use crate::protocol::{lemma_trim_front_skip, trim_back, trim_spec};
use crate::text::{is_wsp, is_wsp_char};
use vstd::prelude::*;
use vstd::string::StrSliceExecFns;

verus! {

/// What the interaction loop must do next, once an action is chosen.
#[derive(Debug, Clone, Copy, PartialEq, Eq, Structural)]
pub enum Directive {
    /// Prompt for a new session name, then create a session of that name.
    AskSessionName,
    /// Prompt for a directory, then create a session rooted in it.
    AskDirectory,
    /// Prompt for an existing session, then attach to it.
    AskAttachTarget,
    /// Enter the delete round.
    BeginDeleteRound,
}

/// Decides the prompt that follows the chosen action.
pub fn dispatch_action(action: Action) -> (r: Directive)
    ensures
        action == Action::Create ==> r == Directive::AskSessionName,
        action == Action::CreateWithDir ==> r == Directive::AskDirectory,
        action == Action::Attach ==> r == Directive::AskAttachTarget,
        action == Action::Delete ==> r == Directive::BeginDeleteRound,
{
    match action {
        Action::Create => Directive::AskSessionName,
        Action::CreateWithDir => Directive::AskDirectory,
        Action::Attach => Directive::AskAttachTarget,
        Action::Delete => Directive::BeginDeleteRound,
    }
}

/// Decides one round of the delete loop: with no sessions left, or with the
/// selection prompt skipped, the round ends quietly; otherwise the returned
/// argument vector deletes the chosen session and the round repeats.
pub fn next_delete_command(sessions: &Vec<String>, selection: Option<String>) -> (r: Option<
    Vec<String>,
>)
    ensures
        sessions.len() == 0 ==> r is None,
        selection is None ==> r is None,
        sessions.len() > 0 ==> (match selection {
            Some(name) => r matches Some(args) && args.deep_view() == seq![
                "delete-session"@,
                "-f"@,
                name@,
            ],
            None => r is None,
        }),
{
    if sessions.len() == 0 {
        return None;
    }
    match selection {
        None => None,
        Some(name) => Some(build_delete_args(name.as_str())),
    }
}

proof fn lemma_trim_back_keeps_head(s: Seq<char>)
    requires
        s.len() > 0,
        !is_wsp(s[0]),
    ensures
        trim_back(s).len() > 0,
    decreases s.len(),
{
    if s.len() > 0 && is_wsp(s.last()) {
        lemma_trim_back_keeps_head(s.drop_last());
    }
}

/// A typed session name is accepted exactly when something remains of it
/// after trimming whitespace.
pub fn validate_session_name(name: &str) -> (r: bool)
    ensures
        r == (trim_spec(name@).len() > 0),
{
    let n = name.unicode_len();
    let mut i: usize = 0;
    while i < n && is_wsp_char(name.get_char(i))
        invariant
            i <= n,
            n == name@.len(),
            forall|k: int| 0 <= k < i ==> is_wsp(name@[k]),
        decreases n - i,
    {
        i = i + 1;
    }
    proof {
        lemma_trim_front_skip(name@, i as int);
        if i < n {
            let rest = name@.subrange(i as int, n as int);
            assert(!is_wsp(rest[0]));
            lemma_trim_back_keeps_head(rest);
        } else {
            assert(name@.subrange(i as int, n as int) =~= Seq::<char>::empty());
        }
    }
    i < n
}

} // verus!
