//! The actions a user can pick from the launcher menu.

use vstd::prelude::*;

verus! {

/// One of the operations the launcher offers on sessions.
#[derive(Debug, Clone, Copy, PartialEq, Eq, Structural)]
pub enum Action {
    Create,
    CreateWithDir,
    Attach,
    Delete,
}

impl Action {
    /// The menu text of this action.
    pub open spec fn label_spec(self) -> Seq<char> {
        match self {
            Action::Create => "Create new session"@,
            Action::CreateWithDir => "Create new session with directory"@,
            Action::Attach => "Attach to session"@,
            Action::Delete => "Delete session"@,
        }
    }

    /// Returns the menu text of this action.
    pub fn label(&self) -> (r: String)
        ensures
            r@ == self.label_spec(),
    {
        match self {
            Action::Create => "Create new session".to_owned(),
            Action::CreateWithDir => "Create new session with directory".to_owned(),
            Action::Attach => "Attach to session".to_owned(),
            Action::Delete => "Delete session".to_owned(),
        }
    }
}

/// Returns the menu entries offered for the current session list: all four
/// actions when sessions exist, only the two creation actions when none do.
pub fn available_actions(has_sessions: bool) -> (r: Vec<Action>)
    ensures
        has_sessions ==> r@ == seq![
            Action::CreateWithDir,
            Action::Create,
            Action::Attach,
            Action::Delete,
        ],
        !has_sessions ==> r@ == seq![Action::CreateWithDir, Action::Create],
{
    if has_sessions {
        vec![Action::CreateWithDir, Action::Create, Action::Attach, Action::Delete]
    } else {
        vec![Action::CreateWithDir, Action::Create]
    }
}

} // verus!
