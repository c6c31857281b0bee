use zism::action::{available_actions, Action};
use zism::control::{
    check_selectable, interpret_delete_status, interpret_list_output, is_no_sessions_notice,
    SessionError,
};
use zism::flow::{dispatch_action, next_delete_command, validate_session_name, Directive};

#[test]
fn action_display_create() {
    assert_eq!(Action::Create.label(), "Create new session");
}

#[test]
fn action_display_create_with_dir() {
    assert_eq!(
        Action::CreateWithDir.label(),
        "Create new session with directory"
    );
}

#[test]
fn action_display_attach() {
    assert_eq!(Action::Attach.label(), "Attach to session");
}

#[test]
fn action_display_delete() {
    assert_eq!(Action::Delete.label(), "Delete session");
}

#[test]
fn available_actions_with_sessions_returns_all() {
    let actions = available_actions(true);
    assert_eq!(
        actions,
        vec![
            Action::CreateWithDir,
            Action::Create,
            Action::Attach,
            Action::Delete,
        ]
    );
}

#[test]
fn available_actions_without_sessions_returns_create_and_create_with_dir() {
    let actions = available_actions(false);
    assert_eq!(actions, vec![Action::CreateWithDir, Action::Create]);
}

#[test]
fn dispatch_action_names_the_following_prompt() {
    assert_eq!(dispatch_action(Action::Create), Directive::AskSessionName);
    assert_eq!(dispatch_action(Action::CreateWithDir), Directive::AskDirectory);
    assert_eq!(dispatch_action(Action::Attach), Directive::AskAttachTarget);
    assert_eq!(dispatch_action(Action::Delete), Directive::BeginDeleteRound);
}

#[test]
fn list_interpretation_parses_successful_output() {
    let r = interpret_list_output(true, "one\ntwo\n", "");
    assert_eq!(r, Ok(vec!["one".to_string(), "two".to_string()]));
}

#[test]
fn list_interpretation_treats_no_sessions_notice_as_empty() {
    let stderr = "Error occurred: No active zellij sessions found.";
    let r = interpret_list_output(false, "", stderr);
    assert_eq!(r, Ok(vec![]));
}

#[test]
fn list_interpretation_reports_other_failures_verbatim() {
    let r = interpret_list_output(false, "", "permission denied");
    assert_eq!(
        r,
        Err(SessionError::ToolReportedError("permission denied".to_string()))
    );
}

#[test]
fn no_sessions_notice_requires_the_exact_sentence() {
    assert!(is_no_sessions_notice("No active zellij sessions found"));
    assert!(!is_no_sessions_notice("no active zellij sessions found"));
    assert!(!is_no_sessions_notice("something else went wrong"));
}

#[test]
fn delete_status_failure_carries_the_session_name() {
    assert_eq!(interpret_delete_status(true, "work"), Ok(()));
    assert_eq!(
        interpret_delete_status(false, "work"),
        Err(SessionError::DeleteFailed("work".to_string()))
    );
}

#[test]
fn selection_on_empty_list_is_refused() {
    let sessions: Vec<String> = vec![];
    assert_eq!(
        check_selectable(&sessions),
        Err(SessionError::NoSessionsAvailable)
    );
    assert_eq!(check_selectable(&vec!["one".to_string()]), Ok(()));
}

#[test]
fn delete_round_ends_on_empty_list_or_skipped_prompt() {
    let empty: Vec<String> = vec![];
    assert_eq!(next_delete_command(&empty, Some("x".to_string())), None);
    let some = vec!["x".to_string()];
    assert_eq!(next_delete_command(&some, None), None);
}

#[test]
fn delete_round_builds_the_delete_invocation() {
    let sessions = vec!["x".to_string(), "y".to_string()];
    let cmd = next_delete_command(&sessions, Some("y".to_string()));
    assert_eq!(cmd, Some(vec![
        "delete-session".to_string(),
        "-f".to_string(),
        "y".to_string(),
    ]));
}

#[test]
fn session_names_must_not_be_blank() {
    assert!(validate_session_name("work"));
    assert!(validate_session_name("  padded  "));
    assert!(!validate_session_name(""));
    assert!(!validate_session_name("   "));
}

#[test]
fn error_messages_name_their_cause() {
    assert_eq!(
        SessionError::ToolUnavailable("not found".to_string()).message(),
        "Failed to run zellij. Is it installed? (not found)"
    );
    assert_eq!(
        SessionError::ToolReportedError("boom".to_string()).message(),
        "zellij list-sessions failed: boom"
    );
    assert_eq!(
        SessionError::ExecFailed("exec".to_string()).message(),
        "Failed to exec zellij: exec"
    );
    assert_eq!(
        SessionError::DeleteFailed("work".to_string()).message(),
        "Failed to delete session 'work'"
    );
    assert_eq!(
        SessionError::NoSessionsAvailable.message(),
        "No sessions available to select."
    );
}
