use zism::protocol::{build_attach_args, build_create_args, build_delete_args, parse_sessions};

#[test]
fn parse_sessions_returns_session_names() {
    let output = "my-project\ndev-server\ndotfiles\n";
    let sessions = parse_sessions(output);
    assert_eq!(sessions, vec!["my-project", "dev-server", "dotfiles"]);
}

#[test]
fn parse_sessions_trims_whitespace() {
    let output = "  my-project  \n  dev-server  \n";
    let sessions = parse_sessions(output);
    assert_eq!(sessions, vec!["my-project", "dev-server"]);
}

#[test]
fn parse_sessions_skips_empty_lines() {
    let output = "my-project\n\n\ndev-server\n";
    let sessions = parse_sessions(output);
    assert_eq!(sessions, vec!["my-project", "dev-server"]);
}

#[test]
fn parse_sessions_returns_empty_for_empty_input() {
    let sessions = parse_sessions("");
    assert!(sessions.is_empty());
}

#[test]
fn parse_sessions_drops_lines_blank_after_trimming() {
    let sessions = parse_sessions("  a  \n\n b \n");
    assert_eq!(sessions, vec!["a", "b"]);
}

#[test]
fn parse_sessions_handles_missing_final_newline() {
    let sessions = parse_sessions("one\ntwo");
    assert_eq!(sessions, vec!["one", "two"]);
}

#[test]
fn parse_sessions_keeps_duplicates_in_order() {
    let sessions = parse_sessions("dup\nother\ndup\n");
    assert_eq!(sessions, vec!["dup", "other", "dup"]);
}

#[test]
fn build_create_args_returns_correct_args() {
    let args = build_create_args("my-session");
    assert_eq!(args, vec!["--session", "my-session"]);
}

#[test]
fn build_attach_args_returns_correct_args() {
    let args = build_attach_args("my-session");
    assert_eq!(args, vec!["attach", "my-session"]);
}

#[test]
fn build_delete_args_returns_correct_args() {
    let args = build_delete_args("my-session");
    assert_eq!(args, vec!["delete-session", "-f", "my-session"]);
}
