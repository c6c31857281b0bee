use zism::completion::{longest_common_prefix, prepare_entries, DirCompleter};
use zism::paths::{resolve_directory, tail_segment};

fn strings(items: &[&str]) -> Vec<String> {
    items.iter().map(|s| s.to_string()).collect()
}

#[test]
fn longest_common_prefix_returns_shared_prefix() {
    let items = vec![
        "develop/foo".to_string(),
        "develop/bar".to_string(),
        "develop/baz".to_string(),
    ];
    assert_eq!(longest_common_prefix(&items), "develop/");
}

#[test]
fn longest_common_prefix_returns_empty_when_no_common() {
    let items = vec!["alpha".to_string(), "beta".to_string()];
    assert_eq!(longest_common_prefix(&items), "");
}

#[test]
fn longest_common_prefix_returns_item_for_single_element() {
    let items = vec!["only".to_string()];
    assert_eq!(longest_common_prefix(&items), "only");
}

#[test]
fn longest_common_prefix_returns_empty_for_empty_input() {
    let items: Vec<String> = vec![];
    assert_eq!(longest_common_prefix(&items), "");
}

#[test]
fn longest_common_prefix_stays_on_character_boundaries() {
    let items = strings(&["grüße", "grün"]);
    assert_eq!(longest_common_prefix(&items), "grü");
}

#[test]
fn suggestions_filter_by_trailing_segment() {
    let engine = DirCompleter::new("/home/user".to_string());
    let entries = strings(&["dev", "docs", "music"]);
    let sugg = engine.get_suggestions("d", &entries);
    assert_eq!(sugg, vec!["dev", "docs"]);
}

#[test]
fn suggestions_prepend_parent_path() {
    let engine = DirCompleter::new("/home/user".to_string());
    let entries = strings(&["bar", "baz"]);
    let sugg = engine.get_suggestions("a/b", &entries);
    assert_eq!(sugg, vec!["a/bar", "a/baz"]);
}

#[test]
fn suggestions_after_trailing_slash_match_everything() {
    let engine = DirCompleter::new("/home/user".to_string());
    let entries = strings(&["one", "two"]);
    let sugg = engine.get_suggestions("a/", &entries);
    assert_eq!(sugg, vec!["a/one", "a/two"]);
}

#[test]
fn suggestions_identical_for_identical_requests() {
    let engine = DirCompleter::new("/home/user".to_string());
    let entries = strings(&["dev", "docs", "music"]);
    let first = engine.get_suggestions("d", &entries);
    let second = engine.get_suggestions("d", &entries);
    assert_eq!(first, second);
}

#[test]
fn suggestions_narrow_as_more_is_typed() {
    let engine = DirCompleter::new("/home/user".to_string());
    let entries = strings(&["dev", "docs", "music"]);
    let wider = engine.get_suggestions("d", &entries);
    let narrower = engine.get_suggestions("de", &entries);
    for s in &narrower {
        assert!(wider.contains(s));
    }
}

#[test]
fn completion_descends_into_single_match() {
    let engine = DirCompleter::new("/home/user".to_string());
    let entries = strings(&["bar"]);
    let completion = engine.get_completion("a/b", None, &entries);
    assert_eq!(completion, Some("a/bar/".to_string()));
}

#[test]
fn completion_expands_to_common_prefix() {
    let engine = DirCompleter::new("/home/user".to_string());
    let entries = strings(&["dev", "docs"]);
    let completion = engine.get_completion("", None, &entries);
    assert_eq!(completion, Some("d".to_string()));
}

#[test]
fn completion_stops_at_ambiguity() {
    let engine = DirCompleter::new("/home/user".to_string());
    let entries = strings(&["dev", "docs"]);
    let completion = engine.get_completion("d", None, &entries);
    assert_eq!(completion, None);
}

#[test]
fn completion_absent_when_nothing_is_shared() {
    let engine = DirCompleter::new("/home/user".to_string());
    let entries = strings(&["alpha", "beta"]);
    let completion = engine.get_completion("", None, &entries);
    assert_eq!(completion, None);
}

#[test]
fn completion_absent_without_candidates() {
    let engine = DirCompleter::new("/home/user".to_string());
    let entries: Vec<String> = vec![];
    let completion = engine.get_completion("any", None, &entries);
    assert_eq!(completion, None);
}

#[test]
fn completion_descends_into_highlighted_suggestion() {
    let engine = DirCompleter::new("/home/user".to_string());
    let entries = strings(&["dev", "docs"]);
    let completion = engine.get_completion("d", Some("docs".to_string()), &entries);
    assert_eq!(completion, Some("docs/".to_string()));
}

#[test]
fn target_dir_is_home_for_bare_segment() {
    let engine = DirCompleter::new("/home/user".to_string());
    assert_eq!(engine.target_dir("d"), "/home/user");
}

#[test]
fn target_dir_descends_into_typed_parent() {
    let engine = DirCompleter::new("/home/user".to_string());
    assert_eq!(engine.target_dir("a/b"), "/home/user/a");
    assert_eq!(engine.target_dir("a/"), "/home/user/a");
}

#[test]
fn prepare_entries_drops_hidden_and_sorts() {
    let names = strings(&["zeta", ".git", "alpha", "music"]);
    let prepared = prepare_entries(&names);
    assert_eq!(prepared, vec!["alpha", "music", "zeta"]);
}

#[test]
fn prepare_entries_keeps_duplicates() {
    let names = strings(&["b", "a", "b"]);
    let prepared = prepare_entries(&names);
    assert_eq!(prepared, vec!["a", "b", "b"]);
}

#[test]
fn resolve_directory_ignores_trailing_slashes() {
    assert_eq!(resolve_directory("/home/user", "a/b/"), "/home/user/a/b");
    assert_eq!(resolve_directory("/home/user", ""), "/home/user");
}

#[test]
fn tail_segment_names_the_session_after_the_directory() {
    assert_eq!(tail_segment("/home/user/projects/zism"), "zism");
    assert_eq!(tail_segment("plain"), "plain");
}
