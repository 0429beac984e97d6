use dirjump::resolve::{dispatch, handle_line, prompt_lines, sort_by_len, Dispatch, Step};
use dirjump::tree::{collect_matches, matches_query, DirTree};

fn dir(name: &str, children: Vec<DirTree>) -> DirTree {
    DirTree { name: String::from(name), children }
}

fn leaf(name: &str) -> DirTree {
    dir(name, vec![])
}

#[test]
fn scenario_two_matches_hidden_excluded() {
    // Tree /root/{foo, .foobar, baz/foo}, query "foo": the hidden entry is
    // excluded, the two others match; input "1" picks the shortest path.
    let entries = vec![leaf("foo"), leaf(".foobar"), dir("baz", vec![leaf("foo")])];
    let mut matches = collect_matches(&entries, "/root", "foo");
    matches.sort();
    assert_eq!(matches, vec![
        String::from("/root/baz/foo"),
        String::from("/root/foo")
    ]);

    let mut candidates = collect_matches(&entries, "/root", "foo");
    sort_by_len(&mut candidates);
    assert_eq!(candidates, vec![
        String::from("/root/foo"),
        String::from("/root/baz/foo")
    ]);

    let lines = prompt_lines(&candidates);
    assert_eq!(lines, vec![
        String::from("2. /root/baz/foo"),
        String::from("1. /root/foo")
    ]);

    match handle_line(&candidates, "1") {
        Step::Selected(p) => assert_eq!(p, "/root/foo"),
        _ => panic!("expected a selection"),
    }
}

#[test]
fn scenario_single_match_is_unique() {
    let entries = vec![leaf("target")];
    let mut matches = collect_matches(&entries, "/root", "target");
    sort_by_len(&mut matches);
    match dispatch(&matches) {
        Dispatch::Unique(p) => assert_eq!(p, "/root/target"),
        _ => panic!("expected the sole candidate"),
    }
}

#[test]
fn scenario_no_match() {
    let entries = vec![leaf("alpha"), dir("beta", vec![leaf("gamma")])];
    let matches = collect_matches(&entries, "/root", "zzz");
    assert!(matches.is_empty());
    assert!(matches!(dispatch(&matches), Dispatch::NoMatch));
}

#[test]
fn scenario_malformed_then_valid_input() {
    let entries = vec![leaf("docs"), leaf("docs2")];
    let mut candidates = collect_matches(&entries, "/root", "docs");
    sort_by_len(&mut candidates);
    assert_eq!(candidates.len(), 2);
    assert!(matches!(handle_line(&candidates, "abc"), Step::Reprompt));
    match handle_line(&candidates, "1") {
        Step::Selected(p) => assert_eq!(p, candidates[0]),
        _ => panic!("expected a selection"),
    }
}

#[test]
fn hidden_subtree_is_never_entered() {
    // A match below a hidden ancestor must not surface.
    let entries = vec![dir(".cache", vec![leaf("foo")]), leaf("other")];
    let matches = collect_matches(&entries, "/root", "foo");
    assert!(matches.is_empty());
}

#[test]
fn matching_is_case_insensitive() {
    let entries = vec![leaf("FooBar"), leaf("BAZFOO")];
    let mut matches = collect_matches(&entries, "/r", "foo");
    matches.sort();
    assert_eq!(matches, vec![
        String::from("/r/BAZFOO"),
        String::from("/r/FooBar")
    ]);
}

#[test]
fn empty_query_matches_every_visible_directory() {
    let entries = vec![leaf("a"), leaf(".b"), dir("c", vec![leaf("d")])];
    let mut matches = collect_matches(&entries, "", "");
    matches.sort();
    assert_eq!(matches, vec![
        String::from("/a"),
        String::from("/c"),
        String::from("/c/d")
    ]);
}

#[test]
fn deep_match_is_found() {
    let entries = vec![dir("a", vec![dir("b", vec![dir("c", vec![leaf("needle")])])])];
    let matches = collect_matches(&entries, "/top", "needle");
    assert_eq!(matches, vec![String::from("/top/a/b/c/needle")]);
}

#[test]
fn traversal_is_idempotent() {
    let entries = vec![leaf("foo"), dir("bar", vec![leaf("foot"), leaf(".hid")])];
    let mut first = collect_matches(&entries, "/root", "foo");
    let mut second = collect_matches(&entries, "/root", "foo");
    first.sort();
    second.sort();
    assert_eq!(first, second);
}

#[test]
fn query_matcher_folds_case() {
    assert!(matches_query("FOO", "foo"));
    assert!(matches_query("xFoOy", "foo"));
    assert!(!matches_query("bar", "foo"));
}
