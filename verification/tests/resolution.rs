use dirjump::numeral::{parse_usize, usize_to_string};
use dirjump::resolve::{
    dispatch, handle_line, parse_selection, prompt_lines, select, sort_by_len, Dispatch,
    InputParse, Selection, Step,
};
use dirjump::strutil::{contains_substring, trim_str};

fn strings(items: &[&str]) -> Vec<String> {
    items.iter().map(|s| String::from(*s)).collect()
}

#[test]
fn sort_orders_by_path_length() {
    let mut v = strings(&["dd", "a", "ccc"]);
    sort_by_len(&mut v);
    assert_eq!(v, strings(&["a", "dd", "ccc"]));
}

#[test]
fn sort_keeps_every_candidate() {
    let mut v = strings(&["bb", "aa", "c", "aa"]);
    sort_by_len(&mut v);
    assert_eq!(v.len(), 4);
    assert_eq!(v[0], "c");
    let mut rest = vec![v[1].clone(), v[2].clone(), v[3].clone()];
    rest.sort();
    assert_eq!(rest, strings(&["aa", "aa", "bb"]));
}

#[test]
fn dispatch_on_zero_one_many() {
    assert!(matches!(dispatch(&strings(&[])), Dispatch::NoMatch));
    match dispatch(&strings(&["only"])) {
        Dispatch::Unique(p) => assert_eq!(p, "only"),
        _ => panic!("expected the sole candidate"),
    }
    assert!(matches!(dispatch(&strings(&["a", "b"])), Dispatch::Ambiguous));
}

#[test]
fn prompt_lists_each_candidate_once_reversed() {
    let v = strings(&["a", "bb", "ccc"]);
    let lines = prompt_lines(&v);
    assert_eq!(lines.len(), v.len());
    assert_eq!(lines, strings(&["3. ccc", "2. bb", "1. a"]));
}

#[test]
fn selection_boundaries_are_out_of_range() {
    let v = strings(&["a", "b"]);
    assert!(matches!(select(&v, 0), Selection::OutOfRange));
    assert!(matches!(select(&v, 3), Selection::OutOfRange));
    match select(&v, 1) {
        Selection::Chosen(p) => assert_eq!(p, "a"),
        _ => panic!("expected index 1 to be chosen"),
    }
    match select(&v, 2) {
        Selection::Chosen(p) => assert_eq!(p, "b"),
        _ => panic!("expected index 2 to be chosen"),
    }
}

#[test]
fn parse_accepts_plain_numerals() {
    assert!(matches!(parse_selection("3"), InputParse::Choice(3)));
    assert!(matches!(parse_selection(" 7 \n"), InputParse::Choice(7)));
    assert!(matches!(parse_selection("+5"), InputParse::Choice(5)));
    assert!(matches!(parse_selection("0"), InputParse::Choice(0)));
}

#[test]
fn parse_defaults_empty_input_to_first() {
    assert!(matches!(parse_selection(""), InputParse::Choice(1)));
    assert!(matches!(parse_selection("\n"), InputParse::Choice(1)));
    assert!(matches!(parse_selection("   "), InputParse::Choice(1)));
}

#[test]
fn parse_rejects_non_numerals() {
    assert!(matches!(parse_selection("abc"), InputParse::Malformed));
    assert!(matches!(parse_selection("12x"), InputParse::Malformed));
    assert!(matches!(parse_selection("-1"), InputParse::Malformed));
    assert!(matches!(parse_selection("+"), InputParse::Malformed));
    assert!(matches!(
        parse_selection("99999999999999999999999999"),
        InputParse::Malformed
    ));
}

#[test]
fn handle_line_covers_every_step() {
    let v = strings(&["a", "b"]);
    assert!(matches!(handle_line(&v, "junk"), Step::Reprompt));
    assert!(matches!(handle_line(&v, "0"), Step::OutOfRange));
    assert!(matches!(handle_line(&v, "3"), Step::OutOfRange));
    match handle_line(&v, "2") {
        Step::Selected(p) => assert_eq!(p, "b"),
        _ => panic!("expected a selection"),
    }
    match handle_line(&v, "") {
        Step::Selected(p) => assert_eq!(p, "a"),
        _ => panic!("expected the default selection"),
    }
}

#[test]
fn numerals_render_in_decimal() {
    assert_eq!(usize_to_string(0), "0");
    assert_eq!(usize_to_string(10), "10");
    assert_eq!(usize_to_string(907), "907");
}

#[test]
fn parse_usize_reads_decimal() {
    assert_eq!(parse_usize("42"), Some(42));
    assert_eq!(parse_usize(""), None);
    assert_eq!(parse_usize("4 2"), None);
}

#[test]
fn substring_search_finds_occurrences() {
    assert!(contains_substring("hello", "ell"));
    assert!(contains_substring("hello", "lo"));
    assert!(contains_substring("hello", ""));
    assert!(!contains_substring("hello", "xyz"));
    assert!(!contains_substring("he", "hello"));
}

#[test]
fn trim_removes_edge_whitespace() {
    assert_eq!(trim_str(" \t 12 \r\n"), "12");
    assert_eq!(trim_str("12"), "12");
    assert_eq!(trim_str("  "), "");
    assert_eq!(trim_str("a b"), "a b");
}
