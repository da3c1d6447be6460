use winxmerge::diff_view::{DiffLineData, ThreeWayLineData};
use winxmerge::replace::{
    case_insensitive_replace, replace_all_text, replace_all_text_3way, replace_matches, replace_text,
    replace_text_3way, replaced_message,
};

fn row(l: &str, r: &str) -> DiffLineData {
    DiffLineData {
        left_line_no: "1".to_string(),
        right_line_no: "1".to_string(),
        left_text: l.to_string(),
        right_text: r.to_string(),
        status: 3,
        is_current_diff: false,
        diff_index: 0,
        left_highlight: -1,
        right_highlight: -1,
        left_word_diff: String::new(),
        right_word_diff: String::new(),
        is_search_match: true,
        is_selected: false,
    }
}

fn row3(l: &str, b: &str, r: &str) -> ThreeWayLineData {
    ThreeWayLineData {
        base_line_no: "1".to_string(),
        left_line_no: "1".to_string(),
        right_line_no: "1".to_string(),
        base_text: b.to_string(),
        left_text: l.to_string(),
        right_text: r.to_string(),
        status: 0,
        is_current: false,
        conflict_index: -1,
        is_search_match: true,
    }
}

#[test]
fn case_insensitive_replace_keeps_surrounding_case() {
    assert_eq!(case_insensitive_replace("Foo bar FOO", "foo", "x"), Some("x bar x".to_string()));
    assert_eq!(case_insensitive_replace("aaa", "aa", "b"), Some("ba".to_string()));
    assert_eq!(case_insensitive_replace("abc", "", "-"), Some("-a-b-c-".to_string()));
    assert_eq!(case_insensitive_replace("Über", "über", "U"), Some("U".to_string()));
    // lower-casing 'İ' changes its length: no replacement is attempted
    assert_eq!(case_insensitive_replace("İa", "a", "b"), None);
}

#[test]
fn replace_matches_uses_lower_case_positions() {
    assert_eq!(replace_matches("HeLLo", "hello", "ll", "__"), "He__o");
    assert_eq!(replace_matches("abc", "abc", "zz", "y"), "abc");
}

#[test]
fn replace_text_changes_current_hit_row_only() {
    let mut rows = vec![row("one Cat", "cat two"), row("CAT", "dog")];
    assert!(replace_text(&mut rows, &vec![0, 1], 1, "cat", "bird"));
    assert_eq!(rows[1].left_text, "bird");
    assert_eq!(rows[1].right_text, "dog");
    assert_eq!(rows[0].left_text, "one Cat");
    assert!(!replace_text(&mut rows, &vec![0, 1], -1, "cat", "bird"));
    assert!(!replace_text(&mut rows, &vec![], 0, "cat", "bird"));
    assert!(!replace_text(&mut rows, &vec![5], 0, "cat", "bird"));
    assert!(!replace_text(&mut rows, &vec![0], 0, "", "bird"));
}

#[test]
fn replace_all_text_replaces_every_hit_row() {
    let mut rows = vec![row("a Cat", "cat"), row("none", "none"), row("CAT cat", "x")];
    assert_eq!(replace_all_text(&mut rows, &vec![0, 2, 7], "cat", "dog"), Some(3));
    assert_eq!(rows[0].left_text, "a dog");
    assert_eq!(rows[0].right_text, "dog");
    assert_eq!(rows[1].left_text, "none");
    assert_eq!(rows[2].left_text, "dog dog");
    assert_eq!(rows[2].status, 3);
    assert_eq!(replace_all_text(&mut rows, &vec![], "cat", "dog"), None);
    assert_eq!(replaced_message(3), "Replaced 3 occurrences");
}

#[test]
fn replace_in_three_way_rows() {
    let mut rows = vec![row3("Ab", "ab", "AB"), row3("x", "y", "z")];
    assert!(replace_text_3way(&mut rows, &vec![0], 0, "ab", "c"));
    assert_eq!((rows[0].left_text.as_str(), rows[0].base_text.as_str(), rows[0].right_text.as_str()), ("c", "c", "c"));
    let mut rows = vec![row3("Ab", "ab", "AB"), row3("xab", "y", "z")];
    assert_eq!(replace_all_text_3way(&mut rows, &vec![0, 1], "AB", "-"), Some(2));
    assert_eq!(rows[1].left_text, "x-");
    assert_eq!(rows[0].base_text, "-");
}
