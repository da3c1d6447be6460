use winxmerge::names::{find_first, find_last, insert_name, sorted_union, str_lt};
use winxmerge::view::{expand_tabs, has_native_file_dialog, parse_diff_stats, parse_i32, sync_diff_stats, ViewMode};

fn strings(v: &[&str]) -> Vec<String> {
    v.iter().map(|s| s.to_string()).collect()
}

#[test]
fn view_mode_codes_round_trip() {
    let all = [
        ViewMode::FileDiff,
        ViewMode::FolderCompare,
        ViewMode::ThreeWayText,
        ViewMode::ExcelCompare,
        ViewMode::ImageCompare,
        ViewMode::CsvCompare,
        ViewMode::Blank,
        ViewMode::CsvThreeWay,
    ];
    let codes: Vec<i32> = all.iter().map(|m| m.as_i32()).collect();
    assert_eq!(codes, vec![0, 1, 3, 4, 5, 6, 7, 8]);
    for m in all {
        assert_eq!(ViewMode::from(m.as_i32()), m);
    }
    assert_eq!(ViewMode::from(2), ViewMode::Blank);
    assert_eq!(ViewMode::from(-5), ViewMode::Blank);
}

#[test]
fn view_mode_kinds() {
    assert!(ViewMode::CsvCompare.is_table_mode());
    assert!(ViewMode::ExcelCompare.is_table_mode());
    assert!(ViewMode::CsvThreeWay.is_table_mode());
    assert!(!ViewMode::FileDiff.is_table_mode());
    assert!(ViewMode::FileDiff.is_text_mode());
    assert!(ViewMode::ThreeWayText.is_text_mode());
    assert!(!ViewMode::ImageCompare.is_text_mode());
}

#[test]
fn diff_stats_parse() {
    assert_eq!(parse_diff_stats("+3 -1 ~2"), (3, 1, 2));
    assert_eq!(parse_diff_stats("  ~7\t+10  "), (10, 0, 7));
    assert_eq!(parse_diff_stats("+x -2 junk"), (0, 2, 0));
    assert_eq!(parse_diff_stats("+1 +4"), (4, 0, 0));
    assert_eq!(parse_diff_stats("+-5 -+6"), (-5, 6, 0));
    assert_eq!(parse_diff_stats("+99999999999"), (0, 0, 0));
    assert_eq!(parse_diff_stats(""), (0, 0, 0));
}

#[test]
fn diff_stats_display_keeps_text() {
    let d = sync_diff_stats("+1 -2 ~3");
    assert_eq!(d.text, "+1 -2 ~3");
    assert_eq!((d.added, d.removed, d.modified), (1, 2, 3));
}

#[test]
fn parse_i32_like_std() {
    for s in ["0", "-0", "+12", "2147483647", "-2147483648", "2147483648", "", "-", "+", "1a", " 1", "007"] {
        let chars: Vec<char> = s.chars().collect();
        assert_eq!(parse_i32(&chars), s.parse::<i32>().ok(), "{:?}", s);
    }
}

#[test]
fn native_dialogs() {
    assert!(has_native_file_dialog("macos"));
    assert!(has_native_file_dialog("windows"));
    assert!(!has_native_file_dialog("linux"));
}

#[test]
fn tabs_become_spaces() {
    assert_eq!(expand_tabs("a\tb\t", 2), "a  b  ");
    assert_eq!(expand_tabs("no tabs", 4), "no tabs");
    assert_eq!(expand_tabs("\t", 0), "");
}

#[test]
fn names_order_and_union() {
    assert!(str_lt("a", "b"));
    assert!(str_lt("ab", "abc"));
    assert!(!str_lt("abc", "abc"));
    assert!(str_lt("B", "a"));
    let u = sorted_union(&strings(&["b", "a", "b"]), &strings(&["c", "a"]));
    assert_eq!(u, strings(&["a", "b", "c"]));
    let mut names = strings(&["a", "c"]);
    insert_name(&mut names, "b");
    insert_name(&mut names, "c");
    assert_eq!(names, strings(&["a", "b", "c"]));
}

#[test]
fn first_and_last_positions() {
    let keys = strings(&["x", "y", "x"]);
    assert_eq!(find_first(&keys, "x"), Some(0));
    assert_eq!(find_last(&keys, "x"), Some(2));
    assert_eq!(find_first(&keys, "z"), None);
    assert_eq!(find_last(&keys, "z"), None);
}
