use winxmerge::diff_engine::DiffOptions;
use winxmerge::options::{
    parse_folder_exclude_patterns, parse_line_filters, parse_plugins, parse_substitution_filters,
    rerun_after_option_change, split_pieces, split_trimmed, OptionRerun,
};
use winxmerge::saving::{
    file_saved_message, plan_tab_saves, save_all_blocked_message, save_blocked_by_hidden_lines,
    save_blocked_message, save_route, SaveRoute,
};

#[test]
fn split_pieces_keeps_empty_pieces() {
    let v: Vec<String> = split_pieces("a||b|", '|').into_iter().map(|p| p.into_iter().collect()).collect();
    assert_eq!(v, vec!["a", "", "b", ""]);
    assert_eq!(split_pieces("", ';').len(), 1);
}

#[test]
fn folder_exclude_patterns_are_trimmed_and_non_empty() {
    assert_eq!(parse_folder_exclude_patterns(" .git ; target;; *.o "), vec![".git", "target", "*.o"]);
    assert!(parse_folder_exclude_patterns("  ").is_empty());
    assert_eq!(split_trimmed("x|  |y", '|'), vec!["x", "y"]);
}

#[test]
fn line_filters_split_on_bars() {
    assert_eq!(parse_line_filters("^#| ^//  |"), vec!["^#", "^//"]);
    assert!(parse_line_filters("").is_empty());
}

#[test]
fn substitution_filters_pair_patterns_with_replacements() {
    let v = parse_substitution_filters(" foo | |bar|baz", "x| y |z");
    assert_eq!(v, vec![("foo".to_string(), "x".to_string()), ("bar".to_string(), "z".to_string())]);
    // more patterns than replacements: the extra ones are dropped
    assert_eq!(parse_substitution_filters("a|b", "1"), vec![("a".to_string(), "1".to_string())]);
}

#[test]
fn plugins_need_name_and_command() {
    let v = parse_plugins(" fmt : rustfmt {file} | bad | :nocmd | noname: | x:a:b ");
    let pairs: Vec<(String, String)> = v.into_iter().map(|e| (e.name, e.command)).collect();
    assert_eq!(
        pairs,
        vec![
            ("fmt".to_string(), "rustfmt {file}".to_string()),
            ("x".to_string(), "a:b".to_string()),
        ]
    );
    assert!(parse_plugins("").is_empty());
}

#[test]
fn rerun_after_option_change_picks_source() {
    assert_eq!(rerun_after_option_change(true, true, false, false), OptionRerun::RunDiff);
    assert_eq!(rerun_after_option_change(true, true, true, false), OptionRerun::Rescan);
    assert_eq!(rerun_after_option_change(true, true, false, true), OptionRerun::Rescan);
    assert_eq!(rerun_after_option_change(true, false, true, true), OptionRerun::Nothing);
}

#[test]
fn save_route_writes_queues_or_skips() {
    assert_eq!(save_route(true, ""), SaveRoute::Write);
    assert_eq!(save_route(false, "text\n"), SaveRoute::Queue);
    assert_eq!(save_route(false, " \n\t\n"), SaveRoute::Skip);
}

#[test]
fn save_blocked_while_lines_are_hidden() {
    let mut opts = DiffOptions::default();
    assert!(!save_blocked_by_hidden_lines(&opts, false));
    assert!(save_blocked_by_hidden_lines(&opts, true));
    opts.ignore_blank_lines = true;
    assert!(save_blocked_by_hidden_lines(&opts, false));
    opts.ignore_blank_lines = false;
    opts.line_filters = vec!["^#".to_string()];
    assert!(save_blocked_by_hidden_lines(&opts, false));
    assert!(save_blocked_message().starts_with("Save blocked: turn off \"Ignore blank lines\""));
    assert!(save_all_blocked_message("a.txt").starts_with("Save blocked for \"a.txt\": turn off"));
}

#[test]
fn plan_tab_saves_routes_each_pane() {
    let panes = vec![(true, "a\n".to_string()), (false, "b\n".to_string()), (false, "\n".to_string())];
    let (routes, saved) = plan_tab_saves(true, false, &panes);
    assert_eq!(routes, vec![SaveRoute::Write, SaveRoute::Queue, SaveRoute::Skip]);
    assert!(!saved);
    let both = vec![(true, "a\n".to_string()), (true, "".to_string())];
    assert_eq!(plan_tab_saves(true, false, &both), (vec![SaveRoute::Write, SaveRoute::Write], true));
    assert_eq!(plan_tab_saves(true, true, &both), (vec![], false));
    assert_eq!(plan_tab_saves(false, false, &both), (vec![], false));
    assert_eq!(file_saved_message("Left", "/tmp/a.txt", "UTF-8"), "Left file saved: /tmp/a.txt (UTF-8)");
}
