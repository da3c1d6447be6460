use winxmerge::cli::{parse, split_option, CliArgs};
use winxmerge::folder::CompareMethod;

fn parse_args(argv: &[&str]) -> CliArgs {
    let owned: Vec<String> = std::iter::once("winxmerge").chain(argv.iter().copied()).map(String::from).collect();
    let exists = vec![false; owned.len()];
    parse(&owned, &exists)
}

#[test]
fn collects_positional_paths() {
    let cli = parse_args(&["base.txt", "left.txt", "right.txt"]);
    assert_eq!(cli.paths, vec!["base.txt", "left.txt", "right.txt"]);
}

#[test]
fn slash_options_are_not_paths() {
    let cli = parse_args(&["/ignorews", "/ignorecase", "a.txt", "b.txt"]);
    assert_eq!(cli.ignore_whitespace, Some(true));
    assert_eq!(cli.ignore_case, Some(true));
    assert_eq!(cli.paths, vec!["a.txt", "b.txt"]);
}

#[test]
fn colon_zero_disables() {
    let cli = parse_args(&["/ignorews:0", "/ignoreeol:2"]);
    assert_eq!(cli.ignore_whitespace, Some(false));
    assert_eq!(cli.ignore_eol, Some(true));
}

#[test]
fn ignorews_levels() {
    let cli = parse_args(&["/ignorews"]);
    assert_eq!(cli.ignore_whitespace, Some(true));
    assert_eq!(cli.ignore_whitespace_all, Some(false));

    let cli = parse_args(&["/ignorews:1"]);
    assert_eq!(cli.ignore_whitespace, Some(true));
    assert_eq!(cli.ignore_whitespace_all, Some(false));

    let cli = parse_args(&["/ignorews:2"]);
    assert_eq!(cli.ignore_whitespace, Some(true));
    assert_eq!(cli.ignore_whitespace_all, Some(true));

    let cli = parse_args(&["/ignorews:0"]);
    assert_eq!(cli.ignore_whitespace, Some(false));
    assert_eq!(cli.ignore_whitespace_all, Some(false));
}

#[test]
fn unspecified_options_stay_none() {
    let cli = parse_args(&["a.txt", "b.txt"]);
    assert_eq!(cli.ignore_whitespace, None);
    assert_eq!(cli.ignore_eol, None);
}

#[test]
fn value_options_consume_the_next_argument() {
    let cli = parse_args(&["/dl", "Mine", "/dr", "Theirs", "/l", "42", "a.txt", "b.txt"]);
    assert_eq!(cli.left_title.as_deref(), Some("Mine"));
    assert_eq!(cli.right_title.as_deref(), Some("Theirs"));
    assert_eq!(cli.goto_line, Some(42));
    assert_eq!(cli.paths, vec!["a.txt", "b.txt"]);
}

#[test]
fn dangling_value_option_is_ignored() {
    let cli = parse_args(&["a.txt", "b.txt", "/dl"]);
    assert_eq!(cli.left_title, None);
    assert_eq!(cli.paths, vec!["a.txt", "b.txt"]);
}

#[test]
fn option_names_are_case_insensitive() {
    let cli = parse_args(&["/IgnoreWS", "/EnableExitCode", "-B"]);
    assert_eq!(cli.ignore_whitespace, Some(true));
    assert_eq!(cli.ignore_blank_lines, Some(true));
    assert!(cli.enable_exit_code);
}

#[test]
fn legacy_long_forms_still_work() {
    let cli = parse_args(&["--ignore-whitespace", "-i", "--server", "--clear-history"]);
    assert_eq!(cli.ignore_whitespace, Some(true));
    assert_eq!(cli.ignore_case, Some(true));
    assert!(cli.server);
    assert!(cli.clear_history);
}

#[test]
fn unknown_options_are_dropped_not_treated_as_paths() {
    let cli = parse_args(&["/nosuchoption", "a.txt"]);
    assert_eq!(cli.paths, vec!["a.txt"]);
}

#[test]
fn existing_paths_win_over_option_syntax() {
    // An argument that names an existing path is a path even when it looks
    // like an option (Unix absolute paths start with '/').
    let args: Vec<String> = vec!["winxmerge".to_string(), "/tmp/some_existing_file.txt".to_string()];
    let cli = parse(&args, &vec![false, true]);
    assert_eq!(cli.paths, vec!["/tmp/some_existing_file.txt"]);
}

#[test]
fn help_is_recognised_in_every_form() {
    for form in ["/?", "--help", "-h"] {
        assert!(parse_args(&[form]).help, "{} not recognised", form);
    }
}

#[test]
fn m_option_takes_next_argument() {
    let cli = parse_args(&["/m", "Quick", "a.txt", "b.txt"]);
    assert_eq!(cli.folder_compare_method, Some(CompareMethod::Quick));
    assert_eq!(cli.paths, vec!["a.txt", "b.txt"]);
}

#[test]
fn m_option_accepts_colon_value_case_insensitively() {
    let cli = parse_args(&["/m:size"]);
    assert_eq!(cli.folder_compare_method, Some(CompareMethod::Size));
}

#[test]
fn m_option_with_unknown_value_stays_none_and_is_not_a_path() {
    let cli = parse_args(&["/m", "Bogus", "a.txt"]);
    assert_eq!(cli.folder_compare_method, None);
    assert_eq!(cli.paths, vec!["a.txt"]);
}

#[test]
fn split_option_forms() {
    assert_eq!(split_option("a.txt", false), None);
    assert_eq!(split_option("/x", true), None);
    assert_eq!(split_option("--Ignore-Case", false), Some(("ignore-case".to_string(), None)));
    assert_eq!(split_option("/M:SizeDate", false), Some(("m".to_string(), Some("SizeDate".to_string()))));
    assert_eq!(split_option("-w:", false), Some(("w".to_string(), Some(String::new()))));
    assert_eq!(split_option("-", false), Some((String::new(), None)));
}

#[test]
fn goto_line_that_does_not_parse_is_none_and_consumed() {
    let cli = parse_args(&["/l", "x", "a.txt"]);
    assert_eq!(cli.goto_line, None);
    assert_eq!(cli.paths, vec!["a.txt"]);
    let cli = parse_args(&["/l", "-7"]);
    assert_eq!(cli.goto_line, Some(-7));
}
