use winxmerge::diff_engine::{compute_diff_with_options, DiffOptions};
use winxmerge::models::LineStatus;


#[test]
fn test_equal_files() {
    let result =
        compute_diff_with_options("hello\nworld\n", "hello\nworld\n", &DiffOptions::default());
    assert_eq!(result.diff_count, 0);
    assert_eq!(result.lines.len(), 2);
}

#[test]
fn test_added_line() {
    let result =
        compute_diff_with_options("hello\n", "hello\nworld\n", &DiffOptions::default());
    assert_eq!(result.diff_count, 1);
    assert_eq!(result.lines[1].status, LineStatus::Added);
}

#[test]
fn test_removed_line() {
    let result =
        compute_diff_with_options("hello\nworld\n", "hello\n", &DiffOptions::default());
    assert_eq!(result.diff_count, 1);
    assert_eq!(result.lines[1].status, LineStatus::Removed);
}

#[test]
fn test_modified_line() {
    let result = compute_diff_with_options("hello\n", "hallo\n", &DiffOptions::default());
    assert_eq!(result.diff_count, 1);
    assert_eq!(result.lines[0].status, LineStatus::Modified);
}

#[test]
fn test_ignore_whitespace() {
    let opts = DiffOptions {
        ignore_whitespace: true,
        ..Default::default()
    };
    let result = compute_diff_with_options("hello   world\n", "hello world\n", &opts);
    assert_eq!(result.diff_count, 0);
}

#[test]
fn test_ignore_case() {
    let opts = DiffOptions {
        ignore_case: true,
        ..Default::default()
    };
    let result = compute_diff_with_options("Hello\n", "hello\n", &opts);
    assert_eq!(result.diff_count, 0);
}

#[test]
fn test_moved_line() {
    let left = "aaa\nbbb\nccc\n";
    let right = "ccc\nbbb\naaa\n";
    let result = compute_diff_with_options(left, right, &DiffOptions::default());
    let moved_count = result
        .lines
        .iter()
        .filter(|l| l.status == LineStatus::Moved)
        .count();
    assert!(moved_count > 0, "Should detect moved lines");
}

#[test]
fn test_ignore_blank_lines() {
    let opts = DiffOptions {
        ignore_blank_lines: true,
        ..Default::default()
    };
    let result = compute_diff_with_options("hello\n\nworld\n", "hello\nworld\n", &opts);
    assert_eq!(result.diff_count, 0);
}

#[test]
fn test_ignore_both() {
    let opts = DiffOptions {
        ignore_whitespace: true,
        ignore_case: true,
        ..Default::default()
    };
    let result = compute_diff_with_options("Hello   World\n", "hello world\n", &opts);
    assert_eq!(result.diff_count, 0);
}

#[test]
fn test_line_filter() {
    let opts = DiffOptions {
        line_filters: vec![r"^//.*".to_string()],
        ..Default::default()
    };
    let left = "code\n// comment v1\n";
    let right = "code\n// comment v2\n";
    let result = compute_diff_with_options(left, right, &opts);
    assert_eq!(result.diff_count, 0, "Comment lines should be filtered out");
}

#[test]
fn test_substitution_filter() {
    let opts = DiffOptions {
        substitution_filters: vec![(r"\d{4}-\d{2}-\d{2}".to_string(), "DATE".to_string())],
        ..Default::default()
    };
    let left = "created: 2024-01-01\n";
    let right = "created: 2025-06-15\n";
    let result = compute_diff_with_options(left, right, &opts);
    assert_eq!(result.diff_count, 0, "Date differences should be ignored");
}

#[test]
fn test_block_grouping_multi_delete_insert() {
    // 3 lines deleted, 3 lines inserted → 1 diff block with 3 Modified lines
    let left = "a\nb\nc\nd\n";
    let right = "x\ny\nz\nd\n";
    let result = compute_diff_with_options(left, right, &DiffOptions::default());
    assert_eq!(result.diff_positions.len(), 1, "Should be 1 diff block");
    assert_eq!(result.diff_count, 1);
    let modified_count = result
        .lines
        .iter()
        .filter(|l| l.status == LineStatus::Modified)
        .count();
    assert_eq!(modified_count, 3, "3 pairs should be Modified");
}

#[test]
fn test_block_grouping_unequal_sides() {
    // 2 lines deleted, 4 lines inserted → 1 block: 2 Modified + 2 Added
    let left = "a\nb\nc\n";
    let right = "x\ny\np\nq\nc\n";
    let result = compute_diff_with_options(left, right, &DiffOptions::default());
    assert_eq!(result.diff_positions.len(), 1, "Should be 1 diff block");
    let modified = result
        .lines
        .iter()
        .filter(|l| l.status == LineStatus::Modified)
        .count();
    let added = result
        .lines
        .iter()
        .filter(|l| l.status == LineStatus::Added)
        .count();
    assert_eq!(modified, 2);
    assert_eq!(added, 2);
}

#[test]
fn test_two_separate_blocks() {
    // Two separate diff hunks → 2 diff blocks
    let left = "a\nb\nc\nd\ne\n";
    let right = "X\nb\nc\nd\nY\n";
    let result = compute_diff_with_options(left, right, &DiffOptions::default());
    assert_eq!(result.diff_positions.len(), 2, "Should be 2 diff blocks");
    assert_eq!(result.diff_count, 2);
}

#[test]
fn test_line_filter_empty_pattern() {
    let opts = DiffOptions {
        line_filters: vec!["".to_string(), "  ".to_string()],
        ..Default::default()
    };
    let result = compute_diff_with_options("hello\n", "world\n", &opts);
    assert_eq!(result.diff_count, 1, "Empty filters should be ignored");
}

#[test]
fn test_substitution_filter_invalid_regex() {
    let opts = DiffOptions {
        substitution_filters: vec![("[invalid".to_string(), "x".to_string())],
        ..Default::default()
    };
    let result = compute_diff_with_options("hello\n", "hello\n", &opts);
    assert_eq!(result.diff_count, 0, "Invalid regex should be skipped");
}
