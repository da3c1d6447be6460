use winxmerge::diff_engine::{compute_diff_with_options, DiffOptions};
use winxmerge::diff_view::{
    build_diff_line_data, build_three_way_line_data, compute_diff_stats, parse_word_diff_segments, rebuild_left,
    rebuild_left_after_copy_from_right, rebuild_right, rebuild_right_after_copy_from_left, rebuild_three_way_text,
};
use winxmerge::three_way::compute_three_way_diff;
use winxmerge::view::parse_diff_stats;

fn diff(l: &str, r: &str) -> winxmerge::models::DiffResult {
    compute_diff_with_options(l, r, &DiffOptions::default())
}

#[test]
fn rows_number_lines_and_index_blocks() {
    let result = diff("a\nb\nc\nd\n", "a\nB\nc\nd\ne\n");
    let rows = build_diff_line_data(&result, &[], &[], 4);
    assert_eq!(rows.len(), 5);
    let idx: Vec<i32> = rows.iter().map(|r| r.diff_index).collect();
    assert_eq!(idx, vec![-1, 0, -1, -1, 1]);
    let st: Vec<i32> = rows.iter().map(|r| r.status).collect();
    assert_eq!(st, vec![0, 3, 0, 0, 1]);
    assert_eq!(rows[4].left_line_no, "");
    assert_eq!(rows[4].right_line_no, "5");
    assert_eq!(rows[1].left_highlight, -1);
    assert!(rows.iter().all(|r| !r.is_current_diff && !r.is_selected && !r.is_search_match));
}

#[test]
fn rows_take_highlights_and_expand_tabs() {
    let result = diff("x\ty\n", "x\ty\n");
    let rows = build_diff_line_data(&result, &[7], &[9, 1], 2);
    assert_eq!(rows[0].left_text, "x  y");
    assert_eq!(rows[0].left_highlight, 7);
    assert_eq!(rows[0].right_highlight, 9);
}

#[test]
fn modified_rows_carry_word_diff_strings() {
    let result = diff("the cat sat\n", "the dog sat\n");
    let rows = build_diff_line_data(&result, &[], &[], 4);
    assert_eq!(rows[0].status, 3);
    assert!(rows[0].left_word_diff.contains('\u{1}'));
    let segs = parse_word_diff_segments(&rows[0].left_text, &rows[0].left_word_diff);
    let joined: String = segs.iter().map(|s| s.text.as_str()).collect();
    assert_eq!(joined, "the cat sat");
    assert!(segs.iter().any(|s| s.is_changed && s.text.contains("cat")));
}

#[test]
fn word_segments_alternate() {
    let segs = parse_word_diff_segments("abc", "");
    assert_eq!(segs.len(), 1);
    assert_eq!(segs[0].text, "abc");
    assert!(!segs[0].is_changed);
    let segs = parse_word_diff_segments("ignored", "a\u{1}b\u{1}c");
    let v: Vec<(&str, bool)> = segs.iter().map(|s| (s.text.as_str(), s.is_changed)).collect();
    assert_eq!(v, vec![("a", false), ("b", true), ("c", false)]);
}

#[test]
fn stats_text_counts_statuses() {
    let result = diff("a\nb\nc\n", "a\nB\nc\nd\ne\n");
    let s = compute_diff_stats(&result);
    assert_eq!(s, "+2 -0 ~1");
    assert_eq!(parse_diff_stats(&s), (2, 0, 1));
}

#[test]
fn rebuilding_sides_gives_back_the_texts() {
    let (l, r) = ("one\ntwo\nthree\n", "one\n2\nthree\nfour\n");
    let rows = build_diff_line_data(&diff(l, r), &[], &[], 4);
    assert_eq!(rebuild_left(&rows), l);
    assert_eq!(rebuild_right(&rows), r);
    assert_eq!(rebuild_left(&Vec::new()), "\n");
}

#[test]
fn copying_a_block_rewrites_only_that_block() {
    let (l, r) = ("a\nb\nc\nd\n", "a\nB\nc\nd\ne\n");
    let rows = build_diff_line_data(&diff(l, r), &[], &[], 4);
    assert_eq!(rebuild_right_after_copy_from_left(&rows, 0), "a\nb\nc\nd\ne\n");
    assert_eq!(rebuild_right_after_copy_from_left(&rows, 1), "a\nB\nc\nd\n");
    assert_eq!(rebuild_left_after_copy_from_right(&rows, 0), "a\nB\nc\nd\n");
    assert_eq!(rebuild_left_after_copy_from_right(&rows, 1), "a\nb\nc\nd\ne\n");
}

#[test]
fn three_way_rows_and_pane_texts() {
    let (b, l, r) = ("x\ny\nz\n", "x\nY\nz\n", "x\ny\nz\nw\n");
    let result = compute_three_way_diff(b, l, r);
    let rows = build_three_way_line_data(&result);
    assert_eq!(rebuild_three_way_text(&rows, 1), b);
    assert_eq!(rebuild_three_way_text(&rows, 0), l);
    assert_eq!(rebuild_three_way_text(&rows, 2), r);
    let blocks: Vec<i32> = rows.iter().map(|d| d.conflict_index).collect();
    assert_eq!(blocks, vec![-1, 0, -1, 1]);
    // Rows of the first block are current (the diff has blocks).
    let current: Vec<bool> = rows.iter().map(|d| d.is_current).collect();
    assert_eq!(current, vec![false, true, false, false]);
    assert_eq!(rebuild_three_way_text(&Vec::new(), 0), "");
}

#[test]
fn no_row_is_current_without_blocks() {
    let result = compute_three_way_diff("a\nb\n", "a\nb\n", "a\nb\n");
    let rows = build_three_way_line_data(&result);
    assert_eq!(rows.len(), 2);
    assert!(rows.iter().all(|d| !d.is_current && d.conflict_index == -1));
}
