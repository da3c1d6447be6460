use winxmerge::csv::compare_csv_full;
use winxmerge::detail::{detail_lines_2way, detail_lines_3way, table_detail_cells};
use winxmerge::diff_engine::{compute_diff_with_options, DiffOptions};
use winxmerge::diff_view::build_three_way_line_data;
use winxmerge::pane_buffer::build_pane_buffers_2way;
use winxmerge::table::{build_columns, build_table_rows};
use winxmerge::three_way::compute_three_way_diff;

fn texts(v: &[winxmerge::detail::DetailLineData]) -> Vec<String> {
    v.iter().map(|d| d.segments.iter().map(|s| s.text.as_str()).collect::<String>()).collect()
}

#[test]
fn two_way_detail_of_a_block() {
    let r = compute_diff_with_options("a\nold one\nc\nx\n", "a\nnew one\nc\n", &DiffOptions::default());
    let (l, rb) = build_pane_buffers_2way(&r, &[], &[], 4);
    let (l, rb) = (Some(l), Some(rb));
    let (left, right) = detail_lines_2way(&l, &rb, &r.diff_positions, 0);
    assert_eq!(texts(&left), vec!["old one"]);
    assert_eq!(texts(&right), vec!["new one"]);
    assert!(left[0].is_current);
    assert_eq!(left[0].status, 3);
    assert!(left[0].segments.iter().any(|s| s.is_changed));
    // Block 1 removes "x": a left line only.
    let (left, right) = detail_lines_2way(&l, &rb, &r.diff_positions, 1);
    assert_eq!(texts(&left), vec!["x"]);
    assert!(right.is_empty());
    let (left, right) = detail_lines_2way(&l, &rb, &r.diff_positions, -1);
    assert!(left.is_empty() && right.is_empty());
    let (left, _) = detail_lines_2way(&None, &rb, &r.diff_positions, 0);
    assert!(left.is_empty());
}

#[test]
fn three_way_detail_of_a_block() {
    let res = compute_three_way_diff("k\nb\n", "k\nL\n", "k\nb\n");
    let rows = build_three_way_line_data(&res);
    let (l, b, r) = detail_lines_3way(&rows, 0);
    assert_eq!(texts(&l), vec!["L"]);
    assert_eq!(texts(&b), vec!["b"]);
    assert_eq!(texts(&r), vec!["b"]);
    assert!(l[0].segments[0].is_changed);
    assert!(!b[0].segments[0].is_changed);
    let (l, _, _) = detail_lines_3way(&rows, -1);
    assert!(l.is_empty());
}

#[test]
fn table_detail_of_a_row() {
    let res = compare_csv_full("a,b\n", "a,c,d\n");
    let (cols, _) = build_columns(2, 80);
    let rows = build_table_rows(&res.left_grid, &res.right_grid, &res.cell_status, res.max_rows, res.max_cols, &cols);
    let d = table_detail_cells(&rows, &cols, 0);
    assert_eq!(d.len(), 3);
    assert_eq!(d[1].col_name, "B");
    assert_eq!((d[1].left_value.as_str(), d[1].right_value.as_str(), d[1].status), ("b", "c", 1));
    assert_eq!(d[2].col_name, "C");
    assert_eq!(d[2].col_width_px, 100);
    assert_eq!(d[0].status, 0);
    assert!(table_detail_cells(&rows, &cols, 5).is_empty());
}
