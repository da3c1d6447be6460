use winxmerge::diff_engine::{compute_diff_with_options, DiffOptions};
use winxmerge::models::{DiffLine, DiffResult, LineStatus};
use winxmerge::pane_buffer::{
    apply_line_deletion, build_pane_buffers_2way, build_pane_buffers_3way, extract_real_lines,
    materialize_ghost, plan_line_deletion, renumber_pane_buffer, sync_pane_row_text, LineDeletion,
};
use winxmerge::three_way::compute_three_way_diff;

// With `ignore_blank_lines`, a blank line of the left file vanishes from the
// text rebuilt from the left buffer after diff -> buffers -> text.
#[test]
fn ignore_blank_lines_drops_blank_line_after_full_roundtrip() {
    let opts = DiffOptions { ignore_blank_lines: true, ..Default::default() };
    let left = "hello\n\nworld\n";
    let right = "hello\nworld\n";
    let result = compute_diff_with_options(left, right, &opts);
    let (left_buf, right_buf) = build_pane_buffers_2way(&result, &[], &[], 4);

    let left_out = extract_real_lines(&left_buf);
    let right_out = extract_real_lines(&right_buf);

    assert_eq!(left_out, "hello\nworld\n", "blank line silently dropped from the reconstructed left text");
    assert_eq!(right_out, "hello\nworld\n");
    assert_ne!(left_out, left, "round-tripped text no longer matches the original file contents");
}

// A line matching an active line filter vanishes the same way.
#[test]
fn line_filter_drops_filtered_line_after_full_roundtrip() {
    let opts = DiffOptions { line_filters: vec!["^#".to_string()], ..Default::default() };
    let left = "# note\nkeep\n";
    let right = "keep\n";
    let result = compute_diff_with_options(left, right, &opts);
    let (left_buf, right_buf) = build_pane_buffers_2way(&result, &[], &[], 4);

    let left_out = extract_real_lines(&left_buf);
    let right_out = extract_real_lines(&right_buf);

    assert_eq!(left_out, "keep\n", "filtered line silently dropped from the reconstructed left text");
    assert_eq!(right_out, "keep\n");
    assert_ne!(left_out, left, "round-tripped text no longer matches the original file contents");
}

// Moved pairs put ghost rows on the side missing a line number, keep the real
// text of both sides, show status 4 and keep ghost rows empty.
#[test]
fn detect_moved_lines_produces_ghost_rows_without_panicking() {
    let opts = DiffOptions { detect_moved_lines: true, ..Default::default() };
    let left = "alpha\nbravo\ncharlie\ndelta\necho\nfoxtrot\ngolf\nhotel\n";
    let right = "alpha\nbravo\nfoxtrot\ngolf\ncharlie\ndelta\necho\nhotel\n";
    let result = compute_diff_with_options(left, right, &opts);

    assert!(
        result.lines.iter().any(|l| l.status == LineStatus::Moved),
        "test input must produce at least one Moved line for this test to be meaningful"
    );

    let (left_buf, right_buf) = build_pane_buffers_2way(&result, &[], &[], 4);

    assert_eq!(extract_real_lines(&left_buf), left, "left buffer must reconstruct the original left text");
    assert_eq!(extract_real_lines(&right_buf), right, "right buffer must reconstruct the original right text");

    let mut found_moved_status = false;
    for buf in [&left_buf, &right_buf] {
        for i in 0..buf.model.len() {
            let row = &buf.model[i];
            if row.is_ghost {
                assert_eq!(row.text.as_str(), "", "ghost rows must never carry the copied counterpart text");
            } else if row.status == 4 {
                found_moved_status = true;
            }
        }
    }
    assert!(found_moved_status, "at least one non-ghost row must show the Moved status (4)");
}

fn diff_line(
    left_line_no: Option<u32>,
    right_line_no: Option<u32>,
    left_text: &str,
    right_text: &str,
    status: LineStatus,
) -> DiffLine {
    DiffLine {
        left_line_no,
        right_line_no,
        left_text: left_text.to_string(),
        right_text: right_text.to_string(),
        status,
        left_word_segments: vec![],
        right_word_segments: vec![],
    }
}

#[test]
fn plan_line_deletion_refuses_last_real_line() {
    let result = DiffResult {
        lines: vec![diff_line(Some(1), Some(1), "", "", LineStatus::Equal)],
        diff_count: 0,
        diff_positions: vec![],
    };
    let (left_buf, right_buf) = build_pane_buffers_2way(&result, &[], &[], 4);

    assert_eq!(plan_line_deletion(&left_buf, &right_buf, 0), None);
    assert_eq!(extract_real_lines(&left_buf), "\n");
    assert_eq!(extract_real_lines(&right_buf), "\n");
}

#[test]
fn plan_line_deletion_refuses_ghost_target() {
    let result = DiffResult {
        lines: vec![
            diff_line(Some(1), Some(1), "keep1", "keep1", LineStatus::Equal),
            diff_line(None, Some(2), "", "added", LineStatus::Added),
            diff_line(Some(2), Some(3), "keep2", "keep2", LineStatus::Equal),
        ],
        diff_count: 1,
        diff_positions: vec![1],
    };
    let (left_buf, right_buf) = build_pane_buffers_2way(&result, &[], &[], 4);
    assert!(left_buf.model[1].is_ghost);

    assert_eq!(plan_line_deletion(&left_buf, &right_buf, 1), None);
}

#[test]
fn plan_line_deletion_ghosts_target_when_other_side_is_real() {
    let result = DiffResult {
        lines: vec![
            diff_line(Some(1), Some(1), "keep1", "keep1", LineStatus::Equal),
            diff_line(Some(2), Some(2), "", "b", LineStatus::Modified),
            diff_line(Some(3), Some(3), "keep2", "keep2", LineStatus::Equal),
        ],
        diff_count: 1,
        diff_positions: vec![1],
    };
    let (mut left_buf, mut right_buf) = build_pane_buffers_2way(&result, &[], &[], 4);
    assert!(!right_buf.model[1].is_ghost);
    assert_eq!(extract_real_lines(&left_buf), "keep1\n\nkeep2\n", "sanity: target row starts out real with empty text");
    let right_before = extract_real_lines(&right_buf);

    let deletion = plan_line_deletion(&left_buf, &right_buf, 1);
    assert_eq!(deletion, Some(LineDeletion::GhostTarget));
    apply_line_deletion(&mut left_buf, &mut right_buf, 1, deletion.unwrap());

    assert_eq!(extract_real_lines(&right_buf), right_before, "other side must be untouched when its row is a real line");
    let target_row = &left_buf.model[1];
    assert!(target_row.is_ghost, "target row must become a ghost");
    assert_eq!(extract_real_lines(&left_buf), "keep1\nkeep2\n", "target must lose exactly the deleted line");
}

#[test]
fn plan_line_deletion_removes_both_when_other_side_is_ghost() {
    let result = DiffResult {
        lines: vec![
            diff_line(Some(1), Some(1), "keep1", "keep1", LineStatus::Equal),
            diff_line(Some(2), None, "", "", LineStatus::Removed),
            diff_line(Some(3), Some(2), "keep2", "keep2", LineStatus::Equal),
        ],
        diff_count: 1,
        diff_positions: vec![1],
    };
    let (mut left_buf, mut right_buf) = build_pane_buffers_2way(&result, &[], &[], 4);
    assert!(right_buf.model[1].is_ghost);
    let left_before = left_buf.model.len();
    let right_before = right_buf.model.len();

    let deletion = plan_line_deletion(&left_buf, &right_buf, 1);
    assert_eq!(deletion, Some(LineDeletion::RemoveBoth));
    apply_line_deletion(&mut left_buf, &mut right_buf, 1, deletion.unwrap());

    assert_eq!(left_buf.model.len(), left_before - 1);
    assert_eq!(right_buf.model.len(), right_before - 1);
}

#[test]
fn materialize_ghost_turns_ghost_row_into_saved_line() {
    let result = DiffResult {
        lines: vec![
            diff_line(Some(1), Some(1), "keep1", "keep1", LineStatus::Equal),
            diff_line(None, Some(2), "", "added", LineStatus::Added),
            diff_line(Some(2), Some(3), "keep2", "keep2", LineStatus::Equal),
        ],
        diff_count: 1,
        diff_positions: vec![1],
    };
    let (mut left_buf, _right_buf) = build_pane_buffers_2way(&result, &[], &[], 4);
    assert!(left_buf.model[1].is_ghost);

    assert!(materialize_ghost(&mut left_buf, 1));

    let mut wrapped = Some(left_buf);
    sync_pane_row_text(&mut wrapped, 1, "typed");
    let mut left_buf = wrapped.unwrap();

    assert_eq!(extract_real_lines(&left_buf), "keep1\ntyped\nkeep2\n");
    assert_eq!(left_buf.line_to_row.len(), 3);

    assert!(!materialize_ghost(&mut left_buf, 1), "row is already real; second call must be a no-op");
    assert!(!materialize_ghost(&mut left_buf, 0), "row 0 was never a ghost");
}

#[test]
fn built_buffers_number_rows_map_lines_and_expand_tabs() {
    let result = DiffResult {
        lines: vec![
            diff_line(Some(1), Some(1), "a\tb", "a\tb", LineStatus::Equal),
            diff_line(Some(2), None, "gone", "", LineStatus::Removed),
            diff_line(None, Some(2), "", "new", LineStatus::Added),
        ],
        diff_count: 1,
        diff_positions: vec![1],
    };
    let (l, r) = build_pane_buffers_2way(&result, &[7, 8], &[], 2);
    assert_eq!(l.model.len(), 3);
    assert_eq!(r.model.len(), 3);
    assert_eq!(l.model[0].text, "a  b");
    assert_eq!(l.model[0].line_no, "1");
    assert_eq!(l.model[0].highlight, 7);
    assert_eq!(l.model[1].highlight, 8);
    assert_eq!(r.model[0].highlight, -1);
    assert_eq!(l.model[1].status, 2);
    assert_eq!(l.model[1].diff_index, 0);
    assert_eq!(l.model[0].diff_index, -1);
    assert!(l.model[2].is_ghost);
    assert!(r.model[1].is_ghost);
    assert_eq!(l.row_to_line, vec![Some(0), Some(1), None]);
    assert_eq!(l.line_to_row, vec![0, 1]);
    assert_eq!(l.ghost_rows, vec![2]);
    assert_eq!(r.row_to_line, vec![Some(0), None, Some(1)]);
    assert_eq!(r.ghost_rows, vec![1]);
}

#[test]
fn renumber_after_ghosting_counts_real_lines_from_one() {
    let result = DiffResult {
        lines: vec![
            diff_line(Some(1), Some(1), "x", "x", LineStatus::Equal),
            diff_line(Some(2), Some(2), "", "y", LineStatus::Modified),
            diff_line(Some(3), Some(3), "z", "z", LineStatus::Equal),
        ],
        diff_count: 1,
        diff_positions: vec![1],
    };
    let (mut l, mut r) = build_pane_buffers_2way(&result, &[], &[], 4);
    apply_line_deletion(&mut l, &mut r, 1, LineDeletion::GhostTarget);
    assert_eq!(l.model[2].line_no, "2");
    assert_eq!(l.line_to_row, vec![0, 2]);
    renumber_pane_buffer(&mut l);
    assert_eq!(l.model[0].line_no, "1");
    assert_eq!(l.model[1].line_no, "");
}

#[test]
fn three_way_buffers_hold_each_pane_text() {
    let base = "a\nb\nc\n";
    let left = "a\nB\nc\nd\n";
    let right = "a\nb\nc\n";
    let result = compute_three_way_diff(base, left, right);
    let (l, m, r) = build_pane_buffers_3way(&result);
    assert_eq!(extract_real_lines(&l), left);
    assert_eq!(extract_real_lines(&m), base);
    assert_eq!(extract_real_lines(&r), right);
    assert_eq!(l.model.len(), m.model.len());
    assert_eq!(l.model.len(), r.model.len());
}
