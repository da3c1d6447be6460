use winxmerge::models::{DiffLine, DiffResult, LineStatus};
use winxmerge::pane_buffer::{build_pane_buffers_2way, extract_real_lines, PaneBuffer};
use winxmerge::text_edit::{
    blank_pane_buffer, copied_lines_message, copy_selection_to_left, copy_selection_to_right, delete_line, focus_after_delete, insert_line_after,
    rebuild_left_after_copy_from_right_buffers, rebuild_right_after_copy_from_left_buffers, set_row_selection,
};

fn diff_line(l: Option<u32>, r: Option<u32>, lt: &str, rt: &str, status: LineStatus) -> DiffLine {
    DiffLine {
        left_line_no: l,
        right_line_no: r,
        left_text: lt.to_string(),
        right_text: rt.to_string(),
        status,
        left_word_segments: vec![],
        right_word_segments: vec![],
    }
}

// keep1 / (removed "gone") / mid / changed "a"->"b" / keep2
fn sample() -> (Option<PaneBuffer>, Option<PaneBuffer>) {
    let result = DiffResult {
        lines: vec![
            diff_line(Some(1), Some(1), "keep1", "keep1", LineStatus::Equal),
            diff_line(Some(2), None, "gone", "", LineStatus::Removed),
            diff_line(Some(3), Some(2), "mid", "mid", LineStatus::Equal),
            diff_line(Some(4), Some(3), "a", "b", LineStatus::Modified),
            diff_line(Some(5), Some(4), "keep2", "keep2", LineStatus::Equal),
        ],
        diff_count: 2,
        diff_positions: vec![1, 3],
    };
    let (l, r) = build_pane_buffers_2way(&result, &[], &[], 4);
    (Some(l), Some(r))
}

fn text(b: &Option<PaneBuffer>) -> String {
    extract_real_lines(b.as_ref().unwrap())
}

fn selected(b: &Option<PaneBuffer>) -> Vec<bool> {
    b.as_ref().unwrap().model.iter().map(|x| x.is_selected).collect()
}

#[test]
fn insert_line_after_adds_empty_line_and_ghost() {
    let (mut l, mut r) = sample();
    let focus = insert_line_after(&mut l, &mut r, 0, true);
    assert_eq!(focus, Some(1));
    assert_eq!(text(&l), "keep1\n\ngone\nmid\na\nkeep2\n");
    assert_eq!(text(&r), "keep1\nmid\nb\nkeep2\n");
    let lb = l.as_ref().unwrap();
    assert_eq!(lb.model[1].line_no, "2");
    assert_eq!(lb.model[1].status, 2);
    assert_eq!(lb.model[2].line_no, "3");
    assert!(r.as_ref().unwrap().model[1].is_ghost);
    assert_eq!(lb.model.len(), 6);
    assert_eq!(r.as_ref().unwrap().model.len(), 6);
}

#[test]
fn insert_line_after_on_right_marks_added() {
    let (mut l, mut r) = sample();
    assert_eq!(insert_line_after(&mut l, &mut r, 4, false), Some(5));
    assert_eq!(text(&r), "keep1\nmid\nb\nkeep2\n\n");
    assert_eq!(r.as_ref().unwrap().model[5].status, 1);
    assert_eq!(r.as_ref().unwrap().model[5].line_no, "5");
    assert_eq!(text(&l), "keep1\ngone\nmid\na\nkeep2\n");
}

#[test]
fn insert_line_after_refuses_bad_index() {
    let (mut l, mut r) = sample();
    assert_eq!(insert_line_after(&mut l, &mut r, 5, true), None);
    assert_eq!(insert_line_after(&mut l, &mut r, -1, true), None);
    let mut none: Option<PaneBuffer> = None;
    assert_eq!(insert_line_after(&mut none, &mut r, 0, true), None);
    assert_eq!(text(&l), "keep1\ngone\nmid\na\nkeep2\n");
}

#[test]
fn insert_then_delete_restores_both_panes() {
    let (mut l, mut r) = sample();
    let before_l = text(&l);
    let before_r = text(&r);
    let focus = insert_line_after(&mut l, &mut r, 3, true).unwrap();
    assert_eq!(focus, 4);
    let moved = delete_line(&mut l, &mut r, focus as i32, true);
    assert_eq!(moved, Some(3));
    assert_eq!(text(&l), before_l);
    assert_eq!(text(&r), before_r);
    assert_eq!(l.as_ref().unwrap().model.len(), 5);
    assert_eq!(r.as_ref().unwrap().model.len(), 5);
}

#[test]
fn delete_line_ghosts_target_when_other_side_is_real() {
    let result = DiffResult {
        lines: vec![
            diff_line(Some(1), Some(1), "keep1", "keep1", LineStatus::Equal),
            diff_line(Some(2), Some(2), "", "b", LineStatus::Modified),
            diff_line(Some(3), Some(3), "keep2", "keep2", LineStatus::Equal),
        ],
        diff_count: 1,
        diff_positions: vec![1],
    };
    let (lb, rb) = build_pane_buffers_2way(&result, &[], &[], 4);
    let (mut l, mut r) = (Some(lb), Some(rb));
    let focus = delete_line(&mut l, &mut r, 1, true);
    assert_eq!(focus, Some(0));
    assert_eq!(text(&l), "keep1\nkeep2\n");
    assert_eq!(text(&r), "keep1\nb\nkeep2\n");
    assert!(l.as_ref().unwrap().model[1].is_ghost);
}

#[test]
fn delete_line_keeps_non_empty_row() {
    let (mut l, mut r) = sample();
    assert_eq!(delete_line(&mut l, &mut r, 3, true), Some(2));
    assert_eq!(text(&l), "keep1\ngone\nmid\na\nkeep2\n");
    assert_eq!(delete_line(&mut l, &mut r, 9, true), None);
    assert_eq!(delete_line(&mut l, &mut r, -1, true), None);
}

#[test]
fn focus_after_delete_skips_ghost_rows() {
    let (_l, r) = sample();
    let rb = r.unwrap();
    // row 1 of the right pane is a ghost: from row 2 the cursor goes to row 0
    assert_eq!(focus_after_delete(&rb, 2), 0);
    assert_eq!(focus_after_delete(&rb, 3), 2);
    assert_eq!(focus_after_delete(&rb, 0), 0);
    assert_eq!(focus_after_delete(&rb, 10), 4);
}

#[test]
fn set_row_selection_marks_range_in_both_panes() {
    let (mut l, mut r) = sample();
    let sel = set_row_selection(&mut l, &mut r, (-1, -1), 1, false);
    assert_eq!(sel, (1, 1));
    let sel = set_row_selection(&mut l, &mut r, sel, 3, true);
    assert_eq!(sel, (1, 3));
    assert_eq!(selected(&l), vec![false, true, true, true, false]);
    assert_eq!(selected(&r), vec![false, true, true, true, false]);
    // a fresh click restarts the selection
    let sel = set_row_selection(&mut l, &mut r, sel, 0, false);
    assert_eq!(sel, (0, 0));
    assert_eq!(selected(&l), vec![true, false, false, false, false]);
}

#[test]
fn copy_selection_to_right_copies_real_changed_pairs() {
    let (mut l, mut r) = sample();
    let count = copy_selection_to_right(&mut l, &mut r, (3, 0));
    assert_eq!(count, Some(4));
    assert_eq!(text(&r), "keep1\nmid\na\nkeep2\n");
    assert_eq!(r.as_ref().unwrap().model[3].status, 0);
    assert_eq!(l.as_ref().unwrap().model[3].status, 0);
    // the removed row has a ghost partner and stays as it was
    assert_eq!(l.as_ref().unwrap().model[1].status, 2);
    assert_eq!(copied_lines_message(4, true), "Copied 4 lines to right");
}

#[test]
fn copy_selection_to_left_and_without_selection() {
    let (mut l, mut r) = sample();
    assert_eq!(copy_selection_to_left(&mut l, &mut r, (-1, 2)), None);
    assert_eq!(copy_selection_to_left(&mut l, &mut r, (2, 7)), Some(3));
    assert_eq!(text(&l), "keep1\ngone\nmid\nb\nkeep2\n");
    assert_eq!(copied_lines_message(3, false), "Copied 3 lines to left");
}

#[test]
fn blank_pane_buffer_has_one_empty_line() {
    let b = blank_pane_buffer();
    assert_eq!(b.model.len(), 1);
    assert_eq!(b.model[0].line_no, "1");
    assert_eq!(b.model[0].text, "");
    assert!(!b.model[0].is_ghost);
    assert_eq!(b.row_to_line, vec![Some(0)]);
    assert_eq!(b.line_to_row, vec![0]);
    assert_eq!(extract_real_lines(&b), "\n");
}

#[test]
fn rebuild_after_copy_from_buffers() {
    let (l, r) = sample();
    // block 0 is the removed line, block 1 the changed one
    assert_eq!(rebuild_right_after_copy_from_left_buffers(&l, &r, 0), "keep1\ngone\nmid\nb\nkeep2\n");
    assert_eq!(rebuild_right_after_copy_from_left_buffers(&l, &r, 1), "keep1\nmid\na\nkeep2\n");
    assert_eq!(rebuild_left_after_copy_from_right_buffers(&l, &r, 0), "keep1\nmid\na\nkeep2\n");
    assert_eq!(rebuild_left_after_copy_from_right_buffers(&l, &r, 1), "keep1\ngone\nmid\nb\nkeep2\n");
    let none: Option<PaneBuffer> = None;
    assert_eq!(rebuild_right_after_copy_from_left_buffers(&none, &r, 1), "\n");
}
