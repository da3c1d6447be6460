use winxmerge::diff_engine::{compute_diff_with_options, DiffOptions};
use winxmerge::navigation::{
    diff_at_row, find_diff_with_status, goto_line, mark_current_row, no_more_message, position_message, step_index,
    toggle_bookmark,
};
use winxmerge::pane_buffer::build_pane_buffers_2way;

#[test]
fn stepping_goes_round() {
    assert_eq!(step_index(0, -1, true), None);
    assert_eq!(step_index(3, -1, true), Some(0));
    assert_eq!(step_index(3, 1, true), Some(2));
    assert_eq!(step_index(3, 2, true), Some(0));
    assert_eq!(step_index(3, 0, false), Some(2));
    assert_eq!(step_index(3, 2, false), Some(1));
    assert_eq!(step_index(3, 3, false), Some(2));
}

#[test]
fn find_by_status() {
    // Rows: a (eq), b->B (modified), c (eq), - (added d), e (eq), f removed.
    let r = compute_diff_with_options("a\nb\nc\ne\nf\n", "a\nB\nc\nd\ne\n", &DiffOptions::default());
    let (l, rb) = build_pane_buffers_2way(&r, &[], &[], 4);
    let pos = r.diff_positions.clone();
    assert_eq!(pos.len(), 3);
    let (l, rb) = (Some(l), Some(rb));
    // From block 0 forward: the next added block is 1.
    assert_eq!(find_diff_with_status(&pos, &l, &rb, 0, true, 1), Some(1));
    assert_eq!(find_diff_with_status(&pos, &l, &rb, 0, true, 2), Some(2));
    assert_eq!(find_diff_with_status(&pos, &l, &rb, 2, true, 3), Some(0));
    assert_eq!(find_diff_with_status(&pos, &l, &rb, 0, false, 3), Some(0));
    assert_eq!(find_diff_with_status(&pos, &l, &rb, 1, false, 2), Some(2));
    assert_eq!(find_diff_with_status(&pos, &l, &rb, 0, true, 4), None);
    assert_eq!(find_diff_with_status(&Vec::new(), &l, &rb, 0, true, 1), None);
    assert_eq!(no_more_message(4), "No more Moved diffs");
    assert_eq!(no_more_message(9), "No more status diffs");
    assert_eq!(position_message("Difference", 1, 3), "Difference 2 of 3");
}

#[test]
fn goto_and_mark() {
    let r = compute_diff_with_options("a\nb\n", "x\na\nb\n", &DiffOptions::default());
    let (l, rb) = build_pane_buffers_2way(&r, &[], &[], 4);
    let (mut l, rb) = (Some(l), Some(rb));
    // Left line 1 is on row 1 (row 0 is a ghost for the added line).
    assert_eq!(goto_line(&l, &rb, 1).map(|t| t.0), Some(1));
    // Right line 3 only exists on the right.
    assert_eq!(goto_line(&l, &rb, 3).map(|t| t.0), Some(2));
    assert_eq!(goto_line(&l, &rb, 9), None);
    assert_eq!(goto_line(&l, &rb, 0), None);
    let b = l.as_mut().unwrap();
    mark_current_row(b, 1);
    let cur: Vec<bool> = b.model.iter().map(|m| m.is_current_diff).collect();
    assert_eq!(cur, vec![false, true, false]);
}

#[test]
fn bookmarks_toggle_in_order() {
    let pos = vec![4usize, 9, 2];
    let mut bm: Vec<usize> = Vec::new();
    toggle_bookmark(&mut bm, &pos, 1);
    toggle_bookmark(&mut bm, &pos, 2);
    toggle_bookmark(&mut bm, &pos, 0);
    assert_eq!(bm, vec![2, 4, 9]);
    toggle_bookmark(&mut bm, &pos, 0);
    assert_eq!(bm, vec![2, 9]);
    toggle_bookmark(&mut bm, &pos, 7);
    assert_eq!(bm, vec![2, 9]);
    assert_eq!(diff_at_row(&pos, 9), Some(1));
    assert_eq!(diff_at_row(&pos, 5), None);
}
