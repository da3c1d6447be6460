use winxmerge::diff_view::{build_three_way_line_data, rebuild_three_way_text, ThreeWayLineData};
use winxmerge::three_way::compute_three_way_diff;
use winxmerge::three_way_edit::{
    delete_three_way_row, edit_three_way_row, insert_three_way_row_after, rebuild_three_way_pane_buffers,
    renumber_three_way, resolve_block_to_base, resolve_all_to_base, mark_current_conflict_row, resolved_message,
    resolved_all_message, blank_three_way_document_row,
};
use winxmerge::pane_buffer::extract_real_lines;
use winxmerge::encoding::{decode_file, encode_text};
use winxmerge::history::{text_snapshot, TextSnapshot, UndoHistory};

fn rows(b: &str, l: &str, r: &str) -> (Vec<ThreeWayLineData>, Vec<usize>) {
    let res = compute_three_way_diff(b, l, r);
    (build_three_way_line_data(&res), res.conflict_positions.clone())
}

fn numbers(rows: &[ThreeWayLineData], pane: i32) -> Vec<String> {
    rows.iter()
        .map(|r| match pane {
            0 => r.left_line_no.clone(),
            1 => r.base_line_no.clone(),
            _ => r.right_line_no.clone(),
        })
        .collect()
}

#[test]
fn insert_then_delete_restores_the_view() {
    let (mut v, _) = rows("a\nb\nc\n", "a\nb\nc\n", "a\nb\nc\n");
    let before: Vec<(String, String)> = v.iter().map(|r| (r.left_line_no.clone(), r.left_text.clone())).collect();
    assert!(insert_three_way_row_after(&mut v, 0, 0));
    assert_eq!(v.len(), 4);
    assert_eq!(numbers(&v, 0), vec!["1", "2", "3", "4"]);
    assert_eq!(numbers(&v, 1), vec!["1", "", "2", "3"]);
    assert_eq!(v[1].status, 1);
    assert_eq!(rebuild_three_way_text(&v, 0), "a\n\nb\nc\n");
    assert!(delete_three_way_row(&mut v, 1, 0));
    let after: Vec<(String, String)> = v.iter().map(|r| (r.left_line_no.clone(), r.left_text.clone())).collect();
    assert_eq!(before, after);
    assert!(!insert_three_way_row_after(&mut v, 3, 1));
}

#[test]
fn delete_needs_an_empty_cell_and_another_line() {
    let (mut v, _) = rows("x\n", "x\n", "x\n");
    edit_three_way_row(&mut v, 0, 0, "");
    // The only line of the pane stays.
    assert!(!delete_three_way_row(&mut v, 0, 0));
    let (mut v, _) = rows("x\ny\n", "x\ny\n", "x\ny\n");
    assert!(!delete_three_way_row(&mut v, 0, 2));
    edit_three_way_row(&mut v, 0, 2, "");
    assert!(delete_three_way_row(&mut v, 0, 2));
    assert_eq!(v.len(), 1);
    assert_eq!(numbers(&v, 2), vec!["1"]);
    assert!(!delete_three_way_row(&mut v, 5, 2));
}

#[test]
fn edit_changes_one_cell() {
    let (mut v, _) = rows("a\nb\n", "a\nb\n", "a\nb\n");
    edit_three_way_row(&mut v, 1, 1, "B!");
    assert_eq!(rebuild_three_way_text(&v, 1), "a\nB!\n");
    assert_eq!(rebuild_three_way_text(&v, 0), "a\nb\n");
    edit_three_way_row(&mut v, 9, 1, "ignored");
    assert_eq!(rebuild_three_way_text(&v, 1), "a\nB!\n");
}

#[test]
fn resolving_a_block_copies_to_base() {
    let (mut v, pos) = rows("k\nbase\nz\n", "k\nleft\nz\n", "k\nright\nz\n");
    assert_eq!(pos.len(), 1);
    assert!(resolve_block_to_base(&mut v, &pos, 0, true));
    assert_eq!(rebuild_three_way_text(&v, 1), "k\nleft\nz\n");
    let block: Vec<i32> = v.iter().filter(|r| r.conflict_index == 0).map(|r| r.status).collect();
    assert!(block.iter().all(|&s| s == 2));
    assert!(resolve_block_to_base(&mut v, &pos, 0, false));
    assert_eq!(rebuild_three_way_text(&v, 1), "k\nright\nz\n");
    assert!(!resolve_block_to_base(&mut v, &pos, 1, true));
    assert!(!resolve_block_to_base(&mut v, &pos, -1, true));
}

#[test]
fn renumber_fills_placeholders() {
    let (mut v, _) = rows("a\n", "a\nb\n", "a\n");
    v[0].left_line_no = "?".to_string();
    renumber_three_way(&mut v);
    assert_eq!(numbers(&v, 0), vec!["1", "2"]);
    assert_eq!(numbers(&v, 1), vec!["1", ""]);
}

#[test]
fn pane_buffers_of_the_view() {
    let (v, _) = rows("a\nb\n", "a\nB\nc\n", "a\nb\n");
    let (l, b, r) = rebuild_three_way_pane_buffers(&v);
    assert_eq!(extract_real_lines(&l), "a\nB\nc\n");
    assert_eq!(extract_real_lines(&b), "a\nb\n");
    assert_eq!(extract_real_lines(&r), "a\nb\n");
    assert_eq!(b.ghost_rows.len(), v.len() - 2);
    assert_eq!(l.line_to_row.len(), 3);
}

#[test]
fn undo_and_redo() {
    let mut h: UndoHistory<TextSnapshot> = UndoHistory::new();
    let snap = |l: &str, r: &str| TextSnapshot { left_text: l.to_string(), right_text: r.to_string() };
    assert!(h.undo(snap("x", "y")).is_none());
    h.record(snap("a", "b"));
    assert!(h.can_undo() && !h.can_redo());
    let back = h.undo(snap("a2", "b")).unwrap();
    assert_eq!((back.left_text.as_str(), back.right_text.as_str()), ("a", "b"));
    let fwd = h.redo(back).unwrap();
    assert_eq!(fwd.left_text, "a2");
    assert!(h.can_undo() && !h.can_redo());
    h.record(snap("c", "d"));
    assert!(!h.can_redo());
    assert_eq!(h.undo_stack.len(), 2);
    let s = text_snapshot(&None, &None);
    assert_eq!((s.left_text.as_str(), s.right_text.as_str()), ("\n", "\n"));
}

#[test]
fn utf8_with_bom_is_saved_back_unchanged() {
    let bytes = b"\xEF\xBB\xBFh\xC3\xA9llo\n".to_vec();
    let (text, enc) = decode_file(&bytes);
    assert_eq!(enc, "UTF-8 (BOM)");
    assert_eq!(encode_text(&text, &enc), bytes);
}

#[test]
fn resolving_all_blocks_copies_every_block() {
    let (mut v, pos) = rows("a\nb1\nc\nd1\ne\n", "a\nb2\nc\nd2\ne\n", "a\nb3\nc\nd3\ne\n");
    assert_eq!(pos.len(), 2);
    assert_eq!(resolve_all_to_base(&mut v, &pos, false), Some(2));
    assert_eq!(rebuild_three_way_text(&v, 1), "a\nb3\nc\nd3\ne\n");
    assert_eq!(resolve_all_to_base(&mut v, &vec![], true), None);
    assert_eq!(resolved_message(true), "Left \u{2192} Middle copied");
    assert_eq!(resolved_all_message(2, false), "All 2 blocks: Right \u{2192} Middle");
}

#[test]
fn marking_the_current_conflict_row() {
    let (mut v, pos) = rows("a\nb\nc\n", "a\nB\nc\n", "a\nb\nC\n");
    mark_current_conflict_row(&mut v, pos[pos.len() - 1]);
    let flags: Vec<bool> = v.iter().map(|r| r.is_current).collect();
    let expected: Vec<bool> = (0..v.len()).map(|i| i == pos[pos.len() - 1]).collect();
    assert_eq!(flags, expected);
}

#[test]
fn new_blank_three_way_document() {
    let r = blank_three_way_document_row();
    assert_eq!((r.left_line_no.as_str(), r.base_line_no.as_str(), r.right_line_no.as_str()), ("1", "1", "1"));
    assert!(r.left_text.is_empty() && r.base_text.is_empty() && r.right_text.is_empty());
    assert_eq!(r.conflict_index, -1);
    assert_eq!(rebuild_three_way_text(&vec![r], 1), "\n");
}
