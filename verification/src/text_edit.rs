//! Editing the two panes of a text comparison in place: inserting and
//! deleting lines, selecting rows and copying them across.
use vstd::prelude::*;
use crate::text::{str_to_string, push_str, push_char, join_lines_nl};
use crate::numfmt::{dec, push_dec};
use crate::diff_view::joined_text;
use crate::pane_buffer::{
    PaneBuffer, PaneLineData, pane_wf, real_text_lines, reals_before, renumbered_from, is_ghost_row,
    ghost_pane_line, renumber_pane_buffer, lemma_inserting_row, lemma_renumber_keeps_lines,
    LineDeletion, planned_deletion, plan_line_deletion, apply_line_deletion, is_real_row,
};

verus! {

/// The pane a side names: the left one when `is_left`, else the right one.
pub open spec fn side(is_left: bool, left: Option<PaneBuffer>, right: Option<PaneBuffer>) -> Option<PaneBuffer> {
    if is_left { left } else { right }
}

/// The empty line typed into a pane by inserting a line: real, shown as
/// removed in the left pane and added in the right one, in no diff block.
pub open spec fn is_inserted_row(r: PaneLineData, is_left: bool) -> bool {
    &&& !r.is_ghost
    &&& r.line_no@ == seq!['?']
    &&& r.text@.len() == 0
    &&& r.status == if is_left { 2i32 } else { 1i32 }
    &&& r.diff_index == -1
    &&& r.word_diff@.len() == 0
    &&& !r.is_current_diff && !r.is_search_match && !r.is_selected
    &&& r.highlight == -1
}

/// A line can be inserted after row `line_index` of the pane.
pub open spec fn can_insert_after(pane: Option<PaneBuffer>, line_index: i32) -> bool {
    match pane {
        Some(b) => 0 <= line_index < b.model@.len(),
        None => false,
    }
}

/// `new` is `old` with `row` inserted at `at`, renumbered.
pub open spec fn row_inserted(old: Option<PaneBuffer>, new: Option<PaneBuffer>, at: int, row: PaneLineData) -> bool {
    match (old, new) {
        (Some(o), Some(n)) => pane_wf(n) && 0 <= at <= o.model@.len() && renumbered_from(o.model@.insert(at, row), n.model@),
        _ => false,
    }
}

fn inserted_row(is_left: bool) -> (r: PaneLineData)
    ensures
        is_inserted_row(r, is_left),
{
    let q = str_to_string("?");
    proof {
        reveal_strlit("?");
        assert(q@ =~= seq!['?']);
    }
    PaneLineData {
        line_no: q,
        text: String::new(),
        is_ghost: false,
        status: if is_left { 2 } else { 1 },
        diff_index: -1,
        word_diff: String::new(),
        is_current_diff: false,
        is_search_match: false,
        is_selected: false,
        highlight: -1,
    }
}

fn insert_rows(target: &mut PaneBuffer, other: &mut PaneBuffer, at: usize, is_left: bool)
    requires
        at <= old(target).model@.len(),
        at <= old(other).model@.len(),
    ensures
        exists|r: PaneLineData| is_inserted_row(r, is_left) && row_inserted(Some(*old(target)), Some(*final(target)), at as int, r),
        exists|g: PaneLineData| #[trigger] is_ghost_row(g, -1i32) && row_inserted(Some(*old(other)), Some(*final(other)), at as int, g),
{
    let ghost t0 = target.model@;
    let ghost o0 = other.model@;
    let r = inserted_row(is_left);
    let g = ghost_pane_line(-1);
    let ghost rv = r;
    let ghost gv = g;
    target.model.insert(at, r);
    other.model.insert(at, g);
    assert(target.model@ == t0.insert(at as int, rv));
    assert(other.model@ == o0.insert(at as int, gv));
    renumber_pane_buffer(target);
    renumber_pane_buffer(other);
    assert(row_inserted(Some(*old(target)), Some(*target), at as int, rv));
    assert(row_inserted(Some(*old(other)), Some(*other), at as int, gv));
}

/// Inserts an empty line after row `line_index` of one pane (the left one
/// when `is_left`) and a ghost row at the same place in the other, then
/// renumbers both; returns the new row, where the cursor goes. Nothing
/// happens (`None`) when the pane is missing or has no such row.
pub fn insert_line_after(left: &mut Option<PaneBuffer>, right: &mut Option<PaneBuffer>, line_index: i32, is_left: bool) -> (focus: Option<usize>)
    requires
        can_insert_after(side(is_left, *old(left), *old(right)), line_index) ==> match side(!is_left, *old(left), *old(right)) {
            Some(o) => line_index + 1 <= o.model@.len(),
            None => false,
        },
    ensures
        focus == if can_insert_after(side(is_left, *old(left), *old(right)), line_index) {
            Some((line_index + 1) as usize)
        } else {
            None::<usize>
        },
        focus is None ==> *final(left) == *old(left) && *final(right) == *old(right),
        focus is Some ==> exists|r: PaneLineData| is_inserted_row(r, is_left)
            && row_inserted(side(is_left, *old(left), *old(right)), side(is_left, *final(left), *final(right)), line_index + 1, r),
        focus is Some ==> exists|g: PaneLineData| #[trigger] is_ghost_row(g, -1i32)
            && row_inserted(side(!is_left, *old(left), *old(right)), side(!is_left, *final(left), *final(right)), line_index + 1, g),
{
    if line_index < 0 {
        return None;
    }
    match left {
        Some(lb) => match right {
            Some(rb) => {
                if is_left {
                    if line_index as usize >= lb.model.len() {
                        return None;
                    }
                    insert_rows(lb, rb, line_index as usize + 1, true);
                } else {
                    if line_index as usize >= rb.model.len() {
                        return None;
                    }
                    insert_rows(rb, lb, line_index as usize + 1, false);
                }
                Some(line_index as usize + 1)
            },
            None => None,
        },
        None => None,
    }
}

/// Inserting a line adds exactly one empty line to the pane it was typed
/// into, after the real lines above the new row, and leaves every line of
/// the other pane as it was.
pub proof fn lemma_insert_line_adds_one_empty_line(
    old_target: Seq<PaneLineData>,
    new_target: Seq<PaneLineData>,
    old_other: Seq<PaneLineData>,
    new_other: Seq<PaneLineData>,
    at: int,
    r: PaneLineData,
    g: PaneLineData,
)
    requires
        0 <= at <= old_target.len(),
        0 <= at <= old_other.len(),
        !r.is_ghost,
        r.text@.len() == 0,
        g.is_ghost,
        renumbered_from(old_target.insert(at, r), new_target),
        renumbered_from(old_other.insert(at, g), new_other),
    ensures
        real_text_lines(new_target) == real_text_lines(old_target).insert(reals_before(old_target, at) as int, Seq::<char>::empty()),
        real_text_lines(new_other) == real_text_lines(old_other),
{
    lemma_renumber_keeps_lines(old_target.insert(at, r), new_target);
    lemma_renumber_keeps_lines(old_other.insert(at, g), new_other);
    lemma_inserting_row(old_target, at, r);
    lemma_inserting_row(old_other, at, g);
    assert(r.text@ =~= Seq::<char>::empty());
}

/// What deleting row `idx` of the target pane does, given the other pane.
pub open spec fn deletion_of(target: Option<PaneBuffer>, other: Option<PaneBuffer>, idx: int) -> Option<LineDeletion> {
    match (target, other) {
        (Some(t), Some(o)) => planned_deletion(t.model@, t.line_to_row@.len(), o.model@, idx),
        _ => None,
    }
}

/// The panes after a deletion: both renumbered, and either the row dropped
/// from both or the target row turned into a ghost of its block.
pub open spec fn deletion_done(
    old_t: Option<PaneBuffer>,
    new_t: Option<PaneBuffer>,
    old_o: Option<PaneBuffer>,
    new_o: Option<PaneBuffer>,
    idx: int,
    d: LineDeletion,
) -> bool {
    match (old_t, new_t, old_o, new_o) {
        (Some(ot), Some(nt), Some(oo), Some(no)) => {
            &&& pane_wf(nt) && pane_wf(no)
            &&& d == LineDeletion::RemoveBoth ==> renumbered_from(ot.model@.remove(idx), nt.model@)
                && renumbered_from(oo.model@.remove(idx), no.model@)
            &&& d == LineDeletion::GhostTarget ==> (exists|g: PaneLineData| {
                &&& #[trigger] is_ghost_row(g, ot.model@[idx].diff_index)
                &&& renumbered_from(ot.model@.update(idx, g), nt.model@)
            }) && renumbered_from(oo.model@, no.model@)
        },
        _ => false,
    }
}

/// Row `r` is where the cursor lands after a deletion at `line_index`: the
/// nearest real row at or above the row before it, else the first row.
pub open spec fn is_focus_after_delete(m: Seq<PaneLineData>, line_index: int, r: int) -> bool {
    let start = if line_index > 0 { line_index - 1 } else { 0 };
    &&& 0 <= r <= start
    &&& (r == 0 || (r < m.len() && !m[r].is_ghost))
    &&& forall|k: int| r < k <= start ==> k >= m.len() || #[trigger] m[k].is_ghost
}

fn is_editable(m: &Vec<PaneLineData>, i: usize) -> (b: bool)
    ensures
        b == (i < m@.len() && !m@[i as int].is_ghost),
{
    i < m.len() && !m[i].is_ghost
}

/// The row the cursor goes to after a deletion at `line_index`.
pub fn focus_after_delete(buffer: &PaneBuffer, line_index: i32) -> (r: i32)
    requires
        line_index >= 0,
    ensures
        is_focus_after_delete(buffer.model@, line_index as int, r as int),
{
    let m = &buffer.model;
    let start: i32 = if line_index > 0 { line_index - 1 } else { 0 };
    let mut prev: i32 = start;
    while prev > 0 && !is_editable(m, prev as usize)
        invariant
            0 <= prev <= start,
            start == if line_index > 0 { line_index - 1 } else { 0 },
            forall|k: int| prev < k <= start ==> k >= m@.len() || #[trigger] m@[k].is_ghost,
        decreases prev,
    {
        prev = prev - 1;
    }
    prev
}

fn delete_rows(target: &mut PaneBuffer, other: &mut Option<PaneBuffer>, idx: usize) -> (d: Option<LineDeletion>)
    requires
        idx < old(target).model@.len(),
    ensures
        d == deletion_of(Some(*old(target)), *old(other), idx as int),
        d is None ==> *final(target) == *old(target) && *final(other) == *old(other),
        d matches Some(dd) ==> deletion_done(Some(*old(target)), Some(*final(target)), *old(other), *final(other), idx as int, dd),
{
    match other {
        Some(o) => {
            let plan = plan_line_deletion(target, o, idx);
            match plan {
                Some(dd) => {
                    apply_line_deletion(target, o, idx, dd);
                },
                None => {},
            }
            plan
        },
        None => None,
    }
}

/// Deletes the empty row `line_index` of one pane (the left one when
/// `is_left`), as `plan_line_deletion` decides against the other pane, and
/// returns the row the cursor goes to. Nothing happens (`None`) when the
/// index is negative or the pane is missing or has no such row; the row is
/// kept (with the cursor still moved) when the plan says nothing to do.
pub fn delete_line(left: &mut Option<PaneBuffer>, right: &mut Option<PaneBuffer>, line_index: i32, is_left: bool) -> (focus: Option<i32>)
    ensures
        (focus is Some) == can_insert_after(side(is_left, *old(left), *old(right)), line_index),
        deletion_of(side(is_left, *old(left), *old(right)), side(!is_left, *old(left), *old(right)), line_index as int) is None
            ==> *final(left) == *old(left) && *final(right) == *old(right),
        focus is Some ==> match deletion_of(side(is_left, *old(left), *old(right)), side(!is_left, *old(left), *old(right)), line_index as int) {
            Some(d) => deletion_done(
                side(is_left, *old(left), *old(right)),
                side(is_left, *final(left), *final(right)),
                side(!is_left, *old(left), *old(right)),
                side(!is_left, *final(left), *final(right)),
                line_index as int,
                d,
            ),
            None => true,
        },
        focus matches Some(f) ==> match side(is_left, *final(left), *final(right)) {
            Some(t) => is_focus_after_delete(t.model@, line_index as int, f as int),
            None => false,
        },
{
    if line_index < 0 {
        return None;
    }
    let idx = line_index as usize;
    if is_left {
        match left {
            Some(t) => {
                if idx >= t.model.len() {
                    return None;
                }
                delete_rows(t, right, idx);
                Some(focus_after_delete(t, line_index))
            },
            None => None,
        }
    } else {
        match right {
            Some(t) => {
                if idx >= t.model.len() {
                    return None;
                }
                delete_rows(t, left, idx);
                Some(focus_after_delete(t, line_index))
            },
            None => None,
        }
    }
}

/// Row `i` lies in the selection between rows `start` and `end` (either
/// order); a negative bound selects nothing.
pub open spec fn in_selection(start: i32, end: i32, i: int) -> bool {
    let lo = if start <= end { start } else { end };
    let hi = if start <= end { end } else { start };
    0 <= lo && lo <= i <= hi
}

/// `new` is `old` with exactly the selected rows marked as selected.
pub open spec fn selection_marked(old: Option<PaneBuffer>, new: Option<PaneBuffer>, start: i32, end: i32) -> bool {
    match (old, new) {
        (Some(o), Some(n)) => {
            &&& n.model@.len() == o.model@.len()
            &&& forall|i: int| 0 <= i < o.model@.len() ==> #[trigger] n.model@[i]
                == (PaneLineData { is_selected: in_selection(start, end, i), ..o.model@[i] })
            &&& n.row_to_line == o.row_to_line && n.line_to_row == o.line_to_row && n.ghost_rows == o.ghost_rows
        },
        (None, None) => true,
        _ => false,
    }
}

fn mark_selection(buffer: &mut Option<PaneBuffer>, start: i32, end: i32)
    ensures
        selection_marked(*old(buffer), *final(buffer), start, end),
{
    let lo: i32 = if start <= end { start } else { end };
    let hi: i32 = if start <= end { end } else { start };
    match buffer {
        Some(b) => {
            let ghost orig = b.model@;
            let ghost b0 = *b;
            let mut i: usize = 0;
            while i < b.model.len()
                invariant
                    i <= b.model@.len(),
                    maps_kept(b0, *b),
                    b.model@.len() == orig.len(),
                    lo == (if start <= end { start } else { end }),
                    hi == (if start <= end { end } else { start }),
                    forall|j: int| 0 <= j < i ==> #[trigger] b.model@[j]
                        == (PaneLineData { is_selected: in_selection(start, end, j), ..orig[j] }),
                    forall|j: int| i <= j < orig.len() ==> #[trigger] b.model@[j] == orig[j],
                decreases orig.len() - i,
            {
                let selected = lo >= 0 && lo as usize <= i && i <= hi as usize;
                b.model[i].is_selected = selected;
                i = i + 1;
            }
        },
        None => {},
    }
}

/// Selects row `row_idx`, or extends the selection to it when `extend` and
/// a selection exists, and marks the selected rows in both panes; returns
/// the new (start, end) of the selection.
pub fn set_row_selection(left: &mut Option<PaneBuffer>, right: &mut Option<PaneBuffer>, selection: (i32, i32), row_idx: i32, extend: bool) -> (sel: (i32, i32))
    ensures
        sel == (if !extend || selection.0 < 0 { row_idx } else { selection.0 }, row_idx),
        selection_marked(*old(left), *final(left), sel.0, sel.1),
        selection_marked(*old(right), *final(right), sel.0, sel.1),
{
    let start = if !extend || selection.0 < 0 { row_idx } else { selection.0 };
    mark_selection(left, start, row_idx);
    mark_selection(right, start, row_idx);
    (start, row_idx)
}

/// The last row a copy of the selection reaches: its bottom row, cut to the
/// left pane's last row (row 0 when the pane is empty).
pub open spec fn copy_end(left_len: nat, start: i32, end: i32) -> int {
    let hi: int = if start <= end { end as int } else { start as int };
    let last: int = if left_len == 0 { 0 } else { left_len - 1 };
    if hi <= last { hi } else { last }
}

/// The first row of a selection.
pub open spec fn sel_low(start: i32, end: i32) -> int {
    if start <= end { start as int } else { end as int }
}

/// A row pair is copied: both rows are real and the source row differs.
pub open spec fn pair_copied(src: PaneLineData, dst: PaneLineData) -> bool {
    !src.is_ghost && !dst.is_ghost && src.status != 0
}

/// After copying the selected rows from `src` to `dst`: each copied pair
/// (see `pair_copied`) in rows `lo..=end` gets the source text on the
/// destination and both rows become equal; all else stays.
pub open spec fn selection_copied(
    old_src: Seq<PaneLineData>,
    new_src: Seq<PaneLineData>,
    old_dst: Seq<PaneLineData>,
    new_dst: Seq<PaneLineData>,
    lo: int,
    end: int,
) -> bool {
    &&& new_src.len() == old_src.len()
    &&& new_dst.len() == old_dst.len()
    &&& forall|i: int| 0 <= i < old_src.len() ==> #[trigger] new_src[i] == if lo <= i <= end && i < old_dst.len()
        && pair_copied(old_src[i], old_dst[i]) {
        PaneLineData { status: 0, ..old_src[i] }
    } else {
        old_src[i]
    }
    &&& forall|i: int| 0 <= i < old_dst.len() ==> #[trigger] new_dst[i] == if lo <= i <= end && i < old_src.len()
        && pair_copied(old_src[i], old_dst[i]) {
        PaneLineData { text: old_src[i].text, status: 0, ..old_dst[i] }
    } else {
        old_dst[i]
    }
}

/// The maps of a buffer are kept.
pub open spec fn maps_kept(o: PaneBuffer, n: PaneBuffer) -> bool {
    n.row_to_line == o.row_to_line && n.line_to_row == o.line_to_row && n.ghost_rows == o.ghost_rows
}

fn copy_rows(src: &mut PaneBuffer, dst: &mut PaneBuffer, lo: usize, end: usize)
    requires
        lo <= end + 1,
        end < usize::MAX,
    ensures
        selection_copied(old(src).model@, final(src).model@, old(dst).model@, final(dst).model@, lo as int, end as int),
        maps_kept(*old(src), *final(src)),
        maps_kept(*old(dst), *final(dst)),
{
    let ghost os = src.model@;
    let ghost od = dst.model@;
    let mut i: usize = lo;
    while i <= end
        invariant
            lo <= i <= end + 1,
            end < usize::MAX,
            src.model@.len() == os.len(),
            dst.model@.len() == od.len(),
            maps_kept(*old(src), *src),
            maps_kept(*old(dst), *dst),
            forall|j: int| 0 <= j < os.len() ==> #[trigger] src.model@[j] == if lo <= j < i && j < od.len()
                && pair_copied(os[j], od[j]) {
                (PaneLineData { status: 0, ..os[j] })
            } else {
                os[j]
            },
            forall|j: int| 0 <= j < od.len() ==> #[trigger] dst.model@[j] == if lo <= j < i && j < os.len()
                && pair_copied(os[j], od[j]) {
                (PaneLineData { text: os[j].text, status: 0, ..od[j] })
            } else {
                od[j]
            },
        decreases end + 1 - i,
    {
        if i < src.model.len() && i < dst.model.len() {
            if !src.model[i].is_ghost && !dst.model[i].is_ghost && src.model[i].status != 0 {
                let t = src.model[i].text.clone();
                dst.model[i].text = t;
                dst.model[i].status = 0;
                src.model[i].status = 0;
            }
        }
        i = i + 1;
    }
}

/// What copying the selection does to the panes, with the left pane as
/// the source when `to_right` and as the destination otherwise.
pub open spec fn copy_done(ol: PaneBuffer, nl: PaneBuffer, or: PaneBuffer, nr: PaneBuffer, lo: int, end: int, to_right: bool) -> bool {
    &&& maps_kept(ol, nl) && maps_kept(or, nr)
    &&& if to_right {
        selection_copied(ol.model@, nl.model@, or.model@, nr.model@, lo, end)
    } else {
        selection_copied(or.model@, nr.model@, ol.model@, nl.model@, lo, end)
    }
}

fn copy_selection(left: &mut Option<PaneBuffer>, right: &mut Option<PaneBuffer>, selection: (i32, i32), to_right: bool) -> (count: Option<usize>)
    requires
        copy_selection_ok(*old(left), *old(right), selection),
    ensures
        selection_copy_result(*old(left), *final(left), *old(right), *final(right), selection, to_right, count),
{
    if selection.0 < 0 {
        return None;
    }
    let lo: i32 = if selection.0 <= selection.1 { selection.0 } else { selection.1 };
    let hi: i32 = if selection.0 <= selection.1 { selection.1 } else { selection.0 };
    match left {
        Some(lb) => match right {
            Some(rb) => {
                let n = lb.model.len();
                let last: usize = if n == 0 { 0 } else { n - 1 };
                let end: usize = if (hi as usize) <= last { hi as usize } else { last };
                if to_right {
                    copy_rows(lb, rb, lo as usize, end);
                } else {
                    copy_rows(rb, lb, lo as usize, end);
                }
                Some(end + 1 - lo as usize)
            },
            None => None,
        },
        None => None,
    }
}

/// The selection may be copied: it starts inside the left pane's rows (or
/// right after its last one), when there is a selection and both panes.
pub open spec fn copy_selection_ok(left: Option<PaneBuffer>, right: Option<PaneBuffer>, selection: (i32, i32)) -> bool {
    selection.0 >= 0 ==> match (left, right) {
        (Some(l), Some(_)) => 0 <= sel_low(selection.0, selection.1) <= copy_end(l.model@.len(), selection.0, selection.1) + 1,
        _ => true,
    }
}

/// What copying the selection returns and does (see `copy_selection_to_right`).
pub open spec fn selection_copy_result(
    ol: Option<PaneBuffer>,
    nl: Option<PaneBuffer>,
    or: Option<PaneBuffer>,
    nr: Option<PaneBuffer>,
    selection: (i32, i32),
    to_right: bool,
    count: Option<usize>,
) -> bool {
    &&& (count is None) == (selection.0 < 0 || ol is None || or is None)
    &&& count is None ==> nl == ol && nr == or
    &&& count matches Some(c) ==> match (ol, nl, or, nr) {
        (Some(a), Some(b), Some(x), Some(y)) => {
            let lo = sel_low(selection.0, selection.1);
            let end = copy_end(a.model@.len(), selection.0, selection.1);
            &&& c == end + 1 - lo
            &&& copy_done(a, b, x, y, lo, end, to_right)
        },
        _ => false,
    }
}

/// Copies the selected rows from the left pane to the right one: each
/// selected pair of real rows whose left row differs takes the left text
/// and both rows are marked equal. Returns the number of rows the
/// selection spans after cutting it to the left pane, or `None` (and
/// nothing changes) without a selection or without both panes.
pub fn copy_selection_to_right(left: &mut Option<PaneBuffer>, right: &mut Option<PaneBuffer>, selection: (i32, i32)) -> (count: Option<usize>)
    requires
        copy_selection_ok(*old(left), *old(right), selection),
    ensures
        selection_copy_result(*old(left), *final(left), *old(right), *final(right), selection, true, count),
{
    copy_selection(left, right, selection, true)
}

/// Copies the selected rows from the right pane to the left one (mirror of
/// `copy_selection_to_right`; the rows are still cut to the left pane).
pub fn copy_selection_to_left(left: &mut Option<PaneBuffer>, right: &mut Option<PaneBuffer>, selection: (i32, i32)) -> (count: Option<usize>)
    requires
        copy_selection_ok(*old(left), *old(right), selection),
    ensures
        selection_copy_result(*old(left), *final(left), *old(right), *final(right), selection, false, count),
{
    copy_selection(left, right, selection, false)
}

/// The status line after copying the selection.
pub fn copied_lines_message(count: usize, to_right: bool) -> (s: String)
    ensures
        s@ == "Copied "@ + dec(count as nat) + (if to_right { " lines to right"@ } else { " lines to left"@ }),
{
    let mut s = String::new();
    push_str(&mut s, "Copied ");
    push_dec(&mut s, count as u64);
    if to_right {
        push_str(&mut s, " lines to right");
    } else {
        push_str(&mut s, " lines to left");
    }
    s
}

/// The pane of a new blank document: one empty real line numbered 1.
pub fn blank_pane_buffer() -> (b: PaneBuffer)
    ensures
        pane_wf(b),
        b.model@.len() == 1,
        is_real_row(b.model@[0], seq!['1'], Seq::empty(), 0, -1i32, Seq::empty(), -1i32),
        b.row_to_line@ == seq![Some(0usize)],
        b.line_to_row@ == seq![0usize],
        b.ghost_rows@.len() == 0,
{
    let one = str_to_string("1");
    proof {
        reveal_strlit("1");
        assert(one@ =~= seq!['1']);
    }
    let row = PaneLineData {
        line_no: one,
        text: String::new(),
        is_ghost: false,
        status: 0,
        diff_index: -1,
        word_diff: String::new(),
        is_current_diff: false,
        is_search_match: false,
        is_selected: false,
        highlight: -1,
    };
    let mut model: Vec<PaneLineData> = Vec::new();
    model.push(row);
    let mut row_to_line: Vec<Option<usize>> = Vec::new();
    row_to_line.push(Some(0));
    let mut line_to_row: Vec<usize> = Vec::new();
    line_to_row.push(0);
    let b = PaneBuffer { model, row_to_line, line_to_row, ghost_rows: Vec::new() };
    assert(reals_before(b.model@, 0) == 0);
    assert(reals_before(b.model@, 1) == 1);
    assert(b.row_to_line@ =~= seq![Some(0usize)]);
    assert(b.line_to_row@ =~= seq![0usize]);
    b
}

/// The texts of a pane pair after taking the source side of every row of
/// block `d` (rows where either side is in it) and keeping the other side
/// elsewhere, over the first `n` rows; rows missing from the right pane and
/// ghost rows give nothing. The source is the left pane when `to_right`.
pub open spec fn copy_block_lines(l: Seq<PaneLineData>, r: Seq<PaneLineData>, d: i32, to_right: bool, n: int) -> Seq<Seq<char>>
    decreases n,
{
    if n <= 0 {
        Seq::empty()
    } else {
        let prev = copy_block_lines(l, r, d, to_right, n - 1);
        let i = n - 1;
        if i >= r.len() || i >= l.len() {
            prev
        } else {
            let in_block = l[i].diff_index == d || r[i].diff_index == d;
            let row = if in_block == to_right { l[i] } else { r[i] };
            if row.is_ghost { prev } else { prev.push(row.text@) }
        }
    }
}

/// The text a pane gets from copying block `d`; a single line feed without both panes.
pub open spec fn copy_block_text(left: Option<PaneBuffer>, right: Option<PaneBuffer>, d: i32, to_right: bool) -> Seq<char> {
    match (left, right) {
        (Some(l), Some(r)) => joined_text(copy_block_lines(l.model@, r.model@, d, to_right, l.model@.len() as int)),
        _ => seq!['\n'],
    }
}

fn copy_block(left: &Option<PaneBuffer>, right: &Option<PaneBuffer>, d: i32, to_right: bool) -> (s: String)
    ensures
        s@ == copy_block_text(*left, *right, d, to_right),
{
    let mut out = String::new();
    let mut any = false;
    match left {
        Some(lb) => match right {
            Some(rb) => {
                let l = &lb.model;
                let r = &rb.model;
                let mut i: usize = 0;
                while i < l.len()
                    invariant
                        i <= l@.len(),
                        out@ == join_lines_nl(copy_block_lines(l@, r@, d, to_right, i as int)),
                        any == (copy_block_lines(l@, r@, d, to_right, i as int).len() > 0),
                    decreases l@.len() - i,
                {
                    if i < r.len() {
                        let in_block = l[i].diff_index == d || r[i].diff_index == d;
                        let row = if in_block == to_right { &l[i] } else { &r[i] };
                        if !row.is_ghost {
                            let ghost prev = copy_block_lines(l@, r@, d, to_right, i as int);
                            push_str(&mut out, row.text.as_str());
                            push_char(&mut out, '\n');
                            any = true;
                            assert(prev.push(row.text@).drop_last() =~= prev);
                        }
                    }
                    i = i + 1;
                }
            },
            None => {},
        },
        None => {},
    }
    if !any {
        let mut s = String::new();
        push_char(&mut s, '\n');
        assert(s@ =~= seq!['\n']);
        s
    } else {
        out
    }
}

/// The right text after copying block `target_diff_index` from the left, read from the panes.
pub fn rebuild_right_after_copy_from_left_buffers(left: &Option<PaneBuffer>, right: &Option<PaneBuffer>, target_diff_index: i32) -> (s: String)
    ensures
        s@ == copy_block_text(*left, *right, target_diff_index, true),
{
    copy_block(left, right, target_diff_index, true)
}

/// The left text after copying block `target_diff_index` from the right, read from the panes.
pub fn rebuild_left_after_copy_from_right_buffers(left: &Option<PaneBuffer>, right: &Option<PaneBuffer>, target_diff_index: i32) -> (s: String)
    ensures
        s@ == copy_block_text(*left, *right, target_diff_index, false),
{
    copy_block(left, right, target_diff_index, false)
}

} // verus!
