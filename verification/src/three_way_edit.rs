//! Editing the three-way view: renumbering, inserting, deleting and editing
//! rows, copying a block to the base pane, and the per-pane buffers.
use vstd::prelude::*;
use crate::text::{str_to_string, push_str};
use crate::numfmt::{push_dec, dec};
use crate::diff_view::ThreeWayLineData;
use crate::pane_buffer::{PaneLineData, PaneBuffer, index_rows, pane_wf, indexes_match};

verus! {

/// The line number shown in a pane of a row (0 = left, 1 = base, other = right).
pub open spec fn pane_no(r: ThreeWayLineData, pane: i32) -> Seq<char> {
    if pane == 0 {
        r.left_line_no@
    } else if pane == 1 {
        r.base_line_no@
    } else {
        r.right_line_no@
    }
}

/// The text shown in a pane of a row.
pub open spec fn pane_text(r: ThreeWayLineData, pane: i32) -> Seq<char> {
    if pane == 0 {
        r.left_text@
    } else if pane == 1 {
        r.base_text@
    } else {
        r.right_text@
    }
}

/// How many of the first `n` rows show a line number in `pane`.
pub open spec fn numbered_before(rows: Seq<ThreeWayLineData>, pane: i32, n: int) -> nat
    decreases n,
{
    if n <= 0 {
        0
    } else {
        numbered_before(rows, pane, n - 1) + if pane_no(rows[n - 1], pane).len() > 0 { 1nat } else { 0nat }
    }
}

/// The number that row `i` shows in `pane` once renumbered: its position
/// among the rows that show a number there, or nothing.
pub open spec fn renumbered_no(rows: Seq<ThreeWayLineData>, pane: i32, i: int) -> Seq<char> {
    if pane_no(rows[i], pane).len() > 0 { dec(numbered_before(rows, pane, i + 1)) } else { Seq::empty() }
}

/// Two rows agree on everything but their line numbers.
pub open spec fn same_but_numbers(a: ThreeWayLineData, b: ThreeWayLineData) -> bool {
    &&& a.left_text@ == b.left_text@
    &&& a.base_text@ == b.base_text@
    &&& a.right_text@ == b.right_text@
    &&& a.status == b.status
    &&& a.is_current == b.is_current
    &&& a.conflict_index == b.conflict_index
    &&& a.is_search_match == b.is_search_match
}

/// `new` is `old` with every pane renumbered.
pub open spec fn renumbered3(old: Seq<ThreeWayLineData>, new: Seq<ThreeWayLineData>) -> bool {
    &&& new.len() == old.len()
    &&& forall|i: int| 0 <= i < old.len() ==> {
        &&& same_but_numbers(#[trigger] old[i], new[i])
        &&& new[i].left_line_no@ == renumbered_no(old, 0, i)
        &&& new[i].base_line_no@ == renumbered_no(old, 1, i)
        &&& new[i].right_line_no@ == renumbered_no(old, 2, i)
    }
}

fn number_text(n: usize) -> (s: String)
    ensures
        s@ == dec(n as nat),
{
    let mut s = String::new();
    push_dec(&mut s, n as u64);
    assert(s@ =~= dec(n as nat));
    s
}

/// Numbers the lines of each pane of the three-way view from 1, leaving the
/// rows without a number in a pane (ghost rows) without one.
pub fn renumber_three_way(rows: &mut Vec<ThreeWayLineData>)
    ensures
        renumbered3(old(rows)@, final(rows)@),
{
    let ghost start = rows@;
    let mut nl: usize = 0;
    let mut nb: usize = 0;
    let mut nr: usize = 0;
    let mut i: usize = 0;
    while i < rows.len()
        invariant
            i <= rows@.len(),
            rows@.len() == start.len(),
            nl == numbered_before(start, 0, i as int),
            nb == numbered_before(start, 1, i as int),
            nr == numbered_before(start, 2, i as int),
            nl <= i && nb <= i && nr <= i,
            forall|j: int| i <= j < start.len() ==> #[trigger] rows@[j] == start[j],
            forall|j: int| 0 <= j < i ==> {
                &&& same_but_numbers(#[trigger] start[j], rows@[j])
                &&& rows@[j].left_line_no@ == renumbered_no(start, 0, j)
                &&& rows@[j].base_line_no@ == renumbered_no(start, 1, j)
                &&& rows@[j].right_line_no@ == renumbered_no(start, 2, j)
            },
        decreases start.len() - i,
    {
        if !rows[i].left_line_no.as_str().is_empty() {
            nl = nl + 1;
            rows[i].left_line_no = number_text(nl);
        }
        if !rows[i].base_line_no.as_str().is_empty() {
            nb = nb + 1;
            rows[i].base_line_no = number_text(nb);
        }
        if !rows[i].right_line_no.as_str().is_empty() {
            nr = nr + 1;
            rows[i].right_line_no = number_text(nr);
        }
        i = i + 1;
    }
}

/// Deletes row `row_index` when its text in `pane` is empty and the pane
/// keeps at least one other line, then renumbers; else changes nothing.
pub fn delete_three_way_row(rows: &mut Vec<ThreeWayLineData>, row_index: usize, pane: i32) -> (deleted: bool)
    ensures
        deleted == (row_index < old(rows)@.len() && pane_text(old(rows)@[row_index as int], pane).len() == 0
            && numbered_before(old(rows)@, pane, old(rows)@.len() as int) > 1),
        deleted ==> renumbered3(old(rows)@.remove(row_index as int), final(rows)@),
        !deleted ==> final(rows)@ == old(rows)@,
{
    if row_index >= rows.len() {
        return false;
    }
    let ghost start = rows@;
    let text_empty = if pane == 0 {
        rows[row_index].left_text.as_str().is_empty()
    } else if pane == 1 {
        rows[row_index].base_text.as_str().is_empty()
    } else {
        rows[row_index].right_text.as_str().is_empty()
    };
    let mut count: usize = 0;
    let mut i: usize = 0;
    while i < rows.len()
        invariant
            i <= rows@.len(),
            rows@ == start,
            count == numbered_before(start, pane, i as int),
            count <= i,
        decreases rows@.len() - i,
    {
        let has_line = if pane == 0 {
            !rows[i].left_line_no.as_str().is_empty()
        } else if pane == 1 {
            !rows[i].base_line_no.as_str().is_empty()
        } else {
            !rows[i].right_line_no.as_str().is_empty()
        };
        if has_line {
            count = count + 1;
        }
        i = i + 1;
    }
    if text_empty && count > 1 {
        rows.remove(row_index);
        renumber_three_way(rows);
        true
    } else {
        false
    }
}

/// A blank row for insertion in `pane`: no text, a placeholder number in
/// that pane only, the status of a change on that side (1 left, 3 base,
/// 2 right), outside any block.
pub open spec fn blank_row(r: ThreeWayLineData, pane: i32) -> bool {
    &&& r.left_line_no@ == (if pane == 0 { "?"@ } else { Seq::<char>::empty() })
    &&& r.base_line_no@ == (if pane == 1 { "?"@ } else { Seq::<char>::empty() })
    &&& r.right_line_no@ == (if pane != 0 && pane != 1 { "?"@ } else { Seq::<char>::empty() })
    &&& r.left_text@.len() == 0 && r.base_text@.len() == 0 && r.right_text@.len() == 0
    &&& r.status == (if pane == 0 { 1i32 } else if pane == 1 { 3i32 } else { 2i32 })
    &&& !r.is_current && r.conflict_index == -1 && !r.is_search_match
}

fn blank_three_way_row(pane: i32) -> (r: ThreeWayLineData)
    ensures
        blank_row(r, pane),
{
    let mark = |p: i32| -> (s: String)
        ensures
            s@ == (if p == pane { "?"@ } else { Seq::<char>::empty() }),
        {
            if p == pane {
                str_to_string("?")
            } else {
                let s = String::new();
                assert(s@ =~= Seq::<char>::empty());
                s
            }
        };
    let right_mark = if pane != 0 && pane != 1 {
        str_to_string("?")
    } else {
        let s = String::new();
        assert(s@ =~= Seq::<char>::empty());
        s
    };
    let e1 = String::new();
    let e2 = String::new();
    let e3 = String::new();
    assert(e1@ =~= Seq::<char>::empty() && e2@ =~= Seq::<char>::empty() && e3@ =~= Seq::<char>::empty());
    ThreeWayLineData {
        left_line_no: mark(0),
        base_line_no: mark(1),
        right_line_no: right_mark,
        left_text: e1,
        base_text: e2,
        right_text: e3,
        status: if pane == 0 { 1 } else if pane == 1 { 3 } else { 2 },
        is_current: false,
        conflict_index: -1,
        is_search_match: false,
    }
}

/// Inserts a blank row for `pane` after row `row_index` and renumbers; false
/// (and no change) when there is no such row.
pub fn insert_three_way_row_after(rows: &mut Vec<ThreeWayLineData>, row_index: usize, pane: i32) -> (inserted: bool)
    ensures
        inserted == (row_index < old(rows)@.len()),
        inserted ==> exists|nr: ThreeWayLineData| #[trigger] blank_row(nr, pane)
            && renumbered3(old(rows)@.insert(row_index + 1, nr), final(rows)@),
        !inserted ==> final(rows)@ == old(rows)@,
{
    if row_index >= rows.len() {
        return false;
    }
    let nr = blank_three_way_row(pane);
    let ghost nrg = nr;
    rows.insert(row_index + 1, nr);
    let ghost mid = rows@;
    renumber_three_way(rows);
    assert(blank_row(nrg, pane) && renumbered3(mid, rows@));
    true
}

/// Replaces the text of row `row_index` in `pane`; nothing happens without such a row.
pub fn edit_three_way_row(rows: &mut Vec<ThreeWayLineData>, row_index: usize, pane: i32, new_text: &str)
    ensures
        final(rows)@.len() == old(rows)@.len(),
        row_index < old(rows)@.len() ==> {
            let o = old(rows)@[row_index as int];
            let n = final(rows)@[row_index as int];
            &&& final(rows)@ == old(rows)@.update(row_index as int, n)
            &&& pane_text(n, pane) == new_text@
            &&& n.left_line_no == o.left_line_no && n.base_line_no == o.base_line_no && n.right_line_no == o.right_line_no
            &&& (pane != 0 ==> n.left_text == o.left_text)
            &&& (pane != 1 ==> n.base_text == o.base_text)
            &&& (pane == 0 || pane == 1 ==> n.right_text == o.right_text)
            &&& n.status == o.status && n.is_current == o.is_current && n.conflict_index == o.conflict_index
            &&& n.is_search_match == o.is_search_match
        },
        row_index >= old(rows)@.len() ==> final(rows)@ == old(rows)@,
{
    if row_index >= rows.len() {
        return;
    }
    if pane == 0 {
        rows[row_index].left_text = str_to_string(new_text);
    } else if pane == 1 {
        rows[row_index].base_text = str_to_string(new_text);
    } else {
        rows[row_index].right_text = str_to_string(new_text);
    }
}

/// A row of the block after it was resolved from one side: the base takes
/// the source side's text where that side has a line (a base row without a
/// number gets "+"), and the status becomes 0 when left and right agree,
/// else 2 after taking the left or 1 after taking the right.
pub open spec fn resolved_row(o: ThreeWayLineData, n: ThreeWayLineData, use_left: bool) -> bool {
    let src_no = if use_left { o.left_line_no@ } else { o.right_line_no@ };
    let src_text = if use_left { o.left_text@ } else { o.right_text@ };
    &&& n.left_line_no == o.left_line_no && n.right_line_no == o.right_line_no
    &&& n.left_text == o.left_text && n.right_text == o.right_text
    &&& n.base_text@ == (if src_no.len() > 0 { src_text } else { o.base_text@ })
    &&& n.base_line_no@ == (if src_no.len() > 0 && o.base_line_no@.len() == 0 { "+"@ } else { o.base_line_no@ })
    &&& n.status == (if o.left_text@ == o.right_text@ { 0i32 } else if use_left { 2i32 } else { 1i32 })
    &&& n.is_current == o.is_current && n.conflict_index == o.conflict_index && n.is_search_match == o.is_search_match
}

/// The block that a resolution of block number `ci` applies to: the block
/// index of its first row, when there is such a block.
pub open spec fn block_to_resolve(rows: Seq<ThreeWayLineData>, positions: Seq<usize>, ci: i32) -> Option<i32> {
    if 0 <= ci < positions.len() && positions[ci as int] < rows.len() && rows[positions[ci as int] as int].conflict_index >= 0 {
        Some(rows[positions[ci as int] as int].conflict_index)
    } else {
        None
    }
}

/// Copies block `conflict_index` (by its starting row in `positions`) from
/// the left (or right) pane to the base; false, with no change, when there
/// is no such block.
pub fn resolve_block_to_base(rows: &mut Vec<ThreeWayLineData>, positions: &Vec<usize>, conflict_index: i32, use_left: bool) -> (done: bool)
    ensures
        final(rows)@.len() == old(rows)@.len(),
        done == block_to_resolve(old(rows)@, positions@, conflict_index) is Some,
        match block_to_resolve(old(rows)@, positions@, conflict_index) {
            Some(b) => forall|i: int| 0 <= i < old(rows)@.len() ==> if (#[trigger] old(rows)@[i]).conflict_index == b {
                resolved_row(old(rows)@[i], final(rows)@[i], use_left)
            } else {
                final(rows)@[i] == old(rows)@[i]
            },
            None => final(rows)@ == old(rows)@,
        },
{
    if conflict_index < 0 || conflict_index as usize >= positions.len() {
        return false;
    }
    let pos = positions[conflict_index as usize];
    if pos >= rows.len() || rows[pos].conflict_index < 0 {
        return false;
    }
    let block = rows[pos].conflict_index;
    let ghost start = rows@;
    let diff_status: i32 = if use_left { 2 } else { 1 };
    let mut i: usize = 0;
    while i < rows.len()
        invariant
            i <= rows@.len(),
            rows@.len() == start.len(),
            diff_status == (if use_left { 2i32 } else { 1i32 }),
            forall|j: int| i <= j < start.len() ==> #[trigger] rows@[j] == start[j],
            forall|j: int| 0 <= j < i ==> if (#[trigger] start[j]).conflict_index == block {
                resolved_row(start[j], rows@[j], use_left)
            } else {
                rows@[j] == start[j]
            },
        decreases start.len() - i,
    {
        if rows[i].conflict_index == block {
            let has_src = if use_left {
                !rows[i].left_line_no.as_str().is_empty()
            } else {
                !rows[i].right_line_no.as_str().is_empty()
            };
            if has_src {
                let t = if use_left {
                    str_to_string(rows[i].left_text.as_str())
                } else {
                    str_to_string(rows[i].right_text.as_str())
                };
                rows[i].base_text = t;
                if rows[i].base_line_no.as_str().is_empty() {
                    rows[i].base_line_no = str_to_string("+");
                }
            }
            let same = crate::text::str_eq(rows[i].left_text.as_str(), rows[i].right_text.as_str());
            rows[i].status = if same { 0 } else { diff_status };
        }
        i = i + 1;
    }
    true
}

/// A pane row built from a three-way row: that pane's number and text, a
/// ghost where it has no number, and the row's status, block and flags.
pub open spec fn pane_row_of(m: PaneLineData, r: ThreeWayLineData, pane: i32) -> bool {
    &&& m.line_no@ == pane_no(r, pane)
    &&& m.text@ == pane_text(r, pane)
    &&& m.is_ghost == (pane_no(r, pane).len() == 0)
    &&& m.status == r.status
    &&& m.diff_index == r.conflict_index
    &&& m.word_diff@.len() == 0
    &&& m.is_current_diff == r.is_current
    &&& m.is_search_match == r.is_search_match
    &&& !m.is_selected
    &&& m.highlight == -1
}

fn pane_row(r: &ThreeWayLineData, pane: i32) -> (m: PaneLineData)
    ensures
        pane_row_of(m, *r, pane),
{
    let (no, text) = if pane == 0 {
        (&r.left_line_no, &r.left_text)
    } else if pane == 1 {
        (&r.base_line_no, &r.base_text)
    } else {
        (&r.right_line_no, &r.right_text)
    };
    let w = String::new();
    assert(w@ =~= Seq::<char>::empty());
    PaneLineData {
        line_no: str_to_string(no.as_str()),
        text: str_to_string(text.as_str()),
        is_ghost: no.as_str().is_empty(),
        status: r.status,
        diff_index: r.conflict_index,
        word_diff: w,
        is_current_diff: r.is_current,
        is_search_match: r.is_search_match,
        is_selected: false,
        highlight: -1,
    }
}

/// The buffer of one pane of the three-way view.
pub fn three_way_pane_buffer(rows: &Vec<ThreeWayLineData>, pane: i32) -> (b: PaneBuffer)
    ensures
        pane_wf(b),
        b.model@.len() == rows@.len(),
        forall|i: int| 0 <= i < rows@.len() ==> pane_row_of(#[trigger] b.model@[i], rows@[i], pane),
{
    let mut model: Vec<PaneLineData> = Vec::new();
    let mut i: usize = 0;
    while i < rows.len()
        invariant
            i <= rows@.len(),
            model@.len() == i,
            forall|j: int| 0 <= j < i ==> pane_row_of(#[trigger] model@[j], rows@[j], pane),
        decreases rows@.len() - i,
    {
        model.push(pane_row(&rows[i], pane));
        i = i + 1;
    }
    let (row_to_line, line_to_row, ghost_rows) = index_rows(&model);
    PaneBuffer { model, row_to_line, line_to_row, ghost_rows }
}

/// The left, base and right buffers of the three-way view, rebuilt from its rows.
pub fn rebuild_three_way_pane_buffers(rows: &Vec<ThreeWayLineData>) -> (bufs: (PaneBuffer, PaneBuffer, PaneBuffer))
    ensures
        pane_wf(bufs.0) && pane_wf(bufs.1) && pane_wf(bufs.2),
        bufs.0.model@.len() == rows@.len() && bufs.1.model@.len() == rows@.len() && bufs.2.model@.len() == rows@.len(),
        forall|i: int| 0 <= i < rows@.len() ==> {
            &&& pane_row_of(#[trigger] bufs.0.model@[i], rows@[i], 0)
            &&& pane_row_of(bufs.1.model@[i], rows@[i], 1)
            &&& pane_row_of(bufs.2.model@[i], rows@[i], 2)
        },
{
    let l = three_way_pane_buffer(rows, 0);
    let b = three_way_pane_buffer(rows, 1);
    let r = three_way_pane_buffer(rows, 2);
    (l, b, r)
}

} // verus!

verus! {

proof fn lemma_resolved_twice(o: ThreeWayLineData, n: ThreeWayLineData, n2: ThreeWayLineData, use_left: bool)
    requires
        resolved_row(o, n, use_left),
        resolved_row(n, n2, use_left),
    ensures
        resolved_row(o, n2, use_left),
{
}

/// Block `b` is resolved by one of the block numbers `lo..hi`.
pub open spec fn resolved_by(rows: Seq<ThreeWayLineData>, positions: Seq<usize>, lo: int, hi: int, b: i32) -> bool {
    exists|ci: int| lo <= ci < hi && #[trigger] block_to_resolve(rows, positions, ci as i32) == Some(b)
}

/// Copies every block from the left (or right) pane to the base, the last
/// block first, and returns how many blocks there are; `None` (and no
/// change) when there are none. Rows of a block that some position starts
/// are resolved (once or more, with the same result), the others kept.
pub fn resolve_all_to_base(rows: &mut Vec<ThreeWayLineData>, positions: &Vec<usize>, use_left: bool) -> (count: Option<usize>)
    requires
        positions@.len() <= i32::MAX,
    ensures
        count == if positions@.len() == 0 { None } else { Some(positions@.len() as usize) },
        final(rows)@.len() == old(rows)@.len(),
        forall|i: int| 0 <= i < old(rows)@.len() ==> if resolved_by(old(rows)@, positions@, 0, positions@.len() as int, (#[trigger] old(rows)@[i]).conflict_index) {
            resolved_row(old(rows)@[i], final(rows)@[i], use_left)
        } else {
            final(rows)@[i] == old(rows)@[i]
        },
{
    let n = positions.len();
    if n == 0 {
        assert forall|i: int| 0 <= i < rows@.len() implies !resolved_by(rows@, positions@, 0, 0, (#[trigger] rows@[i]).conflict_index) by {}
        return None;
    }
    let ghost start = rows@;
    let mut k: usize = n;
    while k > 0
        invariant
            k <= n == positions@.len() <= i32::MAX,
            rows@.len() == start.len(),
            forall|i: int| 0 <= i < start.len() ==> (#[trigger] rows@[i]).conflict_index == start[i].conflict_index,
            forall|i: int| 0 <= i < start.len() ==> if resolved_by(start, positions@, k as int, n as int, (#[trigger] start[i]).conflict_index) {
                resolved_row(start[i], rows@[i], use_left)
            } else {
                rows@[i] == start[i]
            },
        decreases k,
    {
        let ci = (k - 1) as i32;
        let ghost before = rows@;
        assert(block_to_resolve(before, positions@, ci) == block_to_resolve(start, positions@, ci));
        resolve_block_to_base(rows, positions, ci, use_left);
        assert forall|i: int| 0 <= i < start.len() implies (#[trigger] rows@[i]).conflict_index == start[i].conflict_index by {
            assert(before[i].conflict_index == start[i].conflict_index);
        }
        assert forall|i: int| 0 <= i < start.len() implies if resolved_by(start, positions@, k - 1, n as int, (#[trigger] start[i]).conflict_index) {
            resolved_row(start[i], rows@[i], use_left)
        } else {
            rows@[i] == start[i]
        } by {
            let b = start[i].conflict_index;
            assert(before[i].conflict_index == b);
            let hit = block_to_resolve(start, positions@, ci) == Some(b);
            if resolved_by(start, positions@, k as int, n as int, b) {
                let w = choose|w: int| k <= w < n && #[trigger] block_to_resolve(start, positions@, w as i32) == Some(b);
                assert(resolved_by(start, positions@, k - 1, n as int, b));
                if hit {
                    lemma_resolved_twice(start[i], before[i], rows@[i], use_left);
                }
            } else if hit {
                assert(block_to_resolve(start, positions@, (k - 1) as int as i32) == Some(b));
                assert(resolved_by(start, positions@, k - 1, n as int, b));
            } else {
                assert(!resolved_by(start, positions@, k - 1, n as int, b)) by {
                    if resolved_by(start, positions@, k - 1, n as int, b) {
                        let w = choose|w: int| k - 1 <= w < n && #[trigger] block_to_resolve(start, positions@, w as i32) == Some(b);
                        if w >= k {
                            assert(resolved_by(start, positions@, k as int, n as int, b));
                        }
                    }
                }
            }
        }
        k = k - 1;
    }
    Some(n)
}

/// Marks the row at `pos` as the current one and clears the mark elsewhere.
pub fn mark_current_conflict_row(rows: &mut Vec<ThreeWayLineData>, pos: usize)
    ensures
        final(rows)@.len() == old(rows)@.len(),
        forall|i: int| 0 <= i < old(rows)@.len() ==> #[trigger] final(rows)@[i] == (ThreeWayLineData {
            is_current: i == pos as int,
            ..old(rows)@[i]
        }),
{
    let ghost start = rows@;
    let mut i: usize = 0;
    while i < rows.len()
        invariant
            i <= rows@.len(),
            rows@.len() == start.len(),
            forall|j: int| 0 <= j < i ==> #[trigger] rows@[j] == (ThreeWayLineData { is_current: j == pos as int, ..start[j] }),
            forall|j: int| i <= j < start.len() ==> #[trigger] rows@[j] == start[j],
        decreases start.len() - i,
    {
        rows[i].is_current = i == pos;
        i = i + 1;
    }
}

/// The status line after copying one block to the base.
pub fn resolved_message(use_left: bool) -> (s: String)
    ensures
        s@ == if use_left { "Left \u{2192} Middle copied"@ } else { "Right \u{2192} Middle copied"@ },
{
    if use_left { str_to_string("Left \u{2192} Middle copied") } else { str_to_string("Right \u{2192} Middle copied") }
}

/// The status line after copying all blocks to the base.
pub fn resolved_all_message(count: usize, use_left: bool) -> (s: String)
    ensures
        s@ == "All "@ + dec(count as nat) + if use_left { " blocks: Left \u{2192} Middle"@ } else { " blocks: Right \u{2192} Middle"@ },
{
    let mut s = str_to_string("All ");
    push_dec(&mut s, count as u64);
    if use_left {
        push_str(&mut s, " blocks: Left \u{2192} Middle");
    } else {
        push_str(&mut s, " blocks: Right \u{2192} Middle");
    }
    s
}

/// The only row of a new blank three-way document: line 1, empty, in each pane.
pub fn blank_three_way_document_row() -> (r: ThreeWayLineData)
    ensures
        r.base_line_no@ == seq!['1'] && r.left_line_no@ == seq!['1'] && r.right_line_no@ == seq!['1'],
        r.base_text@.len() == 0 && r.left_text@.len() == 0 && r.right_text@.len() == 0,
        r.status == 0 && !r.is_current && r.conflict_index == -1 && !r.is_search_match,
{
    let one = str_to_string("1");
    proof {
        reveal_strlit("1");
        assert(one@ =~= seq!['1']);
    }
    ThreeWayLineData {
        base_line_no: one.clone(),
        left_line_no: one.clone(),
        right_line_no: one,
        base_text: String::new(),
        left_text: String::new(),
        right_text: String::new(),
        status: 0,
        is_current: false,
        conflict_index: -1,
        is_search_match: false,
    }
}

} // verus!
