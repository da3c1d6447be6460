//! The detail pane: the lines (or cells) of the current difference, side by side.
use vstd::prelude::*;
use crate::text::str_to_string;
use crate::csv::{col_to_name, col_name};
use crate::diff_view::{WordSegment, ThreeWayLineData, parse_word_diff_segments, segments_of};
use crate::pane_buffer::{PaneBuffer, PaneLineData};
use crate::table::{TableRowData, TableColumnInfo, TableCellData, DEFAULT_COL_WIDTH_PX};

verus! {

/// One line of the detail pane: its pieces, and the status of its row.
#[derive(Debug, Clone)]
pub struct DetailLineData {
    pub segments: Vec<WordSegment>,
    pub is_current: bool,
    pub status: i32,
}

/// A detail line as plain values: its pieces (text, changed) and status.
pub open spec fn detail_view(d: DetailLineData) -> (Seq<(Seq<char>, bool)>, bool, i32) {
    (d.segments@.map_values(|w: WordSegment| (w.text@, w.is_changed)), d.is_current, d.status)
}

pub open spec fn details_view(ds: Seq<DetailLineData>) -> Seq<(Seq<(Seq<char>, bool)>, bool, i32)> {
    ds.map_values(|d: DetailLineData| detail_view(d))
}

/// The block and status of an aligned pair of rows: the left row's when it
/// shows a line, else the right row's.
pub open spec fn pair_block(l: PaneLineData, r: PaneLineData) -> i32 {
    if !l.is_ghost { l.diff_index } else { r.diff_index }
}

pub open spec fn pair_status(l: PaneLineData, r: PaneLineData) -> i32 {
    if !l.is_ghost { l.status } else { r.status }
}

/// The detail line of a pane row: its word-diff pieces, current, with the
/// pair's status.
pub open spec fn detail_of(m: PaneLineData, status: i32) -> (Seq<(Seq<char>, bool)>, bool, i32) {
    (segments_of(m.text@, m.word_diff@), true, status)
}

/// The detail pane after the rows `start..i` of the two panes: whether a
/// later block was reached (which ends the pane), and the left and right
/// lines of block `d` so far. A left line is shown for a removed, modified
/// or moved row that is real on the left; a right line likewise for an
/// added, modified or moved row.
pub open spec fn details_upto(
    lm: Seq<PaneLineData>,
    rm: Seq<PaneLineData>,
    d: i32,
    start: int,
    i: int,
) -> (bool, Seq<(Seq<(Seq<char>, bool)>, bool, i32)>, Seq<(Seq<(Seq<char>, bool)>, bool, i32)>)
    decreases i - start,
{
    if i <= start {
        (false, Seq::empty(), Seq::empty())
    } else {
        let p = details_upto(lm, rm, d, start, i - 1);
        let j = i - 1;
        if p.0 || j >= rm.len() || j >= lm.len() {
            p
        } else {
            let k = pair_block(lm[j], rm[j]);
            let st = pair_status(lm[j], rm[j]);
            if k != d {
                if k > d { (true, p.1, p.2) } else { p }
            } else {
                let left = if (st == 2 || st == 3 || st == 4) && !lm[j].is_ghost { seq![detail_of(lm[j], st)] } else { Seq::empty() };
                let right = if (st == 1 || st == 3 || st == 4) && !rm[j].is_ghost { seq![detail_of(rm[j], st)] } else { Seq::empty() };
                (false, p.1 + left, p.2 + right)
            }
        }
    }
}

/// The detail pane of difference `d` of a two-way view: nothing for a
/// negative index or without both panes; else the rows from the start of
/// the block (row 0 for an unknown block) until a later block.
pub open spec fn two_way_details(
    left: Option<PaneBuffer>,
    right: Option<PaneBuffer>,
    positions: Seq<usize>,
    d: i32,
) -> (Seq<(Seq<(Seq<char>, bool)>, bool, i32)>, Seq<(Seq<(Seq<char>, bool)>, bool, i32)>) {
    if d < 0 || left is None || right is None {
        (Seq::empty(), Seq::empty())
    } else {
        let start = if d < positions.len() { positions[d as int] as int } else { 0 };
        let lm = left->0.model@;
        let r = details_upto(lm, right->0.model@, d, start, lm.len() as int);
        (r.1, r.2)
    }
}

fn detail_line(m: &PaneLineData, status: i32) -> (d: DetailLineData)
    ensures
        detail_view(d) == detail_of(*m, status),
{
    DetailLineData { segments: parse_word_diff_segments(m.text.as_str(), m.word_diff.as_str()), is_current: true, status }
}

/// Builds the detail pane of difference `diff_index` of a two-way view.
pub fn detail_lines_2way(
    left: &Option<PaneBuffer>,
    right: &Option<PaneBuffer>,
    positions: &Vec<usize>,
    diff_index: i32,
) -> (r: (Vec<DetailLineData>, Vec<DetailLineData>))
    ensures
        (details_view(r.0@), details_view(r.1@)) == two_way_details(*left, *right, positions@, diff_index),
{
    let mut ls: Vec<DetailLineData> = Vec::new();
    let mut rs: Vec<DetailLineData> = Vec::new();
    if diff_index < 0 {
        assert(details_view(ls@) =~= Seq::empty());
        assert(details_view(rs@) =~= Seq::empty());
        return (ls, rs);
    }
    match (left, right) {
        (Some(lb), Some(rb)) => {
            let start: usize = if (diff_index as usize) < positions.len() { positions[diff_index as usize] } else { 0 };
            let ghost lm = lb.model@;
            let ghost rm = rb.model@;
            let count = lb.model.len();
            let mut stopped = false;
            let mut i: usize = start;
            if start > count {
                i = count;
            }
            proof {
                if start > count {
                    lemma_details_past_end(lm, rm, diff_index, start as int);
                }
                assert(details_view(ls@) =~= Seq::empty());
                assert(details_view(rs@) =~= Seq::empty());
            }
            while i < count
                invariant
                    count == lm.len(),
                    lm == lb.model@,
                    rm == rb.model@,
                    start <= i <= count || (start > count && i == count),
                    start > count ==> details_upto(lm, rm, diff_index, start as int, count as int) == (false, Seq::<(Seq<(Seq<char>, bool)>, bool, i32)>::empty(), Seq::<(Seq<(Seq<char>, bool)>, bool, i32)>::empty()),
                    start <= count ==> details_upto(lm, rm, diff_index, start as int, i as int) == (stopped, details_view(ls@), details_view(rs@)),
                    start > count ==> ls@.len() == 0 && rs@.len() == 0,
                decreases count - i,
            {
                if !stopped && i < rb.model.len() {
                    let lr = &lb.model[i];
                    let rr = &rb.model[i];
                    let k = if !lr.is_ghost { lr.diff_index } else { rr.diff_index };
                    let st = if !lr.is_ghost { lr.status } else { rr.status };
                    if k != diff_index {
                        if k > diff_index {
                            stopped = true;
                        }
                    } else {
                        let ghost l0 = ls@;
                        let ghost r0 = rs@;
                        if (st == 2 || st == 3 || st == 4) && !lr.is_ghost {
                            ls.push(detail_line(lr, st));
                        }
                        if (st == 1 || st == 3 || st == 4) && !rr.is_ghost {
                            rs.push(detail_line(rr, st));
                        }
                        assert(details_view(ls@) =~= details_view(l0) + (if (st == 2 || st == 3 || st == 4) && !lr.is_ghost {
                            seq![detail_of(*lr, st)]
                        } else {
                            Seq::empty()
                        }));
                        assert(details_view(rs@) =~= details_view(r0) + (if (st == 1 || st == 3 || st == 4) && !rr.is_ghost {
                            seq![detail_of(*rr, st)]
                        } else {
                            Seq::empty()
                        }));
                    }
                }
                i = i + 1;
            }
            (ls, rs)
        },
        _ => {
            assert(details_view(ls@) =~= Seq::empty());
            assert(details_view(rs@) =~= Seq::empty());
            (ls, rs)
        },
    }
}

proof fn lemma_details_past_end(lm: Seq<PaneLineData>, rm: Seq<PaneLineData>, d: i32, start: int)
    requires
        start > lm.len(),
    ensures
        details_upto(lm, rm, d, start, lm.len() as int) == (false, Seq::<(Seq<(Seq<char>, bool)>, bool, i32)>::empty(), Seq::<(Seq<(Seq<char>, bool)>, bool, i32)>::empty()),
{
}

/// The detail line of one pane of a three-way row: its whole text, changed
/// as the row's status says for that pane.
pub open spec fn three_way_detail(r: ThreeWayLineData, pane: int) -> (Seq<(Seq<char>, bool)>, bool, i32) {
    let s = r.status;
    let (text, changed) = if pane == 0 {
        (r.left_text@, s == 1 || s == 3 || s == 4)
    } else if pane == 1 {
        (r.base_text@, s == 3 || s == 4)
    } else {
        (r.right_text@, s == 2 || s == 3 || s == 4)
    };
    (seq![(text, changed)], true, s)
}

/// The detail lines of one pane for the rows of block `ci`.
pub open spec fn block_details(rows: Seq<ThreeWayLineData>, ci: i32, pane: int) -> Seq<(Seq<(Seq<char>, bool)>, bool, i32)>
    decreases rows.len(),
{
    if rows.len() == 0 {
        Seq::empty()
    } else if rows.last().conflict_index == ci {
        block_details(rows.drop_last(), ci, pane).push(three_way_detail(rows.last(), pane))
    } else {
        block_details(rows.drop_last(), ci, pane)
    }
}

fn three_way_detail_line(r: &ThreeWayLineData, pane: i32) -> (d: DetailLineData)
    ensures
        detail_view(d) == three_way_detail(*r, pane as int),
{
    let s = r.status;
    let (text, changed) = if pane == 0 {
        (str_to_string(r.left_text.as_str()), s == 1 || s == 3 || s == 4)
    } else if pane == 1 {
        (str_to_string(r.base_text.as_str()), s == 3 || s == 4)
    } else {
        (str_to_string(r.right_text.as_str()), s == 2 || s == 3 || s == 4)
    };
    let segs = vec![WordSegment { text, is_changed: changed }];
    let d = DetailLineData { segments: segs, is_current: true, status: s };
    assert(d.segments@.map_values(|w: WordSegment| (w.text@, w.is_changed)) =~= three_way_detail(*r, pane as int).0);
    d
}

/// Builds the detail pane of block `conflict_index` of the three-way view:
/// left, base and right lines of its rows (nothing for a negative index).
pub fn detail_lines_3way(rows: &Vec<ThreeWayLineData>, conflict_index: i32) -> (r: (Vec<DetailLineData>, Vec<DetailLineData>, Vec<DetailLineData>))
    ensures
        conflict_index < 0 ==> r.0@.len() == 0 && r.1@.len() == 0 && r.2@.len() == 0,
        conflict_index >= 0 ==> {
            &&& details_view(r.0@) == block_details(rows@, conflict_index, 0)
            &&& details_view(r.1@) == block_details(rows@, conflict_index, 1)
            &&& details_view(r.2@) == block_details(rows@, conflict_index, 2)
        },
{
    let mut ls: Vec<DetailLineData> = Vec::new();
    let mut bs: Vec<DetailLineData> = Vec::new();
    let mut rs: Vec<DetailLineData> = Vec::new();
    if conflict_index < 0 {
        return (ls, bs, rs);
    }
    let mut i: usize = 0;
    while i < rows.len()
        invariant
            i <= rows@.len(),
            details_view(ls@) == block_details(rows@.take(i as int), conflict_index, 0),
            details_view(bs@) == block_details(rows@.take(i as int), conflict_index, 1),
            details_view(rs@) == block_details(rows@.take(i as int), conflict_index, 2),
        decreases rows@.len() - i,
    {
        assert(rows@.take(i + 1).drop_last() =~= rows@.take(i as int));
        assert(rows@.take(i + 1).last() == rows@[i as int]);
        if rows[i].conflict_index == conflict_index {
            let ghost (l0, b0, r0) = (ls@, bs@, rs@);
            ls.push(three_way_detail_line(&rows[i], 0));
            bs.push(three_way_detail_line(&rows[i], 1));
            rs.push(three_way_detail_line(&rows[i], 2));
            assert(details_view(ls@) =~= details_view(l0).push(three_way_detail(rows@[i as int], 0)));
            assert(details_view(bs@) =~= details_view(b0).push(three_way_detail(rows@[i as int], 1)));
            assert(details_view(rs@) =~= details_view(r0).push(three_way_detail(rows@[i as int], 2)));
        }
        i = i + 1;
    }
    assert(rows@.take(rows@.len() as int) =~= rows@);
    (ls, bs, rs)
}

/// One column of the table detail pane for the highlighted row.
#[derive(Debug, Clone)]
pub struct TableDetailCellData {
    pub col_name: String,
    pub left_value: String,
    pub base_value: String,
    pub right_value: String,
    pub status: i32,
    pub left_status: i32,
    pub right_status: i32,
    pub base_status: i32,
    pub col_x_px: i32,
    pub col_width_px: i32,
}

/// The text and status of cell `i` of a pane (empty and 0 without one).
pub open spec fn cell_text(cells: Seq<TableCellData>, i: int) -> Seq<char> {
    if 0 <= i < cells.len() { cells[i].text@ } else { Seq::empty() }
}

pub open spec fn cell_status(cells: Seq<TableCellData>, i: int) -> i32 {
    if 0 <= i < cells.len() { cells[i].status } else { 0 }
}

/// The detail of column `i` of a row: the column's name (spreadsheet
/// letters past the known columns), each pane's text and status, the first
/// nonzero of the left, right and base statuses, and the column geometry.
pub open spec fn detail_cell_ok(d: TableDetailCellData, row: TableRowData, cols: Seq<TableColumnInfo>, i: int) -> bool {
    let (l, r, b) = (row.left_cells@, row.right_cells@, row.base_cells@);
    &&& d.col_name@ == (if i < cols.len() { cols[i].name@ } else { col_name(i as nat) })
    &&& d.left_value@ == cell_text(l, i) && d.right_value@ == cell_text(r, i) && d.base_value@ == cell_text(b, i)
    &&& d.left_status == cell_status(l, i) && d.right_status == cell_status(r, i) && d.base_status == cell_status(b, i)
    &&& d.status == (if cell_status(l, i) != 0 {
        cell_status(l, i)
    } else if cell_status(r, i) != 0 {
        cell_status(r, i)
    } else {
        cell_status(b, i)
    })
    &&& d.col_x_px == (if i < cols.len() { cols[i].x_px } else { 0 })
    &&& d.col_width_px == (if i < cols.len() { cols[i].width_px } else { DEFAULT_COL_WIDTH_PX })
}

fn cell_of(cells: &Vec<TableCellData>, i: usize) -> (r: (String, i32))
    ensures
        r.0@ == cell_text(cells@, i as int),
        r.1 == cell_status(cells@, i as int),
{
    if i < cells.len() {
        (str_to_string(cells[i].text.as_str()), cells[i].status)
    } else {
        let s = String::new();
        assert(s@ =~= Seq::<char>::empty());
        (s, 0)
    }
}

/// The detail pane of table row `row_idx`: one entry per column of its
/// widest pane; nothing for a missing row.
pub fn table_detail_cells(rows: &Vec<TableRowData>, columns: &Vec<TableColumnInfo>, row_idx: usize) -> (d: Vec<TableDetailCellData>)
    ensures
        row_idx >= rows@.len() ==> d@.len() == 0,
        row_idx < rows@.len() ==> {
            let row = rows@[row_idx as int];
            &&& d@.len() == vstd::math::max(vstd::math::max(row.left_cells@.len() as int, row.right_cells@.len() as int), row.base_cells@.len() as int)
            &&& forall|i: int| 0 <= i < d@.len() ==> detail_cell_ok(#[trigger] d@[i], row, columns@, i)
        },
{
    let mut out: Vec<TableDetailCellData> = Vec::new();
    if row_idx >= rows.len() {
        return out;
    }
    let row = &rows[row_idx];
    let mut n = row.left_cells.len();
    if row.right_cells.len() > n {
        n = row.right_cells.len();
    }
    if row.base_cells.len() > n {
        n = row.base_cells.len();
    }
    let mut i: usize = 0;
    while i < n
        invariant
            i <= n,
            row_idx < rows@.len(),
            *row == rows@[row_idx as int],
            out@.len() == i,
            forall|j: int| 0 <= j < i ==> detail_cell_ok(#[trigger] out@[j], *row, columns@, j),
        decreases n - i,
    {
        let name = if i < columns.len() { str_to_string(columns[i].name.as_str()) } else { col_to_name(i) };
        let (lv, ls) = cell_of(&row.left_cells, i);
        let (rv, rst) = cell_of(&row.right_cells, i);
        let (bv, bst) = cell_of(&row.base_cells, i);
        let status = if ls != 0 { ls } else if rst != 0 { rst } else { bst };
        let (x, w) = if i < columns.len() { (columns[i].x_px, columns[i].width_px) } else { (0, DEFAULT_COL_WIDTH_PX) };
        out.push(TableDetailCellData {
            col_name: name,
            left_value: lv,
            base_value: bv,
            right_value: rv,
            status,
            left_status: ls,
            right_status: rst,
            base_status: bst,
            col_x_px: x,
            col_width_px: w,
        });
        i = i + 1;
    }
    out
}

} // verus!
