//! Editing the table view: cell edits, copying rows between panes, taking a
//! side into the base, restoring a pane from a grid, resizing columns.
use vstd::prelude::*;
use crate::text::{str_to_string, str_eq};
use crate::table::{TableCellData, TableRowData, TableColumnInfo, MIN_COL_WIDTH_PX, DEFAULT_COL_WIDTH_PX, build_columns, build_table_rows, rows2_ok, columns_ok, status_rows};
use crate::csv::grid_view;
use crate::text::views;

verus! {

/// The cells of a pane (0 = left, 1 = base, other = right).
pub open spec fn pane_cells(r: TableRowData, pane: i32) -> Seq<TableCellData> {
    if pane == 0 {
        r.left_cells@
    } else if pane == 1 {
        r.base_cells@
    } else {
        r.right_cells@
    }
}

/// `c` has the text and geometry of `s`, with the given status.
pub open spec fn cell_from(c: TableCellData, s: TableCellData, status: i32) -> bool {
    c.text@ == s.text@ && c.status == status && c.col_x_px == s.col_x_px && c.col_width_px == s.col_width_px
}

/// `dst` is a copy of `src` with every status cleared.
pub open spec fn copied_cells(src: Seq<TableCellData>, dst: Seq<TableCellData>) -> bool {
    &&& dst.len() == src.len()
    &&& forall|i: int| 0 <= i < src.len() ==> cell_from(#[trigger] dst[i], src[i], 0)
}

fn copy_cells(src: &Vec<TableCellData>) -> (dst: Vec<TableCellData>)
    ensures
        copied_cells(src@, dst@),
{
    let mut dst: Vec<TableCellData> = Vec::new();
    let mut i: usize = 0;
    while i < src.len()
        invariant
            i <= src@.len(),
            dst@.len() == i,
            forall|j: int| 0 <= j < i ==> cell_from(#[trigger] dst@[j], src@[j], 0),
        decreases src@.len() - i,
    {
        let c = &src[i];
        dst.push(TableCellData { text: str_to_string(c.text.as_str()), status: 0, col_x_px: c.col_x_px, col_width_px: c.col_width_px });
        i = i + 1;
    }
    dst
}

/// Sets the text of one cell; false (and no change) when there is no such cell.
pub fn table_cell_edit(rows: &mut Vec<TableRowData>, row_idx: usize, col_idx: usize, pane: i32, new_text: &str) -> (edited: bool)
    ensures
        edited == (row_idx < old(rows)@.len() && col_idx < pane_cells(old(rows)@[row_idx as int], pane).len()),
        edited ==> {
            let o = old(rows)@[row_idx as int];
            let n = final(rows)@[row_idx as int];
            let c = pane_cells(n, pane)[col_idx as int];
            &&& final(rows)@ == old(rows)@.update(row_idx as int, n)
            &&& pane_cells(n, pane) == pane_cells(o, pane).update(col_idx as int, c)
            &&& c.text@ == new_text@
            &&& c.status == pane_cells(o, pane)[col_idx as int].status
            &&& c.col_x_px == pane_cells(o, pane)[col_idx as int].col_x_px
            &&& c.col_width_px == pane_cells(o, pane)[col_idx as int].col_width_px
            &&& n.row_number == o.row_number && n.row_status == o.row_status
            &&& (pane != 0 ==> n.left_cells == o.left_cells)
            &&& (pane != 1 ==> n.base_cells == o.base_cells)
            &&& (pane == 0 || pane == 1 ==> n.right_cells == o.right_cells)
        },
        !edited ==> final(rows)@ == old(rows)@,
{
    if row_idx >= rows.len() {
        return false;
    }
    if pane == 0 {
        if col_idx >= rows[row_idx].left_cells.len() {
            return false;
        }
        rows[row_idx].left_cells[col_idx].text = str_to_string(new_text);
    } else if pane == 1 {
        if col_idx >= rows[row_idx].base_cells.len() {
            return false;
        }
        rows[row_idx].base_cells[col_idx].text = str_to_string(new_text);
    } else {
        if col_idx >= rows[row_idx].right_cells.len() {
            return false;
        }
        rows[row_idx].right_cells[col_idx].text = str_to_string(new_text);
    }
    true
}

/// Row `n` is row `o` after copying one side over the other: both sides
/// hold copies of the source side's cells, the base is kept, and nothing
/// differs any more.
pub open spec fn row_copied(o: TableRowData, n: TableRowData, to_right: bool) -> bool {
    let src = if to_right { o.left_cells@ } else { o.right_cells@ };
    &&& n.row_number == o.row_number
    &&& copied_cells(src, n.left_cells@)
    &&& copied_cells(src, n.right_cells@)
    &&& n.base_cells == o.base_cells
    &&& n.row_status == 0
}

fn copy_row(rows: &mut Vec<TableRowData>, row_idx: usize, to_right: bool)
    requires
        row_idx < old(rows)@.len(),
    ensures
        final(rows)@.len() == old(rows)@.len(),
        forall|i: int| 0 <= i < old(rows)@.len() && i != row_idx ==> #[trigger] final(rows)@[i] == old(rows)@[i],
        row_copied(old(rows)@[row_idx as int], final(rows)@[row_idx as int], to_right),
{
    let (l, r) = if to_right {
        (copy_cells(&rows[row_idx].left_cells), copy_cells(&rows[row_idx].left_cells))
    } else {
        (copy_cells(&rows[row_idx].right_cells), copy_cells(&rows[row_idx].right_cells))
    };
    rows[row_idx].left_cells = l;
    rows[row_idx].right_cells = r;
    rows[row_idx].row_status = 0;
}

/// The positions of the difference rows all name rows.
pub open spec fn positions_ok(positions: Seq<usize>, n: int) -> bool {
    forall|k: int| 0 <= k < positions.len() ==> #[trigger] positions[k] < n
}

/// Copies the difference row `diff_index` from the left to the right (or
/// from the right to the left); false (and no change) when there is no
/// such difference.
pub fn table_copy_to_side(rows: &mut Vec<TableRowData>, positions: &Vec<usize>, diff_index: i32, to_right: bool) -> (done: bool)
    requires
        positions_ok(positions@, old(rows)@.len() as int),
    ensures
        done == (0 <= diff_index < positions@.len()),
        final(rows)@.len() == old(rows)@.len(),
        done ==> {
            let p = positions@[diff_index as int] as int;
            &&& row_copied(old(rows)@[p], final(rows)@[p], to_right)
            &&& forall|i: int| 0 <= i < old(rows)@.len() && i != p ==> #[trigger] final(rows)@[i] == old(rows)@[i]
        },
        !done ==> final(rows)@ == old(rows)@,
{
    if diff_index < 0 || diff_index as usize >= positions.len() {
        return false;
    }
    let p = positions[diff_index as usize];
    copy_row(rows, p, to_right);
    true
}

/// Copies every difference row from one side to the other.
pub fn table_copy_all(rows: &mut Vec<TableRowData>, positions: &Vec<usize>, to_right: bool)
    requires
        positions_ok(positions@, old(rows)@.len() as int),
    ensures
        final(rows)@.len() == old(rows)@.len(),
        forall|i: int| 0 <= i < old(rows)@.len() ==> if positions@.contains(i as usize) {
            row_copied(old(rows)@[i], #[trigger] final(rows)@[i], to_right)
        } else {
            final(rows)@[i] == old(rows)@[i]
        },
{
    let ghost start = rows@;
    let total = rows.len();
    let mut k: usize = 0;
    while k < positions.len()
        invariant
            k <= positions@.len(),
            rows@.len() == start.len(),
            start.len() == total,
            positions_ok(positions@, start.len() as int),
            forall|i: int| 0 <= i < start.len() ==> if positions@.take(k as int).contains(i as usize) {
                row_copied(start[i], #[trigger] rows@[i], to_right)
            } else {
                rows@[i] == start[i]
            },
        decreases positions@.len() - k,
    {
        let p = positions[k];
        let ghost before = rows@;
        copy_row(rows, p, to_right);
        proof {
            assert forall|i: int| 0 <= i < start.len() implies if positions@.take(k + 1).contains(i as usize) {
                row_copied(start[i], #[trigger] rows@[i], to_right)
            } else {
                rows@[i] == start[i]
            } by {
                let pre = positions@.take(k as int);
                let post = positions@.take(k + 1);
                assert(post =~= pre.push(p));
                if i == p {
                    assert(post[k as int] == p);
                    assert(post.contains(i as usize));
                    if pre.contains(i as usize) {
                        // Copying a copied row again gives the same cells.
                        lemma_copy_twice(start[i], before[i], rows@[i], to_right);
                    }
                } else {
                    assert(post[k as int] == p);
                    assert((i as usize) as int == i);
                    if pre.contains(i as usize) {
                        let j = choose|j: int| 0 <= j < pre.len() && pre[j] == i as usize;
                        assert(post[j] == i as usize);
                    }
                    if post.contains(i as usize) {
                        let j = choose|j: int| 0 <= j < post.len() && post[j] == i as usize;
                        assert(j < k);
                        assert(pre[j] == i as usize);
                    }
                }
            }
        }
        k = k + 1;
    }
    assert(positions@.take(positions@.len() as int) =~= positions@);
}

proof fn lemma_copy_twice(a: TableRowData, b: TableRowData, c: TableRowData, to_right: bool)
    requires
        row_copied(a, b, to_right),
        row_copied(b, c, to_right),
    ensures
        row_copied(a, c, to_right),
{
    let src_a = if to_right { a.left_cells@ } else { a.right_cells@ };
    let src_b = if to_right { b.left_cells@ } else { b.right_cells@ };
    assert forall|i: int| 0 <= i < src_a.len() implies cell_from(#[trigger] c.left_cells@[i], src_a[i], 0) by {
        assert(cell_from(src_b[i], src_a[i], 0));
        assert(cell_from(c.left_cells@[i], src_b[i], 0));
    }
    assert forall|i: int| 0 <= i < src_a.len() implies cell_from(#[trigger] c.right_cells@[i], src_a[i], 0) by {
        assert(cell_from(src_b[i], src_a[i], 0));
        assert(cell_from(c.right_cells@[i], src_b[i], 0));
    }
}

/// Some cell is marked as differing.
pub open spec fn any_differs(cells: Seq<TableCellData>) -> bool {
    exists|i: int| 0 <= i < cells.len() && (#[trigger] cells[i]).status != 0
}

/// The cells after taking `src` into the base: the base and the source
/// hold copies of it (status 0), and for each of its cells the other side
/// keeps its text (empty where it had no such cell), with status 1 where
/// it differs and the source cell's geometry.
pub open spec fn sides_resolved(
    src: Seq<TableCellData>,
    other: Seq<TableCellData>,
    n_src: Seq<TableCellData>,
    n_other: Seq<TableCellData>,
    n_base: Seq<TableCellData>,
) -> bool {
    &&& copied_cells(src, n_base)
    &&& copied_cells(src, n_src)
    &&& n_other.len() == src.len()
    &&& forall|i: int| 0 <= i < src.len() ==> {
        let ov = if i < other.len() { other[i].text@ } else { Seq::<char>::empty() };
        &&& (#[trigger] n_other[i]).text@ == ov
        &&& n_other[i].status == (if ov == src[i].text@ { 0i32 } else { 1i32 })
        &&& n_other[i].col_x_px == src[i].col_x_px
        &&& n_other[i].col_width_px == src[i].col_width_px
    }
}

/// Row `n` is row `o` after taking one side into the base (see
/// `sides_resolved`); the row differs when a cell of the other side does.
pub open spec fn row_resolved(o: TableRowData, n: TableRowData, use_left: bool) -> bool {
    &&& n.row_number == o.row_number
    &&& if use_left {
        &&& sides_resolved(o.left_cells@, o.right_cells@, n.left_cells@, n.right_cells@, n.base_cells@)
        &&& n.row_status == (if any_differs(n.right_cells@) { 1i32 } else { 0i32 })
    } else {
        &&& sides_resolved(o.right_cells@, o.left_cells@, n.right_cells@, n.left_cells@, n.base_cells@)
        &&& n.row_status == (if any_differs(n.left_cells@) { 1i32 } else { 0i32 })
    }
}

fn other_cells(src: &Vec<TableCellData>, other: &Vec<TableCellData>) -> (r: (Vec<TableCellData>, bool))
    ensures
        r.0@.len() == src@.len(),
        forall|i: int| 0 <= i < src@.len() ==> {
            let ov = if i < other@.len() { other@[i].text@ } else { Seq::<char>::empty() };
            &&& (#[trigger] r.0@[i]).text@ == ov
            &&& r.0@[i].status == (if ov == src@[i].text@ { 0i32 } else { 1i32 })
            &&& r.0@[i].col_x_px == src@[i].col_x_px
            &&& r.0@[i].col_width_px == src@[i].col_width_px
        },
        r.1 == any_differs(r.0@),
{
    let mut out: Vec<TableCellData> = Vec::new();
    let mut any = false;
    let mut i: usize = 0;
    while i < src.len()
        invariant
            i <= src@.len(),
            out@.len() == i,
            forall|j: int| 0 <= j < i ==> {
                let ov = if j < other@.len() { other@[j].text@ } else { Seq::<char>::empty() };
                &&& (#[trigger] out@[j]).text@ == ov
                &&& out@[j].status == (if ov == src@[j].text@ { 0i32 } else { 1i32 })
                &&& out@[j].col_x_px == src@[j].col_x_px
                &&& out@[j].col_width_px == src@[j].col_width_px
            },
            any == exists|j: int| 0 <= j < i && (#[trigger] out@[j]).status != 0,
        decreases src@.len() - i,
    {
        let ov = if i < other.len() {
            str_to_string(other[i].text.as_str())
        } else {
            let s = String::new();
            assert(s@ =~= Seq::<char>::empty());
            s
        };
        let st: i32 = if str_eq(ov.as_str(), src[i].text.as_str()) { 0 } else { 1 };
        let ghost old_out = out@;
        out.push(TableCellData { text: ov, status: st, col_x_px: src[i].col_x_px, col_width_px: src[i].col_width_px });
        let ghost was = any;
        if st != 0 {
            any = true;
        }
        proof {
            assert(out@[i as int].status == st);
            if st != 0 {
                assert(0 <= i < i + 1 && out@[i as int].status != 0);
            } else {
                assert(any == was);
                if was {
                    let j = choose|j: int| 0 <= j < i && (#[trigger] old_out[j]).status != 0;
                    assert(out@[j] == old_out[j]);
                    assert(0 <= j < i + 1 && out@[j].status != 0);
                }
                if exists|j: int| 0 <= j < i + 1 && (#[trigger] out@[j]).status != 0 {
                    let j = choose|j: int| 0 <= j < i + 1 && (#[trigger] out@[j]).status != 0;
                    assert(j < i);
                }
            }
        }
        i = i + 1;
    }
    (out, any)
}

/// Takes one side of the difference row `diff_index` into the base (see
/// `row_resolved`); false (and no change) when there is no such difference.
pub fn table_resolve_to_base(rows: &mut Vec<TableRowData>, positions: &Vec<usize>, diff_index: i32, use_left: bool) -> (done: bool)
    requires
        positions_ok(positions@, old(rows)@.len() as int),
    ensures
        done == (0 <= diff_index < positions@.len()),
        final(rows)@.len() == old(rows)@.len(),
        done ==> {
            let p = positions@[diff_index as int] as int;
            &&& row_resolved(old(rows)@[p], final(rows)@[p], use_left)
            &&& forall|i: int| 0 <= i < old(rows)@.len() && i != p ==> #[trigger] final(rows)@[i] == old(rows)@[i]
        },
        !done ==> final(rows)@ == old(rows)@,
{
    if diff_index < 0 || diff_index as usize >= positions.len() {
        return false;
    }
    let p = positions[diff_index as usize];
    let ghost o = rows@[p as int];
    let row_number = rows[p].row_number;
    let nr = if use_left {
        let base = copy_cells(&rows[p].left_cells);
        let src = copy_cells(&rows[p].left_cells);
        let (other, any) = other_cells(&rows[p].left_cells, &rows[p].right_cells);
        let nr = TableRowData { row_number, left_cells: src, right_cells: other, base_cells: base, row_status: if any { 1 } else { 0 } };
        assert(row_resolved(o, nr, use_left));
        nr
    } else {
        let base = copy_cells(&rows[p].right_cells);
        let src = copy_cells(&rows[p].right_cells);
        let (other, any) = other_cells(&rows[p].right_cells, &rows[p].left_cells);
        let nr = TableRowData { row_number, left_cells: other, right_cells: src, base_cells: base, row_status: if any { 1 } else { 0 } };
        assert(row_resolved(o, nr, use_left));
        nr
    };
    rows.set(p, nr);
    true
}

/// The positions of the rows that differ, in order.
pub open spec fn status_positions(rows: Seq<TableRowData>) -> Seq<usize>
    decreases rows.len(),
{
    if rows.len() == 0 {
        Seq::empty()
    } else if rows.last().row_status != 0 {
        status_positions(rows.drop_last()).push((rows.len() - 1) as usize)
    } else {
        status_positions(rows.drop_last())
    }
}

/// The difference rows of a table and the current difference, kept unless
/// it is past the last one (then the last one, or -1 when there is none).
pub fn table_diff_positions(rows: &Vec<TableRowData>, current_diff: i32) -> (r: (Vec<usize>, i32))
    ensures
        r.0@ == status_positions(rows@),
        r.1 == (if current_diff >= r.0@.len() {
            if r.0@.len() > 0 { (r.0@.len() - 1) as i32 } else { -1i32 }
        } else {
            current_diff
        }),
{
    let mut pos: Vec<usize> = Vec::new();
    let mut i: usize = 0;
    while i < rows.len()
        invariant
            i <= rows@.len(),
            pos@ == status_positions(rows@.take(i as int)),
            pos@.len() <= i,
        decreases rows@.len() - i,
    {
        assert(rows@.take(i + 1).drop_last() =~= rows@.take(i as int));
        if rows[i].row_status != 0 {
            pos.push(i);
        }
        i = i + 1;
    }
    assert(rows@.take(rows@.len() as int) =~= rows@);
    let n = pos.len();
    let cur = if current_diff >= 0 && current_diff as usize >= n {
        if n > 0 { (n - 1) as i32 } else { -1 }
    } else {
        current_diff
    };
    proof {
        if current_diff >= 0 && current_diff as usize >= n {
            assert(n <= i32::MAX + 1);
        }
    }
    (pos, cur)
}

/// The cell texts of `grid` written over one pane, cell by cell where both
/// have the cell; everything else is kept.
pub open spec fn grid_restored(o: TableRowData, n: TableRowData, grid: Seq<Vec<String>>, r: int, pane: i32) -> bool {
    let cells = pane_cells(o, pane);
    let row = if r < grid.len() { grid[r]@ } else { Seq::<String>::empty() };
    &&& pane_cells(n, pane).len() == cells.len()
    &&& forall|c: int| 0 <= c < cells.len() ==> {
        &&& (#[trigger] pane_cells(n, pane)[c]).text@ == (if c < row.len() { row[c]@ } else { cells[c].text@ })
        &&& pane_cells(n, pane)[c].status == cells[c].status
        &&& pane_cells(n, pane)[c].col_x_px == cells[c].col_x_px
        &&& pane_cells(n, pane)[c].col_width_px == cells[c].col_width_px
    }
    &&& n.row_number == o.row_number && n.row_status == o.row_status
    &&& (pane != 0 ==> n.left_cells == o.left_cells)
    &&& (pane != 1 ==> n.base_cells == o.base_cells)
    &&& (pane == 0 || pane == 1 ==> n.right_cells == o.right_cells)
}

fn restore_cells(cells: &mut Vec<TableCellData>, row: &Vec<String>)
    ensures
        final(cells)@.len() == old(cells)@.len(),
        forall|c: int| 0 <= c < old(cells)@.len() ==> {
            &&& (#[trigger] final(cells)@[c]).text@ == (if c < row@.len() { row@[c]@ } else { old(cells)@[c].text@ })
            &&& final(cells)@[c].status == old(cells)@[c].status
            &&& final(cells)@[c].col_x_px == old(cells)@[c].col_x_px
            &&& final(cells)@[c].col_width_px == old(cells)@[c].col_width_px
        },
{
    let ghost start = cells@;
    let mut c: usize = 0;
    while c < row.len() && c < cells.len()
        invariant
            c <= row@.len(),
            cells@.len() == start.len(),
            forall|j: int| 0 <= j < start.len() ==> {
                &&& (#[trigger] cells@[j]).text@ == (if j < c { row@[j]@ } else { start[j].text@ })
                &&& cells@[j].status == start[j].status
                &&& cells@[j].col_x_px == start[j].col_x_px
                &&& cells@[j].col_width_px == start[j].col_width_px
            },
        decreases row@.len() - c,
    {
        cells[c].text = str_to_string(row[c].as_str());
        c = c + 1;
    }
}

/// Writes the texts of a grid back over one pane of the table.
pub fn restore_table_grid(rows: &mut Vec<TableRowData>, grid: &Vec<Vec<String>>, pane: i32)
    ensures
        final(rows)@.len() == old(rows)@.len(),
        forall|r: int| 0 <= r < old(rows)@.len() ==> grid_restored(old(rows)@[r], #[trigger] final(rows)@[r], grid@, r, pane),
{
    let ghost start = rows@;
    let empty: Vec<String> = Vec::new();
    let mut r: usize = 0;
    while r < rows.len()
        invariant
            r <= rows@.len(),
            rows@.len() == start.len(),
            empty@.len() == 0,
            forall|j: int| r <= j < start.len() ==> #[trigger] rows@[j] == start[j],
            forall|j: int| 0 <= j < r ==> grid_restored(start[j], #[trigger] rows@[j], grid@, j, pane),
        decreases start.len() - r,
    {
        let row: &Vec<String> = if r < grid.len() { &grid[r] } else { &empty };
        if pane == 0 {
            restore_cells(&mut rows[r].left_cells, row);
        } else if pane == 1 {
            restore_cells(&mut rows[r].base_cells, row);
        } else {
            restore_cells(&mut rows[r].right_cells, row);
        }
        r = r + 1;
    }
}

/// The cells after column `col` was resized to `w`: that cell takes the
/// new width and the cells after it move by `delta`.
pub open spec fn cells_resized(o: Seq<TableCellData>, n: Seq<TableCellData>, col: int, w: i32, delta: i32) -> bool {
    &&& n.len() == o.len()
    &&& forall|i: int| 0 <= i < o.len() ==> {
        &&& (#[trigger] n[i]).text == o[i].text && n[i].status == o[i].status
        &&& n[i].col_width_px == (if i == col { w } else { o[i].col_width_px })
        &&& n[i].col_x_px == (if i > col { (o[i].col_x_px + delta) as i32 } else { o[i].col_x_px })
    }
}

/// Moving cells by `delta` stays within `i32`.
pub open spec fn shift_fits(cells: Seq<TableCellData>, col: int, delta: i32) -> bool {
    forall|i: int| col < i < cells.len() ==> i32::MIN <= (#[trigger] cells[i]).col_x_px + delta <= i32::MAX
}

/// Resizes column `col_idx` of a row's cells.
pub fn update_cell_col_positions(cells: &mut Vec<TableCellData>, col_idx: usize, new_width: i32, width_delta: i32)
    requires
        shift_fits(old(cells)@, col_idx as int, width_delta),
    ensures
        cells_resized(old(cells)@, final(cells)@, col_idx as int, new_width, width_delta),
{
    let ghost start = cells@;
    if col_idx < cells.len() {
        cells[col_idx].col_width_px = new_width;
    }
    let mut i: usize = if col_idx < cells.len() { col_idx + 1 } else { cells.len() };
    while i < cells.len()
        invariant
            col_idx < i <= cells@.len() || (i == cells@.len() && col_idx >= cells@.len()),
            cells@.len() == start.len(),
            shift_fits(start, col_idx as int, width_delta),
            forall|j: int| 0 <= j < start.len() ==> {
                &&& (#[trigger] cells@[j]).text == start[j].text && cells@[j].status == start[j].status
                &&& cells@[j].col_width_px == (if j == col_idx { new_width } else { start[j].col_width_px })
                &&& cells@[j].col_x_px == (if col_idx < j < i { (start[j].col_x_px + width_delta) as i32 } else { start[j].col_x_px })
            },
        decreases start.len() - i,
    {
        cells[i].col_x_px = cells[i].col_x_px + width_delta;
        i = i + 1;
    }
}

/// Every pane of every row, and the columns, can move by `delta` after `col`.
pub open spec fn resize_fits(columns: Seq<TableColumnInfo>, rows: Seq<TableRowData>, col: int, delta: i32, content: i32) -> bool {
    &&& i32::MIN <= content + delta <= i32::MAX
    &&& forall|i: int| col < i < columns.len() ==> i32::MIN <= (#[trigger] columns[i]).x_px + delta <= i32::MAX
    &&& forall|r: int| 0 <= r < rows.len() ==> {
        &&& shift_fits((#[trigger] rows[r]).left_cells@, col, delta)
        &&& shift_fits(rows[r].right_cells@, col, delta)
        &&& shift_fits(rows[r].base_cells@, col, delta)
    }
}

/// The width a column is resized to: at least the minimum.
pub open spec fn clamped_width(w: i32) -> i32 {
    if w < MIN_COL_WIDTH_PX { MIN_COL_WIDTH_PX } else { w }
}

/// Resizes column `col_idx` to `new_width` (at least the minimum width):
/// the column and every row's cell of it take the width, the later columns
/// and cells and the content width move by the change. Returns the content
/// width; nothing changes for a missing column or an unchanged width.
pub fn resize_table_column(
    columns: &mut Vec<TableColumnInfo>,
    rows: &mut Vec<TableRowData>,
    content_width: i32,
    col_idx: usize,
    new_width: i32,
) -> (w: i32)
    requires
        col_idx < old(columns)@.len() ==> resize_fits(
            old(columns)@,
            old(rows)@,
            col_idx as int,
            (clamped_width(new_width) - old(columns)@[col_idx as int].width_px) as i32,
            content_width,
        ),
        col_idx < old(columns)@.len() ==> i32::MIN <= clamped_width(new_width) - old(columns)@[col_idx as int].width_px <= i32::MAX,
    ensures
        ({
            let unchanged = col_idx >= old(columns)@.len() || clamped_width(new_width) == old(columns)@[col_idx as int].width_px;
            let delta = if unchanged { 0i32 } else { (clamped_width(new_width) - old(columns)@[col_idx as int].width_px) as i32 };
            &&& unchanged ==> final(columns)@ == old(columns)@ && final(rows)@ == old(rows)@ && w == content_width
            &&& !unchanged ==> {
                &&& w == content_width + delta
                &&& final(columns)@.len() == old(columns)@.len()
                &&& forall|i: int| 0 <= i < old(columns)@.len() ==> {
                    &&& (#[trigger] final(columns)@[i]).name == old(columns)@[i].name
                    &&& final(columns)@[i].width_px == (if i == col_idx { clamped_width(new_width) } else { old(columns)@[i].width_px })
                    &&& final(columns)@[i].x_px == (if i > col_idx { (old(columns)@[i].x_px + delta) as i32 } else { old(columns)@[i].x_px })
                }
                &&& final(rows)@.len() == old(rows)@.len()
                &&& forall|r: int| 0 <= r < old(rows)@.len() ==> {
                    &&& (#[trigger] final(rows)@[r]).row_number == old(rows)@[r].row_number
                    &&& final(rows)@[r].row_status == old(rows)@[r].row_status
                    &&& cells_resized(old(rows)@[r].left_cells@, final(rows)@[r].left_cells@, col_idx as int, clamped_width(new_width), delta)
                    &&& cells_resized(old(rows)@[r].right_cells@, final(rows)@[r].right_cells@, col_idx as int, clamped_width(new_width), delta)
                    &&& cells_resized(old(rows)@[r].base_cells@, final(rows)@[r].base_cells@, col_idx as int, clamped_width(new_width), delta)
                }
            }
        }),
{
    if col_idx >= columns.len() {
        return content_width;
    }
    let nw = if new_width < MIN_COL_WIDTH_PX { MIN_COL_WIDTH_PX } else { new_width };
    let delta = nw - columns[col_idx].width_px;
    if delta == 0 {
        return content_width;
    }
    let ghost cols0 = columns@;
    let ghost rows0 = rows@;
    columns[col_idx].width_px = nw;
    let mut i: usize = col_idx + 1;
    while i < columns.len()
        invariant
            col_idx < i <= columns@.len(),
            columns@.len() == cols0.len(),
            resize_fits(cols0, rows0, col_idx as int, delta, content_width),
            forall|j: int| 0 <= j < cols0.len() ==> {
                &&& (#[trigger] columns@[j]).name == cols0[j].name
                &&& columns@[j].width_px == (if j == col_idx { nw } else { cols0[j].width_px })
                &&& columns@[j].x_px == (if col_idx < j < i { (cols0[j].x_px + delta) as i32 } else { cols0[j].x_px })
            },
        decreases cols0.len() - i,
    {
        columns[i].x_px = columns[i].x_px + delta;
        i = i + 1;
    }
    let mut r: usize = 0;
    while r < rows.len()
        invariant
            r <= rows@.len(),
            rows@.len() == rows0.len(),
            resize_fits(cols0, rows0, col_idx as int, delta, content_width),
            forall|j: int| r <= j < rows0.len() ==> #[trigger] rows@[j] == rows0[j],
            forall|j: int| 0 <= j < r ==> {
                &&& (#[trigger] rows@[j]).row_number == rows0[j].row_number
                &&& rows@[j].row_status == rows0[j].row_status
                &&& cells_resized(rows0[j].left_cells@, rows@[j].left_cells@, col_idx as int, nw, delta)
                &&& cells_resized(rows0[j].right_cells@, rows@[j].right_cells@, col_idx as int, nw, delta)
                &&& cells_resized(rows0[j].base_cells@, rows@[j].base_cells@, col_idx as int, nw, delta)
            },
        decreases rows0.len() - r,
    {
        assert(rows@[r as int] == rows0[r as int]);
        update_cell_col_positions(&mut rows[r].left_cells, col_idx, nw, delta);
        update_cell_col_positions(&mut rows[r].right_cells, col_idx, nw, delta);
        update_cell_col_positions(&mut rows[r].base_cells, col_idx, nw, delta);
        r = r + 1;
    }
    content_width + delta
}

} // verus!

verus! {

/// The rows of a new blank table.
pub const BLANK_TABLE_ROWS: usize = 10;

/// The columns of a new blank table.
pub const BLANK_TABLE_COLS: usize = 5;

/// The first byte of a character in UTF-8.
pub open spec fn utf8_first_byte(c: char) -> int {
    let n = c as u32 as int;
    if n < 0x80 {
        n
    } else if n < 0x800 {
        0xC0 + n / 64
    } else if n < 0x10000 {
        0xE0 + n / 4096
    } else {
        0xF0 + n / 262144
    }
}

/// The delimiter byte chosen for a new blank table: a tab for "TAB", else
/// the first byte of the text, or a comma when it is empty.
pub fn blank_table_delimiter(delimiter: &str) -> (d: u8)
    ensures
        d == if delimiter@ == "TAB"@ {
            9int
        } else if delimiter@.len() == 0 {
            44int
        } else {
            utf8_first_byte(delimiter@[0])
        },
{
    if crate::text::str_eq(delimiter, "TAB") {
        return 9;
    }
    let cs = crate::text::str_chars(delimiter);
    if cs.len() == 0 {
        return 44;
    }
    let n = cs[0] as u32;
    proof {
        crate::text::lemma_char_u64(cs@[0]);
    }
    if n < 0x80 {
        n as u8
    } else if n < 0x800 {
        (0xC0 + n / 64) as u8
    } else if n < 0x10000 {
        (0xE0 + n / 4096) as u8
    } else {
        (0xF0 + n / 262144) as u8
    }
}

/// A grid of empty cells.
pub open spec fn empty_grid(rows: nat, cols: nat) -> Seq<Seq<Seq<char>>> {
    Seq::new(rows, |r: int| Seq::new(cols, |c: int| Seq::<char>::empty()))
}

fn empty_string_grid(rows: usize, cols: usize) -> (g: Vec<Vec<String>>)
    ensures
        grid_view(g@) == empty_grid(rows as nat, cols as nat),
{
    let mut g: Vec<Vec<String>> = Vec::new();
    let mut r: usize = 0;
    while r < rows
        invariant
            r <= rows,
            g@.len() == r,
            forall|i: int| 0 <= i < r ==> (#[trigger] g@[i])@.len() == cols,
            forall|i: int, j: int| 0 <= i < r && 0 <= j < cols ==> (#[trigger] g@[i]@[j])@.len() == 0,
        decreases rows - r,
    {
        let mut row: Vec<String> = Vec::new();
        let mut c: usize = 0;
        while c < cols
            invariant
                c <= cols,
                row@.len() == c,
                forall|j: int| 0 <= j < c ==> (#[trigger] row@[j])@.len() == 0,
            decreases cols - c,
        {
            let e = String::new();
            row.push(e);
            c = c + 1;
        }
        g.push(row);
        r = r + 1;
    }
    assert forall|i: int| 0 <= i < rows implies #[trigger] grid_view(g@)[i] =~= empty_grid(rows as nat, cols as nat)[i] by {
        assert(grid_view(g@)[i] == views(g@[i]@));
        assert forall|j: int| 0 <= j < cols implies #[trigger] views(g@[i]@)[j] =~= Seq::<char>::empty() by {
            assert(g@[i]@[j]@.len() == 0);
        }
    }
    assert(grid_view(g@) =~= empty_grid(rows as nat, cols as nat));
    g
}

fn zero_grid(rows: usize, cols: usize) -> (g: Vec<Vec<i32>>)
    ensures
        status_rows(g@) == Seq::new(rows as nat, |r: int| Seq::new(cols as nat, |c: int| 0i32)),
{
    let mut g: Vec<Vec<i32>> = Vec::new();
    let mut r: usize = 0;
    while r < rows
        invariant
            r <= rows,
            g@.len() == r,
            forall|i: int| 0 <= i < r ==> (#[trigger] g@[i])@ == Seq::new(cols as nat, |c: int| 0i32),
        decreases rows - r,
    {
        let mut row: Vec<i32> = Vec::new();
        let mut c: usize = 0;
        while c < cols
            invariant
                c <= cols,
                row@ == Seq::new(c as nat, |k: int| 0i32),
            decreases cols - c,
        {
            row.push(0);
            assert(row@ =~= Seq::new((c + 1) as nat, |k: int| 0i32));
            c = c + 1;
        }
        assert(row@ =~= Seq::new(cols as nat, |k: int| 0i32));
        g.push(row);
        r = r + 1;
    }
    assert(status_rows(g@) =~= Seq::new(rows as nat, |r: int| Seq::new(cols as nat, |c: int| 0i32)));
    g
}

/// A new blank table: ten rows of five empty, equal cells in both panes,
/// columns of the default width, and the content width.
pub fn blank_table() -> (r: (Vec<TableRowData>, Vec<TableColumnInfo>, i32))
    ensures
        columns_ok(r.1@, BLANK_TABLE_COLS as nat, DEFAULT_COL_WIDTH_PX),
        r.2 == BLANK_TABLE_COLS * DEFAULT_COL_WIDTH_PX,
        rows2_ok(
            r.0@,
            empty_grid(BLANK_TABLE_ROWS as nat, BLANK_TABLE_COLS as nat),
            empty_grid(BLANK_TABLE_ROWS as nat, BLANK_TABLE_COLS as nat),
            Seq::new(BLANK_TABLE_ROWS as nat, |r: int| Seq::new(BLANK_TABLE_COLS as nat, |c: int| 0i32)),
            BLANK_TABLE_ROWS as nat,
            BLANK_TABLE_COLS as nat,
            r.1@,
        ),
{
    let (columns, width) = build_columns(BLANK_TABLE_COLS, DEFAULT_COL_WIDTH_PX);
    let grid = empty_string_grid(BLANK_TABLE_ROWS, BLANK_TABLE_COLS);
    let status = zero_grid(BLANK_TABLE_ROWS, BLANK_TABLE_COLS);
    let rows = build_table_rows(&grid, &grid, &status, BLANK_TABLE_ROWS, BLANK_TABLE_COLS, &columns);
    (rows, columns, width)
}

} // verus!
