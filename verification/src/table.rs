//! The side-by-side table view of a CSV or workbook comparison.
use vstd::prelude::*;
use crate::text::{push_char, push_str, str_chars, str_to_string, views};
use crate::csv::{cell, col_name, col_to_name, grid_view};
use crate::export::{escaped, Escape, push_escaped};
use crate::pane_buffer::join_with;

verus! {

/// Column width used when a column has no width of its own.
pub const DEFAULT_COL_WIDTH_PX: i32 = 100;

/// Smallest width a column can be resized to.
pub const MIN_COL_WIDTH_PX: i32 = 30;

/// One cell of a table row.
#[derive(Debug, Clone)]
pub struct TableCellData {
    pub text: String,
    pub status: i32,
    pub col_x_px: i32,
    pub col_width_px: i32,
}

/// One row of the table view: its cells in each pane and its status.
#[derive(Debug, Clone)]
pub struct TableRowData {
    pub row_number: i32,
    pub left_cells: Vec<TableCellData>,
    pub right_cells: Vec<TableCellData>,
    pub base_cells: Vec<TableCellData>,
    pub row_status: i32,
}

/// A column of the table view: its name, width and horizontal position.
#[derive(Debug, Clone)]
pub struct TableColumnInfo {
    pub name: String,
    pub width_px: i32,
    pub x_px: i32,
}

/// Table data of one workbook sheet, kept for fast sheet switching.
pub struct SheetTableCache {
    pub rows: Vec<TableRowData>,
    pub columns: Vec<TableColumnInfo>,
    pub content_width_px: i32,
}

/// Columns `0..n`: named A, B, ..., each `w` wide, placed side by side from 0.
pub open spec fn columns_ok(cols: Seq<TableColumnInfo>, n: nat, w: i32) -> bool {
    &&& cols.len() == n
    &&& forall|c: int| 0 <= c < n ==> (#[trigger] cols[c]).name@ == col_name(c as nat) && cols[c].width_px == w
        && cols[c].x_px == c * w
}

/// Builds the column list for `max_cols` columns of width `col_width`, with
/// the total content width.
pub fn build_columns(max_cols: usize, col_width: i32) -> (r: (Vec<TableColumnInfo>, i32))
    requires
        i32::MIN <= max_cols * col_width <= i32::MAX,
    ensures
        columns_ok(r.0@, max_cols as nat, col_width),
        r.1 == max_cols * col_width,
{
    let mut columns: Vec<TableColumnInfo> = Vec::new();
    let mut x: i32 = 0;
    let mut c: usize = 0;
    while c < max_cols
        invariant
            c <= max_cols,
            i32::MIN <= max_cols * col_width <= i32::MAX,
            x == c * col_width,
            columns_ok(columns@, c as nat, col_width),
        decreases max_cols - c,
    {
        proof {
            assert(i32::MIN <= (c + 1) * col_width <= i32::MAX) by (nonlinear_arith)
                requires
                    c + 1 <= max_cols,
                    i32::MIN <= max_cols * col_width <= i32::MAX,
            ;
            assert((c + 1) * col_width == c * col_width + col_width) by (nonlinear_arith);
        }
        columns.push(TableColumnInfo { name: col_to_name(c), width_px: col_width, x_px: x });
        x = x + col_width;
        c = c + 1;
    }
    (columns, x)
}

/// Position and width of column `c`, or (0, the default width) past the list.
pub open spec fn col_geometry(cols: Seq<TableColumnInfo>, c: int) -> (i32, i32) {
    if 0 <= c < cols.len() { (cols[c].x_px, cols[c].width_px) } else { (0, DEFAULT_COL_WIDTH_PX) }
}

fn geometry(columns: &Vec<TableColumnInfo>, c: usize) -> (r: (i32, i32))
    ensures
        r == col_geometry(columns@, c as int),
{
    if c < columns.len() { (columns[c].x_px, columns[c].width_px) } else { (0, DEFAULT_COL_WIDTH_PX) }
}

/// A cell with the given text, status and column geometry.
pub open spec fn cell_is(cd: TableCellData, text: Seq<char>, status: i32, g: (i32, i32)) -> bool {
    cd.text@ == text && cd.status == status && cd.col_x_px == g.0 && cd.col_width_px == g.1
}

/// The status at `(r, c)` of a status table, 0 when absent.
pub open spec fn status_at(st: Seq<Seq<i32>>, r: int, c: int) -> i32 {
    if 0 <= r < st.len() && 0 <= c < st[r].len() { st[r][c] } else { 0 }
}

pub open spec fn status_rows(st: Seq<Vec<i32>>) -> Seq<Seq<i32>> {
    st.map_values(|r: Vec<i32>| r@)
}

/// The status of a two-way table row: 0 when no cell differs, 2 when every
/// cell is left-only, 3 when every cell is right-only, else 1.
pub open spec fn row_status2(st: Seq<Seq<i32>>, r: int, n: int) -> i32 {
    if forall|c: int| 0 <= c < n ==> status_at(st, r, c) == 0 {
        0
    } else if forall|c: int| 0 <= c < n ==> status_at(st, r, c) == 2 {
        2
    } else if forall|c: int| 0 <= c < n ==> status_at(st, r, c) == 3 {
        3
    } else {
        1
    }
}

/// The rows of a two-way table: for each row its 1-based number, one cell
/// per column in each pane with that pane's text and the cell status
/// (with the column's geometry), no base cells, and the row status.
pub open spec fn rows2_ok(
    rows: Seq<TableRowData>,
    lg: Seq<Seq<Seq<char>>>,
    rg: Seq<Seq<Seq<char>>>,
    st: Seq<Seq<i32>>,
    n_rows: nat,
    n_cols: nat,
    cols: Seq<TableColumnInfo>,
) -> bool {
    &&& rows.len() == n_rows
    &&& forall|r: int| 0 <= r < n_rows ==> {
        let row = #[trigger] rows[r];
        &&& row.row_number == r + 1
        &&& row.left_cells@.len() == n_cols
        &&& row.right_cells@.len() == n_cols
        &&& row.base_cells@.len() == 0
        &&& row.row_status == row_status2(st, r, n_cols as int)
        &&& forall|c: int| 0 <= c < n_cols ==> cell_is(#[trigger] row.left_cells@[c], cell(lg, r, c), status_at(st, r, c), col_geometry(cols, c))
        &&& forall|c: int| 0 <= c < n_cols ==> cell_is(#[trigger] row.right_cells@[c], cell(rg, r, c), status_at(st, r, c), col_geometry(cols, c))
    }
}

fn grid_text(g: &Vec<Vec<String>>, r: usize, c: usize) -> (s: String)
    ensures
        s@ == cell(grid_view(g@), r as int, c as int),
{
    if r < g.len() && c < g[r].len() {
        assert(grid_view(g@)[r as int][c as int] == g@[r as int]@[c as int]@);
        str_to_string(g[r][c].as_str())
    } else {
        let s = String::new();
        assert(s@ =~= Seq::<char>::empty());
        s
    }
}

fn status_get(st: &Vec<Vec<i32>>, r: usize, c: usize) -> (s: i32)
    ensures
        s == status_at(status_rows(st@), r as int, c as int),
{
    if r < st.len() && c < st[r].len() { st[r][c] } else { 0 }
}

/// Builds the rows of the two-way table view from the two grids and the
/// status of each cell.
pub fn build_table_rows(
    left_grid: &Vec<Vec<String>>,
    right_grid: &Vec<Vec<String>>,
    cell_status: &Vec<Vec<i32>>,
    max_rows: usize,
    max_cols: usize,
    columns: &Vec<TableColumnInfo>,
) -> (rows: Vec<TableRowData>)
    requires
        max_rows < i32::MAX,
    ensures
        rows2_ok(rows@, grid_view(left_grid@), grid_view(right_grid@), status_rows(cell_status@), max_rows as nat, max_cols as nat, columns@),
{
    let ghost lg = grid_view(left_grid@);
    let ghost rg = grid_view(right_grid@);
    let ghost st = status_rows(cell_status@);
    let mut rows: Vec<TableRowData> = Vec::new();
    let mut r: usize = 0;
    while r < max_rows
        invariant
            r <= max_rows,
            max_rows < i32::MAX,
            lg == grid_view(left_grid@),
            rg == grid_view(right_grid@),
            st == status_rows(cell_status@),
            rows2_ok(rows@, lg, rg, st, r as nat, max_cols as nat, columns@),
        decreases max_rows - r,
    {
        let mut left_cells: Vec<TableCellData> = Vec::new();
        let mut right_cells: Vec<TableCellData> = Vec::new();
        let mut all_zero = true;
        let mut all_two = true;
        let mut all_three = true;
        let mut c: usize = 0;
        while c < max_cols
            invariant
                c <= max_cols,
                lg == grid_view(left_grid@),
                rg == grid_view(right_grid@),
                st == status_rows(cell_status@),
                left_cells@.len() == c,
                right_cells@.len() == c,
                all_zero == forall|k: int| 0 <= k < c ==> status_at(st, r as int, k) == 0,
                all_two == forall|k: int| 0 <= k < c ==> status_at(st, r as int, k) == 2,
                all_three == forall|k: int| 0 <= k < c ==> status_at(st, r as int, k) == 3,
                forall|k: int| 0 <= k < c ==> cell_is(#[trigger] left_cells@[k], cell(lg, r as int, k), status_at(st, r as int, k), col_geometry(columns@, k)),
                forall|k: int| 0 <= k < c ==> cell_is(#[trigger] right_cells@[k], cell(rg, r as int, k), status_at(st, r as int, k), col_geometry(columns@, k)),
            decreases max_cols - c,
        {
            let status = status_get(cell_status, r, c);
            if status != 0 {
                all_zero = false;
            }
            if status != 2 {
                all_two = false;
            }
            if status != 3 {
                all_three = false;
            }
            let (x, w) = geometry(columns, c);
            left_cells.push(TableCellData { text: grid_text(left_grid, r, c), status, col_x_px: x, col_width_px: w });
            right_cells.push(TableCellData { text: grid_text(right_grid, r, c), status, col_x_px: x, col_width_px: w });
            c = c + 1;
        }
        let row_status = if all_zero {
            0
        } else if all_two {
            2
        } else if all_three {
            3
        } else {
            1
        };
        let ghost before = rows@;
        rows.push(TableRowData {
            row_number: (r + 1) as i32,
            left_cells,
            right_cells,
            base_cells: Vec::new(),
            row_status,
        });
        assert forall|k: int| 0 <= k < r + 1 implies {
            let row = #[trigger] rows@[k];
            &&& row.row_number == k + 1
            &&& row.left_cells@.len() == max_cols
            &&& row.right_cells@.len() == max_cols
            &&& row.base_cells@.len() == 0
            &&& row.row_status == row_status2(st, k, max_cols as int)
            &&& forall|c: int| 0 <= c < max_cols ==> cell_is(#[trigger] row.left_cells@[c], cell(lg, k, c), status_at(st, k, c), col_geometry(columns@, c))
            &&& forall|c: int| 0 <= c < max_cols ==> cell_is(#[trigger] row.right_cells@[c], cell(rg, k, c), status_at(st, k, c), col_geometry(columns@, c))
        } by {
            if k < r {
                assert(rows@[k] == before[k]);
            }
        }
        r = r + 1;
    }
    rows
}

/// The per-pane display statuses (base, left, right) of a three-way cell status.
pub open spec fn pane_statuses(s: i32) -> (i32, i32, i32) {
    if s == 1 {
        (0, 1, 0)
    } else if s == 2 {
        (0, 0, 1)
    } else if s == 3 {
        (0, 1, 1)
    } else if s == 4 {
        (0, 5, 5)
    } else if s == 5 {
        (2, 4, 4)
    } else if s == 6 {
        (4, 3, 4)
    } else if s == 7 {
        (4, 4, 3)
    } else {
        (0, 0, 0)
    }
}

/// The status of a three-way table row: 0 when no cell differs, 4 when a
/// cell conflicts, 5, 6 or 7 when every cell is base-, left- or right-only,
/// else 1.
pub open spec fn row_status3(st: Seq<Seq<i32>>, r: int, n: int) -> i32 {
    if forall|c: int| 0 <= c < n ==> status_at(st, r, c) == 0 {
        0
    } else if exists|c: int| 0 <= c < n && status_at(st, r, c) == 4 {
        4
    } else if forall|c: int| 0 <= c < n ==> status_at(st, r, c) == 5 {
        5
    } else if forall|c: int| 0 <= c < n ==> status_at(st, r, c) == 6 {
        6
    } else if forall|c: int| 0 <= c < n ==> status_at(st, r, c) == 7 {
        7
    } else {
        1
    }
}

/// The rows of a three-way table (see `rows2_ok`), with base cells and the
/// per-pane statuses of `pane_statuses`.
pub open spec fn rows3_ok(
    rows: Seq<TableRowData>,
    bg: Seq<Seq<Seq<char>>>,
    lg: Seq<Seq<Seq<char>>>,
    rg: Seq<Seq<Seq<char>>>,
    st: Seq<Seq<i32>>,
    n_rows: nat,
    n_cols: nat,
    cols: Seq<TableColumnInfo>,
) -> bool {
    &&& rows.len() == n_rows
    &&& forall|r: int| 0 <= r < n_rows ==> {
        let row = #[trigger] rows[r];
        &&& row.row_number == r + 1
        &&& row.left_cells@.len() == n_cols
        &&& row.right_cells@.len() == n_cols
        &&& row.base_cells@.len() == n_cols
        &&& row.row_status == row_status3(st, r, n_cols as int)
        &&& forall|c: int| 0 <= c < n_cols ==> cell_is(#[trigger] row.base_cells@[c], cell(bg, r, c), pane_statuses(status_at(st, r, c)).0, col_geometry(cols, c))
        &&& forall|c: int| 0 <= c < n_cols ==> cell_is(#[trigger] row.left_cells@[c], cell(lg, r, c), pane_statuses(status_at(st, r, c)).1, col_geometry(cols, c))
        &&& forall|c: int| 0 <= c < n_cols ==> cell_is(#[trigger] row.right_cells@[c], cell(rg, r, c), pane_statuses(status_at(st, r, c)).2, col_geometry(cols, c))
    }
}

fn pane_statuses_of(s: i32) -> (r: (i32, i32, i32))
    ensures
        r == pane_statuses(s),
{
    match s {
        1 => (0, 1, 0),
        2 => (0, 0, 1),
        3 => (0, 1, 1),
        4 => (0, 5, 5),
        5 => (2, 4, 4),
        6 => (4, 3, 4),
        7 => (4, 4, 3),
        _ => (0, 0, 0),
    }
}

/// One row of the three-way table.
fn build_row_3way(
    base_grid: &Vec<Vec<String>>,
    left_grid: &Vec<Vec<String>>,
    right_grid: &Vec<Vec<String>>,
    cell_status: &Vec<Vec<i32>>,
    r: usize,
    max_cols: usize,
    columns: &Vec<TableColumnInfo>,
) -> (row: TableRowData)
    requires
        r < i32::MAX,
    ensures
        ({
            let st = status_rows(cell_status@);
            &&& row.row_number == r + 1
            &&& row.left_cells@.len() == max_cols
            &&& row.right_cells@.len() == max_cols
            &&& row.base_cells@.len() == max_cols
            &&& row.row_status == row_status3(st, r as int, max_cols as int)
            &&& forall|c: int| 0 <= c < max_cols ==> cell_is(#[trigger] row.base_cells@[c], cell(grid_view(base_grid@), r as int, c), pane_statuses(status_at(st, r as int, c)).0, col_geometry(columns@, c))
            &&& forall|c: int| 0 <= c < max_cols ==> cell_is(#[trigger] row.left_cells@[c], cell(grid_view(left_grid@), r as int, c), pane_statuses(status_at(st, r as int, c)).1, col_geometry(columns@, c))
            &&& forall|c: int| 0 <= c < max_cols ==> cell_is(#[trigger] row.right_cells@[c], cell(grid_view(right_grid@), r as int, c), pane_statuses(status_at(st, r as int, c)).2, col_geometry(columns@, c))
        }),
{
    let ghost st = status_rows(cell_status@);
    let mut base_cells: Vec<TableCellData> = Vec::new();
    let mut left_cells: Vec<TableCellData> = Vec::new();
    let mut right_cells: Vec<TableCellData> = Vec::new();
    let mut all_zero = true;
    let mut any_four = false;
    let mut all_five = true;
    let mut all_six = true;
    let mut all_seven = true;
    let mut c: usize = 0;
    while c < max_cols
        invariant
            c <= max_cols,
            st == status_rows(cell_status@),
            base_cells@.len() == c,
            left_cells@.len() == c,
            right_cells@.len() == c,
            all_zero == forall|k: int| 0 <= k < c ==> status_at(st, r as int, k) == 0,
            any_four == exists|k: int| 0 <= k < c && status_at(st, r as int, k) == 4,
            all_five == forall|k: int| 0 <= k < c ==> status_at(st, r as int, k) == 5,
            all_six == forall|k: int| 0 <= k < c ==> status_at(st, r as int, k) == 6,
            all_seven == forall|k: int| 0 <= k < c ==> status_at(st, r as int, k) == 7,
            forall|k: int| 0 <= k < c ==> cell_is(#[trigger] base_cells@[k], cell(grid_view(base_grid@), r as int, k), pane_statuses(status_at(st, r as int, k)).0, col_geometry(columns@, k)),
            forall|k: int| 0 <= k < c ==> cell_is(#[trigger] left_cells@[k], cell(grid_view(left_grid@), r as int, k), pane_statuses(status_at(st, r as int, k)).1, col_geometry(columns@, k)),
            forall|k: int| 0 <= k < c ==> cell_is(#[trigger] right_cells@[k], cell(grid_view(right_grid@), r as int, k), pane_statuses(status_at(st, r as int, k)).2, col_geometry(columns@, k)),
        decreases max_cols - c,
    {
        let s = status_get(cell_status, r, c);
        if s != 0 {
            all_zero = false;
        }
        if s == 4 {
            any_four = true;
        }
        if s != 5 {
            all_five = false;
        }
        if s != 6 {
            all_six = false;
        }
        if s != 7 {
            all_seven = false;
        }
        let (bs, ls, rs) = pane_statuses_of(s);
        let (x, w) = geometry(columns, c);
        base_cells.push(TableCellData { text: grid_text(base_grid, r, c), status: bs, col_x_px: x, col_width_px: w });
        left_cells.push(TableCellData { text: grid_text(left_grid, r, c), status: ls, col_x_px: x, col_width_px: w });
        right_cells.push(TableCellData { text: grid_text(right_grid, r, c), status: rs, col_x_px: x, col_width_px: w });
        c = c + 1;
    }
    let row_status = if all_zero {
        0
    } else if any_four {
        4
    } else if all_five {
        5
    } else if all_six {
        6
    } else if all_seven {
        7
    } else {
        1
    };
    TableRowData { row_number: (r + 1) as i32, left_cells, right_cells, base_cells, row_status }
}

/// Builds the rows of the three-way table view from the three grids and the
/// three-way status of each cell.
pub fn build_table_rows_3way(
    base_grid: &Vec<Vec<String>>,
    left_grid: &Vec<Vec<String>>,
    right_grid: &Vec<Vec<String>>,
    cell_status: &Vec<Vec<i32>>,
    max_rows: usize,
    max_cols: usize,
    columns: &Vec<TableColumnInfo>,
) -> (rows: Vec<TableRowData>)
    requires
        max_rows < i32::MAX,
    ensures
        rows3_ok(
            rows@,
            grid_view(base_grid@),
            grid_view(left_grid@),
            grid_view(right_grid@),
            status_rows(cell_status@),
            max_rows as nat,
            max_cols as nat,
            columns@,
        ),
{
    let mut rows: Vec<TableRowData> = Vec::new();
    let mut r: usize = 0;
    while r < max_rows
        invariant
            r <= max_rows,
            max_rows < i32::MAX,
            rows3_ok(
                rows@,
                grid_view(base_grid@),
                grid_view(left_grid@),
                grid_view(right_grid@),
                status_rows(cell_status@),
                r as nat,
                max_cols as nat,
                columns@,
            ),
        decreases max_rows - r,
    {
        let row = build_row_3way(base_grid, left_grid, right_grid, cell_status, r, max_cols, columns);
        let ghost before = rows@;
        rows.push(row);
        assert forall|k: int| 0 <= k < r + 1 implies #[trigger] rows@[k] == (if k < r { before[k] } else { row }) by {}
        r = r + 1;
    }
    rows
}

/// The cells of one pane (0 = left, 1 = base, other = right) of a row.
pub open spec fn pane_cells(row: TableRowData, pane: i32) -> Seq<TableCellData> {
    if pane == 0 {
        row.left_cells@
    } else if pane == 1 {
        row.base_cells@
    } else {
        row.right_cells@
    }
}

/// The texts of one pane's cells, row by row.
pub open spec fn pane_grid(rows: Seq<TableRowData>, pane: i32) -> Seq<Seq<Seq<char>>> {
    rows.map_values(|row: TableRowData| pane_cells(row, pane).map_values(|c: TableCellData| c.text@))
}

fn cells_of(row: &TableRowData, pane: i32) -> (cells: &Vec<TableCellData>)
    ensures
        cells@ == pane_cells(*row, pane),
{
    if pane == 0 {
        &row.left_cells
    } else if pane == 1 {
        &row.base_cells
    } else {
        &row.right_cells
    }
}

/// The cell texts of one pane as a grid.
pub fn extract_table_grid(rows: &Vec<TableRowData>, pane: i32) -> (grid: Vec<Vec<String>>)
    ensures
        grid_view(grid@) == pane_grid(rows@, pane),
{
    let mut grid: Vec<Vec<String>> = Vec::new();
    let mut r: usize = 0;
    while r < rows.len()
        invariant
            r <= rows@.len(),
            grid_view(grid@) == pane_grid(rows@, pane).take(r as int),
        decreases rows@.len() - r,
    {
        let cells = cells_of(&rows[r], pane);
        let mut texts: Vec<String> = Vec::new();
        let mut c: usize = 0;
        while c < cells.len()
            invariant
                c <= cells@.len(),
                views(texts@) == cells@.map_values(|x: TableCellData| x.text@).take(c as int),
            decreases cells@.len() - c,
        {
            let ghost before = texts@;
            texts.push(str_to_string(cells[c].text.as_str()));
            assert(views(texts@) =~= views(before).push(cells@[c as int].text@));
            assert(cells@.map_values(|x: TableCellData| x.text@).take(c + 1) =~= cells@.map_values(|x: TableCellData| x.text@).take(c as int).push(cells@[c as int].text@));
            c = c + 1;
        }
        assert(cells@.map_values(|x: TableCellData| x.text@).take(cells@.len() as int) =~= cells@.map_values(|x: TableCellData| x.text@));
        let ghost before = grid@;
        grid.push(texts);
        assert(grid_view(grid@) =~= grid_view(before).push(pane_grid(rows@, pane)[r as int]));
        assert(pane_grid(rows@, pane).take(r + 1) =~= pane_grid(rows@, pane).take(r as int).push(pane_grid(rows@, pane)[r as int]));
        r = r + 1;
    }
    assert(pane_grid(rows@, pane).take(rows@.len() as int) =~= pane_grid(rows@, pane));
    grid
}

/// A field as written to CSV: quoted, with quotes doubled, when it holds the
/// delimiter, a quote, a line feed or a carriage return.
pub open spec fn csv_field(text: Seq<char>, d: char) -> Seq<char> {
    if text.contains(d) || text.contains('"') || text.contains('\n') || text.contains('\r') {
        seq!['"'] + escaped(text, Escape::Csv) + seq!['"']
    } else {
        text
    }
}

/// Each row's fields joined by the delimiter and ended by a line feed.
pub open spec fn table_csv(grid: Seq<Seq<Seq<char>>>, d: char) -> Seq<char>
    decreases grid.len(),
{
    if grid.len() == 0 {
        Seq::empty()
    } else {
        table_csv(grid.drop_last(), d) + join_with(grid.last().map_values(|t: Seq<char>| csv_field(t, d)), d) + seq!['\n']
    }
}

fn has_char(v: &Vec<char>, c: char) -> (b: bool)
    ensures
        b == v@.contains(c),
{
    let mut i: usize = 0;
    while i < v.len()
        invariant
            i <= v@.len(),
            forall|k: int| 0 <= k < i ==> v@[k] != c,
        decreases v@.len() - i,
    {
        if v[i] == c {
            assert(v@[i as int] == c);
            return true;
        }
        i = i + 1;
    }
    false
}

fn push_field(out: &mut String, text: &str, d: char)
    ensures
        final(out)@ == old(out)@ + csv_field(text@, d),
{
    let v = str_chars(text);
    if has_char(&v, d) || has_char(&v, '"') || has_char(&v, '\n') || has_char(&v, '\r') {
        let ghost start = out@;
        push_char(out, '"');
        push_escaped(out, text, Escape::Csv);
        push_char(out, '"');
        assert(out@ =~= start + csv_field(text@, d));
    } else {
        push_str(out, text);
    }
}

/// Writes one pane of the table as CSV text with the given delimiter.
pub fn rebuild_table_csv(rows: &Vec<TableRowData>, pane: i32, delimiter: u8) -> (csv: String)
    ensures
        csv@ == table_csv(pane_grid(rows@, pane), delimiter as char),
{
    let d = delimiter as char;
    let ghost g = pane_grid(rows@, pane);
    let mut out = String::new();
    let mut r: usize = 0;
    while r < rows.len()
        invariant
            r <= rows@.len(),
            g == pane_grid(rows@, pane),
            d == delimiter as char,
            out@ == table_csv(g.take(r as int), d),
        decreases rows@.len() - r,
    {
        let cells = cells_of(&rows[r], pane);
        let ghost fields = g[r as int].map_values(|t: Seq<char>| csv_field(t, d));
        let ghost start = out@;
        let mut c: usize = 0;
        while c < cells.len()
            invariant
                c <= cells@.len(),
                r < rows@.len(),
                cells@ == pane_cells(rows@[r as int], pane),
                g == pane_grid(rows@, pane),
                fields == g[r as int].map_values(|t: Seq<char>| csv_field(t, d)),
                out@ == start + join_with(fields.take(c as int), d),
            decreases cells@.len() - c,
        {
            assert(g[r as int][c as int] == cells@[c as int].text@);
            assert(fields.take(c + 1).drop_last() =~= fields.take(c as int));
            if c > 0 {
                push_char(&mut out, d);
            }
            push_field(&mut out, cells[c].text.as_str(), d);
            assert(out@ =~= start + join_with(fields.take(c + 1), d));
            c = c + 1;
        }
        assert(fields.take(cells@.len() as int) =~= fields);
        push_char(&mut out, '\n');
        assert(g.take(r + 1).drop_last() =~= g.take(r as int));
        assert(out@ =~= table_csv(g.take(r + 1), d));
        r = r + 1;
    }
    assert(g.take(rows@.len() as int) =~= g);
    out
}

} // verus!
