//! Byte-for-byte comparison of two files, shown as rows of 16 bytes.
use vstd::prelude::*;
use crate::text::{push_char, push_str};
use crate::numfmt::{hex, zero_pad, push_padded};

verus! {

/// Bytes per row of the hex view.
pub const ROW_BYTES: usize = 16;

/// The byte at `i`, none past the end.
pub open spec fn byte_at(s: Seq<u8>, i: int) -> Option<u8> {
    if 0 <= i < s.len() { Some(s[i]) } else { None }
}

/// Offset `i` differs: the bytes there are unequal, or only one side has one.
pub open spec fn differs(l: Seq<u8>, r: Seq<u8>, i: int) -> bool {
    byte_at(l, i) != byte_at(r, i)
}

/// Offset `i` starts a run of differing offsets.
pub open spec fn block_start(l: Seq<u8>, r: Seq<u8>, i: int) -> bool {
    differs(l, r, i) && (i == 0 || !differs(l, r, i - 1))
}

pub open spec fn max_len(l: Seq<u8>, r: Seq<u8>) -> nat {
    if l.len() > r.len() { l.len() } else { r.len() }
}

/// `starts` lists, in increasing order, exactly the offsets that start a run.
pub open spec fn marks_block_starts(l: Seq<u8>, r: Seq<u8>, starts: Seq<usize>) -> bool {
    &&& forall|k: int| 0 <= k < starts.len() ==> #[trigger] starts[k] < max_len(l, r) && block_start(l, r, starts[k] as int)
    &&& forall|k: int, j: int| 0 <= k < j < starts.len() ==> starts[k] < starts[j]
    &&& forall|i: int| 0 <= i < max_len(l, r) && #[trigger] block_start(l, r, i) ==> starts.contains(i as usize)
}

fn byte_get(s: &[u8], i: usize) -> (b: Option<u8>)
    ensures
        b == byte_at(s@, i as int),
{
    if i < s.len() { Some(s[i]) } else { None }
}

/// Offsets where a run of differing bytes starts, comparing the files at the
/// same offset; past the shorter file's end every byte differs.
pub fn diff_block_starts(left: &[u8], right: &[u8]) -> (starts: Vec<usize>)
    ensures
        marks_block_starts(left@, right@, starts@),
{
    let len = if left.len() > right.len() { left.len() } else { right.len() };
    let mut starts: Vec<usize> = Vec::new();
    let mut in_block = false;
    let mut i: usize = 0;
    while i < len
        invariant
            i <= len,
            len == max_len(left@, right@),
            in_block == (i > 0 && differs(left@, right@, i - 1)),
            forall|k: int| 0 <= k < starts@.len() ==> #[trigger] starts@[k] < i && block_start(left@, right@, starts@[k] as int),
            forall|k: int, j: int| 0 <= k < j < starts@.len() ==> starts@[k] < starts@[j],
            forall|x: int| 0 <= x < i && #[trigger] block_start(left@, right@, x) ==> starts@.contains(x as usize),
        decreases len - i,
    {
        if byte_get(left, i) != byte_get(right, i) {
            if !in_block {
                let ghost old_s = starts@;
                starts.push(i);
                in_block = true;
                assert(block_start(left@, right@, i as int));
                assert forall|x: int| 0 <= x < i + 1 && #[trigger] block_start(left@, right@, x) implies starts@.contains(x as usize) by {
                    if x < i {
                        let k = choose|k: int| 0 <= k < old_s.len() && old_s[k] == x as usize;
                        assert(starts@[k] == old_s[k]);
                    } else {
                        assert(starts@[old_s.len() as int] == i);
                    }
                }
                assert forall|k: int| 0 <= k < starts@.len() implies #[trigger] starts@[k] < i + 1 && block_start(left@, right@, starts@[k] as int) by {
                    if k < old_s.len() {
                        assert(starts@[k] == old_s[k]);
                    }
                }
                assert forall|k: int, j: int| 0 <= k < j < starts@.len() implies starts@[k] < starts@[j] by {
                    assert(starts@[k] == old_s[k]);
                    if j < old_s.len() {
                        assert(starts@[j] == old_s[j]);
                    }
                }
            }
        } else {
            in_block = false;
        }
        i = i + 1;
    }
    starts
}

/// One byte of one side of a hex row: its two hex digits, the character
/// shown for it, and whether it differs from the other side.
#[derive(Debug, Clone)]
pub struct HexCell {
    pub hex: String,
    pub ch: String,
    pub diff: bool,
}

/// One row of the hex view: its offset and the cells of both sides.
#[derive(Debug, Clone)]
pub struct HexRowData {
    pub offset: String,
    pub left: Vec<HexCell>,
    pub right: Vec<HexCell>,
}

/// The character shown for a byte: itself when printable ASCII, else '.'.
pub open spec fn shown_char(b: u8) -> char {
    if 0x20u8 <= b < 0x7fu8 { b as char } else { '.' }
}

/// The cell shown for a byte (or for no byte, past the end).
pub open spec fn cell_matches(c: HexCell, b: Option<u8>, diff: bool) -> bool {
    &&& c.diff == diff
    &&& match b {
        Some(x) => c.hex@ == zero_pad(hex(x as nat), 2) && c.ch@ == seq![shown_char(x)],
        None => c.hex@.len() == 0 && c.ch@.len() == 0,
    }
}

/// Builds the cell for a byte.
fn hex_cell(byte: Option<u8>, diff: bool) -> (c: HexCell)
    ensures
        cell_matches(c, byte, diff),
{
    match byte {
        Some(b) => {
            let mut h = String::new();
            push_padded(&mut h, b as u64, 16, 2);
            let mut ch = String::new();
            if 0x20u8 <= b && b < 0x7fu8 {
                push_char(&mut ch, b as char);
            } else {
                push_char(&mut ch, '.');
            }
            assert(h@ =~= zero_pad(hex(b as nat), 2));
            assert(ch@ =~= seq![shown_char(b)]);
            HexCell { hex: h, ch, diff }
        },
        None => {
            let h = String::new();
            let ch = String::new();
            HexCell { hex: h, ch, diff }
        },
    }
}

/// The cells of the row starting at `start` match the bytes of both sides.
pub open spec fn row_cells_match(l: Seq<u8>, r: Seq<u8>, start: int, lc: Seq<HexCell>, rc: Seq<HexCell>) -> bool {
    &&& lc.len() == ROW_BYTES
    &&& rc.len() == ROW_BYTES
    &&& forall|k: int| 0 <= k < ROW_BYTES ==> cell_matches(#[trigger] lc[k], byte_at(l, start + k), differs(l, r, start + k))
    &&& forall|k: int| 0 <= k < ROW_BYTES ==> cell_matches(#[trigger] rc[k], byte_at(r, start + k), differs(l, r, start + k))
}

fn byte_after(s: &[u8], start: usize, k: usize) -> (b: Option<u8>)
    ensures
        b == byte_at(s@, start + k),
{
    if start <= s.len() && k < s.len() - start { Some(s[start + k]) } else { None }
}

/// The cells of both sides for the 16 offsets from `start`.
fn build_row_cells(left: &[u8], right: &[u8], start: usize) -> (cells: (Vec<HexCell>, Vec<HexCell>))
    ensures
        row_cells_match(left@, right@, start as int, cells.0@, cells.1@),
{
    let mut left_cells: Vec<HexCell> = Vec::new();
    let mut right_cells: Vec<HexCell> = Vec::new();
    let mut k: usize = 0;
    while k < ROW_BYTES
        invariant
            k <= ROW_BYTES,
            left_cells@.len() == k,
            right_cells@.len() == k,
            forall|j: int| 0 <= j < k ==> cell_matches(#[trigger] left_cells@[j], byte_at(left@, start + j), differs(left@, right@, start + j)),
            forall|j: int| 0 <= j < k ==> cell_matches(#[trigger] right_cells@[j], byte_at(right@, start + j), differs(left@, right@, start + j)),
        decreases ROW_BYTES - k,
    {
        let l = byte_after(left, start, k);
        let r = byte_after(right, start, k);
        let diff = l != r;
        left_cells.push(hex_cell(l, diff));
        right_cells.push(hex_cell(r, diff));
        k = k + 1;
    }
    (left_cells, right_cells)
}

/// The bytes of both files, shown row by row on demand.
pub struct HexRows {
    left: Vec<u8>,
    right: Vec<u8>,
}

/// The number of 16-byte rows that `n` bytes take.
pub open spec fn rows_for(n: nat) -> nat {
    n / ROW_BYTES as nat + if n % ROW_BYTES as nat != 0 { 1nat } else { 0nat }
}

/// The row at `row` shows the 16 offsets from `row * 16`.
pub open spec fn row_matches(l: Seq<u8>, r: Seq<u8>, row: int, d: HexRowData) -> bool {
    &&& d.offset@ == zero_pad(hex((row * ROW_BYTES) as nat), 8)
    &&& row_cells_match(l, r, row * ROW_BYTES, d.left@, d.right@)
}

impl HexRows {
    pub fn new(left: Vec<u8>, right: Vec<u8>) -> (h: Self)
        ensures
            h.left_bytes() == left@,
            h.right_bytes() == right@,
    {
        HexRows { left, right }
    }

    pub closed spec fn left_bytes(&self) -> Seq<u8> {
        self.left@
    }

    pub closed spec fn right_bytes(&self) -> Seq<u8> {
        self.right@
    }

    /// Rows needed for the longer file.
    pub fn row_count(&self) -> (n: usize)
        ensures
            n == rows_for(max_len(self.left_bytes(), self.right_bytes())),
    {
        let len = if self.left.len() > self.right.len() { self.left.len() } else { self.right.len() };
        len / ROW_BYTES + if len % ROW_BYTES != 0 { 1 } else { 0 }
    }

    /// The row at `row`, none past the last row.
    pub fn row_data(&self, row: usize) -> (d: Option<HexRowData>)
        ensures
            match d {
                Some(x) => row < rows_for(max_len(self.left_bytes(), self.right_bytes()))
                    && row_matches(self.left_bytes(), self.right_bytes(), row as int, x),
                None => row >= rows_for(max_len(self.left_bytes(), self.right_bytes())),
            },
    {
        let count = self.row_count();
        if row >= count {
            return None;
        }
        let len = if self.left.len() > self.right.len() { self.left.len() } else { self.right.len() };
        assert(row * 16 < len) by (nonlinear_arith)
            requires
                row < len / 16 + if len % 16 != 0 { 1int } else { 0int },
                len >= 0,
        ;
        let start = row * ROW_BYTES;
        let (left_cells, right_cells) = build_row_cells(self.left.as_slice(), self.right.as_slice(), start);
        let mut offset = String::new();
        push_padded(&mut offset, start as u64, 16, 8);
        assert(offset@ =~= zero_pad(hex((row * ROW_BYTES) as nat), 8));
        Some(HexRowData { offset, left: left_cells, right: right_cells })
    }
}

} // verus!
