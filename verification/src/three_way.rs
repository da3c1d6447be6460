//! Three-way comparison: two line diffs against a common base merged into
//! aligned rows (ghost rows pad the shorter panes of a changed block).
use vstd::prelude::*;
use crate::text::{views, text_lines, join_lines_nl, split_lines, push_char, push_str};

verus! {

/// How the three versions relate on a row (WinMerge's OP_TYPE).
#[derive(Debug, Clone, Copy, PartialEq, Eq, Structural)]
pub enum ThreeWayStatus {
    /// All three are the same.
    Equal,
    /// Only left changed.
    LeftChanged,
    /// Only right changed.
    RightChanged,
    /// Left and right made the same change.
    BothChanged,
    /// Left and right changed differently.
    Conflict,
}

/// The number a status is shown as.
pub open spec fn status_code(s: ThreeWayStatus) -> i32 {
    match s {
        ThreeWayStatus::Equal => 0,
        ThreeWayStatus::LeftChanged => 1,
        ThreeWayStatus::RightChanged => 2,
        ThreeWayStatus::BothChanged => 3,
        ThreeWayStatus::Conflict => 4,
    }
}

impl ThreeWayStatus {
    pub fn as_i32(&self) -> (r: i32)
        ensures
            r == status_code(*self),
    {
        match self {
            ThreeWayStatus::Equal => 0,
            ThreeWayStatus::LeftChanged => 1,
            ThreeWayStatus::RightChanged => 2,
            ThreeWayStatus::BothChanged => 3,
            ThreeWayStatus::Conflict => 4,
        }
    }
}

/// One aligned row; a `None` line number marks a ghost (padding) cell.
#[derive(Debug, Clone)]
pub struct ThreeWayLine {
    pub base_text: String,
    pub left_text: String,
    pub right_text: String,
    pub status: ThreeWayStatus,
    pub base_line_no: Option<u32>,
    pub left_line_no: Option<u32>,
    pub right_line_no: Option<u32>,
}

#[derive(Debug, Clone)]
pub struct ThreeWayResult {
    pub lines: Vec<ThreeWayLine>,
    pub conflict_count: u32,
    /// Index into `lines` where each diff block starts.
    pub conflict_positions: Vec<usize>,
}

/// A changed region of a two-way line diff: base lines `old_start..old_end`
/// became lines `new_start..new_end` of the other file.
#[derive(Debug, Clone, Copy)]
pub struct Hunk {
    pub old_start: usize,
    pub old_end: usize,
    pub new_start: usize,
    pub new_end: usize,
}

/// Line-number offset (new minus old) after hunk `h`.
pub open spec fn shift_after(h: Hunk) -> int {
    h.new_end - h.old_end
}

/// Line-number offset (new minus old) before hunk `h`.
pub open spec fn shift_before(h: Hunk) -> int {
    h.new_start - h.old_start
}

pub open spec fn hunk_ok(h: Hunk) -> bool {
    &&& h.old_start <= h.old_end
    &&& h.new_start <= h.new_end
    &&& (h.old_start < h.old_end || h.new_start < h.new_end)
}

/// Hunk `i` follows hunk `i - 1` with equal base and file lines between them.
pub open spec fn hunk_follows(hs: Seq<Hunk>, i: int) -> bool {
    &&& hs[i - 1].old_end <= hs[i].old_start
    &&& shift_before(hs[i]) == shift_after(hs[i - 1])
}

/// `hs` describes a diff of a base of `n_old` lines against a file of `n_new`
/// lines: ordered, non-empty changes with unchanged, equally long runs
/// between them.
pub open spec fn hunks_wf(hs: Seq<Hunk>, n_old: int, n_new: int) -> bool {
    &&& forall|i: int| 0 <= i < hs.len() ==> hunk_ok(#[trigger] hs[i])
    &&& forall|i: int| 0 < i < hs.len() ==> #[trigger] hunk_follows(hs, i)
    &&& hs.len() > 0 ==> shift_before(hs[0]) == 0
    &&& if hs.len() == 0 {
        n_old == n_new
    } else {
        &&& hs.last().old_end <= n_old
        &&& n_new - n_old == shift_after(hs.last())
    }
}

/// Checks `hunks_wf`.
pub fn check_hunks(hs: &Vec<Hunk>, n_old: usize, n_new: usize) -> (ok: bool)
    ensures
        ok == hunks_wf(hs@, n_old as int, n_new as int),
{
    let mut i: usize = 0;
    while i < hs.len()
        invariant
            i <= hs.len(),
            forall|k: int| 0 <= k < i ==> hunk_ok(#[trigger] hs@[k]),
            forall|k: int| 0 < k < i ==> #[trigger] hunk_follows(hs@, k),
            i > 0 ==> shift_before(hs@[0]) == 0,
        decreases hs.len() - i,
    {
        let h = hs[i];
        if !(h.old_start <= h.old_end && h.new_start <= h.new_end && (h.old_start < h.old_end
            || h.new_start < h.new_end)) {
            assert(!hunk_ok(hs@[i as int]));
            return false;
        }
        if i == 0 {
            if h.new_start != h.old_start {
                return false;
            }
        } else {
            let p = hs[i - 1];
            if !(p.old_end <= h.old_start && (h.new_start as i128) - (h.old_start as i128) == (
            p.new_end as i128) - (p.old_end as i128)) {
                assert(!hunk_follows(hs@, i as int));
                return false;
            }
        }
        i = i + 1;
    }
    if hs.len() == 0 {
        n_old == n_new
    } else {
        let last = hs[hs.len() - 1];
        last.old_end <= n_old && (n_new as i128) - (n_old as i128) == (last.new_end as i128) - (
        last.old_end as i128)
    }
}


/// A merged three-way diff block (WinMerge's DIFFRANGE); ends exclusive.
#[derive(Debug, Clone, Copy)]
struct DiffBlock {
    left_start: usize,
    left_end: usize,
    base_start: usize,
    base_end: usize,
    right_start: usize,
    right_end: usize,
    status: ThreeWayStatus,
}

/// Offset (file minus base line number) after the first `k` hunks.
pub open spec fn shift_upto(hs: Seq<Hunk>, k: int) -> int {
    if k <= 0 {
        0
    } else {
        shift_after(hs[k - 1])
    }
}

spec fn block_ok(b: DiffBlock) -> bool {
    &&& b.base_start <= b.base_end
    &&& b.left_start <= b.left_end
    &&& b.right_start <= b.right_end
    &&& (b.base_start < b.base_end || b.left_start < b.left_end || b.right_start < b.right_end)
    &&& b.status != ThreeWayStatus::Equal
}

spec fn prev_base(bs: Seq<DiffBlock>, i: int) -> int {
    if i <= 0 { 0 } else { bs[i - 1].base_end as int }
}

spec fn prev_left(bs: Seq<DiffBlock>, i: int) -> int {
    if i <= 0 { 0 } else { bs[i - 1].left_end as int }
}

spec fn prev_right(bs: Seq<DiffBlock>, i: int) -> int {
    if i <= 0 { 0 } else { bs[i - 1].right_end as int }
}

/// Block `i` starts after the previous one (or the file start) with the same
/// number of unchanged lines on all three sides, at least one between blocks.
spec fn block_placed(bs: Seq<DiffBlock>, i: int) -> bool {
    let gap = bs[i].base_start - prev_base(bs, i);
    &&& gap >= 0
    &&& bs[i].left_start - prev_left(bs, i) == gap
    &&& bs[i].right_start - prev_right(bs, i) == gap
    &&& i > 0 ==> gap >= 1
    &&& bs[i].base_start >= i
}

spec fn blocks_chain(bs: Seq<DiffBlock>, eb: int, el: int, er: int) -> bool {
    &&& forall|i: int| 0 <= i < bs.len() ==> block_ok(#[trigger] bs[i])
    &&& forall|i: int| 0 <= i < bs.len() ==> #[trigger] block_placed(bs, i)
    &&& prev_base(bs, bs.len() as int) == eb
    &&& prev_left(bs, bs.len() as int) == el
    &&& prev_right(bs, bs.len() as int) == er
}

/// Hunk `h` lies within base lines `bs..be` (an insertion may sit at either end).
pub open spec fn hunk_within(h: Hunk, bs: int, be: int) -> bool {
    bs <= h.old_start && h.old_end <= be
}

/// Some hunk of `hs` lies within base lines `bs..be`.
pub open spec fn any_within(hs: Seq<Hunk>, bs: int, be: int) -> bool {
    exists|k: int| 0 <= k < hs.len() && hunk_within(#[trigger] hs[k], bs, be)
}

/// Base line `x` (0-based) is changed by some hunk of `hs`.
pub open spec fn covers(hs: Seq<Hunk>, x: int) -> bool {
    exists|k: int| 0 <= k < hs.len() && (#[trigger] hs[k]).old_start <= x && x < hs[k].old_end
}

/// How many hunks start before base position `p`.
pub open spec fn hunks_before(hs: Seq<Hunk>, p: int) -> nat
    decreases hs.len(),
{
    if hs.len() == 0 {
        0
    } else {
        hunks_before(hs.drop_last(), p) + if hs.last().old_start < p { 1nat } else { 0nat }
    }
}

/// Where base position `p` falls in the file, before the hunks that start at `p`.
pub open spec fn file_start(hs: Seq<Hunk>, p: int) -> int {
    p + shift_upto(hs, hunks_before(hs, p) as int)
}

/// Where base position `p` falls in the file, after the hunks that start at `p`
/// (an insertion at `p` comes before base line `p`).
pub open spec fn file_end(hs: Seq<Hunk>, p: int) -> int {
    p + shift_upto(hs, hunks_before(hs, p + 1) as int)
}

proof fn lemma_hunks_before_split(hs: Seq<Hunk>, p: int, c: int)
    requires
        0 <= c <= hs.len(),
        forall|j: int| 0 <= j < c ==> (#[trigger] hs[j]).old_start < p,
        forall|j: int| c <= j < hs.len() ==> (#[trigger] hs[j]).old_start >= p,
    ensures
        hunks_before(hs, p) == c,
    decreases hs.len(),
{
    if hs.len() > 0 {
        let t = hs.drop_last();
        let c2 = if c == hs.len() { c - 1 } else { c };
        assert forall|j: int| 0 <= j < c2 implies (#[trigger] t[j]).old_start < p by {
            assert(t[j] == hs[j]);
        }
        assert forall|j: int| c2 <= j < t.len() implies (#[trigger] t[j]).old_start >= p by {
            assert(t[j] == hs[j]);
        }
        lemma_hunks_before_split(t, p, c2);
    }
}

proof fn lemma_hunks_before_same(hs: Seq<Hunk>, p: int, q: int)
    requires
        p <= q,
        forall|j: int| 0 <= j < hs.len() ==> !(p <= (#[trigger] hs[j]).old_start < q),
    ensures
        hunks_before(hs, p) == hunks_before(hs, q),
    decreases hs.len(),
{
    if hs.len() > 0 {
        let t = hs.drop_last();
        assert forall|j: int| 0 <= j < t.len() implies !(p <= (#[trigger] t[j]).old_start < q) by {
            assert(t[j] == hs[j]);
        }
        lemma_hunks_before_same(t, p, q);
        assert(!(p <= hs[hs.len() - 1].old_start < q));
    }
}

/// The status of a changed region over base lines `bs..be`, left lines
/// `ls..le` and right lines `rs..re`: changed on the sides that have a hunk in
/// it; when both have one, the same change if the two sides' lines agree and
/// a conflict otherwise.
pub open spec fn region_status(
    lh: Seq<Hunk>,
    rh: Seq<Hunk>,
    ll: Seq<Seq<char>>,
    rl: Seq<Seq<char>>,
    bs: int,
    be: int,
    ls: int,
    le: int,
    rs: int,
    re: int,
) -> ThreeWayStatus {
    let has_l = any_within(lh, bs, be);
    let has_r = any_within(rh, bs, be);
    if has_l && has_r {
        if ll.subrange(ls, le) == rl.subrange(rs, re) {
            ThreeWayStatus::BothChanged
        } else {
            ThreeWayStatus::Conflict
        }
    } else if has_l {
        ThreeWayStatus::LeftChanged
    } else {
        ThreeWayStatus::RightChanged
    }
}

#[verifier::opaque]
spec fn block_from_hunks(b: DiffBlock, lh: Seq<Hunk>, rh: Seq<Hunk>, ll: Seq<Seq<char>>, rl: Seq<Seq<char>>) -> bool {
    &&& b.status == region_status(lh, rh, ll, rl, b.base_start as int, b.base_end as int,
        b.left_start as int, b.left_end as int, b.right_start as int, b.right_end as int)
    &&& forall|x: int| b.base_start <= x < b.base_end ==> covers(lh, x) || covers(rh, x)
    &&& b.left_start == file_start(lh, b.base_start as int)
    &&& b.left_end == file_end(lh, b.base_end as int)
    &&& b.right_start == file_start(rh, b.base_start as int)
    &&& b.right_end == file_end(rh, b.base_end as int)
}

#[verifier::opaque]
spec fn hunk_in_blocks(h: Hunk, bs: Seq<DiffBlock>) -> bool {
    exists|k: int| 0 <= k < bs.len() && hunk_within(h, (#[trigger] bs[k]).base_start as int, bs[k].base_end as int)
}

proof fn lemma_hunks_sorted(hs: Seq<Hunk>, n_old: int, n_new: int, i: int, j: int)
    requires
        hunks_wf(hs, n_old, n_new),
        0 <= i <= j < hs.len(),
    ensures
        hs[i].old_start <= hs[j].old_start,
    decreases j - i,
{
    if i < j {
        lemma_hunks_sorted(hs, n_old, n_new, i, j - 1);
        assert(hunk_follows(hs, j));
        assert(hunk_ok(hs[j - 1]));
    }
}

/// The hunks `lo..hi` of a group are the only ones within its base range.
proof fn lemma_group_has(hs: Seq<Hunk>, n_old: int, n_new: int, lo: int, hi: int, bs: int, be: int)
    requires
        hunks_wf(hs, n_old, n_new),
        0 <= lo <= hi <= hs.len(),
        forall|j: int| 0 <= j < lo ==> (#[trigger] hs[j]).old_end < bs,
        forall|j: int| lo <= j < hi ==> (#[trigger] hs[j]).old_start >= bs && hs[j].old_end <= be,
        hi < hs.len() ==> hs[hi].old_start > be,
    ensures
        any_within(hs, bs, be) <==> lo < hi,
{
    if lo < hi {
        assert(hunk_within(hs[lo], bs, be));
    } else if any_within(hs, bs, be) {
        let j = choose|j: int| 0 <= j < hs.len() && hunk_within(#[trigger] hs[j], bs, be);
        assert(hunk_ok(hs[j]));
        if j >= hi {
            lemma_hunks_sorted(hs, n_old, n_new, hi, j);
        }
    }
}

proof fn lemma_hunk_bounds(hs: Seq<Hunk>, n_old: int, n_new: int, k: int)
    requires
        hunks_wf(hs, n_old, n_new),
        0 <= k < hs.len(),
    ensures
        hs[k].old_end <= n_old,
        hs[k].new_end <= n_new,
        shift_before(hs[k]) == shift_upto(hs, k),
    decreases hs.len() - k,
{
    assert(hunk_ok(hs[k]));
    if k > 0 {
        assert(hunk_follows(hs, k));
    }
    if k + 1 < hs.len() {
        lemma_hunk_bounds(hs, n_old, n_new, k + 1);
        assert(hunk_follows(hs, k + 1));
        assert(hunk_ok(hs[k + 1]));
    }
}

/// Are `a[alo..ahi]` and `b[blo..bhi]` the same lines?
fn same_lines(a: &Vec<String>, alo: usize, ahi: usize, b: &Vec<String>, blo: usize, bhi: usize) -> (r: bool)
    requires
        alo <= ahi <= a@.len(),
        blo <= bhi <= b@.len(),
    ensures
        r == (views(a@).subrange(alo as int, ahi as int) == views(b@).subrange(blo as int, bhi as int)),
{
    let ghost va = views(a@).subrange(alo as int, ahi as int);
    let ghost vb = views(b@).subrange(blo as int, bhi as int);
    if ahi - alo != bhi - blo {
        assert(va.len() != vb.len());
        return false;
    }
    let mut k: usize = 0;
    while k < ahi - alo
        invariant
            alo <= ahi <= a@.len(),
            blo <= bhi <= b@.len(),
            ahi - alo == bhi - blo,
            k <= ahi - alo,
            va == views(a@).subrange(alo as int, ahi as int),
            vb == views(b@).subrange(blo as int, bhi as int),
            forall|j: int| 0 <= j < k ==> #[trigger] va[j] == vb[j],
        decreases ahi - alo - k,
    {
        assert(va[k as int] == a@[alo + k]@);
        assert(vb[k as int] == b@[blo + k]@);
        if a[alo + k] != b[blo + k] {
            return false;
        }
        k = k + 1;
    }
    assert(va =~= vb);
    true
}

/// Consumes the hunks of one group: starting from the first hunk at
/// `base_pos`, every hunk of either side whose base range starts at or
/// before the group's current base end. Returns the next unconsumed hunk of
/// each side and the group's base end.
fn expand_group(
    lhs: &Vec<Hunk>,
    rhs: &Vec<Hunk>,
    li0: usize,
    ri0: usize,
    base_pos: usize,
    n_base: usize,
    n_left: Ghost<int>,
    n_right: Ghost<int>,
) -> (r: (usize, usize, usize))
    requires
        hunks_wf(lhs@, n_base as int, n_left@),
        hunks_wf(rhs@, n_base as int, n_right@),
        li0 <= lhs@.len(),
        ri0 <= rhs@.len(),
        li0 < lhs@.len() || ri0 < rhs@.len(),
        li0 < lhs@.len() ==> lhs@[li0 as int].old_start >= base_pos,
        ri0 < rhs@.len() ==> rhs@[ri0 as int].old_start >= base_pos,
        (li0 < lhs@.len() && lhs@[li0 as int].old_start == base_pos) || (ri0 < rhs@.len()
            && rhs@[ri0 as int].old_start == base_pos),
    ensures
        li0 <= r.0 <= lhs@.len(),
        ri0 <= r.1 <= rhs@.len(),
        r.0 > li0 || r.1 > ri0,
        base_pos <= r.2 <= n_base,
        forall|k: int| li0 <= k < r.0 ==> (#[trigger] lhs@[k]).old_start >= base_pos && lhs@[k].old_end <= r.2,
        forall|k: int| ri0 <= k < r.1 ==> (#[trigger] rhs@[k]).old_start >= base_pos && rhs@[k].old_end <= r.2,
        r.0 < lhs@.len() ==> lhs@[r.0 as int].old_start > r.2,
        r.1 < rhs@.len() ==> rhs@[r.1 as int].old_start > r.2,
        forall|x: int| base_pos <= x < r.2 ==> covers(lhs@, x) || covers(rhs@, x),
{
    let ghost lh = lhs@;
    let ghost rh = rhs@;
    let mut li = li0;
    let mut ri = ri0;
    let mut group_base_end = base_pos;
    // Seed the group with the first hunk (left first when both start here).
    if li < lhs.len() && lhs[li].old_start == base_pos {
        proof { lemma_hunk_bounds(lh, n_base as int, n_left@, li as int); assert(hunk_ok(lh[li as int])); }
        group_base_end = lhs[li].old_end;
        proof {
            assert forall|x: int| base_pos <= x < group_base_end implies covers(lh, x) || covers(rh, x) by {
                assert(lh[li as int].old_start <= x < lh[li as int].old_end);
            }
        }
        li = li + 1;
    } else {
        assert(ri < rhs.len());
        proof { lemma_hunk_bounds(rh, n_base as int, n_right@, ri as int); assert(hunk_ok(rh[ri as int])); }
        group_base_end = rhs[ri].old_end;
        proof {
            assert forall|x: int| base_pos <= x < group_base_end implies covers(lh, x) || covers(rh, x) by {
                assert(rh[ri as int].old_start <= x < rh[ri as int].old_end);
            }
        }
        ri = ri + 1;
    }
    loop
        invariant
            hunks_wf(lh, n_base as int, n_left@),
            hunks_wf(rh, n_base as int, n_right@),
            lh == lhs@,
            rh == rhs@,
            li0 <= li <= lh.len(),
            ri0 <= ri <= rh.len(),
            li > li0 || ri > ri0,
            base_pos <= group_base_end <= n_base,
            li0 < lh.len() ==> lh[li0 as int].old_start >= base_pos,
            ri0 < rh.len() ==> rh[ri0 as int].old_start >= base_pos,
            forall|k: int| li0 <= k < li ==> (#[trigger] lh[k]).old_start >= base_pos && lh[k].old_end <= group_base_end,
            forall|k: int| ri0 <= k < ri ==> (#[trigger] rh[k]).old_start >= base_pos && rh[k].old_end <= group_base_end,
            forall|x: int| base_pos <= x < group_base_end ==> covers(lh, x) || covers(rh, x),
        ensures
            li0 <= li <= lh.len(),
            ri0 <= ri <= rh.len(),
            li > li0 || ri > ri0,
            base_pos <= group_base_end <= n_base,
            forall|k: int| li0 <= k < li ==> (#[trigger] lh[k]).old_start >= base_pos && lh[k].old_end <= group_base_end,
            forall|k: int| ri0 <= k < ri ==> (#[trigger] rh[k]).old_start >= base_pos && rh[k].old_end <= group_base_end,
            li < lh.len() ==> lh[li as int].old_start > group_base_end,
            ri < rh.len() ==> rh[ri as int].old_start > group_base_end,
            forall|x: int| base_pos <= x < group_base_end ==> covers(lh, x) || covers(rh, x),
        decreases lh.len() - li + rh.len() - ri,
    {
        let mut expanded = false;
        if li < lhs.len() {
            proof {
                lemma_hunk_bounds(lh, n_base as int, n_left@, li as int);
                assert(hunk_ok(lh[li as int]));
                if li > li0 { assert(hunk_follows(lh, li as int)); }
            }
            if lhs[li].old_start <= group_base_end {
                let ghost g0 = group_base_end;
                if lhs[li].old_end > group_base_end {
                    group_base_end = lhs[li].old_end;
                }
                proof {
                    assert forall|x: int| base_pos <= x < group_base_end implies covers(lh, x) || covers(rh, x) by {
                        if x >= g0 { assert(lh[li as int].old_start <= x < lh[li as int].old_end); }
                    }
                }
                li = li + 1;
                expanded = true;
            }
        }
        if ri < rhs.len() {
            proof {
                lemma_hunk_bounds(rh, n_base as int, n_right@, ri as int);
                assert(hunk_ok(rh[ri as int]));
                if ri > ri0 { assert(hunk_follows(rh, ri as int)); }
            }
            if rhs[ri].old_start <= group_base_end {
                let ghost g0 = group_base_end;
                if rhs[ri].old_end > group_base_end {
                    group_base_end = rhs[ri].old_end;
                }
                proof {
                    assert forall|x: int| base_pos <= x < group_base_end implies covers(lh, x) || covers(rh, x) by {
                        if x >= g0 { assert(rh[ri as int].old_start <= x < rh[ri as int].old_end); }
                    }
                }
                ri = ri + 1;
                expanded = true;
            }
        }
        if !expanded {
            break;
        }
    }
    (li, ri, group_base_end)
}

/// The file-side end of a block: for a side without hunks in the group the
/// base range is mirrored; otherwise the net line growth of its hunks is added.
fn side_end(
    hs: &Vec<Hunk>,
    lo: usize,
    hi: usize,
    pos: usize,
    base_pos: usize,
    group_base_end: usize,
    n_base: usize,
    lines_len: usize,
) -> (end: usize)
    requires
        hunks_wf(hs@, n_base as int, lines_len as int),
        n_base < u32::MAX,
        lines_len < u32::MAX,
        lo <= hi <= hs@.len(),
        base_pos <= group_base_end <= n_base,
        pos == base_pos + shift_upto(hs@, lo as int),
        lo < hs@.len() ==> hs@[lo as int].old_start >= base_pos,
        forall|k: int| lo <= k < hi ==> (#[trigger] hs@[k]).old_start >= base_pos && hs@[k].old_end <= group_base_end,
        hi < hs@.len() ==> hs@[hi as int].old_start > group_base_end,
    ensures
        end == group_base_end + shift_upto(hs@, hi as int),
        pos <= end <= lines_len,
        group_base_end == base_pos && lo < hi ==> end > pos,
{
    let ghost h = hs@;
    let base_count = group_base_end - base_pos;
    proof {
        if lo < h.len() {
            lemma_hunk_bounds(h, n_base as int, lines_len as int, lo as int);
        }
        if hi < h.len() {
            lemma_hunk_bounds(h, n_base as int, lines_len as int, hi as int);
        }
        if h.len() > 0 {
            lemma_hunk_bounds(h, n_base as int, lines_len as int, h.len() - 1);
        }
    }
    if lo == hi {
        proof {
            if lo < h.len() {
                assert(hunk_ok(h[lo as int]));
                assert(pos + base_count < h[lo as int].new_start);
            }
        }
        return pos + base_count;
    }
    let mut net: i128 = 0;
    let mut k: usize = lo;
    while k < hi
        invariant
            hunks_wf(h, n_base as int, lines_len as int),
            h == hs@,
            lo <= k <= hi <= h.len(),
            lo < hi,
            net == shift_upto(h, k as int) - shift_upto(h, lo as int),
            forall|j: int| lo <= j < hi ==> (#[trigger] h[j]).old_start >= base_pos && h[j].old_end <= group_base_end,
            k > lo ==> net >= base_pos - h[k - 1].old_end,
            group_base_end == base_pos ==> net >= k - lo,
            lines_len < u32::MAX,
            n_base < u32::MAX,
        decreases hi - k,
    {
        proof {
            lemma_hunk_bounds(h, n_base as int, lines_len as int, k as int);
            assert(hunk_ok(h[k as int]));
            if k > lo { assert(hunk_follows(h, k as int)); }
        }
        let hk = hs[k];
        let old_count = (hk.old_end - hk.old_start) as i128;
        let new_count = (hk.new_end - hk.new_start) as i128;
        net = net + (new_count - old_count);
        k = k + 1;
    }
    let e: i128 = (pos as i128) + (base_count as i128) + net;
    let e2: usize = if e < 0 { 0 } else { e as usize };
    if e2 < lines_len { e2 } else { lines_len }
}

/// The hunks of a group and those before it, counted by start position.
proof fn lemma_group_counts(hs: Seq<Hunk>, n_old: int, n_new: int, lo: int, hi: int, bs: int, be: int, old_bp: int, later: bool)
    requires
        hunks_wf(hs, n_old, n_new),
        0 <= lo <= hi <= hs.len(),
        bs <= be,
        forall|j: int| 0 <= j < lo ==> (#[trigger] hs[j]).old_end <= old_bp,
        later ==> old_bp < bs,
        !later ==> lo == 0,
        lo < hs.len() ==> hs[lo].old_start >= bs,
        forall|j: int| lo <= j < hi ==> (#[trigger] hs[j]).old_start >= bs && hs[j].old_end <= be,
        hi < hs.len() ==> hs[hi].old_start > be,
    ensures
        hunks_before(hs, bs) == lo,
        hunks_before(hs, be + 1) == hi,
{
    assert forall|j: int| 0 <= j < lo implies (#[trigger] hs[j]).old_start < bs by {
        assert(hunk_ok(hs[j]));
    }
    assert forall|j: int| lo <= j < hs.len() implies (#[trigger] hs[j]).old_start >= bs by {
        lemma_hunks_sorted(hs, n_old, n_new, lo, j);
    }
    lemma_hunks_before_split(hs, bs, lo);
    assert forall|j: int| 0 <= j < hi implies (#[trigger] hs[j]).old_start < be + 1 by {
        assert(hunk_ok(hs[j]));
    }
    assert forall|j: int| hi <= j < hs.len() implies (#[trigger] hs[j]).old_start >= be + 1 by {
        lemma_hunks_sorted(hs, n_old, n_new, hi, j);
    }
    lemma_hunks_before_split(hs, be + 1, hi);
}

/// The facts `merge_hunks` keeps about its blocks, after one more block.
proof fn lemma_push_block(
    lh: Seq<Hunk>,
    rh: Seq<Hunk>,
    vl: Seq<Seq<char>>,
    vr: Seq<Seq<char>>,
    nb: int,
    n_left: int,
    n_right: int,
    bs: Seq<DiffBlock>,
    b: DiffBlock,
    lo_l: int,
    hi_l: int,
    lo_r: int,
    hi_r: int,
    old_bp: int,
)
    requires
        hunks_wf(lh, nb, n_left),
        hunks_wf(rh, nb, n_right),
        forall|i: int| 0 <= i < bs.len() ==> block_from_hunks(#[trigger] bs[i], lh, rh, vl, vr),
        forall|j: int| 0 <= j < lo_l ==> hunk_in_blocks(#[trigger] lh[j], bs),
        forall|j: int| 0 <= j < lo_r ==> hunk_in_blocks(#[trigger] rh[j], bs),
        forall|j: int| 0 <= j < lo_l ==> (#[trigger] lh[j]).old_end <= old_bp,
        forall|j: int| 0 <= j < lo_r ==> (#[trigger] rh[j]).old_end <= old_bp,
        old_bp <= b.base_start <= b.base_end,
        bs.len() > 0 ==> old_bp < b.base_start,
        bs.len() == 0 ==> lo_l == 0 && lo_r == 0,
        0 <= lo_l <= hi_l <= lh.len(),
        0 <= lo_r <= hi_r <= rh.len(),
        forall|j: int| lo_l <= j < hi_l ==> (#[trigger] lh[j]).old_start >= b.base_start && lh[j].old_end <= b.base_end,
        forall|j: int| lo_r <= j < hi_r ==> (#[trigger] rh[j]).old_start >= b.base_start && rh[j].old_end <= b.base_end,
        hi_l < lh.len() ==> lh[hi_l].old_start > b.base_end,
        hi_r < rh.len() ==> rh[hi_r].old_start > b.base_end,
        forall|x: int| b.base_start <= x < b.base_end ==> covers(lh, x) || covers(rh, x),
        lo_l < lh.len() ==> lh[lo_l].old_start >= b.base_start,
        lo_r < rh.len() ==> rh[lo_r].old_start >= b.base_start,
        b.left_start == b.base_start + shift_upto(lh, lo_l),
        b.left_end == b.base_end + shift_upto(lh, hi_l),
        b.right_start == b.base_start + shift_upto(rh, lo_r),
        b.right_end == b.base_end + shift_upto(rh, hi_r),
        b.status == (if lo_l < hi_l && lo_r < hi_r {
            if vl.subrange(b.left_start as int, b.left_end as int) == vr.subrange(b.right_start as int, b.right_end as int) {
                ThreeWayStatus::BothChanged
            } else {
                ThreeWayStatus::Conflict
            }
        } else if lo_l < hi_l {
            ThreeWayStatus::LeftChanged
        } else {
            ThreeWayStatus::RightChanged
        }),
    ensures
        forall|i: int| 0 <= i < bs.push(b).len() ==> block_from_hunks(#[trigger] bs.push(b)[i], lh, rh, vl, vr),
        forall|j: int| 0 <= j < hi_l ==> hunk_in_blocks(#[trigger] lh[j], bs.push(b)),
        forall|j: int| 0 <= j < hi_r ==> hunk_in_blocks(#[trigger] rh[j], bs.push(b)),
        forall|j: int| 0 <= j < hi_l ==> (#[trigger] lh[j]).old_end <= b.base_end,
        forall|j: int| 0 <= j < hi_r ==> (#[trigger] rh[j]).old_end <= b.base_end,
{
    reveal(block_from_hunks);
    reveal(hunk_in_blocks);
    let bs2 = bs.push(b);
    lemma_group_has(lh, nb, n_left, lo_l, hi_l, b.base_start as int, b.base_end as int);
    lemma_group_has(rh, nb, n_right, lo_r, hi_r, b.base_start as int, b.base_end as int);
    lemma_group_counts(lh, nb, n_left, lo_l, hi_l, b.base_start as int, b.base_end as int, old_bp, bs.len() > 0);
    lemma_group_counts(rh, nb, n_right, lo_r, hi_r, b.base_start as int, b.base_end as int, old_bp, bs.len() > 0);
    assert(block_from_hunks(b, lh, rh, vl, vr));
    assert forall|i: int| 0 <= i < bs2.len() implies block_from_hunks(#[trigger] bs2[i], lh, rh, vl, vr) by {
        if i < bs.len() { assert(bs2[i] == bs[i]); }
    }
    assert forall|j: int| 0 <= j < hi_l implies hunk_in_blocks(#[trigger] lh[j], bs2) by {
        if j < lo_l {
            let k = choose|k: int| 0 <= k < bs.len() && hunk_within(lh[j], (#[trigger] bs[k]).base_start as int, bs[k].base_end as int);
            assert(bs2[k] == bs[k]);
        } else {
            assert(bs2[bs.len() as int] == b);
        }
    }
    assert forall|j: int| 0 <= j < hi_r implies hunk_in_blocks(#[trigger] rh[j], bs2) by {
        if j < lo_r {
            let k = choose|k: int| 0 <= k < bs.len() && hunk_within(rh[j], (#[trigger] bs[k]).base_start as int, bs[k].base_end as int);
            assert(bs2[k] == bs[k]);
        } else {
            assert(bs2[bs.len() as int] == b);
        }
    }
}

/// Merges the base-to-left and base-to-right hunks into three-way blocks,
/// grouping hunks whose base ranges overlap or touch (WinMerge's Make3wayDiff).
fn merge_hunks(
    left_hunks: &Vec<Hunk>,
    right_hunks: &Vec<Hunk>,
    n_base: usize,
    left_lines: &Vec<String>,
    right_lines: &Vec<String>,
) -> (blocks: Vec<DiffBlock>)
    requires
        hunks_wf(left_hunks@, n_base as int, left_lines@.len() as int),
        hunks_wf(right_hunks@, n_base as int, right_lines@.len() as int),
        n_base < u32::MAX,
        left_lines@.len() < u32::MAX,
        right_lines@.len() < u32::MAX,
    ensures
        blocks_chain(blocks@, prev_base(blocks@, blocks@.len() as int),
            prev_left(blocks@, blocks@.len() as int), prev_right(blocks@, blocks@.len() as int)),
        prev_base(blocks@, blocks@.len() as int) <= n_base,
        left_lines@.len() - prev_left(blocks@, blocks@.len() as int) == n_base - prev_base(blocks@, blocks@.len() as int),
        right_lines@.len() - prev_right(blocks@, blocks@.len() as int) == n_base - prev_base(blocks@, blocks@.len() as int),
        forall|i: int| 0 <= i < blocks@.len() ==> (#[trigger] blocks@[i]).left_end <= left_lines@.len()
            && blocks@[i].right_end <= right_lines@.len() && blocks@[i].base_end <= n_base,
        forall|i: int| 0 <= i < blocks@.len() ==> block_from_hunks(#[trigger] blocks@[i], left_hunks@, right_hunks@,
            views(left_lines@), views(right_lines@)),
        forall|j: int| 0 <= j < left_hunks@.len() ==> hunk_in_blocks(#[trigger] left_hunks@[j], blocks@),
        forall|j: int| 0 <= j < right_hunks@.len() ==> hunk_in_blocks(#[trigger] right_hunks@[j], blocks@),
{
    let ghost lh = left_hunks@;
    let ghost rh = right_hunks@;
    let ghost n_left = left_lines@.len() as int;
    let ghost n_right = right_lines@.len() as int;
    let mut blocks: Vec<DiffBlock> = Vec::new();
    let mut li: usize = 0;
    let mut ri: usize = 0;
    let mut base_pos: usize = 0;
    let mut left_pos: usize = 0;
    let mut right_pos: usize = 0;

    loop
        invariant
            hunks_wf(lh, n_base as int, n_left),
            hunks_wf(rh, n_base as int, n_right),
            lh == left_hunks@,
            rh == right_hunks@,
            n_left == left_lines@.len(),
            n_right == right_lines@.len(),
            n_base < u32::MAX,
            n_left < u32::MAX,
            n_right < u32::MAX,
            li <= lh.len(),
            ri <= rh.len(),
            base_pos <= n_base,
            left_pos == base_pos + shift_upto(lh, li as int),
            right_pos == base_pos + shift_upto(rh, ri as int),
            li < lh.len() ==> lh[li as int].old_start >= base_pos,
            ri < rh.len() ==> rh[ri as int].old_start >= base_pos,
            blocks@.len() > 0 && li < lh.len() ==> lh[li as int].old_start > base_pos,
            blocks@.len() > 0 && ri < rh.len() ==> rh[ri as int].old_start > base_pos,
            blocks@.len() <= base_pos + 1,
            blocks_chain(blocks@, base_pos as int, left_pos as int, right_pos as int),
            forall|i: int| 0 <= i < blocks@.len() ==> (#[trigger] blocks@[i]).left_end <= n_left
                && blocks@[i].right_end <= n_right && blocks@[i].base_end <= n_base,
            forall|i: int| 0 <= i < blocks@.len() ==> block_from_hunks(#[trigger] blocks@[i], lh, rh,
                views(left_lines@), views(right_lines@)),
            forall|j: int| 0 <= j < li ==> hunk_in_blocks(#[trigger] lh[j], blocks@),
            forall|j: int| 0 <= j < ri ==> hunk_in_blocks(#[trigger] rh[j], blocks@),
            forall|j: int| 0 <= j < li ==> (#[trigger] lh[j]).old_end <= base_pos,
            forall|j: int| 0 <= j < ri ==> (#[trigger] rh[j]).old_end <= base_pos,
            blocks@.len() == 0 ==> li == 0 && ri == 0,
        ensures
            li == lh.len(),
            ri == rh.len(),
            base_pos <= n_base,
            left_pos == base_pos + shift_upto(lh, li as int),
            right_pos == base_pos + shift_upto(rh, ri as int),
            blocks_chain(blocks@, base_pos as int, left_pos as int, right_pos as int),
            forall|i: int| 0 <= i < blocks@.len() ==> (#[trigger] blocks@[i]).left_end <= n_left
                && blocks@[i].right_end <= n_right && blocks@[i].base_end <= n_base,
            forall|i: int| 0 <= i < blocks@.len() ==> block_from_hunks(#[trigger] blocks@[i], lh, rh,
                views(left_lines@), views(right_lines@)),
            forall|j: int| 0 <= j < li ==> hunk_in_blocks(#[trigger] lh[j], blocks@),
            forall|j: int| 0 <= j < ri ==> hunk_in_blocks(#[trigger] rh[j], blocks@),
        decreases lh.len() - li + rh.len() - ri,
    {
        if li >= left_hunks.len() && ri >= right_hunks.len() {
            break;
        }
        let l_base_start = if li < left_hunks.len() { left_hunks[li].old_start } else { usize::MAX };
        let r_base_start = if ri < right_hunks.len() { right_hunks[ri].old_start } else { usize::MAX };
        proof {
            if li < lh.len() { lemma_hunk_bounds(lh, n_base as int, n_left, li as int); assert(hunk_ok(lh[li as int])); }
            if ri < rh.len() { lemma_hunk_bounds(rh, n_base as int, n_right, ri as int); assert(hunk_ok(rh[ri as int])); }
        }
        if l_base_start == usize::MAX && r_base_start == usize::MAX {
            break;
        }

        // Advance positions up to this block's base start.
        let first_base_start = if l_base_start < r_base_start { l_base_start } else { r_base_start };
        let ghost old_bp = base_pos;
        let skip = first_base_start - base_pos;
        base_pos = first_base_start;
        left_pos = left_pos + skip;
        right_pos = right_pos + skip;

        let ghost blocks_before = blocks@;
        let group_li_start = li;
        let group_ri_start = ri;
        let (li2, ri2, group_base_end) = expand_group(left_hunks, right_hunks, li, ri, base_pos,
            n_base, Ghost(n_left), Ghost(n_right));
        li = li2;
        ri = ri2;
        let group_has_left = li > group_li_start;
        let group_has_right = ri > group_ri_start;

        let group_left_start = left_pos;
        let group_left_end = side_end(left_hunks, group_li_start, li, left_pos, base_pos,
            group_base_end, n_base, left_lines.len());
        let group_right_start = right_pos;
        let group_right_end = side_end(right_hunks, group_ri_start, ri, right_pos, base_pos,
            group_base_end, n_base, right_lines.len());

        let status = if group_has_left && group_has_right {
            if same_lines(left_lines, group_left_start, group_left_end, right_lines, group_right_start, group_right_end) {
                ThreeWayStatus::BothChanged
            } else {
                ThreeWayStatus::Conflict
            }
        } else if group_has_left {
            ThreeWayStatus::LeftChanged
        } else {
            ThreeWayStatus::RightChanged
        };

        let block = DiffBlock {
            left_start: group_left_start,
            left_end: group_left_end,
            base_start: base_pos,
            base_end: group_base_end,
            right_start: group_right_start,
            right_end: group_right_end,
            status,
        };
        proof {
            assert(blocks_before.len() > 0 ==> old_bp < base_pos);
            lemma_push_block(lh, rh, views(left_lines@), views(right_lines@), n_base as int, n_left, n_right,
                blocks_before, block, group_li_start as int, li as int, group_ri_start as int, ri as int, old_bp as int);
        }
        blocks.push(block);
        assert(blocks@ == blocks_before.push(block));
        proof {
            assert(blocks@.drop_last() == blocks_before);
            assert(block_ok(block));
            assert forall|i: int| 0 <= i < blocks@.len() implies block_ok(#[trigger] blocks@[i]) by {
                if i < blocks_before.len() { assert(blocks@[i] == blocks_before[i]); }
            }
            assert forall|i: int| 0 <= i < blocks@.len() implies #[trigger] block_placed(blocks@, i) by {
                if i < blocks_before.len() {
                    assert(blocks@[i] == blocks_before[i]);
                    assert(block_placed(blocks_before, i));
                    if i > 0 { assert(blocks@[i - 1] == blocks_before[i - 1]); }
                } else if i > 0 {
                    assert(blocks@[i - 1] == blocks_before[i - 1]);
                }
            }
        }

        base_pos = group_base_end;
        left_pos = group_left_end;
        right_pos = group_right_end;
    }
    proof {
        if lh.len() > 0 { lemma_hunk_bounds(lh, n_base as int, n_left, lh.len() - 1); }
        if rh.len() > 0 { lemma_hunk_bounds(rh, n_base as int, n_right, rh.len() - 1); }
    }
    blocks
}


/// Line number of pane `pane` (0 = left, 1 = base, 2 = right) on a row.
pub open spec fn pane_no(l: ThreeWayLine, pane: int) -> Option<u32> {
    if pane == 0 {
        l.left_line_no
    } else if pane == 1 {
        l.base_line_no
    } else {
        l.right_line_no
    }
}

/// Text of pane `pane` on a row.
pub open spec fn pane_text(l: ThreeWayLine, pane: int) -> Seq<char> {
    if pane == 0 {
        l.left_text@
    } else if pane == 1 {
        l.base_text@
    } else {
        l.right_text@
    }
}

/// The real (non-ghost) lines of one pane, top to bottom.
pub open spec fn pane_lines(rows: Seq<ThreeWayLine>, pane: int) -> Seq<Seq<char>>
    decreases rows.len(),
{
    if rows.len() == 0 {
        Seq::empty()
    } else if pane_no(rows.last(), pane) is Some {
        pane_lines(rows.drop_last(), pane).push(pane_text(rows.last(), pane))
    } else {
        pane_lines(rows.drop_last(), pane)
    }
}

/// The line numbers of the real lines of one pane, top to bottom.
pub open spec fn pane_numbers(rows: Seq<ThreeWayLine>, pane: int) -> Seq<u32>
    decreases rows.len(),
{
    if rows.len() == 0 {
        Seq::empty()
    } else if pane_no(rows.last(), pane) is Some {
        pane_numbers(rows.drop_last(), pane).push(pane_no(rows.last(), pane)->0)
    } else {
        pane_numbers(rows.drop_last(), pane)
    }
}

/// `1, 2, ..., n`.
pub open spec fn line_numbers(n: int) -> Seq<u32> {
    Seq::new(n as nat, |k: int| (k + 1) as u32)
}

/// Pane `pane` of `rows` shows exactly the first `n` of `lines`, numbered from 1.
pub open spec fn pane_shows(rows: Seq<ThreeWayLine>, pane: int, lines: Seq<Seq<char>>, n: int) -> bool {
    &&& pane_lines(rows, pane) == lines.take(n)
    &&& pane_numbers(rows, pane) == line_numbers(n)
}

/// Row `i` starts a run of changed rows.
pub open spec fn is_run_start(rows: Seq<ThreeWayLine>, i: int) -> bool {
    &&& rows[i].status != ThreeWayStatus::Equal
    &&& (i == 0 || rows[i - 1].status == ThreeWayStatus::Equal)
}

/// `pos` lists, in increasing order, exactly the rows that start a run of changed rows.
pub open spec fn marks_run_starts(rows: Seq<ThreeWayLine>, pos: Seq<usize>) -> bool {
    &&& forall|k: int| 0 <= k < pos.len() ==> #[trigger] pos[k] < rows.len() && is_run_start(rows, pos[k] as int)
    &&& forall|k: int, j: int| 0 <= k < j < pos.len() ==> pos[k] < pos[j]
    &&& forall|i: int| 0 <= i < rows.len() && #[trigger] is_run_start(rows, i) ==> pos.contains(i as usize)
}

/// How many of the rows at `pos` are conflicts.
pub open spec fn conflicts_at(rows: Seq<ThreeWayLine>, pos: Seq<usize>) -> nat
    decreases pos.len(),
{
    if pos.len() == 0 {
        0
    } else {
        conflicts_at(rows, pos.drop_last()) + if rows[pos.last() as int].status
            == ThreeWayStatus::Conflict {
            1nat
        } else {
            0nat
        }
    }
}

/// Every row holds a real line in at least one pane.
pub open spec fn no_empty_rows(rows: Seq<ThreeWayLine>) -> bool {
    forall|i: int|
        0 <= i < rows.len() ==> (#[trigger] rows[i]).left_line_no is Some || rows[i].base_line_no
            is Some || rows[i].right_line_no is Some
}

/// How many real lines of pane `pane` stand in the rows before row `i`.
pub open spec fn lines_before(rows: Seq<ThreeWayLine>, i: int, pane: int) -> int {
    pane_lines(rows.take(i), pane).len() as int
}

/// The end (exclusive) of the run of changed rows from row `s`: the first
/// equal row at or after `s`, or the number of rows.
pub open spec fn run_end(rows: Seq<ThreeWayLine>, s: int) -> int
    decreases rows.len() - s,
{
    if s < 0 || s >= rows.len() || rows[s].status == ThreeWayStatus::Equal {
        s
    } else {
        run_end(rows, s + 1)
    }
}

/// Adjacent changed rows have the same status.
pub open spec fn runs_uniform(rows: Seq<ThreeWayLine>) -> bool {
    forall|i: int|
        0 < i < rows.len() && (#[trigger] rows[i]).status != ThreeWayStatus::Equal && rows[i - 1].status
            != ThreeWayStatus::Equal ==> rows[i].status == rows[i - 1].status
}

/// Rows `s..e` are the rows of block `b`, followed by an equal row or the end.
#[verifier::opaque]
spec fn run_placed(rows: Seq<ThreeWayLine>, s: int, e: int, b: DiffBlock) -> bool {
    &&& 0 <= s < e <= rows.len()
    &&& forall|i: int| s <= i < e ==> (#[trigger] rows[i]).status == b.status
    &&& (e < rows.len() ==> rows[e].status == ThreeWayStatus::Equal)
    &&& lines_before(rows, s, 0) == b.left_start
    &&& lines_before(rows, s, 1) == b.base_start
    &&& lines_before(rows, s, 2) == b.right_start
    &&& lines_before(rows, e, 0) == b.left_end
    &&& lines_before(rows, e, 1) == b.base_end
    &&& lines_before(rows, e, 2) == b.right_end
}

/// The run of changed rows from row `s` shows block `b`.
spec fn run_is_block(rows: Seq<ThreeWayLine>, s: int, b: DiffBlock) -> bool {
    let e = run_end(rows, s);
    &&& 0 <= s < rows.len()
    &&& rows[s].status == b.status
    &&& lines_before(rows, s, 0) == b.left_start
    &&& lines_before(rows, s, 1) == b.base_start
    &&& lines_before(rows, s, 2) == b.right_start
    &&& lines_before(rows, e, 0) == b.left_end
    &&& lines_before(rows, e, 1) == b.base_end
    &&& lines_before(rows, e, 2) == b.right_end
}

/// An equal row stands in the gap before block `k` (or after the last one):
/// one line of each pane, offset as at the end of the previous block.
spec fn gap_row(row: ThreeWayLine, bs: Seq<DiffBlock>, k: int, n_base: int) -> bool {
    &&& row.base_line_no is Some
    &&& row.left_line_no is Some
    &&& row.right_line_no is Some
    &&& prev_base(bs, k) < (row.base_line_no->0)
    &&& (row.base_line_no->0) - 1 < (if k < bs.len() { bs[k].base_start as int } else { n_base })
    &&& (row.left_line_no->0) - (row.base_line_no->0) == prev_left(bs, k) - prev_base(bs, k)
    &&& (row.right_line_no->0) - (row.base_line_no->0) == prev_right(bs, k) - prev_base(bs, k)
}

#[verifier::opaque]
spec fn all_gap_rows(rows: Seq<ThreeWayLine>, bs: Seq<DiffBlock>, n_base: int) -> bool {
    forall|i: int| 0 <= i < rows.len() && (#[trigger] rows[i]).status == ThreeWayStatus::Equal
        ==> exists|k: int| 0 <= k <= bs.len() && gap_row(rows[i], bs, k, n_base)
}

proof fn lemma_gap_start(rows: Seq<ThreeWayLine>, bs: Seq<DiffBlock>, n_base: int)
    requires
        rows.len() == 0,
    ensures
        all_gap_rows(rows, bs, n_base),
{
    reveal(all_gap_rows);
}

proof fn lemma_gap_equal_ext(
    old_rows: Seq<ThreeWayLine>,
    new_rows: Seq<ThreeWayLine>,
    bs: Seq<DiffBlock>,
    n_base: int,
    k: int,
    base_pos: int,
    left_pos: int,
    right_pos: int,
)
    requires
        all_gap_rows(old_rows, bs, n_base),
        new_rows.len() >= old_rows.len(),
        new_rows.take(old_rows.len() as int) == old_rows,
        0 <= k <= bs.len(),
        base_pos == prev_base(bs, k),
        left_pos == prev_left(bs, k),
        right_pos == prev_right(bs, k),
        base_pos + (new_rows.len() - old_rows.len()) <= (if k < bs.len() { bs[k].base_start as int } else { n_base }),
        base_pos + (new_rows.len() - old_rows.len()) < u32::MAX,
        left_pos + (new_rows.len() - old_rows.len()) < u32::MAX,
        right_pos + (new_rows.len() - old_rows.len()) < u32::MAX,
        left_pos >= 0,
        right_pos >= 0,
        forall|i: int| old_rows.len() <= i < new_rows.len() ==> (#[trigger] new_rows[i]).base_line_no
            == Some((base_pos + (i - old_rows.len()) + 1) as u32)
            && new_rows[i].left_line_no == Some((left_pos + (i - old_rows.len()) + 1) as u32)
            && new_rows[i].right_line_no == Some((right_pos + (i - old_rows.len()) + 1) as u32),
    ensures
        all_gap_rows(new_rows, bs, n_base),
{
    reveal(all_gap_rows);
    assert forall|i: int| 0 <= i < new_rows.len() && (#[trigger] new_rows[i]).status == ThreeWayStatus::Equal
        implies exists|k2: int| 0 <= k2 <= bs.len() && gap_row(new_rows[i], bs, k2, n_base) by {
        if i < old_rows.len() {
            assert(new_rows[i] == old_rows[i]);
        } else {
            assert(gap_row(new_rows[i], bs, k, n_base));
        }
    }
}

proof fn lemma_gap_block_ext(old_rows: Seq<ThreeWayLine>, new_rows: Seq<ThreeWayLine>, bs: Seq<DiffBlock>, n_base: int, st: ThreeWayStatus)
    requires
        all_gap_rows(old_rows, bs, n_base),
        new_rows.len() >= old_rows.len(),
        new_rows.take(old_rows.len() as int) == old_rows,
        st != ThreeWayStatus::Equal,
        forall|i: int| old_rows.len() <= i < new_rows.len() ==> (#[trigger] new_rows[i]).status == st,
    ensures
        all_gap_rows(new_rows, bs, n_base),
{
    reveal(all_gap_rows);
    assert forall|i: int| 0 <= i < new_rows.len() && (#[trigger] new_rows[i]).status == ThreeWayStatus::Equal
        implies exists|k2: int| 0 <= k2 <= bs.len() && gap_row(new_rows[i], bs, k2, n_base) by {
        assert(i < old_rows.len());
        assert(new_rows[i] == old_rows[i]);
    }
}

/// Each equal row shows, in each pane, the line its number names.
#[verifier::opaque]
spec fn equal_rows_show(rows: Seq<ThreeWayLine>, vb: Seq<Seq<char>>, vl: Seq<Seq<char>>, vr: Seq<Seq<char>>) -> bool {
    forall|i: int| 0 <= i < rows.len() && (#[trigger] rows[i]).status == ThreeWayStatus::Equal ==> {
        &&& rows[i].base_line_no is Some
        &&& rows[i].left_line_no is Some
        &&& rows[i].right_line_no is Some
        &&& 1 <= (rows[i].base_line_no->0) <= vb.len()
        &&& rows[i].base_text@ == vb[(rows[i].base_line_no->0) - 1]
        &&& rows[i].left_text@ == vl[(rows[i].left_line_no->0) - 1]
        &&& rows[i].right_text@ == vr[(rows[i].right_line_no->0) - 1]
    }
}

proof fn lemma_show_start(rows: Seq<ThreeWayLine>, vb: Seq<Seq<char>>, vl: Seq<Seq<char>>, vr: Seq<Seq<char>>)
    requires
        rows.len() == 0,
    ensures
        equal_rows_show(rows, vb, vl, vr),
{
    reveal(equal_rows_show);
}

proof fn lemma_show_equal_ext(
    old_rows: Seq<ThreeWayLine>,
    new_rows: Seq<ThreeWayLine>,
    vb: Seq<Seq<char>>,
    vl: Seq<Seq<char>>,
    vr: Seq<Seq<char>>,
    base_pos: int,
    left_pos: int,
    right_pos: int,
)
    requires
        equal_rows_show(old_rows, vb, vl, vr),
        new_rows.len() >= old_rows.len(),
        new_rows.take(old_rows.len() as int) == old_rows,
        base_pos >= 0,
        left_pos >= 0,
        right_pos >= 0,
        base_pos + (new_rows.len() - old_rows.len()) < u32::MAX,
        base_pos + (new_rows.len() - old_rows.len()) <= vb.len(),
        left_pos + (new_rows.len() - old_rows.len()) < u32::MAX,
        right_pos + (new_rows.len() - old_rows.len()) < u32::MAX,
        forall|i: int| old_rows.len() <= i < new_rows.len() ==> (#[trigger] new_rows[i]).base_line_no
            == Some((base_pos + (i - old_rows.len()) + 1) as u32)
            && new_rows[i].left_line_no == Some((left_pos + (i - old_rows.len()) + 1) as u32)
            && new_rows[i].right_line_no == Some((right_pos + (i - old_rows.len()) + 1) as u32),
        forall|i: int| old_rows.len() <= i < new_rows.len() ==> (#[trigger] new_rows[i]).base_text@
            == vb[base_pos + (i - old_rows.len())]
            && new_rows[i].left_text@ == vl[left_pos + (i - old_rows.len())]
            && new_rows[i].right_text@ == vr[right_pos + (i - old_rows.len())],
    ensures
        equal_rows_show(new_rows, vb, vl, vr),
{
    reveal(equal_rows_show);
    assert forall|i: int| 0 <= i < new_rows.len() && (#[trigger] new_rows[i]).status == ThreeWayStatus::Equal implies {
        &&& new_rows[i].base_line_no is Some
        &&& new_rows[i].left_line_no is Some
        &&& new_rows[i].right_line_no is Some
        &&& 1 <= (new_rows[i].base_line_no->0) <= vb.len()
        &&& new_rows[i].base_text@ == vb[(new_rows[i].base_line_no->0) - 1]
        &&& new_rows[i].left_text@ == vl[(new_rows[i].left_line_no->0) - 1]
        &&& new_rows[i].right_text@ == vr[(new_rows[i].right_line_no->0) - 1]
    } by {
        if i < old_rows.len() {
            assert(new_rows[i] == old_rows[i]);
        }
    }
}

proof fn lemma_show_block_ext(
    old_rows: Seq<ThreeWayLine>,
    new_rows: Seq<ThreeWayLine>,
    vb: Seq<Seq<char>>,
    vl: Seq<Seq<char>>,
    vr: Seq<Seq<char>>,
    st: ThreeWayStatus,
)
    requires
        equal_rows_show(old_rows, vb, vl, vr),
        new_rows.len() >= old_rows.len(),
        new_rows.take(old_rows.len() as int) == old_rows,
        st != ThreeWayStatus::Equal,
        forall|i: int| old_rows.len() <= i < new_rows.len() ==> (#[trigger] new_rows[i]).status == st,
    ensures
        equal_rows_show(new_rows, vb, vl, vr),
{
    reveal(equal_rows_show);
    assert forall|i: int| 0 <= i < new_rows.len() && (#[trigger] new_rows[i]).status == ThreeWayStatus::Equal implies {
        &&& new_rows[i].base_line_no is Some
        &&& new_rows[i].left_line_no is Some
        &&& new_rows[i].right_line_no is Some
        &&& 1 <= (new_rows[i].base_line_no->0) <= vb.len()
        &&& new_rows[i].base_text@ == vb[(new_rows[i].base_line_no->0) - 1]
        &&& new_rows[i].left_text@ == vl[(new_rows[i].left_line_no->0) - 1]
        &&& new_rows[i].right_text@ == vr[(new_rows[i].right_line_no->0) - 1]
    } by {
        assert(i < old_rows.len());
        assert(new_rows[i] == old_rows[i]);
    }
}

proof fn lemma_placed_ext(old_rows: Seq<ThreeWayLine>, new_rows: Seq<ThreeWayLine>, s: int, e: int, b: DiffBlock)
    requires
        run_placed(old_rows, s, e, b),
        new_rows.len() >= old_rows.len(),
        new_rows.take(old_rows.len() as int) == old_rows,
        e == old_rows.len() && new_rows.len() > old_rows.len() ==> new_rows[old_rows.len() as int].status
            == ThreeWayStatus::Equal,
    ensures
        run_placed(new_rows, s, e, b),
{
    reveal(run_placed);
    assert(new_rows.take(s) =~= old_rows.take(s));
    assert(new_rows.take(e) =~= old_rows.take(e));
    assert forall|i: int| s <= i < e implies (#[trigger] new_rows[i]).status == b.status by {
        assert(new_rows[i] == old_rows[i]);
    }
    if e < new_rows.len() && e < old_rows.len() {
        assert(new_rows[e] == old_rows[e]);
    }
}

#[verifier::opaque]
spec fn all_placed(rows: Seq<ThreeWayLine>, pos: Seq<usize>, ends: Seq<int>, bs: Seq<DiffBlock>, n: int) -> bool {
    forall|k: int| 0 <= k < n ==> #[trigger] run_placed(rows, pos[k] as int, ends[k], bs[k])
}

proof fn lemma_all_placed_ext(
    old_rows: Seq<ThreeWayLine>,
    new_rows: Seq<ThreeWayLine>,
    pos: Seq<usize>,
    ends: Seq<int>,
    bs: Seq<DiffBlock>,
    n: int,
)
    requires
        all_placed(old_rows, pos, ends, bs, n),
        new_rows.len() >= old_rows.len(),
        new_rows.take(old_rows.len() as int) == old_rows,
        new_rows.len() > old_rows.len() && n > 0 ==> new_rows[old_rows.len() as int].status == ThreeWayStatus::Equal,
    ensures
        all_placed(new_rows, pos, ends, bs, n),
{
    reveal(all_placed);
    assert forall|k: int| 0 <= k < n implies #[trigger] run_placed(new_rows, pos[k] as int, ends[k], bs[k]) by {
        assert(run_placed(old_rows, pos[k] as int, ends[k], bs[k]));
        lemma_placed_ext(old_rows, new_rows, pos[k] as int, ends[k], bs[k]);
    }
}

proof fn lemma_all_placed_block(
    old_rows: Seq<ThreeWayLine>,
    new_rows: Seq<ThreeWayLine>,
    pos: Seq<usize>,
    ends: Seq<int>,
    bs: Seq<DiffBlock>,
    n: int,
    prev_len: int,
)
    requires
        all_placed(old_rows, pos, ends, bs, n),
        n > 0 ==> prev_len < old_rows.len(),
        forall|k: int| 0 <= k < n ==> ends[k] <= prev_len,
        new_rows.len() >= old_rows.len(),
        new_rows.take(old_rows.len() as int) == old_rows,
    ensures
        all_placed(new_rows, pos, ends, bs, n),
{
    reveal(all_placed);
    assert forall|k: int| 0 <= k < n implies #[trigger] run_placed(new_rows, pos[k] as int, ends[k], bs[k]) by {
        assert(run_placed(old_rows, pos[k] as int, ends[k], bs[k]));
        lemma_placed_ext(old_rows, new_rows, pos[k] as int, ends[k], bs[k]);
    }
}

proof fn lemma_placed_ends(rows: Seq<ThreeWayLine>, pos: Seq<usize>, ends: Seq<int>, bs: Seq<DiffBlock>, n: int)
    requires
        all_placed(rows, pos, ends, bs, n),
    ensures
        forall|k: int| 0 <= k < n ==> #[trigger] ends[k] <= rows.len(),
{
    reveal(all_placed);
    reveal(run_placed);
    assert forall|k: int| 0 <= k < n implies #[trigger] ends[k] <= rows.len() by {
        assert(run_placed(rows, pos[k] as int, ends[k], bs[k]));
    }
}

proof fn lemma_all_placed_push(
    rows: Seq<ThreeWayLine>,
    pos0: Seq<usize>,
    ends0: Seq<int>,
    bs: Seq<DiffBlock>,
    n: int,
    s: usize,
    e: int,
)
    requires
        all_placed(rows, pos0, ends0, bs, n),
        0 <= n < bs.len(),
        pos0.len() == n,
        ends0.len() == n,
        run_placed(rows, s as int, e, bs[n]),
    ensures
        all_placed(rows, pos0.push(s), ends0.push(e), bs, n + 1),
{
    reveal(all_placed);
    assert forall|k: int| 0 <= k < n + 1 implies #[trigger] run_placed(rows, pos0.push(s)[k] as int, ends0.push(e)[k], bs[k]) by {
        if k < n {
            assert(pos0.push(s)[k] == pos0[k]);
            assert(ends0.push(e)[k] == ends0[k]);
            assert(run_placed(rows, pos0[k] as int, ends0[k], bs[k]));
        }
    }
}

proof fn lemma_all_is_block(rows: Seq<ThreeWayLine>, pos: Seq<usize>, ends: Seq<int>, bs: Seq<DiffBlock>)
    requires
        all_placed(rows, pos, ends, bs, bs.len() as int),
        forall|k: int| 0 <= k < bs.len() ==> block_ok(#[trigger] bs[k]),
    ensures
        forall|k: int| 0 <= k < bs.len() ==> run_is_block(rows, #[trigger] pos[k] as int, bs[k]),
{
    reveal(all_placed);
    assert forall|k: int| 0 <= k < bs.len() implies run_is_block(rows, #[trigger] pos[k] as int, bs[k]) by {
        assert(run_placed(rows, pos[k] as int, ends[k], bs[k]));
        assert(block_ok(bs[k]));
        lemma_placed_is_block(rows, pos[k] as int, ends[k], bs[k]);
    }
}

proof fn lemma_placed_new(
    rows1: Seq<ThreeWayLine>,
    rows2: Seq<ThreeWayLine>,
    b: DiffBlock,
    vl: Seq<Seq<char>>,
    vb: Seq<Seq<char>>,
    vr: Seq<Seq<char>>,
)
    requires
        pane_shows(rows1, 0, vl, b.left_start as int),
        pane_shows(rows1, 1, vb, b.base_start as int),
        pane_shows(rows1, 2, vr, b.right_start as int),
        pane_shows(rows2, 0, vl, b.left_end as int),
        pane_shows(rows2, 1, vb, b.base_end as int),
        pane_shows(rows2, 2, vr, b.right_end as int),
        b.left_start <= b.left_end <= vl.len(),
        b.base_start <= b.base_end <= vb.len(),
        b.right_start <= b.right_end <= vr.len(),
        rows2.len() > rows1.len(),
        rows2.take(rows1.len() as int) == rows1,
        forall|i: int| rows1.len() <= i < rows2.len() ==> (#[trigger] rows2[i]).status == b.status,
    ensures
        run_placed(rows2, rows1.len() as int, rows2.len() as int, b),
{
    reveal(run_placed);
    assert(rows2.take(rows2.len() as int) =~= rows2);
}

#[verifier::opaque]
spec fn uniform_rows(rows: Seq<ThreeWayLine>) -> bool {
    runs_uniform(rows)
}

proof fn lemma_start_placed(rows: Seq<ThreeWayLine>, pos: Seq<usize>, ends: Seq<int>, bs: Seq<DiffBlock>)
    requires
        rows.len() == 0,
    ensures
        all_placed(rows, pos, ends, bs, 0),
        uniform_rows(rows),
{
    reveal(all_placed);
    reveal(uniform_rows);
}

proof fn lemma_equal_rows_ext(
    old_rows: Seq<ThreeWayLine>,
    new_rows: Seq<ThreeWayLine>,
    pos: Seq<usize>,
    ends: Seq<int>,
    bs: Seq<DiffBlock>,
    n: int,
)
    requires
        all_placed(old_rows, pos, ends, bs, n),
        uniform_rows(old_rows),
        new_rows.len() >= old_rows.len(),
        new_rows.take(old_rows.len() as int) == old_rows,
        forall|i: int| old_rows.len() <= i < new_rows.len() ==> (#[trigger] new_rows[i]).status == ThreeWayStatus::Equal,
    ensures
        all_placed(new_rows, pos, ends, bs, n),
        uniform_rows(new_rows),
{
    lemma_all_placed_ext(old_rows, new_rows, pos, ends, bs, n);
    lemma_uniform_ext(old_rows, new_rows, ThreeWayStatus::Equal);
}

proof fn lemma_uniform_rows(rows: Seq<ThreeWayLine>)
    requires
        uniform_rows(rows),
    ensures
        runs_uniform(rows),
{
    reveal(uniform_rows);
}

proof fn lemma_uniform_ext(old_rows: Seq<ThreeWayLine>, new_rows: Seq<ThreeWayLine>, st: ThreeWayStatus)
    requires
        uniform_rows(old_rows),
        new_rows.len() >= old_rows.len(),
        new_rows.take(old_rows.len() as int) == old_rows,
        forall|i: int| old_rows.len() <= i < new_rows.len() ==> (#[trigger] new_rows[i]).status == st,
        old_rows.len() == 0 || old_rows.last().status == ThreeWayStatus::Equal || st == ThreeWayStatus::Equal,
    ensures
        uniform_rows(new_rows),
{
    reveal(uniform_rows);
    assert forall|i: int|
        0 < i < new_rows.len() && (#[trigger] new_rows[i]).status != ThreeWayStatus::Equal && new_rows[i - 1].status
            != ThreeWayStatus::Equal implies new_rows[i].status == new_rows[i - 1].status by {
        if i < old_rows.len() {
            assert(new_rows[i] == old_rows[i]);
            assert(new_rows[i - 1] == old_rows[i - 1]);
            assert(old_rows[i].status != ThreeWayStatus::Equal);
        } else if i == old_rows.len() {
            assert(new_rows[i - 1] == old_rows[i - 1]);
        }
    }
}

proof fn lemma_run_end_at(rows: Seq<ThreeWayLine>, s: int, e: int, st: ThreeWayStatus)
    requires
        0 <= s <= e <= rows.len(),
        st != ThreeWayStatus::Equal,
        forall|i: int| s <= i < e ==> (#[trigger] rows[i]).status == st,
        e < rows.len() ==> rows[e].status == ThreeWayStatus::Equal,
    ensures
        run_end(rows, s) == e,
    decreases e - s,
{
    if s < e {
        lemma_run_end_at(rows, s + 1, e, st);
    }
}

proof fn lemma_placed_is_block(rows: Seq<ThreeWayLine>, s: int, e: int, b: DiffBlock)
    requires
        run_placed(rows, s, e, b),
        b.status != ThreeWayStatus::Equal,
    ensures
        run_is_block(rows, s, b),
        run_end(rows, s) == e,
{
    reveal(run_placed);
    lemma_run_end_at(rows, s, e, b.status);
}

proof fn lemma_pane_push(rows: Seq<ThreeWayLine>, r: ThreeWayLine, pane: int)
    ensures
        pane_lines(rows.push(r), pane) == if pane_no(r, pane) is Some {
            pane_lines(rows, pane).push(pane_text(r, pane))
        } else {
            pane_lines(rows, pane)
        },
        pane_numbers(rows.push(r), pane) == if pane_no(r, pane) is Some {
            pane_numbers(rows, pane).push(pane_no(r, pane)->0)
        } else {
            pane_numbers(rows, pane)
        },
{
    assert(rows.push(r).drop_last() =~= rows);
}

/// Line `idx` of `lines`, or an empty string past the end.
fn line_or_empty(lines: &Vec<String>, idx: usize) -> (s: String)
    ensures
        idx < lines@.len() ==> s@ == lines@[idx as int]@,
        idx >= lines@.len() ==> s@ == Seq::<char>::empty(),
{
    if idx < lines.len() {
        lines[idx].clone()
    } else {
        String::new()
    }
}

/// Pushes one row showing line `idx` of a pane (or a ghost cell when `real` is false).
proof fn lemma_pane_step(rows: Seq<ThreeWayLine>, r: ThreeWayLine, pane: int, lines: Seq<Seq<char>>, n: int)
    requires
        pane_shows(rows, pane, lines, n),
        0 <= n < lines.len(),
        n + 1 < u32::MAX,
        pane_no(r, pane) == Some((n + 1) as u32),
        pane_text(r, pane) == lines[n],
    ensures
        pane_shows(rows.push(r), pane, lines, n + 1),
{
    lemma_pane_push(rows, r, pane);
    assert(lines.take(n + 1) =~= lines.take(n).push(lines[n]));
    assert(line_numbers(n + 1) =~= line_numbers(n).push((n + 1) as u32));
}

proof fn lemma_pane_ghost(rows: Seq<ThreeWayLine>, r: ThreeWayLine, pane: int, lines: Seq<Seq<char>>, n: int)
    requires
        pane_shows(rows, pane, lines, n),
        pane_no(r, pane) is None,
    ensures
        pane_shows(rows.push(r), pane, lines, n),
{
    lemma_pane_push(rows, r, pane);
}

/// Appends `count` unchanged rows starting at the given line of each pane.
fn push_equal_rows(
    rows: &mut Vec<ThreeWayLine>,
    base_lines: &Vec<String>,
    left_lines: &Vec<String>,
    right_lines: &Vec<String>,
    base_pos: usize,
    left_pos: usize,
    right_pos: usize,
    count: usize,
)
    requires
        base_pos + count <= base_lines@.len() < u32::MAX,
        left_pos + count <= left_lines@.len() < u32::MAX,
        right_pos + count <= right_lines@.len() < u32::MAX,
        pane_shows(old(rows)@, 0, views(left_lines@), left_pos as int),
        pane_shows(old(rows)@, 1, views(base_lines@), base_pos as int),
        pane_shows(old(rows)@, 2, views(right_lines@), right_pos as int),
        no_empty_rows(old(rows)@),
    ensures
        pane_shows(final(rows)@, 0, views(left_lines@), left_pos + count),
        pane_shows(final(rows)@, 1, views(base_lines@), base_pos + count),
        pane_shows(final(rows)@, 2, views(right_lines@), right_pos + count),
        no_empty_rows(final(rows)@),
        final(rows)@.len() == old(rows)@.len() + count,
        final(rows)@.take(old(rows)@.len() as int) == old(rows)@,
        forall|i: int| old(rows)@.len() <= i < final(rows)@.len() ==> (#[trigger] final(rows)@[i]).status == ThreeWayStatus::Equal,
        forall|i: int| old(rows)@.len() <= i < final(rows)@.len() ==> (#[trigger] final(rows)@[i]).base_line_no
            == Some((base_pos + (i - old(rows)@.len()) + 1) as u32)
            && final(rows)@[i].left_line_no == Some((left_pos + (i - old(rows)@.len()) + 1) as u32)
            && final(rows)@[i].right_line_no == Some((right_pos + (i - old(rows)@.len()) + 1) as u32),
        forall|i: int| old(rows)@.len() <= i < final(rows)@.len() ==> (#[trigger] final(rows)@[i]).base_text@
            == views(base_lines@)[base_pos + (i - old(rows)@.len())]
            && final(rows)@[i].left_text@ == views(left_lines@)[left_pos + (i - old(rows)@.len())]
            && final(rows)@[i].right_text@ == views(right_lines@)[right_pos + (i - old(rows)@.len())],
{
    let ghost start = rows@;
    let mut k: usize = 0;
    while k < count
        invariant
            k <= count,
            base_pos + count <= base_lines@.len() < u32::MAX,
            left_pos + count <= left_lines@.len() < u32::MAX,
            right_pos + count <= right_lines@.len() < u32::MAX,
            pane_shows(rows@, 0, views(left_lines@), left_pos + k),
            pane_shows(rows@, 1, views(base_lines@), base_pos + k),
            pane_shows(rows@, 2, views(right_lines@), right_pos + k),
            no_empty_rows(rows@),
            rows@.len() == start.len() + k,
            rows@.take(start.len() as int) == start,
            forall|i: int| start.len() <= i < rows@.len() ==> (#[trigger] rows@[i]).status == ThreeWayStatus::Equal,
            forall|i: int| start.len() <= i < rows@.len() ==> (#[trigger] rows@[i]).base_line_no
                == Some((base_pos + (i - start.len()) + 1) as u32)
                && rows@[i].left_line_no == Some((left_pos + (i - start.len()) + 1) as u32)
                && rows@[i].right_line_no == Some((right_pos + (i - start.len()) + 1) as u32),
            forall|i: int| start.len() <= i < rows@.len() ==> (#[trigger] rows@[i]).base_text@
                == views(base_lines@)[base_pos + (i - start.len())]
                && rows@[i].left_text@ == views(left_lines@)[left_pos + (i - start.len())]
                && rows@[i].right_text@ == views(right_lines@)[right_pos + (i - start.len())],
        decreases count - k,
    {
        let l = left_pos + k;
        let b = base_pos + k;
        let r = right_pos + k;
        let row = ThreeWayLine {
            left_text: line_or_empty(left_lines, l),
            base_text: line_or_empty(base_lines, b),
            right_text: line_or_empty(right_lines, r),
            status: ThreeWayStatus::Equal,
            left_line_no: Some(l as u32 + 1),
            base_line_no: Some(b as u32 + 1),
            right_line_no: Some(r as u32 + 1),
        };
        let ghost before = rows@;
        proof {
            lemma_pane_step(before, row, 0, views(left_lines@), l as int);
            lemma_pane_step(before, row, 1, views(base_lines@), b as int);
            lemma_pane_step(before, row, 2, views(right_lines@), r as int);
        }
        rows.push(row);
        proof {
            assert(rows@ == before.push(row));
            assert(rows@.take(start.len() as int) =~= before.take(start.len() as int));
        }
        k = k + 1;
    }
}


/// Appends the rows of one block: row `j` shows line `start + j` of each pane
/// that still has lines in the block and a ghost cell in the others.
fn push_block_rows(
    rows: &mut Vec<ThreeWayLine>,
    base_lines: &Vec<String>,
    left_lines: &Vec<String>,
    right_lines: &Vec<String>,
    block: &DiffBlock,
)
    requires
        block_ok(*block),
        block.base_end <= base_lines@.len() < u32::MAX,
        block.left_end <= left_lines@.len() < u32::MAX,
        block.right_end <= right_lines@.len() < u32::MAX,
        pane_shows(old(rows)@, 0, views(left_lines@), block.left_start as int),
        pane_shows(old(rows)@, 1, views(base_lines@), block.base_start as int),
        pane_shows(old(rows)@, 2, views(right_lines@), block.right_start as int),
        no_empty_rows(old(rows)@),
    ensures
        pane_shows(final(rows)@, 0, views(left_lines@), block.left_end as int),
        pane_shows(final(rows)@, 1, views(base_lines@), block.base_end as int),
        pane_shows(final(rows)@, 2, views(right_lines@), block.right_end as int),
        no_empty_rows(final(rows)@),
        final(rows)@.len() > old(rows)@.len(),
        final(rows)@.take(old(rows)@.len() as int) == old(rows)@,
        forall|i: int| old(rows)@.len() <= i < final(rows)@.len() ==> (#[trigger] final(rows)@[i]).status == block.status,
{
    let left_count = block.left_end - block.left_start;
    let base_count = block.base_end - block.base_start;
    let right_count = block.right_end - block.right_start;
    let mut max_lines = if left_count > base_count { left_count } else { base_count };
    if right_count > max_lines {
        max_lines = right_count;
    }
    let ghost start = rows@;
    let mut j: usize = 0;
    while j < max_lines
        invariant
            j <= max_lines,
            max_lines >= left_count && max_lines >= base_count && max_lines >= right_count,
            max_lines > 0,
            max_lines == left_count || max_lines == base_count || max_lines == right_count,
            left_count == block.left_end - block.left_start,
            base_count == block.base_end - block.base_start,
            right_count == block.right_end - block.right_start,
            block_ok(*block),
            block.base_end <= base_lines@.len() < u32::MAX,
            block.left_end <= left_lines@.len() < u32::MAX,
            block.right_end <= right_lines@.len() < u32::MAX,
            pane_shows(rows@, 0, views(left_lines@), block.left_start + if j < left_count { j as int } else { left_count as int }),
            pane_shows(rows@, 1, views(base_lines@), block.base_start + if j < base_count { j as int } else { base_count as int }),
            pane_shows(rows@, 2, views(right_lines@), block.right_start + if j < right_count { j as int } else { right_count as int }),
            no_empty_rows(rows@),
            rows@.len() == start.len() + j,
            rows@.take(start.len() as int) == start,
            forall|i: int| start.len() <= i < rows@.len() ==> (#[trigger] rows@[i]).status == block.status,
        decreases max_lines - j,
    {
        let (lt, l_no) = if j < left_count {
            let idx = block.left_start + j;
            (line_or_empty(left_lines, idx), Some(idx as u32 + 1))
        } else {
            (String::new(), None)
        };
        let (bt, b_no) = if j < base_count {
            let idx = block.base_start + j;
            (line_or_empty(base_lines, idx), Some(idx as u32 + 1))
        } else {
            (String::new(), None)
        };
        let (rt, r_no) = if j < right_count {
            let idx = block.right_start + j;
            (line_or_empty(right_lines, idx), Some(idx as u32 + 1))
        } else {
            (String::new(), None)
        };
        let row = ThreeWayLine {
            left_text: lt,
            base_text: bt,
            right_text: rt,
            status: block.status,
            left_line_no: l_no,
            base_line_no: b_no,
            right_line_no: r_no,
        };
        let ghost before = rows@;
        assert(j < left_count || j < base_count || j < right_count);
        proof {
            if j < left_count {
                lemma_pane_step(before, row, 0, views(left_lines@), block.left_start + j);
            } else {
                lemma_pane_ghost(before, row, 0, views(left_lines@), block.left_start + left_count);
            }
            if j < base_count {
                lemma_pane_step(before, row, 1, views(base_lines@), block.base_start + j);
            } else {
                lemma_pane_ghost(before, row, 1, views(base_lines@), block.base_start + base_count);
            }
            if j < right_count {
                lemma_pane_step(before, row, 2, views(right_lines@), block.right_start + j);
            } else {
                lemma_pane_ghost(before, row, 2, views(right_lines@), block.right_start + right_count);
            }
        }
        rows.push(row);
        proof {
            assert(rows@ == before.push(row));
            assert(rows@.take(start.len() as int) =~= before.take(start.len() as int));
            assert forall|i: int| 0 <= i < rows@.len() implies (#[trigger] rows@[i]).left_line_no is Some || rows@[i].base_line_no
                is Some || rows@[i].right_line_no is Some by {
                if i < before.len() { assert(rows@[i] == before[i]); }
            }
        }
        j = j + 1;
    }
}

proof fn lemma_prefix_same(a: Seq<ThreeWayLine>, b: Seq<ThreeWayLine>, i: int)
    requires
        b.take(a.len() as int) == a,
        0 <= i < a.len(),
        a.len() <= b.len(),
    ensures
        b[i] == a[i],
{
    assert(b.take(a.len() as int)[i] == b[i]);
}

proof fn lemma_conflicts_prefix(a: Seq<ThreeWayLine>, b: Seq<ThreeWayLine>, pos: Seq<usize>)
    requires
        b.take(a.len() as int) == a,
        a.len() <= b.len(),
        forall|k: int| 0 <= k < pos.len() ==> #[trigger] pos[k] < a.len(),
    ensures
        conflicts_at(b, pos) == conflicts_at(a, pos),
    decreases pos.len(),
{
    if pos.len() > 0 {
        assert(pos.drop_last().len() < pos.len());
        assert forall|k: int| 0 <= k < pos.drop_last().len() implies #[trigger] pos.drop_last()[k] < a.len() by {
            assert(pos.drop_last()[k] == pos[k]);
        }
        lemma_conflicts_prefix(a, b, pos.drop_last());
        assert(pos[pos.len() - 1] < a.len());
        lemma_prefix_same(a, b, pos.last() as int);
    }
}

proof fn lemma_run_start_prefix(a: Seq<ThreeWayLine>, b: Seq<ThreeWayLine>, i: int)
    requires
        b.take(a.len() as int) == a,
        a.len() <= b.len(),
        0 <= i < a.len(),
    ensures
        is_run_start(b, i) == is_run_start(a, i),
{
    lemma_prefix_same(a, b, i);
    if i > 0 {
        lemma_prefix_same(a, b, i - 1);
    }
}

/// Appending unchanged rows keeps the marked run starts.
proof fn lemma_runs_extend_equal(a: Seq<ThreeWayLine>, b: Seq<ThreeWayLine>, pos: Seq<usize>)
    requires
        marks_run_starts(a, pos),
        b.take(a.len() as int) == a,
        a.len() <= b.len(),
        forall|i: int| a.len() <= i < b.len() ==> (#[trigger] b[i]).status == ThreeWayStatus::Equal,
    ensures
        marks_run_starts(b, pos),
{
    assert forall|i: int| 0 <= i < b.len() && #[trigger] is_run_start(b, i) implies pos.contains(i as usize) by {
        if i >= a.len() {
            assert(b[i].status == ThreeWayStatus::Equal);
        } else {
            lemma_run_start_prefix(a, b, i);
            assert(is_run_start(a, i));
        }
    }
    assert forall|k: int| 0 <= k < pos.len() implies #[trigger] pos[k] < b.len() && is_run_start(b, pos[k] as int) by {
        assert(pos[k] < a.len() && is_run_start(a, pos[k] as int));
        lemma_run_start_prefix(a, b, pos[k] as int);
    }
}

/// Appending a block right after an unchanged row (or at the top) adds its
/// first row as a run start.
proof fn lemma_runs_extend_block(a: Seq<ThreeWayLine>, b: Seq<ThreeWayLine>, pos: Seq<usize>, st: ThreeWayStatus)
    requires
        marks_run_starts(a, pos),
        b.take(a.len() as int) == a,
        a.len() < b.len(),
        forall|i: int| a.len() <= i < b.len() ==> (#[trigger] b[i]).status == st,
        st != ThreeWayStatus::Equal,
        a.len() == 0 || a.last().status == ThreeWayStatus::Equal,
        b.len() <= usize::MAX,
    ensures
        marks_run_starts(b, pos.push(a.len() as usize)),
{
    let np = pos.push(a.len() as usize);
    assert(np[pos.len() as int] == a.len() as usize);
    assert(b[a.len() as int].status == st);
    if a.len() > 0 {
        lemma_prefix_same(a, b, a.len() - 1);
    }
    assert(is_run_start(b, a.len() as int));
    assert forall|i: int| 0 <= i < b.len() && #[trigger] is_run_start(b, i) implies np.contains(i as usize) by {
        if i > a.len() {
            assert(b[i - 1].status == st);
        } else if i == a.len() {
            assert(np[pos.len() as int] == i as usize);
        } else {
            lemma_run_start_prefix(a, b, i);
            assert(is_run_start(a, i));
            assert(pos.contains(i as usize));
            let k = choose|k: int| 0 <= k < pos.len() && pos[k] == i as usize;
            assert(np[k] == i as usize);
        }
    }
    assert forall|k: int| 0 <= k < np.len() implies #[trigger] np[k] < b.len() && is_run_start(b, np[k] as int) by {
        if k < pos.len() {
            assert(np[k] == pos[k]);
            assert(pos[k] < a.len() && is_run_start(a, pos[k] as int));
            lemma_run_start_prefix(a, b, pos[k] as int);
        } else {
            assert(np[k] == a.len() as usize);
        }
    }
    assert forall|k: int, j: int| 0 <= k < j < np.len() implies np[k] < np[j] by {
        assert(np[k] == pos[k]);
        assert(pos[k] < a.len() && is_run_start(a, pos[k] as int));
        if j < pos.len() {
            assert(np[j] == pos[j]);
        } else {
            assert(np[j] == a.len() as usize);
        }
    }
}

/// Builds the aligned rows from the blocks: unchanged rows between blocks and
/// each block padded with ghost cells to its tallest pane.
fn build_result_lines(
    blocks: &Vec<DiffBlock>,
    base_lines: &Vec<String>,
    left_lines: &Vec<String>,
    right_lines: &Vec<String>,
) -> (result: ThreeWayResult)
    requires
        blocks_chain(blocks@, prev_base(blocks@, blocks@.len() as int),
            prev_left(blocks@, blocks@.len() as int), prev_right(blocks@, blocks@.len() as int)),
        prev_base(blocks@, blocks@.len() as int) <= base_lines@.len(),
        left_lines@.len() - prev_left(blocks@, blocks@.len() as int) == base_lines@.len() - prev_base(blocks@, blocks@.len() as int),
        right_lines@.len() - prev_right(blocks@, blocks@.len() as int) == base_lines@.len() - prev_base(blocks@, blocks@.len() as int),
        forall|i: int| 0 <= i < blocks@.len() ==> (#[trigger] blocks@[i]).left_end <= left_lines@.len()
            && blocks@[i].right_end <= right_lines@.len() && blocks@[i].base_end <= base_lines@.len(),
        base_lines@.len() < u32::MAX,
        left_lines@.len() < u32::MAX,
        right_lines@.len() < u32::MAX,
    ensures
        pane_lines(result.lines@, 0) == views(left_lines@),
        pane_lines(result.lines@, 1) == views(base_lines@),
        pane_lines(result.lines@, 2) == views(right_lines@),
        pane_numbers(result.lines@, 0) == line_numbers(left_lines@.len() as int),
        pane_numbers(result.lines@, 1) == line_numbers(base_lines@.len() as int),
        pane_numbers(result.lines@, 2) == line_numbers(right_lines@.len() as int),
        no_empty_rows(result.lines@),
        marks_run_starts(result.lines@, result.conflict_positions@),
        result.conflict_count == conflicts_at(result.lines@, result.conflict_positions@),
        result.conflict_positions@.len() == blocks@.len(),
        forall|k: int| 0 <= k < blocks@.len() ==> run_is_block(result.lines@,
            #[trigger] result.conflict_positions@[k] as int, blocks@[k]),
        uniform_rows(result.lines@),
        all_gap_rows(result.lines@, blocks@, base_lines@.len() as int),
        equal_rows_show(result.lines@, views(base_lines@), views(left_lines@), views(right_lines@)),
{
    let ghost mut ends: Seq<int> = Seq::empty();
    let mut result_lines: Vec<ThreeWayLine> = Vec::new();
    let mut conflict_positions: Vec<usize> = Vec::new();
    let mut conflict_count: u32 = 0;
    let mut base_pos: usize = 0;
    let mut left_pos: usize = 0;
    let mut right_pos: usize = 0;
    let mut bi: usize = 0;
    proof {
        assert(pane_lines(result_lines@, 0) =~= views(left_lines@).take(0));
        assert(pane_lines(result_lines@, 1) =~= views(base_lines@).take(0));
        assert(pane_lines(result_lines@, 2) =~= views(right_lines@).take(0));
        assert(pane_numbers(result_lines@, 0) =~= line_numbers(0));
        assert(pane_numbers(result_lines@, 1) =~= line_numbers(0));
        assert(pane_numbers(result_lines@, 2) =~= line_numbers(0));
        if blocks@.len() > 0 {
            assert(block_placed(blocks@, blocks@.len() - 1));
            assert(block_ok(blocks@[blocks@.len() - 1]));
        }
        lemma_start_placed(result_lines@, conflict_positions@, ends, blocks@);
        lemma_gap_start(result_lines@, blocks@, base_lines@.len() as int);
        lemma_show_start(result_lines@, views(base_lines@), views(left_lines@), views(right_lines@));
    }
    while bi < blocks.len()
        invariant
            blocks_chain(blocks@, prev_base(blocks@, blocks@.len() as int),
                prev_left(blocks@, blocks@.len() as int), prev_right(blocks@, blocks@.len() as int)),
            forall|i: int| 0 <= i < blocks@.len() ==> (#[trigger] blocks@[i]).left_end <= left_lines@.len()
                && blocks@[i].right_end <= right_lines@.len() && blocks@[i].base_end <= base_lines@.len(),
            blocks@.len() <= base_lines@.len() + 1,
            base_lines@.len() < u32::MAX,
            left_lines@.len() < u32::MAX,
            right_lines@.len() < u32::MAX,
            bi <= blocks@.len(),
            base_pos == prev_base(blocks@, bi as int),
            left_pos == prev_left(blocks@, bi as int),
            right_pos == prev_right(blocks@, bi as int),
            pane_shows(result_lines@, 0, views(left_lines@), left_pos as int),
            pane_shows(result_lines@, 1, views(base_lines@), base_pos as int),
            pane_shows(result_lines@, 2, views(right_lines@), right_pos as int),
            no_empty_rows(result_lines@),
            marks_run_starts(result_lines@, conflict_positions@),
            conflict_positions@.len() == bi,
            conflict_count == conflicts_at(result_lines@, conflict_positions@),
            conflict_count <= bi,
            bi == 0 ==> result_lines@.len() == 0,
            bi > 0 ==> result_lines@.len() > 0 && result_lines@.last().status != ThreeWayStatus::Equal,
            ends.len() == bi,
            all_placed(result_lines@, conflict_positions@, ends, blocks@, bi as int),
            uniform_rows(result_lines@),
            all_gap_rows(result_lines@, blocks@, base_lines@.len() as int),
            equal_rows_show(result_lines@, views(base_lines@), views(left_lines@), views(right_lines@)),
        decreases blocks@.len() - bi,
    {
        let block = blocks[bi];
        proof {
            assert(block_placed(blocks@, bi as int));
            assert(block_ok(block));
        }
        let ghost rows0 = result_lines@;
        // Unchanged rows before this block.
        let gap = block.base_start - base_pos;
        if gap > 0 {
            push_equal_rows(&mut result_lines, base_lines, left_lines, right_lines, base_pos, left_pos, right_pos, gap);
            proof {
                lemma_runs_extend_equal(rows0, result_lines@, conflict_positions@);
                lemma_conflicts_prefix(rows0, result_lines@, conflict_positions@);
                lemma_equal_rows_ext(rows0, result_lines@, conflict_positions@, ends, blocks@, bi as int);
                lemma_gap_equal_ext(rows0, result_lines@, blocks@, base_lines@.len() as int, bi as int,
                    base_pos as int, left_pos as int, right_pos as int);
                lemma_show_equal_ext(rows0, result_lines@, views(base_lines@), views(left_lines@), views(right_lines@),
                    base_pos as int, left_pos as int, right_pos as int);
            }
        }
        let ghost rows1 = result_lines@;
        proof {
            if gap > 0 {
                assert(rows1.last() == rows1[rows1.len() - 1]);
            }
        }
        let block_start_row = result_lines.len();
        proof {
            assert(bi > 0 ==> gap > 0);
            assert(bi > 0 ==> rows1.len() > rows0.len());
            lemma_placed_ends(rows0, conflict_positions@, ends, blocks@, bi as int);
        }
        push_block_rows(&mut result_lines, base_lines, left_lines, right_lines, &block);
        proof {
            lemma_uniform_ext(rows1, result_lines@, block.status);
            lemma_all_placed_block(rows1, result_lines@, conflict_positions@, ends, blocks@, bi as int, rows0.len() as int);
            lemma_gap_block_ext(rows1, result_lines@, blocks@, base_lines@.len() as int, block.status);
            lemma_show_block_ext(rows1, result_lines@, views(base_lines@), views(left_lines@), views(right_lines@), block.status);
            lemma_placed_new(rows1, result_lines@, block, views(left_lines@), views(base_lines@), views(right_lines@));
        }
        assert(result_lines@.len() <= usize::MAX) by { assert(result_lines.len() <= usize::MAX); }
        proof {
            lemma_runs_extend_block(rows1, result_lines@, conflict_positions@, block.status);
            assert forall|k: int| 0 <= k < conflict_positions@.len() implies #[trigger] conflict_positions@[k] < rows1.len() by {}
            lemma_conflicts_prefix(rows1, result_lines@, conflict_positions@);
        }
        let ghost pos0 = conflict_positions@;
        conflict_positions.push(block_start_row);
        if block.status == ThreeWayStatus::Conflict {
            conflict_count = conflict_count + 1;
        }
        proof {
            assert(conflict_positions@.drop_last() == pos0);
            assert(result_lines@[block_start_row as int].status == block.status);
            assert(result_lines@.last() == result_lines@[result_lines@.len() - 1]);
        }
        proof {
            lemma_all_placed_push(result_lines@, pos0, ends, blocks@, bi as int, block_start_row, result_lines@.len() as int);
            ends = ends.push(result_lines@.len() as int);
        }
        base_pos = block.base_end;
        left_pos = block.left_end;
        right_pos = block.right_end;
        bi = bi + 1;
    }
    // Trailing unchanged rows.
    let ghost rows2 = result_lines@;
    let tail = base_lines.len() - base_pos;
    if tail > 0 {
        push_equal_rows(&mut result_lines, base_lines, left_lines, right_lines, base_pos, left_pos, right_pos, tail);
        proof {
            lemma_runs_extend_equal(rows2, result_lines@, conflict_positions@);
            lemma_conflicts_prefix(rows2, result_lines@, conflict_positions@);
            lemma_equal_rows_ext(rows2, result_lines@, conflict_positions@, ends, blocks@, bi as int);
            lemma_gap_equal_ext(rows2, result_lines@, blocks@, base_lines@.len() as int, bi as int,
                base_pos as int, left_pos as int, right_pos as int);
            lemma_show_equal_ext(rows2, result_lines@, views(base_lines@), views(left_lines@), views(right_lines@),
                base_pos as int, left_pos as int, right_pos as int);
        }
    }
    proof {
        lemma_all_is_block(result_lines@, conflict_positions@, ends, blocks@);
    }
    proof {
        assert(views(left_lines@).take(left_lines@.len() as int) =~= views(left_lines@));
        assert(views(base_lines@).take(base_lines@.len() as int) =~= views(base_lines@));
        assert(views(right_lines@).take(right_lines@.len() as int) =~= views(right_lines@));
    }
    ThreeWayResult { lines: result_lines, conflict_count, conflict_positions }
}


/// What a line-diff operation did.
#[derive(Debug, Clone, Copy, PartialEq, Eq, Structural)]
pub enum OpKind {
    Equal,
    Delete,
    Insert,
    Replace,
}

/// One operation of a two-way line diff: old lines `old_start..old_end`
/// against new lines `new_start..new_end`.
#[derive(Debug, Clone, Copy)]
pub struct LineOp {
    pub kind: OpKind,
    pub old_start: usize,
    pub old_end: usize,
    pub new_start: usize,
    pub new_end: usize,
}

/// The operations `similar` computes for a Myers line diff of `old` against `new`.
pub uninterp spec fn similar_line_ops(old: Seq<char>, new: Seq<char>) -> Seq<LineOp>;

/// The shape `DiffOp::as_tag_tuple` documents for one operation: ordered
/// ranges, equal runs as long on both sides, an empty new range for a deletion
/// and an empty old range for an insertion.
pub open spec fn op_shape_ok(op: LineOp) -> bool {
    &&& op.old_start <= op.old_end
    &&& op.new_start <= op.new_end
    &&& (op.kind == OpKind::Equal ==> op.old_end - op.old_start == op.new_end - op.new_start)
    &&& (op.kind == OpKind::Delete ==> op.new_start == op.new_end)
    &&& (op.kind == OpKind::Insert ==> op.old_start == op.old_end)
}

/// The operations walk both token lists from the start, each one beginning
/// where the previous one ended.
pub open spec fn ops_chain(ops: Seq<LineOp>) -> bool {
    &&& forall|i: int| 0 <= i < ops.len() ==> op_shape_ok(#[trigger] ops[i])
    &&& (ops.len() > 0 ==> ops[0].old_start == 0 && ops[0].new_start == 0)
    &&& forall|i: int| 0 < i < ops.len() ==> (#[trigger] ops[i]).old_start == ops[i - 1].old_end
        && ops[i].new_start == ops[i - 1].new_end
}

/// Runs `similar::TextDiff::from_lines(old, new)` (Myers, no deadline) and
/// returns its `ops()` with their ranges, which index similar's line tokens of
/// the two texts. The result is named; beside that the contract states the
/// shape of each operation (as `as_tag_tuple` documents it) and that the
/// operations follow each other from the start of both texts (in the source,
/// the algorithm reports them in order through `Capture`). It does not state
/// how many tokens similar splits a text into, nor which lines an equal
/// operation pairs.
#[verifier::external_body]
fn diff_line_ops(old: &str, new: &str) -> (ops: Vec<LineOp>)
    ensures
        ops@ == similar_line_ops(old@, new@),
        ops_chain(ops@),
{
    similar::TextDiff::from_lines(old, new).ops().iter().map(|op| LineOp {
        kind: match op.tag() {
            similar::DiffTag::Equal => OpKind::Equal,
            similar::DiffTag::Delete => OpKind::Delete,
            similar::DiffTag::Insert => OpKind::Insert,
            similar::DiffTag::Replace => OpKind::Replace,
        },
        old_start: op.old_range().start,
        old_end: op.old_range().end,
        new_start: op.new_range().start,
        new_end: op.new_range().end,
    }).collect()
}

/// The changed (non-equal) operations of a diff, as hunks.
pub open spec fn hunks_of(ops: Seq<LineOp>) -> Seq<Hunk>
    decreases ops.len(),
{
    if ops.len() == 0 {
        Seq::empty()
    } else {
        let rest = hunks_of(ops.drop_last());
        let op = ops.last();
        if op.kind == OpKind::Equal {
            rest
        } else {
            rest.push(Hunk { old_start: op.old_start, old_end: op.old_end, new_start: op.new_start, new_end: op.new_end })
        }
    }
}

/// Keeps the non-equal operations as hunks.
pub fn extract_hunks(ops: &Vec<LineOp>) -> (hunks: Vec<Hunk>)
    ensures
        hunks@ == hunks_of(ops@),
{
    let mut hunks: Vec<Hunk> = Vec::new();
    let mut i: usize = 0;
    while i < ops.len()
        invariant
            i <= ops@.len(),
            hunks@ == hunks_of(ops@.take(i as int)),
        decreases ops@.len() - i,
    {
        let op = ops[i];
        assert(ops@.take(i + 1).drop_last() =~= ops@.take(i as int));
        if op.kind != OpKind::Equal {
            hunks.push(Hunk { old_start: op.old_start, old_end: op.old_end, new_start: op.new_start, new_end: op.new_end });
        }
        i = i + 1;
    }
    assert(ops@.take(ops@.len() as int) =~= ops@);
    hunks
}

/// The whole file as one change (nothing when both sides are empty).
pub open spec fn whole_file_hunks(n_old: usize, n_new: usize) -> Seq<Hunk> {
    if n_old == 0 && n_new == 0 {
        Seq::empty()
    } else {
        seq![Hunk { old_start: 0, old_end: n_old, new_start: 0, new_end: n_new }]
    }
}

/// Every base line that no hunk changes equals the file line it falls on.
pub open spec fn hunks_match(hs: Seq<Hunk>, old: Seq<Seq<char>>, new: Seq<Seq<char>>) -> bool {
    forall|x: int| 0 <= x < old.len() && !covers(hs, x) ==> 0 <= #[trigger] file_end(hs, x) < new.len()
        && old[x] == new[file_end(hs, x)]
}

/// The hunks a diff is merged from: those of `ops` when they describe a diff
/// of the `old` lines against the `new` lines (ordered, in range, and with the
/// unchanged lines equal), otherwise the whole file as one change.
pub open spec fn usable_hunks(ops: Seq<LineOp>, old: Seq<Seq<char>>, new: Seq<Seq<char>>) -> Seq<Hunk> {
    if hunks_wf(hunks_of(ops), old.len() as int, new.len() as int) && hunks_match(hunks_of(ops), old, new) {
        hunks_of(ops)
    } else {
        whole_file_hunks(old.len() as usize, new.len() as usize)
    }
}

proof fn lemma_hunks_chain(hs: Seq<Hunk>, n_old: int, n_new: int, i: int, j: int)
    requires
        hunks_wf(hs, n_old, n_new),
        0 <= i < j < hs.len(),
    ensures
        hs[i].old_end <= hs[j].old_start,
    decreases j - i,
{
    assert(hunk_follows(hs, j));
    if i < j - 1 {
        lemma_hunks_chain(hs, n_old, n_new, i, j - 1);
        assert(hunk_ok(hs[j - 1]));
    }
}

/// Checks `hunks_match` for hunks that describe a diff of the two line lists.
fn check_match(hs: &Vec<Hunk>, old: &Vec<String>, new: &Vec<String>) -> (ok: bool)
    requires
        hunks_wf(hs@, old@.len() as int, new@.len() as int),
        old@.len() < u32::MAX,
        new@.len() < u32::MAX,
    ensures
        ok == hunks_match(hs@, views(old@), views(new@)),
{
    let ghost h = hs@;
    let ghost vo = views(old@);
    let ghost vn = views(new@);
    let mut c: usize = 0;
    let mut x: usize = 0;
    while x < old.len()
        invariant
            h == hs@,
            vo == views(old@),
            vn == views(new@),
            hunks_wf(h, old@.len() as int, new@.len() as int),
            old@.len() < u32::MAX,
            new@.len() < u32::MAX,
            x <= old@.len(),
            c <= h.len(),
            forall|j: int| 0 <= j < c ==> (#[trigger] h[j]).old_start < x,
            c < h.len() ==> h[c as int].old_start >= x,
            forall|y: int| 0 <= y < x && !covers(h, y) ==> 0 <= #[trigger] file_end(h, y) < vn.len() && vo[y]
                == vn[file_end(h, y)],
        decreases old@.len() - x,
    {
        while c < hs.len() && hs[c].old_start <= x
            invariant
                h == hs@,
                c <= h.len(),
                forall|j: int| 0 <= j < c ==> (#[trigger] h[j]).old_start <= x,
            decreases h.len() - c,
        {
            c = c + 1;
        }
        proof {
            assert forall|j: int| 0 <= j < c implies (#[trigger] h[j]).old_start < x + 1 by {}
            assert forall|j: int| c <= j < h.len() implies (#[trigger] h[j]).old_start >= x + 1 by {
                lemma_hunks_sorted(h, old@.len() as int, new@.len() as int, c as int, j);
            }
            lemma_hunks_before_split(h, x + 1, c as int);
            if c > 0 {
                lemma_hunk_bounds(h, old@.len() as int, new@.len() as int, c - 1);
                assert(hunk_ok(h[c - 1]));
            }
        }
        let covered = c > 0 && hs[c - 1].old_end > x;
        proof {
            if covered {
                assert(h[c - 1].old_start <= x && x < h[c - 1].old_end);
            } else if covers(h, x as int) {
                let j = choose|j: int| 0 <= j < h.len() && (#[trigger] h[j]).old_start <= x && x < h[j].old_end;
                if j >= c {
                    lemma_hunks_sorted(h, old@.len() as int, new@.len() as int, c as int, j);
                } else if j < c - 1 {
                    lemma_hunks_chain(h, old@.len() as int, new@.len() as int, j, c - 1);
                }
            }
        }
        if !covered {
            let l: i128 = if c == 0 {
                x as i128
            } else {
                (x as i128) + (hs[c - 1].new_end as i128) - (hs[c - 1].old_end as i128)
            };
            assert(l == file_end(h, x as int));
            if l < 0 || l >= new.len() as i128 {
                return false;
            }
            let li = l as usize;
            assert(vo[x as int] == old@[x as int]@);
            assert(vn[li as int] == new@[li as int]@);
            if old[x] != new[li] {
                return false;
            }
        }
        x = x + 1;
    }
    true
}

fn make_usable(hunks: Vec<Hunk>, old: &Vec<String>, new: &Vec<String>) -> (r: Vec<Hunk>)
    requires
        old@.len() < u32::MAX,
        new@.len() < u32::MAX,
    ensures
        r@ == usable_hunks_of(hunks@, views(old@), views(new@)),
        hunks_wf(r@, old@.len() as int, new@.len() as int),
        hunks_match(r@, views(old@), views(new@)),
{
    let n_old = old.len();
    let n_new = new.len();
    if check_hunks(&hunks, n_old, n_new) && check_match(&hunks, old, new) {
        hunks
    } else {
        let mut r: Vec<Hunk> = Vec::new();
        if !(n_old == 0 && n_new == 0) {
            r.push(Hunk { old_start: 0, old_end: n_old, new_start: 0, new_end: n_new });
        }
        assert(r@ =~= whole_file_hunks(n_old, n_new));
        if r.len() > 0 {
            assert(hunk_ok(r@[0]));
        }
        assert forall|x: int| 0 <= x < views(old@).len() && !covers(r@, x) implies 0 <= #[trigger] file_end(r@, x)
            < views(new@).len() && views(old@)[x] == views(new@)[file_end(r@, x)] by {
            assert(r@[0].old_start <= x && x < r@[0].old_end);
        }
        r
    }
}

/// `hs` when it describes a diff of `old` against `new`, otherwise the whole
/// file as one change.
pub open spec fn usable_hunks_of(hs: Seq<Hunk>, old: Seq<Seq<char>>, new: Seq<Seq<char>>) -> Seq<Hunk> {
    if hunks_wf(hs, old.len() as int, new.len() as int) && hunks_match(hs, old, new) {
        hs
    } else {
        whole_file_hunks(old.len() as usize, new.len() as usize)
    }
}

/// The run of changed rows from row `s` is a changed region: its status is
/// the one `region_status` gives for the lines it spans in each pane, and
/// every base line it spans is changed by a hunk of either side.
pub open spec fn run_follows_hunks(
    rows: Seq<ThreeWayLine>,
    s: int,
    lh: Seq<Hunk>,
    rh: Seq<Hunk>,
    ll: Seq<Seq<char>>,
    rl: Seq<Seq<char>>,
) -> bool {
    let e = run_end(rows, s);
    let bs = lines_before(rows, s, 1);
    let be = lines_before(rows, e, 1);
    &&& rows[s].status == region_status(lh, rh, ll, rl, bs, be, lines_before(rows, s, 0),
        lines_before(rows, e, 0), lines_before(rows, s, 2), lines_before(rows, e, 2))
    &&& forall|x: int| bs <= x < be ==> covers(lh, x) || covers(rh, x)
    &&& lines_before(rows, s, 0) == file_start(lh, bs)
    &&& lines_before(rows, e, 0) == file_end(lh, be)
    &&& lines_before(rows, s, 2) == file_start(rh, bs)
    &&& lines_before(rows, e, 2) == file_end(rh, be)
}

/// An equal row holds one line of each pane: a base line that no hunk of
/// either side changes, beside the left and right lines it falls on after
/// the hunks before it.
pub open spec fn equal_row_follows(row: ThreeWayLine, lh: Seq<Hunk>, rh: Seq<Hunk>) -> bool {
    row.status == ThreeWayStatus::Equal ==> {
        &&& row.base_line_no is Some
        &&& row.left_line_no is Some
        &&& row.right_line_no is Some
        &&& !covers(lh, (row.base_line_no->0) - 1)
        &&& !covers(rh, (row.base_line_no->0) - 1)
        &&& (row.left_line_no->0) - 1 == file_end(lh, (row.base_line_no->0) - 1)
        &&& (row.right_line_no->0) - 1 == file_end(rh, (row.base_line_no->0) - 1)
    }
}

/// Every equal row shows the same text in all three panes.
pub open spec fn equal_rows_agree(rows: Seq<ThreeWayLine>) -> bool {
    forall|i: int| 0 <= i < rows.len() && (#[trigger] rows[i]).status == ThreeWayStatus::Equal
        ==> rows[i].left_text@ == rows[i].base_text@ && rows[i].right_text@ == rows[i].base_text@
}

/// Hunk `h` lies within the base lines of one of the runs starting at `pos`.
pub open spec fn hunk_in_runs(h: Hunk, rows: Seq<ThreeWayLine>, pos: Seq<usize>) -> bool {
    exists|k: int| 0 <= k < pos.len() && hunk_within(h, lines_before(rows, #[trigger] pos[k] as int, 1),
        lines_before(rows, run_end(rows, pos[k] as int), 1))
}

/// The statuses of the rows follow the two hunk lists: adjacent changed rows
/// agree, each run of changed rows (starting at `pos`) is a changed region
/// that starts and ends in each pane where the hunks put it, with the status
/// its hunks give (only left: left changed; only right: right
/// changed; both: the same change when the two sides' lines agree, else a
/// conflict), runs are apart by at least one unchanged base line, every
/// hunk lies within a run, and every equal row holds an unchanged base line
/// beside the left and right lines it falls on.
pub open spec fn statuses_follow_hunks(
    rows: Seq<ThreeWayLine>,
    pos: Seq<usize>,
    lh: Seq<Hunk>,
    rh: Seq<Hunk>,
    ll: Seq<Seq<char>>,
    rl: Seq<Seq<char>>,
) -> bool {
    &&& runs_uniform(rows)
    &&& forall|k: int| 0 <= k < pos.len() ==> run_follows_hunks(rows, #[trigger] pos[k] as int, lh, rh, ll, rl)
    &&& forall|k: int| 0 < k < pos.len() ==> lines_before(rows, run_end(rows, pos[k - 1] as int), 1)
        < lines_before(rows, #[trigger] pos[k] as int, 1)
    &&& forall|j: int| 0 <= j < lh.len() ==> hunk_in_runs(#[trigger] lh[j], rows, pos)
    &&& forall|j: int| 0 <= j < rh.len() ==> hunk_in_runs(#[trigger] rh[j], rows, pos)
    &&& forall|i: int| 0 <= i < rows.len() ==> equal_row_follows(#[trigger] rows[i], lh, rh)
}

proof fn lemma_blocks_order(bs: Seq<DiffBlock>, i: int, j: int)
    requires
        forall|x: int| 0 <= x < bs.len() ==> block_ok(#[trigger] bs[x]),
        forall|x: int| 0 <= x < bs.len() ==> #[trigger] block_placed(bs, x),
        0 <= i < j < bs.len(),
    ensures
        bs[i].base_end < bs[j].base_start,
    decreases j - i,
{
    assert(block_placed(bs, j));
    assert(block_ok(bs[j - 1]));
    if i < j - 1 {
        lemma_blocks_order(bs, i, j - 1);
    }
}

/// A base line in the gap before block `k` is changed by no hunk, and the
/// hunks starting up to it are those starting up to the gap's start.
proof fn lemma_gap_side(hs: Seq<Hunk>, bs: Seq<DiffBlock>, k: int, b: int, nbs: int)
    requires
        forall|x: int| 0 <= x < bs.len() ==> block_ok(#[trigger] bs[x]),
        forall|x: int| 0 <= x < bs.len() ==> #[trigger] block_placed(bs, x),
        forall|j: int| 0 <= j < hs.len() ==> hunk_in_blocks(#[trigger] hs[j], bs),
        forall|j: int| 0 <= j < hs.len() ==> hunk_ok(#[trigger] hs[j]),
        0 <= k <= bs.len(),
        prev_base(bs, k) <= b < nbs,
        k < bs.len() ==> nbs == bs[k].base_start,
    ensures
        !covers(hs, b),
        k == 0 ==> hunks_before(hs, b + 1) == 0,
        k > 0 ==> hunks_before(hs, b + 1) == hunks_before(hs, prev_base(bs, k) + 1),
{
    reveal(hunk_in_blocks);
    let p = if k == 0 { 0 } else { prev_base(bs, k) + 1 };
    assert forall|j: int| 0 <= j < hs.len() implies !(p <= (#[trigger] hs[j]).old_start < b + 1) by {
        assert(hunk_in_blocks(hs[j], bs));
        assert(hunk_ok(hs[j]));
        let m = choose|m: int| 0 <= m < bs.len() && hunk_within(hs[j], (#[trigger] bs[m]).base_start as int, bs[m].base_end as int);
        if p <= hs[j].old_start < b + 1 {
            if m < k {
                if m < k - 1 {
                    lemma_blocks_order(bs, m, k - 1);
                    assert(block_ok(bs[k - 1]));
                }
            } else {
                if m > k {
                    lemma_blocks_order(bs, k, m);
                    assert(block_ok(bs[k]));
                }
            }
        }
    }
    lemma_hunks_before_same(hs, p, b + 1);
    if k == 0 {
        lemma_hunks_before_split(hs, 0, 0);
    }
    if covers(hs, b) {
        let j = choose|j: int| 0 <= j < hs.len() && (#[trigger] hs[j]).old_start <= b && b < hs[j].old_end;
        assert(hunk_in_blocks(hs[j], bs));
        let m = choose|m: int| 0 <= m < bs.len() && hunk_within(hs[j], (#[trigger] bs[m]).base_start as int, bs[m].base_end as int);
        if m < k {
            if m < k - 1 {
                lemma_blocks_order(bs, m, k - 1);
                assert(block_ok(bs[k - 1]));
            }
        } else {
            if m > k {
                lemma_blocks_order(bs, k, m);
                assert(block_ok(bs[k]));
            }
        }
    }
}

proof fn lemma_gap_row_follows(
    row: ThreeWayLine,
    bs: Seq<DiffBlock>,
    k: int,
    n_base: int,
    lh: Seq<Hunk>,
    rh: Seq<Hunk>,
    ll: Seq<Seq<char>>,
    rl: Seq<Seq<char>>,
)
    requires
        gap_row(row, bs, k, n_base),
        0 <= k <= bs.len(),
        forall|x: int| 0 <= x < bs.len() ==> block_ok(#[trigger] bs[x]),
        forall|x: int| 0 <= x < bs.len() ==> #[trigger] block_placed(bs, x),
        forall|x: int| 0 <= x < bs.len() ==> block_from_hunks(#[trigger] bs[x], lh, rh, ll, rl),
        forall|j: int| 0 <= j < lh.len() ==> hunk_in_blocks(#[trigger] lh[j], bs),
        forall|j: int| 0 <= j < rh.len() ==> hunk_in_blocks(#[trigger] rh[j], bs),
        forall|j: int| 0 <= j < lh.len() ==> hunk_ok(#[trigger] lh[j]),
        forall|j: int| 0 <= j < rh.len() ==> hunk_ok(#[trigger] rh[j]),
    ensures
        equal_row_follows(row, lh, rh),
{
    reveal(block_from_hunks);
    let b = (row.base_line_no->0) - 1;
    let nbs = if k < bs.len() { bs[k].base_start as int } else { n_base };
    lemma_gap_side(lh, bs, k, b, nbs);
    lemma_gap_side(rh, bs, k, b, nbs);
    if k > 0 {
        assert(block_from_hunks(bs[k - 1], lh, rh, ll, rl));
    }
}

proof fn lemma_equal_rows_follow(
    rows: Seq<ThreeWayLine>,
    bs: Seq<DiffBlock>,
    n_base: int,
    lh: Seq<Hunk>,
    rh: Seq<Hunk>,
    ll: Seq<Seq<char>>,
    rl: Seq<Seq<char>>,
)
    requires
        forall|i: int| 0 <= i < bs.len() ==> block_from_hunks(#[trigger] bs[i], lh, rh, ll, rl),
        forall|j: int| 0 <= j < lh.len() ==> hunk_in_blocks(#[trigger] lh[j], bs),
        forall|j: int| 0 <= j < rh.len() ==> hunk_in_blocks(#[trigger] rh[j], bs),
        forall|i: int| 0 <= i < bs.len() ==> #[trigger] block_placed(bs, i),
        forall|i: int| 0 <= i < bs.len() ==> block_ok(#[trigger] bs[i]),
        all_gap_rows(rows, bs, n_base),
        forall|j: int| 0 <= j < lh.len() ==> hunk_ok(#[trigger] lh[j]),
        forall|j: int| 0 <= j < rh.len() ==> hunk_ok(#[trigger] rh[j]),
    ensures
        forall|i: int| 0 <= i < rows.len() ==> equal_row_follows(#[trigger] rows[i], lh, rh),
{
    reveal(all_gap_rows);
    assert forall|i: int| 0 <= i < rows.len() implies equal_row_follows(#[trigger] rows[i], lh, rh) by {
        if rows[i].status == ThreeWayStatus::Equal {
            let k = choose|k: int| 0 <= k <= bs.len() && gap_row(rows[i], bs, k, n_base);
            lemma_gap_row_follows(rows[i], bs, k, n_base, lh, rh, ll, rl);
        }
    }
}

proof fn lemma_rows_agree(
    rows: Seq<ThreeWayLine>,
    lh: Seq<Hunk>,
    rh: Seq<Hunk>,
    vb: Seq<Seq<char>>,
    vl: Seq<Seq<char>>,
    vr: Seq<Seq<char>>,
)
    requires
        equal_rows_show(rows, vb, vl, vr),
        forall|i: int| 0 <= i < rows.len() ==> equal_row_follows(#[trigger] rows[i], lh, rh),
        hunks_match(lh, vb, vl),
        hunks_match(rh, vb, vr),
    ensures
        equal_rows_agree(rows),
{
    reveal(equal_rows_show);
    assert forall|i: int| 0 <= i < rows.len() && (#[trigger] rows[i]).status == ThreeWayStatus::Equal
        implies rows[i].left_text@ == rows[i].base_text@ && rows[i].right_text@ == rows[i].base_text@ by {
        assert(equal_row_follows(rows[i], lh, rh));
        let b = (rows[i].base_line_no->0) - 1;
        assert(0 <= file_end(lh, b) < vl.len());
        assert(0 <= file_end(rh, b) < vr.len());
    }
}

proof fn lemma_rows_follow_hunks(
    rows: Seq<ThreeWayLine>,
    pos: Seq<usize>,
    bs: Seq<DiffBlock>,
    n_base: int,
    lh: Seq<Hunk>,
    rh: Seq<Hunk>,
    ll: Seq<Seq<char>>,
    rl: Seq<Seq<char>>,
)
    requires
        pos.len() == bs.len(),
        forall|k: int| 0 <= k < bs.len() ==> run_is_block(rows, #[trigger] pos[k] as int, bs[k]),
        uniform_rows(rows),
        forall|i: int| 0 <= i < bs.len() ==> block_from_hunks(#[trigger] bs[i], lh, rh, ll, rl),
        forall|j: int| 0 <= j < lh.len() ==> hunk_in_blocks(#[trigger] lh[j], bs),
        forall|j: int| 0 <= j < rh.len() ==> hunk_in_blocks(#[trigger] rh[j], bs),
        forall|i: int| 0 <= i < bs.len() ==> #[trigger] block_placed(bs, i),
        forall|i: int| 0 <= i < bs.len() ==> block_ok(#[trigger] bs[i]),
        all_gap_rows(rows, bs, n_base),
        forall|j: int| 0 <= j < lh.len() ==> hunk_ok(#[trigger] lh[j]),
        forall|j: int| 0 <= j < rh.len() ==> hunk_ok(#[trigger] rh[j]),
    ensures
        statuses_follow_hunks(rows, pos, lh, rh, ll, rl),
{
    lemma_equal_rows_follow(rows, bs, n_base, lh, rh, ll, rl);
    lemma_uniform_rows(rows);
    lemma_runs_follow(rows, pos, bs, lh, rh, ll, rl);
    lemma_runs_cover(rows, pos, bs, lh);
    lemma_runs_cover(rows, pos, bs, rh);
    assert forall|k: int| 0 < k < pos.len() implies lines_before(rows, run_end(rows, pos[k - 1] as int), 1)
        < lines_before(rows, #[trigger] pos[k] as int, 1) by {
        assert(run_is_block(rows, pos[k - 1] as int, bs[k - 1]));
        assert(run_is_block(rows, pos[k] as int, bs[k]));
        assert(block_placed(bs, k));
    }
}

proof fn lemma_runs_follow(
    rows: Seq<ThreeWayLine>,
    pos: Seq<usize>,
    bs: Seq<DiffBlock>,
    lh: Seq<Hunk>,
    rh: Seq<Hunk>,
    ll: Seq<Seq<char>>,
    rl: Seq<Seq<char>>,
)
    requires
        pos.len() == bs.len(),
        forall|k: int| 0 <= k < bs.len() ==> run_is_block(rows, #[trigger] pos[k] as int, bs[k]),
        forall|i: int| 0 <= i < bs.len() ==> block_from_hunks(#[trigger] bs[i], lh, rh, ll, rl),
    ensures
        forall|k: int| 0 <= k < pos.len() ==> run_follows_hunks(rows, #[trigger] pos[k] as int, lh, rh, ll, rl),
{
    reveal(block_from_hunks);
    assert forall|k: int| 0 <= k < pos.len() implies run_follows_hunks(rows, #[trigger] pos[k] as int, lh, rh, ll, rl) by {
        assert(run_is_block(rows, pos[k] as int, bs[k]));
        assert(block_from_hunks(bs[k], lh, rh, ll, rl));
    }
}

proof fn lemma_runs_cover(rows: Seq<ThreeWayLine>, pos: Seq<usize>, bs: Seq<DiffBlock>, hs: Seq<Hunk>)
    requires
        pos.len() == bs.len(),
        forall|k: int| 0 <= k < bs.len() ==> run_is_block(rows, #[trigger] pos[k] as int, bs[k]),
        forall|j: int| 0 <= j < hs.len() ==> hunk_in_blocks(#[trigger] hs[j], bs),
    ensures
        forall|j: int| 0 <= j < hs.len() ==> hunk_in_runs(#[trigger] hs[j], rows, pos),
{
    reveal(hunk_in_blocks);
    assert forall|j: int| 0 <= j < hs.len() implies hunk_in_runs(#[trigger] hs[j], rows, pos) by {
        assert(hunk_in_blocks(hs[j], bs));
        let k = choose|k: int| 0 <= k < bs.len() && hunk_within(hs[j], (#[trigger] bs[k]).base_start as int, bs[k].base_end as int);
        assert(run_is_block(rows, pos[k] as int, bs[k]));
    }
}

/// The three-way rows for base, left and right lines, given the base-to-left
/// and base-to-right hunks.
pub fn three_way_from_hunks(
    base_lines: &Vec<String>,
    left_lines: &Vec<String>,
    right_lines: &Vec<String>,
    left_hunks: &Vec<Hunk>,
    right_hunks: &Vec<Hunk>,
) -> (result: ThreeWayResult)
    requires
        hunks_wf(left_hunks@, base_lines@.len() as int, left_lines@.len() as int),
        hunks_wf(right_hunks@, base_lines@.len() as int, right_lines@.len() as int),
        base_lines@.len() < u32::MAX,
        left_lines@.len() < u32::MAX,
        right_lines@.len() < u32::MAX,
    ensures
        pane_lines(result.lines@, 0) == views(left_lines@),
        pane_lines(result.lines@, 1) == views(base_lines@),
        pane_lines(result.lines@, 2) == views(right_lines@),
        pane_numbers(result.lines@, 0) == line_numbers(left_lines@.len() as int),
        pane_numbers(result.lines@, 1) == line_numbers(base_lines@.len() as int),
        pane_numbers(result.lines@, 2) == line_numbers(right_lines@.len() as int),
        no_empty_rows(result.lines@),
        marks_run_starts(result.lines@, result.conflict_positions@),
        result.conflict_count == conflicts_at(result.lines@, result.conflict_positions@),
        statuses_follow_hunks(result.lines@, result.conflict_positions@, left_hunks@, right_hunks@,
            views(left_lines@), views(right_lines@)),
        hunks_match(left_hunks@, views(base_lines@), views(left_lines@)) && hunks_match(right_hunks@,
            views(base_lines@), views(right_lines@)) ==> equal_rows_agree(result.lines@),
{
    let blocks = merge_hunks(left_hunks, right_hunks, base_lines.len(), left_lines, right_lines);
    let result = build_result_lines(&blocks, base_lines, left_lines, right_lines);
    proof {
        lemma_rows_follow_hunks(result.lines@, result.conflict_positions@, blocks@, base_lines@.len() as int, left_hunks@, right_hunks@,
            views(left_lines@), views(right_lines@));
        if hunks_match(left_hunks@, views(base_lines@), views(left_lines@)) && hunks_match(right_hunks@,
            views(base_lines@), views(right_lines@)) {
            lemma_rows_agree(result.lines@, left_hunks@, right_hunks@, views(base_lines@), views(left_lines@),
                views(right_lines@));
        }
    }
    result
}

/// Three-way diff of `left` and `right` against their common `base`
/// (WinMerge's Make3wayDiff): two line diffs against the base, merged. Each
/// pane shows its text's lines in order; each run of changed rows takes its
/// status from the hunks of the two diffs that lie in it (see
/// `statuses_follow_hunks`), every equal row shows the same line in all
/// three panes, and the conflict count is the number of runs that are
/// conflicts. Rebuilding a pane of a text without carriage returns that is
/// empty or ends with a line feed gives the text back. The two line diffs
/// are used only when their hunks describe the
/// texts' lines (`usable_hunks`); otherwise a side counts as changed whole.
pub fn compute_three_way_diff(base_text: &str, left_text: &str, right_text: &str) -> (result: ThreeWayResult)
    requires
        text_lines(base_text@).len() < u32::MAX,
        text_lines(left_text@).len() < u32::MAX,
        text_lines(right_text@).len() < u32::MAX,
    ensures
        pane_lines(result.lines@, 0) == text_lines(left_text@),
        pane_lines(result.lines@, 1) == text_lines(base_text@),
        pane_lines(result.lines@, 2) == text_lines(right_text@),
        pane_numbers(result.lines@, 0) == line_numbers(text_lines(left_text@).len() as int),
        pane_numbers(result.lines@, 1) == line_numbers(text_lines(base_text@).len() as int),
        pane_numbers(result.lines@, 2) == line_numbers(text_lines(right_text@).len() as int),
        no_empty_rows(result.lines@),
        marks_run_starts(result.lines@, result.conflict_positions@),
        result.conflict_count == conflicts_at(result.lines@, result.conflict_positions@),
        statuses_follow_hunks(
            result.lines@,
            result.conflict_positions@,
            usable_hunks(similar_line_ops(base_text@, left_text@), text_lines(base_text@), text_lines(left_text@)),
            usable_hunks(similar_line_ops(base_text@, right_text@), text_lines(base_text@), text_lines(right_text@)),
            text_lines(left_text@),
            text_lines(right_text@),
        ),
        equal_rows_agree(result.lines@),
        plain_text(left_text@) ==> join_lines_nl(pane_lines(result.lines@, 0)) == left_text@,
        plain_text(base_text@) ==> join_lines_nl(pane_lines(result.lines@, 1)) == base_text@,
        plain_text(right_text@) ==> join_lines_nl(pane_lines(result.lines@, 2)) == right_text@,
{
    let base_lines = split_lines(base_text);
    let left_lines = split_lines(left_text);
    let right_lines = split_lines(right_text);
    proof {
        assert(views(base_lines@).len() == base_lines@.len());
        assert(views(left_lines@).len() == left_lines@.len());
        assert(views(right_lines@).len() == right_lines@.len());
    }
    let left_hunks = make_usable(extract_hunks(&diff_line_ops(base_text, left_text)), &base_lines, &left_lines);
    let right_hunks = make_usable(extract_hunks(&diff_line_ops(base_text, right_text)), &base_lines, &right_lines);
    let ghost lh = usable_hunks(similar_line_ops(base_text@, left_text@), text_lines(base_text@), text_lines(left_text@));
    let ghost rh = usable_hunks(similar_line_ops(base_text@, right_text@), text_lines(base_text@), text_lines(right_text@));
    assert(left_hunks@ == lh);
    assert(right_hunks@ == rh);
    let result = three_way_from_hunks(&base_lines, &left_lines, &right_lines, &left_hunks, &right_hunks);
    assert(statuses_follow_hunks(result.lines@, result.conflict_positions@, lh, rh, text_lines(left_text@),
        text_lines(right_text@)));
    proof {
        if plain_text(left_text@) {
            crate::text::lemma_join_text_lines(left_text@);
        }
        if plain_text(base_text@) {
            crate::text::lemma_join_text_lines(base_text@);
        }
        if plain_text(right_text@) {
            crate::text::lemma_join_text_lines(right_text@);
        }
    }
    result
}

/// A text without carriage returns that is empty or ends with a line feed.
pub open spec fn plain_text(s: Seq<char>) -> bool {
    &&& forall|i: int| 0 <= i < s.len() ==> s[i] != '\r'
    &&& (s.len() == 0 || s.last() == '\n')
}

/// The real lines of one pane (0 = left, 1 = base, other = right), each
/// followed by a line feed.
pub fn rebuild_pane_text(lines: &Vec<ThreeWayLine>, pane: i32) -> (text: String)
    ensures
        text@ == join_lines_nl(pane_lines(lines@, if pane == 0 { 0int } else if pane == 1 { 1int } else { 2int })),
{
    let ghost p: int = if pane == 0 { 0int } else if pane == 1 { 1int } else { 2int };
    let mut out = String::new();
    let mut i: usize = 0;
    while i < lines.len()
        invariant
            i <= lines@.len(),
            p == if pane == 0 { 0int } else if pane == 1 { 1int } else { 2int },
            out@ == join_lines_nl(pane_lines(lines@.take(i as int), p)),
        decreases lines@.len() - i,
    {
        let line = &lines[i];
        assert(lines@.take(i + 1).drop_last() =~= lines@.take(i as int));
        assert(lines@.take(i + 1).last() == lines@[i as int]);
        let (no, text) = if pane == 0 {
            (line.left_line_no, &line.left_text)
        } else if pane == 1 {
            (line.base_line_no, &line.base_text)
        } else {
            (line.right_line_no, &line.right_text)
        };
        if no.is_some() {
            let ghost prev = pane_lines(lines@.take(i as int), p);
            push_str(&mut out, text.as_str());
            push_char(&mut out, '\n');
            assert(pane_lines(lines@.take(i + 1), p) == prev.push(text@));
            assert(prev.push(text@).drop_last() =~= prev);
        }
        i = i + 1;
    }
    assert(lines@.take(lines@.len() as int) =~= lines@);
    out
}

/// Pane-text preservation: for texts without carriage returns that are empty
/// or end with a line feed, rebuilding each pane of their three-way diff
/// gives back exactly that text.
pub proof fn lemma_three_way_panes_round_trip(text: Seq<char>, rows: Seq<ThreeWayLine>, pane: int)
    requires
        pane_lines(rows, pane) == text_lines(text),
        forall|i: int| 0 <= i < text.len() ==> text[i] != '\r',
        text.len() == 0 || text.last() == '\n',
    ensures
        join_lines_nl(pane_lines(rows, pane)) == text,
{
    crate::text::lemma_join_text_lines(text);
}

} // verus!
