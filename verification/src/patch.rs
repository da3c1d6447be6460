//! Applying an exported unified diff: the hunks' row ranges, and the left
//! lines with the hunks' new lines put in.
use vstd::prelude::*;
use crate::models::{DiffLine, LineStatus};
use crate::pane_buffer::rows_well_formed;
use crate::export::{CONTEXT_LINES, changes_end, hunk_text, hunks_from, is_change, lemma_changes_end, min_i};

verus! {

/// The row ranges `[a, b)` of the hunks from row `i` on (see `hunks_from`).
pub open spec fn hunk_ranges(lines: Seq<DiffLine>, i: int) -> Seq<(int, int)>
    decreases lines.len() - i,
{
    if i >= lines.len() || i < 0 {
        Seq::empty()
    } else if !is_change(lines, i) {
        hunk_ranges(lines, i + 1)
    } else {
        let a = if i >= CONTEXT_LINES { i - CONTEXT_LINES } else { 0 };
        let b = min_i(changes_end(lines, i) + CONTEXT_LINES, lines.len() as int);
        proof {
            lemma_changes_end(lines, i);
        }
        seq![(a, b)] + hunk_ranges(lines, b)
    }
}

/// The texts of the hunks over the given row ranges, in order.
pub open spec fn hunk_texts(lines: Seq<DiffLine>, rs: Seq<(int, int)>) -> Seq<char>
    decreases rs.len(),
{
    if rs.len() == 0 {
        Seq::empty()
    } else {
        hunk_text(lines, rs[0].0, rs[0].1) + hunk_texts(lines, rs.drop_first())
    }
}

/// Row `j` lies in one of the ranges.
pub open spec fn in_ranges(rs: Seq<(int, int)>, j: int) -> bool {
    exists|k: int| 0 <= k < rs.len() && (#[trigger] rs[k]).0 <= j < rs[k].1
}

/// The lines a row stands for on the left: its left text where it has a left line.
pub open spec fn old_side(l: DiffLine) -> Seq<Seq<char>> {
    if l.left_line_no is Some { seq![l.left_text@] } else { Seq::empty() }
}

/// The lines a row of a hunk puts in place of its old ones: the context
/// text of an equal row, else the right text where it has a right line
/// (the ` ` and `+` lines of `hunk_line`).
pub open spec fn new_side(l: DiffLine) -> Seq<Seq<char>> {
    if l.status == LineStatus::Equal {
        seq![l.left_text@]
    } else if l.right_line_no is Some {
        seq![l.right_text@]
    } else {
        Seq::empty()
    }
}

/// The left lines of the first `n` rows with the hunks `rs` applied: rows
/// inside a hunk give its new lines, the others keep their left lines.
pub open spec fn patched(lines: Seq<DiffLine>, rs: Seq<(int, int)>, n: int) -> Seq<Seq<char>>
    decreases n,
{
    if n <= 0 {
        Seq::empty()
    } else {
        patched(lines, rs, n - 1) + if in_ranges(rs, n - 1) { new_side(lines[n - 1]) } else { old_side(lines[n - 1]) }
    }
}

/// The texts of one side (left or right) of the first `n` rows, where the
/// row has a line on that side.
pub open spec fn side_lines(lines: Seq<DiffLine>, n: int, left: bool) -> Seq<Seq<char>>
    decreases n,
{
    if n <= 0 {
        Seq::empty()
    } else {
        let l = lines[n - 1];
        let no = if left { l.left_line_no } else { l.right_line_no };
        side_lines(lines, n - 1, left) + if no is Some {
            seq![if left { l.left_text@ } else { l.right_text@ }]
        } else {
            Seq::empty()
        }
    }
}

proof fn lemma_ranges_text(lines: Seq<DiffLine>, i: int)
    requires
        0 <= i,
    ensures
        hunks_from(lines, i) == hunk_texts(lines, hunk_ranges(lines, i)),
    decreases lines.len() - i,
{
    if i < lines.len() {
        if !is_change(lines, i) {
            lemma_ranges_text(lines, i + 1);
        } else {
            lemma_changes_end(lines, i);
            let a = if i >= CONTEXT_LINES { i - CONTEXT_LINES } else { 0 };
            let b = min_i(changes_end(lines, i) + CONTEXT_LINES, lines.len() as int);
            lemma_ranges_text(lines, b);
            let rs = seq![(a, b)] + hunk_ranges(lines, b);
            assert(rs.drop_first() =~= hunk_ranges(lines, b));
            assert(rs[0] == (a, b));
        }
    }
}

proof fn lemma_ranges_cover(lines: Seq<DiffLine>, i: int, j: int)
    requires
        0 <= i <= j < lines.len(),
        is_change(lines, j),
    ensures
        in_ranges(hunk_ranges(lines, i), j),
    decreases lines.len() - i,
{
    if !is_change(lines, i) {
        lemma_ranges_cover(lines, i + 1, j);
    } else {
        lemma_changes_end(lines, i);
        let a = if i >= CONTEXT_LINES { i - CONTEXT_LINES } else { 0 };
        let b = min_i(changes_end(lines, i) + CONTEXT_LINES, lines.len() as int);
        let rest = hunk_ranges(lines, b);
        let rs = seq![(a, b)] + rest;
        assert(hunk_ranges(lines, i) == rs);
        if j < b {
            assert(rs[0].0 <= j < rs[0].1);
        } else {
            lemma_ranges_cover(lines, b, j);
            let k = choose|k: int| 0 <= k < rest.len() && (#[trigger] rest[k]).0 <= j < rest[k].1;
            assert(rs[k + 1] == rest[k]);
        }
    }
}

proof fn lemma_patched(lines: Seq<DiffLine>, rs: Seq<(int, int)>, n: int)
    requires
        0 <= n <= lines.len(),
        rows_well_formed(lines),
        forall|j: int| 0 <= j < lines.len() && (#[trigger] lines[j]).status == LineStatus::Equal
            ==> lines[j].left_text@ == lines[j].right_text@,
        forall|j: int| 0 <= j < lines.len() && is_change(lines, j) ==> #[trigger] in_ranges(rs, j),
    ensures
        patched(lines, rs, n) == side_lines(lines, n, false),
    decreases n,
{
    if n > 0 {
        lemma_patched(lines, rs, n - 1);
        let l = lines[n - 1];
        if l.status != LineStatus::Equal {
            assert(is_change(lines, n - 1));
            assert(in_ranges(rs, n - 1));
        }
    }
}

/// A unified diff applies: its text is the hunks over `hunk_ranges`, every
/// changed row lies in one of those hunks, and replacing each hunk's rows by
/// its new lines (its ` ` and `+` lines) turns the left lines into the right
/// lines, for well-formed rows whose equal rows show the same text on both
/// sides.
pub proof fn lemma_unified_patch_applies(lines: Seq<DiffLine>)
    requires
        rows_well_formed(lines),
        forall|j: int| 0 <= j < lines.len() && (#[trigger] lines[j]).status == LineStatus::Equal
            ==> lines[j].left_text@ == lines[j].right_text@,
    ensures
        hunks_from(lines, 0) == hunk_texts(lines, hunk_ranges(lines, 0)),
        forall|j: int| 0 <= j < lines.len() && is_change(lines, j) ==> #[trigger] in_ranges(hunk_ranges(lines, 0), j),
        patched(lines, hunk_ranges(lines, 0), lines.len() as int) == side_lines(lines, lines.len() as int, false),
{
    lemma_ranges_text(lines, 0);
    assert forall|j: int| 0 <= j < lines.len() && is_change(lines, j) implies #[trigger] in_ranges(hunk_ranges(lines, 0), j) by {
        lemma_ranges_cover(lines, 0, j);
    }
    lemma_patched(lines, hunk_ranges(lines, 0), lines.len() as int);
}

} // verus!
