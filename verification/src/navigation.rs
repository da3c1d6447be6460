//! Moving between differences, conflicts, search matches, bookmarks and lines.
use vstd::prelude::*;
use crate::text::{str_chars, push_str, str_to_string};
use crate::numfmt::{push_dec, dec};
use crate::view::{parse_i32, parse_i32_spec};
use crate::pane_buffer::{PaneBuffer, PaneLineData};

verus! {

/// The next (or previous) of `count` items from `current`, going round at
/// either end.
pub open spec fn cycled(count: int, current: int, forward: bool) -> int {
    if forward {
        if current < count - 1 { current + 1 } else { 0 }
    } else if current > 0 {
        current - 1
    } else {
        count - 1
    }
}

/// Steps to the next (or previous) difference, conflict, match or bookmark
/// among `count`, going round at either end; `None` when there are none.
pub fn step_index(count: usize, current: i32, forward: bool) -> (r: Option<i32>)
    requires
        count <= i32::MAX,
        -1 <= current <= count,
    ensures
        count == 0 ==> r is None,
        count > 0 ==> r == Some(cycled(count as int, current as int, forward) as i32),
        r matches Some(k) ==> 0 <= k < count,
{
    if count == 0 {
        return None;
    }
    let n = count as i32;
    Some(if forward {
        if current < n - 1 { current + 1 } else { 0 }
    } else if current > 0 {
        current - 1
    } else {
        n - 1
    })
}

/// The status of the row at `pos`: the left pane's when it shows a line
/// there, else the right pane's, else none.
pub open spec fn row_status_at(left: Option<PaneBuffer>, right: Option<PaneBuffer>, pos: int) -> Option<i32> {
    if left is Some && 0 <= pos < left->0.model@.len() && !left->0.model@[pos].is_ghost {
        Some(left->0.model@[pos].status)
    } else if right is Some && 0 <= pos < right->0.model@.len() && !right->0.model@[pos].is_ghost {
        Some(right->0.model@[pos].status)
    } else {
        None
    }
}

/// The order in which differences are tried from `start` among `n`:
/// forward the ones after it then round from the first up to it; backward
/// the ones before it (nearest first) then round from the last down to it.
pub open spec fn candidate_order(n: int, start: int, forward: bool) -> Seq<int> {
    if forward {
        index_run(start + 1, n - 1 - start, true) + index_run(0, start + 1, true)
    } else {
        index_run(start - 1, start, false) + index_run(n - 1, n - start, false)
    }
}

/// `len` indices from `from`, counting up or down.
pub open spec fn index_run(from: int, len: int, up: bool) -> Seq<int> {
    Seq::new(len as nat, |k: int| if up { from + k } else { from - k })
}

/// The first candidate whose row has status `s`.
pub open spec fn first_with_status(
    cands: Seq<int>,
    positions: Seq<usize>,
    left: Option<PaneBuffer>,
    right: Option<PaneBuffer>,
    s: i32,
) -> Option<int>
    decreases cands.len(),
{
    if cands.len() == 0 {
        None
    } else if row_status_at(left, right, positions[cands[0]] as int) == Some(s) {
        Some(cands[0])
    } else {
        first_with_status(cands.drop_first(), positions, left, right, s)
    }
}

fn status_at(left: &Option<PaneBuffer>, right: &Option<PaneBuffer>, pos: usize) -> (r: Option<i32>)
    ensures
        r == row_status_at(*left, *right, pos as int),
{
    if let Some(b) = left {
        if pos < b.model.len() && !b.model[pos].is_ghost {
            return Some(b.model[pos].status);
        }
    }
    if let Some(b) = right {
        if pos < b.model.len() && !b.model[pos].is_ghost {
            return Some(b.model[pos].status);
        }
    }
    None
}

proof fn lemma_first_split(
    a: Seq<int>,
    b: Seq<int>,
    positions: Seq<usize>,
    left: Option<PaneBuffer>,
    right: Option<PaneBuffer>,
    s: i32,
)
    ensures
        first_with_status(a + b, positions, left, right, s) == match first_with_status(a, positions, left, right, s) {
            Some(k) => Some(k),
            None => first_with_status(b, positions, left, right, s),
        },
    decreases a.len(),
{
    if a.len() > 0 {
        assert((a + b).drop_first() =~= a.drop_first() + b);
        assert((a + b)[0] == a[0]);
        lemma_first_split(a.drop_first(), b, positions, left, right, s);
    } else {
        assert(a + b =~= b);
    }
}

/// Searches the candidates `lo + k` (k from 0, increasing or decreasing)
/// for a row with status `s`.
fn scan_range(
    positions: &Vec<usize>,
    left: &Option<PaneBuffer>,
    right: &Option<PaneBuffer>,
    from: i32,
    len: i32,
    up: bool,
    s: i32,
) -> (r: Option<i32>)
    requires
        0 <= len,
        up ==> 0 <= from && from + len <= positions@.len(),
        !up ==> from - len + 1 >= 0 && from < positions@.len(),
        positions@.len() <= i32::MAX,
    ensures
        r == (match first_with_status(index_run(from as int, len as int, up), positions@, *left, *right, s) {
            Some(k) => Some(k as i32),
            None => None,
        }),
{
    let ghost cands = index_run(from as int, len as int, up);
    assert(cands.skip(0) =~= cands);
    let mut k: i32 = 0;
    while k < len
        invariant
            0 <= k <= len,
            positions@.len() <= i32::MAX,
            up ==> 0 <= from && from + len <= positions@.len(),
            !up ==> from - len + 1 >= 0 && from < positions@.len(),
            cands == index_run(from as int, len as int, up),
            first_with_status(cands, positions@, *left, *right, s) == first_with_status(cands.skip(k as int), positions@, *left, *right, s),
        decreases len - k,
    {
        let idx = if up { from + k } else { from - k };
        let ghost rest = cands.skip(k as int);
        assert(rest[0] == idx as int);
        assert(rest.drop_first() =~= cands.skip(k + 1));
        let st = status_at(left, right, positions[idx as usize]);
        if let Some(v) = st {
            if v == s {
                return Some(idx);
            }
        }
        k = k + 1;
    }
    assert(cands.skip(len as int) =~= Seq::<int>::empty());
    None
}

/// The difference of status `s` (1 added, 2 removed, 3 modified, 4 moved)
/// nearest after (or before) the current one, going round; `None` when no
/// difference has that status.
pub fn find_diff_with_status(
    positions: &Vec<usize>,
    left: &Option<PaneBuffer>,
    right: &Option<PaneBuffer>,
    current: i32,
    forward: bool,
    s: i32,
) -> (r: Option<i32>)
    requires
        positions@.len() <= i32::MAX,
        positions@.len() > 0 ==> 0 <= current < positions@.len(),
    ensures
        positions@.len() == 0 ==> r is None,
        positions@.len() > 0 ==> r == (match first_with_status(candidate_order(positions@.len() as int, current as int, forward), positions@, *left, *right, s) {
            Some(k) => Some(k as i32),
            None => None,
        }),
{
    let n = positions.len() as i32;
    if n == 0 {
        return None;
    }
    let ghost order = candidate_order(n as int, current as int, forward);
    if forward {
        proof {
            lemma_first_split(index_run(current + 1, n - 1 - current, true), index_run(0, current + 1, true), positions@, *left, *right, s);
        }
        match scan_range(positions, left, right, current + 1, n - 1 - current, true, s) {
            Some(k) => Some(k),
            None => scan_range(positions, left, right, 0, current + 1, true, s),
        }
    } else {
        proof {
            lemma_first_split(index_run(current - 1, current as int, false), index_run(n - 1, n - current, false), positions@, *left, *right, s);
        }
        match scan_range(positions, left, right, current - 1, current, false, s) {
            Some(k) => Some(k),
            None => scan_range(positions, left, right, n - 1, n - current, false, s),
        }
    }
}

/// The message when no difference has the status looked for.
pub fn no_more_message(s: i32) -> (m: String)
    ensures
        m@ == "No more "@ + (if s == 1 { "Added"@ } else if s == 2 { "Removed"@ } else if s == 3 { "Modified"@ } else if s == 4 {
            "Moved"@
        } else {
            "status"@
        }) + " diffs"@,
{
    let mut m = str_to_string("No more ");
    push_str(&mut m, if s == 1 { "Added" } else if s == 2 { "Removed" } else if s == 3 { "Modified" } else if s == 4 { "Moved" } else { "status" });
    push_str(&mut m, " diffs");
    m
}

/// "<what> <k + 1> of <total>", the status line of a position among others.
pub fn position_message(what: &str, index: i32, total: usize) -> (m: String)
    requires
        0 <= index < total,
    ensures
        m@ == what@ + " "@ + dec((index + 1) as nat) + " of "@ + dec(total as nat),
{
    let mut m = str_to_string(what);
    push_str(&mut m, " ");
    push_dec(&mut m, index as u64 + 1);
    push_str(&mut m, " of ");
    push_dec(&mut m, total as u64);
    m
}

/// The first real row of a pane that shows line number `line`, with its block.
pub open spec fn line_row_in(m: Seq<PaneLineData>, line: i32) -> Option<(usize, i32)>
    decreases m.len(),
{
    if m.len() == 0 {
        None
    } else {
        match line_row_in(m.drop_last(), line) {
            Some(r) => Some(r),
            None => if !m.last().is_ghost && parse_i32_spec(m.last().line_no@) == Some(line) {
                Some(((m.len() - 1) as usize, m.last().diff_index))
            } else {
                None
            },
        }
    }
}

fn find_line_row(b: &PaneBuffer, line: i32) -> (r: Option<(usize, i32)>)
    ensures
        r == line_row_in(b.model@, line),
{
    let mut i: usize = 0;
    while i < b.model.len()
        invariant
            i <= b.model@.len(),
            line_row_in(b.model@.take(i as int), line) is None,
        decreases b.model@.len() - i,
    {
        assert(b.model@.take(i + 1).drop_last() =~= b.model@.take(i as int));
        if !b.model[i].is_ghost {
            let chars = str_chars(b.model[i].line_no.as_str());
            let parsed = parse_i32(&chars);
            let hit = match parsed {
                Some(v) => v == line,
                None => false,
            };
            if hit {
                proof {
                    assert(b.model@.take(i + 1).last() == b.model@[i as int]);
                    assert(line_row_in(b.model@.take(i + 1), line) == Some((i, b.model@[i as int].diff_index)));
                    lemma_line_row_prefix(b.model@, i as int + 1, line);
                    assert(line_row_in(b.model@, line) == Some((i, b.model@[i as int].diff_index)));
                }
                return Some((i, b.model[i].diff_index));
            }
        }
        i = i + 1;
    }
    assert(b.model@.take(b.model@.len() as int) =~= b.model@);
    None
}

proof fn lemma_line_row_prefix(m: Seq<PaneLineData>, n: int, line: i32)
    requires
        0 <= n <= m.len(),
        line_row_in(m.take(n), line) is Some,
    ensures
        line_row_in(m, line) == line_row_in(m.take(n), line),
    decreases m.len() - n,
{
    if n < m.len() {
        assert(m.take(n + 1).drop_last() =~= m.take(n));
        lemma_line_row_prefix(m, n + 1, line);
    } else {
        assert(m.take(n) =~= m);
    }
}

/// Where line `line` is: the first row showing it in the left pane, else in
/// the right pane, with its block.
pub open spec fn line_target(left: Option<PaneBuffer>, right: Option<PaneBuffer>, line: i32) -> Option<(usize, i32)> {
    let l = match left {
        Some(b) => line_row_in(b.model@, line),
        None => None,
    };
    match l {
        Some(t) => Some(t),
        None => match right {
            Some(b) => line_row_in(b.model@, line),
            None => None,
        },
    }
}

/// Finds the row of line `line` (see `line_target`); none for a line number below 1.
pub fn goto_line(left: &Option<PaneBuffer>, right: &Option<PaneBuffer>, line: i32) -> (r: Option<(usize, i32)>)
    ensures
        line <= 0 ==> r is None,
        line > 0 ==> r == line_target(*left, *right, line),
{
    if line <= 0 {
        return None;
    }
    let l = match left {
        Some(b) => find_line_row(b, line),
        None => None,
    };
    match l {
        Some(t) => Some(t),
        None => match right {
            Some(b) => find_line_row(b, line),
            None => None,
        },
    }
}

/// Marks row `idx` of a pane as current and no other.
pub fn mark_current_row(b: &mut PaneBuffer, idx: usize)
    ensures
        final(b).model@.len() == old(b).model@.len(),
        final(b).row_to_line == old(b).row_to_line,
        final(b).line_to_row == old(b).line_to_row,
        final(b).ghost_rows == old(b).ghost_rows,
        forall|i: int| 0 <= i < old(b).model@.len() ==> #[trigger] final(b).model@[i] == (PaneLineData {
            is_current_diff: i == idx,
            ..old(b).model@[i]
        }),
{
    let ghost start = b.model@;
    let mut i: usize = 0;
    while i < b.model.len()
        invariant
            i <= b.model@.len(),
            b.model@.len() == start.len(),
            b.row_to_line == old(b).row_to_line,
            b.line_to_row == old(b).line_to_row,
            b.ghost_rows == old(b).ghost_rows,
            start == old(b).model@,
            forall|j: int| i <= j < start.len() ==> #[trigger] b.model@[j] == start[j],
            forall|j: int| 0 <= j < i ==> #[trigger] b.model@[j] == (PaneLineData { is_current_diff: j == idx, ..start[j] }),
        decreases start.len() - i,
    {
        b.model[i].is_current_diff = i == idx;
        i = i + 1;
    }
}

/// Strictly increasing.
pub open spec fn increasing(s: Seq<usize>) -> bool {
    forall|a: int, c: int| 0 <= a < c < s.len() ==> s[a] < s[c]
}

/// Toggles a bookmark on the row of difference `diff_index`: removed when
/// set, else added in order; nothing happens without such a difference.
pub fn toggle_bookmark(bookmarks: &mut Vec<usize>, positions: &Vec<usize>, diff_index: i32)
    requires
        increasing(old(bookmarks)@),
    ensures
        increasing(final(bookmarks)@),
        !(0 <= diff_index < positions@.len()) ==> final(bookmarks)@ == old(bookmarks)@,
        0 <= diff_index < positions@.len() ==> forall|x: usize| #[trigger] final(bookmarks)@.contains(x)
            <==> (old(bookmarks)@.contains(x) != (x == positions@[diff_index as int])),
{
    if diff_index < 0 || diff_index as usize >= positions.len() {
        return;
    }
    let p = positions[diff_index as usize];
    let ghost start = bookmarks@;
    let mut k: usize = 0;
    while k < bookmarks.len() && bookmarks[k] < p
        invariant
            k <= bookmarks@.len(),
            bookmarks@ == start,
            increasing(start),
            forall|j: int| 0 <= j < k ==> start[j] < p,
        decreases bookmarks@.len() - k,
    {
        k = k + 1;
    }
    if k < bookmarks.len() && bookmarks[k] == p {
        bookmarks.remove(k);
        assert forall|x: usize| #[trigger] bookmarks@.contains(x) <==> (start.contains(x) != (x == p)) by {
            if bookmarks@.contains(x) {
                let j = choose|j: int| 0 <= j < bookmarks@.len() && bookmarks@[j] == x;
                if j < k {
                    assert(start[j] == x);
                } else {
                    assert(start[j + 1] == x);
                }
            }
            if start.contains(x) && x != p {
                let j = choose|j: int| 0 <= j < start.len() && start[j] == x;
                if j < k {
                    assert(bookmarks@[j] == x);
                } else {
                    assert(j != k);
                    assert(bookmarks@[j - 1] == x);
                }
            }
        }
    } else {
        bookmarks.insert(k, p);
        assert forall|x: usize| #[trigger] bookmarks@.contains(x) <==> (start.contains(x) != (x == p)) by {
            if start.contains(p) {
                let j = choose|j: int| 0 <= j < start.len() && start[j] == p;
                if j < k {
                    assert(start[j] < p);
                } else if j > k {
                    assert(k < start.len());
                    assert(start[k as int] < start[j]);
                    assert(start[k as int] >= p);
                }
            }
            if bookmarks@.contains(x) {
                let j = choose|j: int| 0 <= j < bookmarks@.len() && bookmarks@[j] == x;
                if j < k {
                    assert(start[j] == x);
                } else if j > k {
                    assert(start[j - 1] == x);
                }
            }
            if start.contains(x) {
                let j = choose|j: int| 0 <= j < start.len() && start[j] == x;
                if j < k {
                    assert(bookmarks@[j] == x);
                } else {
                    assert(bookmarks@[j + 1] == x);
                }
            }
            assert(bookmarks@[k as int] == p);
        }
    }
}

/// The difference whose row a bookmark marks, if any.
pub open spec fn first_index_of(s: Seq<usize>, x: usize) -> Option<int>
    decreases s.len(),
{
    if s.len() == 0 {
        None
    } else {
        match first_index_of(s.drop_last(), x) {
            Some(k) => Some(k),
            None => if s.last() == x { Some(s.len() - 1) } else { None },
        }
    }
}

/// Finds the difference that starts at row `pos`.
pub fn diff_at_row(positions: &Vec<usize>, pos: usize) -> (r: Option<usize>)
    ensures
        r matches Some(k) ==> first_index_of(positions@, pos) == Some(k as int),
        r is None ==> first_index_of(positions@, pos) is None,
{
    let mut i: usize = 0;
    while i < positions.len()
        invariant
            i <= positions@.len(),
            first_index_of(positions@.take(i as int), pos) is None,
        decreases positions@.len() - i,
    {
        assert(positions@.take(i + 1).drop_last() =~= positions@.take(i as int));
        if positions[i] == pos {
            proof {
                assert(positions@.take(i + 1).last() == pos);
                assert(first_index_of(positions@.take(i + 1), pos) == Some(i as int));
                lemma_first_index_prefix(positions@, i as int + 1, pos);
            }
            return Some(i);
        }
        i = i + 1;
    }
    assert(positions@.take(positions@.len() as int) =~= positions@);
    None
}

proof fn lemma_first_index_prefix(s: Seq<usize>, n: int, x: usize)
    requires
        0 <= n <= s.len(),
        first_index_of(s.take(n), x) is Some,
    ensures
        first_index_of(s, x) == first_index_of(s.take(n), x),
    decreases s.len() - n,
{
    if n < s.len() {
        assert(s.take(n + 1).drop_last() =~= s.take(n));
        lemma_first_index_prefix(s, n + 1, x);
    } else {
        assert(s.take(n) =~= s);
    }
}

} // verus!
