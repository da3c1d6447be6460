//! Replacing search hits in the rows of the diff views, ignoring case.
use vstd::prelude::*;
use crate::text::{str_chars, string_from_chars, to_lowercase, lowercase, push_str};
use crate::numfmt::{dec, push_dec};
use crate::diff_view::{DiffLineData, ThreeWayLineData};

verus! {

/// How many bytes a character takes in UTF-8.
pub open spec fn utf8_width(c: char) -> nat {
    if (c as u32) < 0x80 {
        1
    } else if (c as u32) < 0x800 {
        2
    } else if (c as u32) < 0x10000 {
        3
    } else {
        4
    }
}

/// Two texts of the same length whose characters are pairwise as wide in
/// UTF-8, so that byte offsets into one are byte offsets into the other.
pub open spec fn same_widths(a: Seq<char>, b: Seq<char>) -> bool {
    &&& a.len() == b.len()
    &&& forall|i: int| 0 <= i < a.len() ==> #[trigger] utf8_width(a[i]) == utf8_width(b[i])
}

/// `text` from position `i` on, with each occurrence of `pat` in `lower`
/// (found left to right, not overlapping) replaced by `rep` in place of the
/// characters of `text` at the same positions; an empty `pat` occurs before
/// every character and at the end.
pub open spec fn replaced_from(text: Seq<char>, lower: Seq<char>, pat: Seq<char>, rep: Seq<char>, i: int) -> Seq<char>
    decreases text.len() - i,
{
    if i >= text.len() || i < 0 {
        if pat.len() == 0 { rep } else { Seq::empty() }
    } else if pat.len() == 0 {
        rep + seq![text[i]] + replaced_from(text, lower, pat, rep, i + 1)
    } else if i + pat.len() <= lower.len() && i + pat.len() <= text.len() && lower.subrange(i, i + pat.len() as int) == pat {
        rep + replaced_from(text, lower, pat, rep, i + pat.len())
    } else {
        seq![text[i]] + replaced_from(text, lower, pat, rep, i + 1)
    }
}

fn utf8_width_of(c: char) -> (w: usize)
    ensures
        w == utf8_width(c),
{
    let n = c as u32;
    if n < 0x80 {
        1
    } else if n < 0x800 {
        2
    } else if n < 0x10000 {
        3
    } else {
        4
    }
}

fn widths_match(a: &Vec<char>, b: &Vec<char>) -> (r: bool)
    ensures
        r == same_widths(a@, b@),
{
    if a.len() != b.len() {
        return false;
    }
    let mut i: usize = 0;
    while i < a.len()
        invariant
            i <= a@.len(),
            a@.len() == b@.len(),
            forall|j: int| 0 <= j < i ==> #[trigger] utf8_width(a@[j]) == utf8_width(b@[j]),
        decreases a@.len() - i,
    {
        if utf8_width_of(a[i]) != utf8_width_of(b[i]) {
            return false;
        }
        i = i + 1;
    }
    true
}

fn append_chars(out: &mut Vec<char>, r: &Vec<char>)
    ensures
        final(out)@ == old(out)@ + r@,
{
    let mut k: usize = 0;
    while k < r.len()
        invariant
            k <= r@.len(),
            out@ == old(out)@ + r@.take(k as int),
        decreases r@.len() - k,
    {
        out.push(r[k]);
        assert(r@.take(k + 1) =~= r@.take(k as int).push(r@[k as int]));
        k = k + 1;
    }
    assert(r@.take(r@.len() as int) =~= r@);
}

fn occurs_at(l: &Vec<char>, p: &Vec<char>, i: usize) -> (b: bool)
    requires
        i + p@.len() <= l@.len(),
    ensures
        b == (l@.subrange(i as int, i + p@.len()) == p@),
{
    let n = l.len();
    let mut k: usize = 0;
    while k < p.len()
        invariant
            k <= p@.len(),
            n == l@.len(),
            i + p@.len() <= l@.len(),
            forall|j: int| 0 <= j < k ==> l@[i + j] == p@[j],
        decreases p@.len() - k,
    {
        if l[i + k] != p[k] {
            assert(l@.subrange(i as int, i + p@.len())[k as int] != p@[k as int]);
            return false;
        }
        k = k + 1;
    }
    assert(l@.subrange(i as int, i + p@.len()) =~= p@);
    true
}

/// Replaces, in `text`, the places where `search_lower` occurs in
/// `text_lower` (the lower case of `text`, with the same byte offsets).
pub fn replace_matches(text: &str, text_lower: &str, search_lower: &str, replacement: &str) -> (s: String)
    requires
        same_widths(text@, text_lower@),
    ensures
        s@ == replaced_from(text@, text_lower@, search_lower@, replacement@, 0),
{
    let t = str_chars(text);
    let l = str_chars(text_lower);
    let p = str_chars(search_lower);
    let r = str_chars(replacement);
    let ghost whole = replaced_from(t@, l@, p@, r@, 0);
    let mut out: Vec<char> = Vec::new();
    let mut i: usize = 0;
    while i < t.len()
        invariant
            i <= t@.len(),
            t@.len() == l@.len(),
            whole == replaced_from(t@, l@, p@, r@, 0),
            out@ + replaced_from(t@, l@, p@, r@, i as int) == whole,
        decreases t@.len() - i,
    {
        let ghost before = out@;
        if p.len() == 0 {
            append_chars(&mut out, &r);
            out.push(t[i]);
            assert(before + replaced_from(t@, l@, p@, r@, i as int) =~= out@ + replaced_from(t@, l@, p@, r@, i + 1));
            i = i + 1;
        } else if p.len() <= l.len() - i && occurs_at(&l, &p, i) {
            append_chars(&mut out, &r);
            assert(before + replaced_from(t@, l@, p@, r@, i as int) =~= out@ + replaced_from(t@, l@, p@, r@, i + p@.len()));
            i = i + p.len();
        } else {
            out.push(t[i]);
            assert(before + replaced_from(t@, l@, p@, r@, i as int) =~= out@ + replaced_from(t@, l@, p@, r@, i + 1));
            i = i + 1;
        }
    }
    if p.len() == 0 {
        append_chars(&mut out, &r);
    } else {
        assert(out@ + Seq::<char>::empty() =~= out@);
    }
    string_from_chars(out.as_slice())
}

/// Replaces every occurrence of `search_lower` in the lower case of `text`,
/// ignoring case, as `replace_matches` does; `None` when lower-casing
/// `text` changes its byte offsets, where the positions found in the lower
/// case cannot be carried back to `text`.
pub fn case_insensitive_replace(text: &str, search_lower: &str, replacement: &str) -> (r: Option<String>)
    ensures
        r is Some == same_widths(text@, lowercase(text@)),
        r matches Some(s) ==> s@ == replaced_from(text@, lowercase(text@), search_lower@, replacement@, 0),
{
    let lower = to_lowercase(text);
    let a = str_chars(text);
    let b = str_chars(lower.as_str());
    if !widths_match(&a, &b) {
        return None;
    }
    Some(replace_matches(text, lower.as_str(), search_lower, replacement))
}

/// A text after replacing the hits of `pat` (see `replaced_from`), or the
/// text itself when lower-casing it changes its byte offsets.
pub open spec fn replaced_text(t: Seq<char>, pat: Seq<char>, rep: Seq<char>) -> Seq<char> {
    if same_widths(t, lowercase(t)) { replaced_from(t, lowercase(t), pat, rep, 0) } else { t }
}

fn replace_or_keep(text: &String, search_lower: &str, replacement: &str) -> (s: String)
    ensures
        s@ == replaced_text(text@, search_lower@, replacement@),
{
    match case_insensitive_replace(text.as_str(), search_lower, replacement) {
        Some(s) => s,
        None => text.clone(),
    }
}

/// `new` is `old` with both texts replaced.
pub open spec fn row_replaced(old: DiffLineData, new: DiffLineData, pat: Seq<char>, rep: Seq<char>) -> bool {
    &&& new == (DiffLineData { left_text: new.left_text, right_text: new.right_text, ..old })
    &&& new.left_text@ == replaced_text(old.left_text@, pat, rep)
    &&& new.right_text@ == replaced_text(old.right_text@, pat, rep)
}

/// `new` is `old` with its three texts replaced.
pub open spec fn row3_replaced(old: ThreeWayLineData, new: ThreeWayLineData, pat: Seq<char>, rep: Seq<char>) -> bool {
    &&& new == (ThreeWayLineData { left_text: new.left_text, base_text: new.base_text, right_text: new.right_text, ..old })
    &&& new.left_text@ == replaced_text(old.left_text@, pat, rep)
    &&& new.base_text@ == replaced_text(old.base_text@, pat, rep)
    &&& new.right_text@ == replaced_text(old.right_text@, pat, rep)
}

fn replace_row(rows: &mut Vec<DiffLineData>, idx: usize, search_lower: &str, replacement: &str)
    requires
        idx < old(rows)@.len(),
    ensures
        final(rows)@.len() == old(rows)@.len(),
        row_replaced(old(rows)@[idx as int], final(rows)@[idx as int], search_lower@, replacement@),
        forall|j: int| 0 <= j < old(rows)@.len() && j != idx ==> #[trigger] final(rows)@[j] == old(rows)@[j],
{
    let l = replace_or_keep(&rows[idx].left_text, search_lower, replacement);
    let r = replace_or_keep(&rows[idx].right_text, search_lower, replacement);
    rows[idx].left_text = l;
    rows[idx].right_text = r;
}

fn replace_row3(rows: &mut Vec<ThreeWayLineData>, idx: usize, search_lower: &str, replacement: &str)
    requires
        idx < old(rows)@.len(),
    ensures
        final(rows)@.len() == old(rows)@.len(),
        row3_replaced(old(rows)@[idx as int], final(rows)@[idx as int], search_lower@, replacement@),
        forall|j: int| 0 <= j < old(rows)@.len() && j != idx ==> #[trigger] final(rows)@[j] == old(rows)@[j],
{
    let l = replace_or_keep(&rows[idx].left_text, search_lower, replacement);
    let b = replace_or_keep(&rows[idx].base_text, search_lower, replacement);
    let r = replace_or_keep(&rows[idx].right_text, search_lower, replacement);
    rows[idx].left_text = l;
    rows[idx].base_text = b;
    rows[idx].right_text = r;
}

/// The row of the current search hit, when there is one to replace in.
pub open spec fn current_hit(rows_len: nat, matches: Seq<usize>, current: i32, search: Seq<char>) -> Option<int> {
    if search.len() == 0 || matches.len() == 0 || current < 0 {
        None
    } else if matches[current as int] < rows_len {
        Some(matches[current as int] as int)
    } else {
        None
    }
}

/// Replaces the search text, ignoring case, in both texts of the row of the
/// current hit; false (and no change) without a search text, hits, a
/// current hit or such a row.
pub fn replace_text(rows: &mut Vec<DiffLineData>, search_matches: &Vec<usize>, current_match: i32, search: &str, replacement: &str) -> (done: bool)
    requires
        search@.len() > 0 && search_matches@.len() > 0 && current_match >= 0 ==> current_match < search_matches@.len(),
    ensures
        done == current_hit(old(rows)@.len(), search_matches@, current_match, search@) is Some,
        !done ==> final(rows)@ == old(rows)@,
        current_hit(old(rows)@.len(), search_matches@, current_match, search@) matches Some(k) ==> {
            &&& final(rows)@.len() == old(rows)@.len()
            &&& row_replaced(old(rows)@[k], final(rows)@[k], lowercase(search@), replacement@)
            &&& forall|j: int| 0 <= j < old(rows)@.len() && j != k ==> #[trigger] final(rows)@[j] == old(rows)@[j]
        },
{
    if search.is_empty() || search_matches.len() == 0 || current_match < 0 {
        return false;
    }
    let idx = search_matches[current_match as usize];
    if idx >= rows.len() {
        return false;
    }
    let q = to_lowercase(search);
    replace_row(rows, idx, q.as_str(), replacement);
    true
}

/// Replaces the search text in the three texts of the row of the current hit (three-way view).
pub fn replace_text_3way(rows: &mut Vec<ThreeWayLineData>, search_matches: &Vec<usize>, current_match: i32, search: &str, replacement: &str) -> (done: bool)
    requires
        search@.len() > 0 && search_matches@.len() > 0 && current_match >= 0 ==> current_match < search_matches@.len(),
    ensures
        done == current_hit(old(rows)@.len(), search_matches@, current_match, search@) is Some,
        !done ==> final(rows)@ == old(rows)@,
        current_hit(old(rows)@.len(), search_matches@, current_match, search@) matches Some(k) ==> {
            &&& final(rows)@.len() == old(rows)@.len()
            &&& row3_replaced(old(rows)@[k], final(rows)@[k], lowercase(search@), replacement@)
            &&& forall|j: int| 0 <= j < old(rows)@.len() && j != k ==> #[trigger] final(rows)@[j] == old(rows)@[j]
        },
{
    if search.is_empty() || search_matches.len() == 0 || current_match < 0 {
        return false;
    }
    let idx = search_matches[current_match as usize];
    if idx >= rows.len() {
        return false;
    }
    let q = to_lowercase(search);
    replace_row3(rows, idx, q.as_str(), replacement);
    true
}

/// How often row `i` is among the first `n` hits.
pub open spec fn hits_on(matches: Seq<usize>, n: int, i: int) -> nat
    decreases n,
{
    if n <= 0 {
        0
    } else {
        hits_on(matches, n - 1, i) + if matches[n - 1] as int == i { 1nat } else { 0nat }
    }
}

/// A text replaced `k` times over.
pub open spec fn replaced_times(t: Seq<char>, pat: Seq<char>, rep: Seq<char>, k: nat) -> Seq<char>
    decreases k,
{
    if k == 0 { t } else { replaced_text(replaced_times(t, pat, rep, (k - 1) as nat), pat, rep) }
}

/// Each row's texts replaced once per hit on it; the other fields kept.
pub open spec fn rows_replaced(old: Seq<DiffLineData>, new: Seq<DiffLineData>, matches: Seq<usize>, n: int, pat: Seq<char>, rep: Seq<char>) -> bool {
    &&& new.len() == old.len()
    &&& forall|i: int| 0 <= i < old.len() ==> {
        &&& #[trigger] new[i] == (DiffLineData { left_text: new[i].left_text, right_text: new[i].right_text, ..old[i] })
        &&& new[i].left_text@ == replaced_times(old[i].left_text@, pat, rep, hits_on(matches, n, i))
        &&& new[i].right_text@ == replaced_times(old[i].right_text@, pat, rep, hits_on(matches, n, i))
    }
}

/// Each row's three texts replaced once per hit on it; the other fields kept.
pub open spec fn rows3_replaced(old: Seq<ThreeWayLineData>, new: Seq<ThreeWayLineData>, matches: Seq<usize>, n: int, pat: Seq<char>, rep: Seq<char>) -> bool {
    &&& new.len() == old.len()
    &&& forall|i: int| 0 <= i < old.len() ==> {
        &&& #[trigger] new[i] == (ThreeWayLineData {
            left_text: new[i].left_text,
            base_text: new[i].base_text,
            right_text: new[i].right_text,
            ..old[i]
        })
        &&& new[i].left_text@ == replaced_times(old[i].left_text@, pat, rep, hits_on(matches, n, i))
        &&& new[i].base_text@ == replaced_times(old[i].base_text@, pat, rep, hits_on(matches, n, i))
        &&& new[i].right_text@ == replaced_times(old[i].right_text@, pat, rep, hits_on(matches, n, i))
    }
}

/// Replaces the search text, ignoring case, in the rows of all hits (hits
/// past the last row are passed over) and returns how many hits there were;
/// `None` (and no change) without a search text or hits.
pub fn replace_all_text(rows: &mut Vec<DiffLineData>, search_matches: &Vec<usize>, search: &str, replacement: &str) -> (count: Option<usize>)
    ensures
        count == if search@.len() == 0 || search_matches@.len() == 0 { None } else { Some(search_matches@.len() as usize) },
        count is None ==> final(rows)@ == old(rows)@,
        count is Some ==> rows_replaced(old(rows)@, final(rows)@, search_matches@, search_matches@.len() as int, lowercase(search@), replacement@),
{
    if search.is_empty() || search_matches.len() == 0 {
        return None;
    }
    let q = to_lowercase(search);
    let ghost orig = rows@;
    let ghost pat = lowercase(search@);
    let mut k: usize = 0;
    while k < search_matches.len()
        invariant
            k <= search_matches@.len(),
            q@ == pat,
            pat == lowercase(search@),
            rows_replaced(orig, rows@, search_matches@, k as int, pat, replacement@),
        decreases search_matches@.len() - k,
    {
        let idx = search_matches[k];
        let ghost before = rows@;
        if idx < rows.len() {
            replace_row(rows, idx, q.as_str(), replacement);
        }
        assert forall|i: int| 0 <= i < orig.len() implies {
            &&& #[trigger] rows@[i] == (DiffLineData { left_text: rows@[i].left_text, right_text: rows@[i].right_text, ..orig[i] })
            &&& rows@[i].left_text@ == replaced_times(orig[i].left_text@, pat, replacement@, hits_on(search_matches@, k + 1, i))
            &&& rows@[i].right_text@ == replaced_times(orig[i].right_text@, pat, replacement@, hits_on(search_matches@, k + 1, i))
        } by {
            assert(before[i] == (DiffLineData { left_text: before[i].left_text, right_text: before[i].right_text, ..orig[i] }));
            if i == idx as int {
                assert(hits_on(search_matches@, k + 1, i) == hits_on(search_matches@, k as int, i) + 1);
            } else {
                assert(hits_on(search_matches@, k + 1, i) == hits_on(search_matches@, k as int, i));
            }
        }
        k = k + 1;
    }
    Some(search_matches.len())
}

/// Replaces the search text in the three texts of the rows of all hits (three-way view).
pub fn replace_all_text_3way(rows: &mut Vec<ThreeWayLineData>, search_matches: &Vec<usize>, search: &str, replacement: &str) -> (count: Option<usize>)
    ensures
        count == if search@.len() == 0 || search_matches@.len() == 0 { None } else { Some(search_matches@.len() as usize) },
        count is None ==> final(rows)@ == old(rows)@,
        count is Some ==> rows3_replaced(old(rows)@, final(rows)@, search_matches@, search_matches@.len() as int, lowercase(search@), replacement@),
{
    if search.is_empty() || search_matches.len() == 0 {
        return None;
    }
    let q = to_lowercase(search);
    let ghost orig = rows@;
    let ghost pat = lowercase(search@);
    let mut k: usize = 0;
    while k < search_matches.len()
        invariant
            k <= search_matches@.len(),
            q@ == pat,
            pat == lowercase(search@),
            rows3_replaced(orig, rows@, search_matches@, k as int, pat, replacement@),
        decreases search_matches@.len() - k,
    {
        let idx = search_matches[k];
        let ghost before = rows@;
        if idx < rows.len() {
            replace_row3(rows, idx, q.as_str(), replacement);
        }
        assert forall|i: int| 0 <= i < orig.len() implies {
            &&& #[trigger] rows@[i] == (ThreeWayLineData {
                left_text: rows@[i].left_text,
                base_text: rows@[i].base_text,
                right_text: rows@[i].right_text,
                ..orig[i]
            })
            &&& rows@[i].left_text@ == replaced_times(orig[i].left_text@, pat, replacement@, hits_on(search_matches@, k + 1, i))
            &&& rows@[i].base_text@ == replaced_times(orig[i].base_text@, pat, replacement@, hits_on(search_matches@, k + 1, i))
            &&& rows@[i].right_text@ == replaced_times(orig[i].right_text@, pat, replacement@, hits_on(search_matches@, k + 1, i))
        } by {
            assert(before[i] == (ThreeWayLineData {
                left_text: before[i].left_text,
                base_text: before[i].base_text,
                right_text: before[i].right_text,
                ..orig[i]
            }));
            if i == idx as int {
                assert(hits_on(search_matches@, k + 1, i) == hits_on(search_matches@, k as int, i) + 1);
            } else {
                assert(hits_on(search_matches@, k + 1, i) == hits_on(search_matches@, k as int, i));
            }
        }
        k = k + 1;
    }
    Some(search_matches.len())
}

/// The status line after replacing all hits.
pub fn replaced_message(count: usize) -> (s: String)
    ensures
        s@ == "Replaced "@ + dec(count as nat) + " occurrences"@,
{
    let mut s = String::new();
    push_str(&mut s, "Replaced ");
    push_dec(&mut s, count as u64);
    push_str(&mut s, " occurrences");
    s
}

} // verus!
