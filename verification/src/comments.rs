//! Comments on diff blocks: set per block, collected in block order for export.
use vstd::prelude::*;
use std::collections::HashMap;
use crate::export::CommentEntry;
use crate::text::str_to_string;
use vstd::std_specs::hash::spec_keys_iter;
use vstd::std_specs::iter::IteratorSpec;

verus! {

broadcast use vstd::std_specs::hash::group_hash_axioms;

fn comment_keys(comments: &HashMap<usize, String>) -> (keys: Vec<usize>)
    ensures
        keys@.to_set() == comments@.dom(),
        keys@.no_duplicates(),
{
    let ghost all = spec_keys_iter(comments).remaining();
    let mut keys: Vec<usize> = Vec::new();
    for k in it: comments.keys()
        invariant
            all == spec_keys_iter(comments).remaining(),
            it.seq() == all,
            keys@ == it.seq().take(it.index() as int).map_values(|r: &usize| *r),
    {
        keys.push(*k);
        assert(keys@ =~= it.seq().take(it.index() + 1).map_values(|r: &usize| *r));
    }
    assert(keys@ =~= all.unref());
    keys
}

proof fn lemma_push_to_set<A>(s: Seq<A>, x: A)
    ensures
        s.push(x).to_set() == s.to_set().insert(x),
{
    assert forall|y: A| #[trigger] s.push(x).to_set().contains(y) == s.to_set().insert(x).contains(y) by {
        if s.contains(y) {
            let j = choose|j: int| 0 <= j < s.len() && s[j] == y;
            assert(s.push(x)[j] == y);
        }
        if y == x {
            assert(s.push(x)[s.len() as int] == x);
        }
        if s.push(x).contains(y) {
            let j = choose|j: int| 0 <= j < s.len() + 1 && s.push(x)[j] == y;
            if j < s.len() {
                assert(s[j] == y);
            }
        }
    }
    assert(s.push(x).to_set() =~= s.to_set().insert(x));
}

/// Strictly increasing.
pub open spec fn increasing(s: Seq<usize>) -> bool {
    forall|i: int, j: int| 0 <= i < j < s.len() ==> s[i] < s[j]
}

/// The same numbers in increasing order.
fn sort_keys(v: &Vec<usize>) -> (r: Vec<usize>)
    requires
        v@.no_duplicates(),
    ensures
        r@.to_set() == v@.to_set(),
        increasing(r@),
{
    let mut out: Vec<usize> = Vec::new();
    let mut i: usize = 0;
    while i < v.len()
        invariant
            i <= v@.len(),
            v@.no_duplicates(),
            out@.to_set() == v@.take(i as int).to_set(),
            increasing(out@),
        decreases v@.len() - i,
    {
        let x = v[i];
        assert(!v@.take(i as int).contains(x)) by {
            if v@.take(i as int).contains(x) {
                let j = choose|j: int| 0 <= j < i && v@.take(i as int)[j] == x;
                assert(v@[j] == v@[i as int]);
            }
        }
        assert(!out@.to_set().contains(x));
        let mut pos: usize = 0;
        while pos < out.len() && out[pos] < x
            invariant
                pos <= out@.len(),
                forall|j: int| 0 <= j < pos ==> out@[j] < x,
            decreases out@.len() - pos,
        {
            pos = pos + 1;
        }
        let ghost before = out@;
        proof {
            if pos < before.len() {
                assert(before[pos as int] != x) by {
                    assert(before.contains(before[pos as int]));
                }
            }
        }
        out.insert(pos, x);
        assert(out@ =~= before.insert(pos as int, x));
        assert(v@.take(i + 1) =~= v@.take(i as int).push(x));
        assert(out@.to_set() =~= before.to_set().insert(x)) by {
            assert forall|y: usize| out@.to_set().contains(y) implies before.to_set().insert(x).contains(y) by {
                let j = choose|j: int| 0 <= j < out@.len() && out@[j] == y;
                if j < pos {
                    assert(before[j] == y);
                } else if j > pos {
                    assert(before[j - 1] == y);
                }
            }
            assert forall|y: usize| before.to_set().insert(x).contains(y) implies out@.to_set().contains(y) by {
                if y == x {
                    assert(out@[pos as int] == x);
                } else {
                    let j = choose|j: int| 0 <= j < before.len() && before[j] == y;
                    if j < pos {
                        assert(out@[j] == y);
                    } else {
                        assert(out@[j + 1] == y);
                    }
                }
            }
        }
        proof {
            lemma_push_to_set(v@.take(i as int), x);
        }
        i = i + 1;
    }
    assert(v@.take(v@.len() as int) =~= v@);
    out
}

/// The entries of one tab's comments: one per block with a non-empty
/// comment, in increasing block order, each naming the tab and its files.
pub open spec fn comment_entries_ok(
    r: Seq<CommentEntry>,
    title: Seq<char>,
    left_file: Seq<char>,
    right_file: Seq<char>,
    comments: Map<usize, String>,
) -> bool {
    &&& forall|i: int, j: int| 0 <= i < j < r.len() ==> r[i].diff_block < r[j].diff_block
    &&& forall|i: int| 0 <= i < r.len() ==> {
        &&& (#[trigger] r[i]).tab_title@ == title
        &&& r[i].left_file@ == left_file
        &&& r[i].right_file@ == right_file
        &&& comments.contains_key(r[i].diff_block)
        &&& r[i].comment@ == comments[r[i].diff_block]@
        &&& r[i].comment@.len() > 0
    }
    &&& forall|k: usize| #[trigger] comments.contains_key(k) && comments[k]@.len() > 0
        ==> exists|i: int| 0 <= i < r.len() && r[i].diff_block == k
}

/// The comments of one tab for export, in block order, without empty ones.
pub fn collect_comments(tab_title: &str, left_file: &str, right_file: &str, comments: &HashMap<usize, String>) -> (r: Vec<CommentEntry>)
    ensures
        comment_entries_ok(r@, tab_title@, left_file@, right_file@, comments@),
{
    let keys = comment_keys(comments);
    let sorted = sort_keys(&keys);
    let mut out: Vec<CommentEntry> = Vec::new();
    let ghost mut pos: Seq<int> = Seq::empty();
    let mut i: usize = 0;
    while i < sorted.len()
        invariant
            i <= sorted@.len(),
            sorted@.to_set() == comments@.dom(),
            increasing(sorted@),
            pos.len() == out@.len(),
            forall|a: int, b: int| 0 <= a < b < pos.len() ==> pos[a] < pos[b],
            forall|a: int| 0 <= a < out@.len() ==> {
                &&& 0 <= #[trigger] pos[a] < i
                &&& sorted@[pos[a]] == out@[a].diff_block
                &&& out@[a].tab_title@ == tab_title@
                &&& out@[a].left_file@ == left_file@
                &&& out@[a].right_file@ == right_file@
                &&& comments@.contains_key(out@[a].diff_block)
                &&& out@[a].comment@ == comments@[out@[a].diff_block]@
                &&& out@[a].comment@.len() > 0
            },
            forall|j: int| 0 <= j < i && comments@[#[trigger] sorted@[j]]@.len() > 0
                ==> exists|a: int| 0 <= a < pos.len() && pos[a] == j,
        decreases sorted@.len() - i,
    {
        let k = sorted[i];
        assert(sorted@.to_set().contains(k));
        match comments.get(&k) {
            Some(c) => {
                if !c.as_str().is_empty() {
                    let ghost before = pos;
                    let e = CommentEntry {
                        tab_title: str_to_string(tab_title),
                        left_file: str_to_string(left_file),
                        right_file: str_to_string(right_file),
                        diff_block: k,
                        comment: c.clone(),
                    };
                    out.push(e);
                    proof {
                        pos = pos.push(i as int);
                        assert forall|j: int| 0 <= j < i + 1 && comments@[#[trigger] sorted@[j]]@.len() > 0
                            implies exists|a: int| 0 <= a < pos.len() && pos[a] == j by {
                            if j == i {
                                assert(pos[before.len() as int] == j);
                            } else {
                                let a = choose|a: int| 0 <= a < before.len() && before[a] == j;
                                assert(pos[a] == j);
                            }
                        }
                    }
                }
            },
            None => {},
        }
        i = i + 1;
    }
    assert forall|a: int, b: int| 0 <= a < b < out@.len() implies out@[a].diff_block < out@[b].diff_block by {
        assert(pos[a] < pos[b]);
        assert(sorted@[pos[a]] < sorted@[pos[b]]);
    }
    assert forall|a: int| 0 <= a < out@.len() implies {
        &&& (#[trigger] out@[a]).tab_title@ == tab_title@
        &&& out@[a].left_file@ == left_file@
        &&& out@[a].right_file@ == right_file@
        &&& comments@.contains_key(out@[a].diff_block)
        &&& out@[a].comment@ == comments@[out@[a].diff_block]@
        &&& out@[a].comment@.len() > 0
    } by {
        assert(0 <= pos[a] < i);
    }
    assert forall|k: usize| #[trigger] comments@.contains_key(k) && comments@[k]@.len() > 0
        implies exists|a: int| 0 <= a < out@.len() && out@[a].diff_block == k by {
        assert(sorted@.to_set().contains(k));
        let j = choose|j: int| 0 <= j < sorted@.len() && sorted@[j] == k;
        assert(comments@[sorted@[j]]@.len() > 0);
        let a = choose|a: int| 0 <= a < pos.len() && pos[a] == j;
        assert(0 <= pos[a] < i);
        assert(out@[a].diff_block == k);
    }
    out
}

/// Sets the comment of block `current_diff`, or removes it when empty;
/// nothing happens without a current block.
pub fn set_diff_comment(comments: &mut HashMap<usize, String>, current_diff: i32, comment: String)
    ensures
        current_diff < 0 ==> final(comments)@ == old(comments)@,
        current_diff >= 0 && comment@.len() == 0 ==> final(comments)@ == old(comments)@.remove(current_diff as usize),
        current_diff >= 0 && comment@.len() > 0 ==> final(comments)@ == old(comments)@.insert(current_diff as usize, comment),
{
    if current_diff < 0 {
        return;
    }
    let idx = current_diff as usize;
    if comment.as_str().is_empty() {
        comments.remove(&idx);
    } else {
        comments.insert(idx, comment);
    }
}

} // verus!
