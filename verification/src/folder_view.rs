//! The folder view: its rows, summary line and sorting.
use vstd::prelude::*;
use crate::text::{str_chars, str_to_string, push_str, to_lowercase, lowercase};
use crate::numfmt::{push_dec, dec};
use crate::models::{FileCompareStatus, FolderItem, file_status_code};
use crate::archive::{format_size, size_text};
use crate::names::{lex_lt, str_lt};
use crate::folder::opt_view;

verus! {

/// One row of the folder view.
#[derive(Debug, Clone)]
pub struct FolderItemData {
    pub relative_path: String,
    pub is_directory: bool,
    pub status: i32,
    pub left_size: String,
    pub right_size: String,
    pub left_modified: String,
    pub right_modified: String,
    pub depth: i32,
}

/// How many separators (`/` or `\`) a path holds: its depth in the tree.
pub open spec fn separators(s: Seq<char>) -> nat
    decreases s.len(),
{
    if s.len() == 0 {
        0
    } else {
        separators(s.drop_last()) + if s.last() == '/' || s.last() == '\\' { 1nat } else { 0nat }
    }
}

pub open spec fn size_shown(s: Option<u64>) -> Seq<char> {
    match s {
        Some(n) => size_text(n as nat),
        None => Seq::empty(),
    }
}

pub open spec fn text_or_empty(s: Option<Seq<char>>) -> Seq<char> {
    match s {
        Some(t) => t,
        None => Seq::empty(),
    }
}

/// The view row of an item.
pub open spec fn item_data_ok(d: FolderItemData, it: FolderItem) -> bool {
    &&& d.relative_path@ == it.relative_path@
    &&& d.is_directory == it.is_directory
    &&& d.status == file_status_code(it.status)
    &&& d.left_size@ == size_shown(it.left_size)
    &&& d.right_size@ == size_shown(it.right_size)
    &&& d.left_modified@ == text_or_empty(opt_view(it.left_modified))
    &&& d.right_modified@ == text_or_empty(opt_view(it.right_modified))
    &&& d.depth as int == (if separators(it.relative_path@) <= i32::MAX { separators(it.relative_path@) as int } else { d.depth as int })
}

/// How many items have status `s`.
pub open spec fn status_count(items: Seq<FolderItem>, s: FileCompareStatus) -> nat
    decreases items.len(),
{
    if items.len() == 0 {
        0
    } else {
        status_count(items.drop_last(), s) + if items.last().status == s { 1nat } else { 0nat }
    }
}

/// "Identical: I | Different: D | Left only: L | Right only: R | Total: T".
pub open spec fn folder_summary(items: Seq<FolderItem>) -> Seq<char> {
    "Identical: "@ + dec(status_count(items, FileCompareStatus::Identical)) + " | Different: "@
        + dec(status_count(items, FileCompareStatus::Different)) + " | Left only: "@
        + dec(status_count(items, FileCompareStatus::LeftOnly)) + " | Right only: "@
        + dec(status_count(items, FileCompareStatus::RightOnly)) + " | Total: "@ + dec(items.len())
}

fn count_separators(s: &str) -> (n: i32)
    requires
        separators(s@) <= i32::MAX,
    ensures
        n == separators(s@),
{
    let v = str_chars(s);
    let mut n: i32 = 0;
    let mut i: usize = 0;
    while i < v.len()
        invariant
            i <= v@.len(),
            v@ == s@,
            n == separators(v@.take(i as int)),
            separators(s@) <= i32::MAX,
        decreases v@.len() - i,
    {
        assert(v@.take(i + 1).drop_last() =~= v@.take(i as int));
        proof { lemma_separators_prefix(v@, i as int + 1); }
        if v[i] == '/' || v[i] == '\\' {
            n = n + 1;
        }
        i = i + 1;
    }
    assert(v@.take(v@.len() as int) =~= v@);
    n
}

proof fn lemma_separators_prefix(s: Seq<char>, n: int)
    requires
        0 <= n <= s.len(),
    ensures
        separators(s.take(n)) <= separators(s),
    decreases s.len() - n,
{
    if n < s.len() {
        lemma_separators_prefix(s, n + 1);
        assert(s.take(n + 1).drop_last() =~= s.take(n));
    } else {
        assert(s.take(n) =~= s);
    }
}

fn size_string(s: Option<u64>) -> (r: String)
    ensures
        r@ == size_shown(s),
{
    match s {
        Some(n) => format_size(n),
        None => {
            let r = String::new();
            assert(r@ =~= Seq::<char>::empty());
            r
        },
    }
}

fn text_string(s: &Option<String>) -> (r: String)
    ensures
        r@ == text_or_empty(opt_view(*s)),
{
    match s {
        Some(t) => str_to_string(t.as_str()),
        None => {
            let r = String::new();
            assert(r@ =~= Seq::<char>::empty());
            r
        },
    }
}

/// The rows of the folder view and its summary line.
pub fn build_folder_item_data(items: &Vec<FolderItem>) -> (r: (Vec<FolderItemData>, String))
    requires
        forall|i: int| 0 <= i < items@.len() ==> separators((#[trigger] items@[i]).relative_path@) <= i32::MAX,
    ensures
        r.0@.len() == items@.len(),
        forall|i: int| 0 <= i < items@.len() ==> item_data_ok(#[trigger] r.0@[i], items@[i]),
        r.1@ == folder_summary(items@),
{
    let mut data: Vec<FolderItemData> = Vec::new();
    let mut counts: [u64; 4] = [0, 0, 0, 0];
    let mut i: usize = 0;
    while i < items.len()
        invariant
            i <= items@.len(),
            data@.len() == i,
            forall|j: int| 0 <= j < items@.len() ==> separators((#[trigger] items@[j]).relative_path@) <= i32::MAX,
            forall|j: int| 0 <= j < i ==> item_data_ok(#[trigger] data@[j], items@[j]),
            counts@[0] == status_count(items@.take(i as int), FileCompareStatus::Identical),
            counts@[1] == status_count(items@.take(i as int), FileCompareStatus::Different),
            counts@[2] == status_count(items@.take(i as int), FileCompareStatus::LeftOnly),
            counts@[3] == status_count(items@.take(i as int), FileCompareStatus::RightOnly),
            counts@[0] <= i && counts@[1] <= i && counts@[2] <= i && counts@[3] <= i,
        decreases items@.len() - i,
    {
        let it = &items[i];
        assert(items@.take(i + 1).drop_last() =~= items@.take(i as int));
        assert(items@.take(i + 1).last() == items@[i as int]);
        let code = it.status.as_i32();
        let k: usize = if code == 0 { 0 } else if code == 1 { 1 } else if code == 2 { 2 } else { 3 };
        counts.set(k, counts[k] + 1);
        data.push(FolderItemData {
            relative_path: str_to_string(it.relative_path.as_str()),
            is_directory: it.is_directory,
            status: code,
            left_size: size_string(it.left_size),
            right_size: size_string(it.right_size),
            left_modified: text_string(&it.left_modified),
            right_modified: text_string(&it.right_modified),
            depth: count_separators(it.relative_path.as_str()),
        });
        i = i + 1;
    }
    assert(items@.take(items@.len() as int) =~= items@);
    let mut s = str_to_string("Identical: ");
    push_dec(&mut s, counts[0]);
    push_str(&mut s, " | Different: ");
    push_dec(&mut s, counts[1]);
    push_str(&mut s, " | Left only: ");
    push_dec(&mut s, counts[2]);
    push_str(&mut s, " | Right only: ");
    push_dec(&mut s, counts[3]);
    push_str(&mut s, " | Total: ");
    push_dec(&mut s, items.len() as u64);
    assert(s@ =~= folder_summary(items@));
    (data, s)
}

/// Is item `a` before item `b` by column `col` (0 path ignoring case,
/// 1 status, 2/3 left/right size, 4/5 left/right modification time)?
/// Other columns put no item before another.
pub open spec fn key_before(a: FolderItem, b: FolderItem, col: i32) -> bool {
    if col == 0 {
        lex_lt(lowercase(a.relative_path@), lowercase(b.relative_path@))
    } else if col == 1 {
        file_status_code(a.status) < file_status_code(b.status)
    } else if col == 2 {
        (match a.left_size { Some(n) => n, None => 0u64 }) < (match b.left_size { Some(n) => n, None => 0u64 })
    } else if col == 3 {
        (match a.right_size { Some(n) => n, None => 0u64 }) < (match b.right_size { Some(n) => n, None => 0u64 })
    } else if col == 4 {
        lex_lt(text_or_empty(opt_view(a.left_modified)), text_or_empty(opt_view(b.left_modified)))
    } else if col == 5 {
        lex_lt(text_or_empty(opt_view(a.right_modified)), text_or_empty(opt_view(b.right_modified)))
    } else {
        false
    }
}

/// Is `a` before `b` in the order asked for (descending reverses it)?
pub open spec fn sorts_before(a: FolderItem, b: FolderItem, col: i32, ascending: bool) -> bool {
    if ascending { key_before(a, b, col) } else { key_before(b, a, col) }
}

/// Where `x` goes in a sorted list: before the first item it sorts before
/// (after all the items it ties with).
pub open spec fn insert_at(s: Seq<FolderItem>, x: FolderItem, col: i32, ascending: bool) -> int
    decreases s.len(),
{
    if s.len() == 0 {
        0
    } else if sorts_before(x, s[0], col, ascending) {
        0
    } else {
        1 + insert_at(s.drop_first(), x, col, ascending)
    }
}

/// The items sorted by the column, keeping the order of items that tie
/// (a stable sort).
pub open spec fn stable_sorted(s: Seq<FolderItem>, col: i32, ascending: bool) -> Seq<FolderItem>
    decreases s.len(),
{
    if s.len() == 0 {
        Seq::empty()
    } else {
        let p = stable_sorted(s.drop_last(), col, ascending);
        p.insert(insert_at(p, s.last(), col, ascending), s.last())
    }
}

fn opt_or_empty(s: &Option<String>) -> (r: &str)
    ensures
        r@ == text_or_empty(opt_view(*s)),
{
    match s {
        Some(t) => t.as_str(),
        None => {
            proof { reveal_strlit(""); }
            ""
        },
    }
}

fn item_key_before(a: &FolderItem, b: &FolderItem, col: i32) -> (r: bool)
    ensures
        r == key_before(*a, *b, col),
{
    if col == 0 {
        let la = to_lowercase(a.relative_path.as_str());
        let lb = to_lowercase(b.relative_path.as_str());
        str_lt(la.as_str(), lb.as_str())
    } else if col == 1 {
        a.status.as_i32() < b.status.as_i32()
    } else if col == 2 {
        let x = match a.left_size { Some(n) => n, None => 0 };
        let y = match b.left_size { Some(n) => n, None => 0 };
        x < y
    } else if col == 3 {
        let x = match a.right_size { Some(n) => n, None => 0 };
        let y = match b.right_size { Some(n) => n, None => 0 };
        x < y
    } else if col == 4 {
        str_lt(opt_or_empty(&a.left_modified), opt_or_empty(&b.left_modified))
    } else if col == 5 {
        str_lt(opt_or_empty(&a.right_modified), opt_or_empty(&b.right_modified))
    } else {
        false
    }
}

proof fn lemma_insert_at_bound(s: Seq<FolderItem>, x: FolderItem, col: i32, ascending: bool)
    ensures
        0 <= insert_at(s, x, col, ascending) <= s.len(),
    decreases s.len(),
{
    if s.len() > 0 {
        lemma_insert_at_bound(s.drop_first(), x, col, ascending);
    }
}

fn find_insert_at(sorted: &Vec<FolderItem>, x: &FolderItem, col: i32, ascending: bool) -> (k: usize)
    ensures
        k == insert_at(sorted@, *x, col, ascending),
{
    let mut k: usize = 0;
    proof { assert(sorted@.skip(0) =~= sorted@); }
    while k < sorted.len()
        invariant
            k <= sorted@.len(),
            insert_at(sorted@, *x, col, ascending) == k + insert_at(sorted@.skip(k as int), *x, col, ascending),
        decreases sorted@.len() - k,
    {
        let before = if ascending { item_key_before(x, &sorted[k], col) } else { item_key_before(&sorted[k], x, col) };
        let ghost rest = sorted@.skip(k as int);
        assert(rest[0] == sorted@[k as int]);
        if before {
            return k;
        }
        assert(rest.drop_first() =~= sorted@.skip(k + 1));
        k = k + 1;
    }
    k
}

/// Sorts the folder items by a column, ascending or descending, keeping
/// the order of items that tie.
pub fn sort_folder_items(items: &mut Vec<FolderItem>, col: i32, ascending: bool)
    ensures
        final(items)@ == stable_sorted(old(items)@, col, ascending),
{
    let ghost start = items@;
    let mut rest: Vec<FolderItem> = Vec::new();
    // Take the items out, last first, so that they come back in order.
    while items.len() > 0
        invariant
            items@ + rest@.reverse() == start,
        decreases items@.len(),
    {
        let x = items.pop().unwrap();
        let ghost before_items = items@;
        rest.push(x);
        assert(before_items + rest@.reverse() =~= start) by {
            assert(rest@.reverse() =~= seq![x] + rest@.drop_last().reverse());
        }
    }
    assert(rest@.reverse() =~= start);
    let mut sorted: Vec<FolderItem> = Vec::new();
    let mut n: usize = 0;
    let total = rest.len();
    while rest.len() > 0
        invariant
            rest@.len() + n == total,
            total == start.len(),
            rest@.reverse() == start.skip(n as int),
            sorted@ == stable_sorted(start.take(n as int), col, ascending),
        decreases rest@.len(),
    {
        let ghost old_rest = rest@;
        let x = rest.pop().unwrap();
        proof {
            assert(old_rest =~= rest@.push(x));
            assert(old_rest.reverse() =~= seq![x] + rest@.reverse());
            assert(start.skip(n as int)[0] == x) by {
                assert(rest@.push(x).reverse()[0] == x);
            }
            assert(start.take(n + 1).drop_last() =~= start.take(n as int));
            assert(start.take(n + 1).last() == start[n as int]);
            assert(start.skip(n as int)[0] == start[n as int]);
            assert(rest@.reverse() =~= start.skip(n + 1)) by {
                assert(rest@.reverse().len() == start.skip(n + 1).len());
                assert forall|i: int| 0 <= i < rest@.len() implies rest@.reverse()[i] == start.skip(n + 1)[i] by {
                    assert((seq![x] + rest@.reverse())[i + 1] == rest@.reverse()[i]);
                    assert(old_rest.reverse()[i + 1] == start.skip(n as int)[i + 1]);
                    assert(start.skip(n as int)[i + 1] == start.skip(n + 1)[i]);
                }
            }
            lemma_insert_at_bound(sorted@, x, col, ascending);
        }
        let k = find_insert_at(&sorted, &x, col, ascending);
        sorted.insert(k, x);
        n = n + 1;
    }
    assert(start.take(start.len() as int) =~= start);
    *items = sorted;
}

/// The sort after a click on column `column`: the same column reverses the
/// direction, another one sorts ascending by it.
pub fn next_sort(current_column: i32, ascending: bool, column: i32) -> (r: (i32, bool))
    ensures
        r == (if current_column == column { (column, !ascending) } else { (column, true) }),
{
    if current_column == column { (column, !ascending) } else { (column, true) }
}

} // verus!
