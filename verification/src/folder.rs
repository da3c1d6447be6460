//! Folder comparison: which entries are listed, how two entries compare,
//! and how the two listings are merged.
use vstd::prelude::*;
use crate::text::{
    str_chars, str_eq, str_to_string, views, has_prefix, text_lines, split_lines, trimmed,
    trim_bounds, string_from_range, lowercase, to_lowercase, ascii_lowercase, to_ascii_lowercase,
};
use crate::models::{FileCompareStatus, FolderItem};
use crate::names::{sorted_union, strictly_sorted, first_index, find_first, lex_lt, str_lt};
use crate::numfmt::{dec, zero_pad, push_padded, digits};

verus! {

/// How two files of a folder comparison are judged identical.
#[derive(Debug, Clone, Copy, PartialEq, Eq, Structural)]
pub enum CompareMethod {
    Full,
    Quick,
    Binary,
    Date,
    SizeDate,
    Size,
    Existence,
}

impl Default for CompareMethod {
    fn default() -> (m: Self)
        ensures
            m == CompareMethod::Full,
    {
        CompareMethod::Full
    }
}

impl CompareMethod {
    /// Parses a `/m` option value (case-insensitive keyword).
    pub fn from_name(name: &str) -> (m: Option<CompareMethod>)
        ensures
            m == method_named(ascii_lowercase(name@)),
    {
        let l = to_ascii_lowercase(name);
        let s = l.as_str();
        if str_eq(s, "full") {
            Some(CompareMethod::Full)
        } else if str_eq(s, "quick") {
            Some(CompareMethod::Quick)
        } else if str_eq(s, "binary") {
            Some(CompareMethod::Binary)
        } else if str_eq(s, "date") {
            Some(CompareMethod::Date)
        } else if str_eq(s, "sizedate") {
            Some(CompareMethod::SizeDate)
        } else if str_eq(s, "size") {
            Some(CompareMethod::Size)
        } else if str_eq(s, "existence") {
            Some(CompareMethod::Existence)
        } else {
            None
        }
    }

    /// The method at a position of the options list; out of range is `Full`.
    pub fn from_index(index: i32) -> (m: CompareMethod)
        ensures
            m == method_at(index),
    {
        match index {
            1 => CompareMethod::Quick,
            2 => CompareMethod::Binary,
            3 => CompareMethod::Date,
            4 => CompareMethod::SizeDate,
            5 => CompareMethod::Size,
            6 => CompareMethod::Existence,
            _ => CompareMethod::Full,
        }
    }
}

pub open spec fn method_named(l: Seq<char>) -> Option<CompareMethod> {
    if l == "full"@ {
        Some(CompareMethod::Full)
    } else if l == "quick"@ {
        Some(CompareMethod::Quick)
    } else if l == "binary"@ {
        Some(CompareMethod::Binary)
    } else if l == "date"@ {
        Some(CompareMethod::Date)
    } else if l == "sizedate"@ {
        Some(CompareMethod::SizeDate)
    } else if l == "size"@ {
        Some(CompareMethod::Size)
    } else if l == "existence"@ {
        Some(CompareMethod::Existence)
    } else {
        None
    }
}

pub open spec fn method_at(i: i32) -> CompareMethod {
    if i == 1 {
        CompareMethod::Quick
    } else if i == 2 {
        CompareMethod::Binary
    } else if i == 3 {
        CompareMethod::Date
    } else if i == 4 {
        CompareMethod::SizeDate
    } else if i == 5 {
        CompareMethod::Size
    } else if i == 6 {
        CompareMethod::Existence
    } else {
        CompareMethod::Full
    }
}

/// Options of a folder comparison.
#[derive(Debug, Clone)]
pub struct FolderCompareOptions {
    /// File extensions to list (e.g. "rs", "toml"); empty lists all files.
    pub extension_filter: Vec<String>,
    /// Whether `.gitignore` patterns apply.
    pub respect_gitignore: bool,
    /// Exclude patterns (e.g. "*.log", "build/", "node_modules").
    pub exclude_patterns: Vec<String>,
    /// Maximum recursion depth (0 = unlimited).
    pub max_depth: usize,
    /// Minimum file size in bytes (0 = no limit).
    pub min_size: u64,
    /// Maximum file size in bytes (0 = no limit).
    pub max_size: u64,
    /// Only files modified on or after this date ("YYYY-MM-DD", empty = no filter).
    pub modified_after: String,
    /// Only files modified on or before this date ("YYYY-MM-DD", empty = no filter).
    pub modified_before: String,
    pub compare_method: CompareMethod,
}

impl Default for FolderCompareOptions {
    fn default() -> (o: Self)
        ensures
            o.extension_filter@.len() == 0,
            !o.respect_gitignore,
            o.exclude_patterns@.len() == 0,
            o.max_depth == 0,
            o.min_size == 0,
            o.max_size == 0,
            o.modified_after@.len() == 0,
            o.modified_before@.len() == 0,
            o.compare_method == CompareMethod::Full,
    {
        FolderCompareOptions {
            extension_filter: Vec::new(),
            respect_gitignore: false,
            exclude_patterns: Vec::new(),
            max_depth: 0,
            min_size: 0,
            max_size: 0,
            modified_after: String::new(),
            modified_before: String::new(),
            compare_method: CompareMethod::Full,
        }
    }
}

/// One listed entry of a folder: its path relative to the folder, its full
/// path, and what its metadata says (`mtime` in nanoseconds from the Unix
/// epoch, negative before it).
#[derive(Debug, Clone)]
pub struct FolderEntry {
    pub rel_path: String,
    pub full_path: String,
    pub is_dir: bool,
    pub size: u64,
    pub modified: Option<String>,
    pub mtime: Option<i128>,
}

/// How two files compare by metadata alone under `method`; `None` when the
/// method compares contents (Full, Quick and Binary all compare bytes).
pub open spec fn metadata_status(left: FolderEntry, right: FolderEntry, method: CompareMethod) -> Option<FileCompareStatus> {
    match method {
        CompareMethod::Full | CompareMethod::Quick | CompareMethod::Binary => None,
        CompareMethod::Date => Some(
            if left.mtime is Some && right.mtime is Some && left.mtime == right.mtime {
                FileCompareStatus::Identical
            } else {
                FileCompareStatus::Different
            },
        ),
        CompareMethod::SizeDate => Some(
            if left.mtime is Some && right.mtime is Some && left.mtime == right.mtime && left.size == right.size {
                FileCompareStatus::Identical
            } else {
                FileCompareStatus::Different
            },
        ),
        CompareMethod::Size => Some(
            if left.size == right.size { FileCompareStatus::Identical } else { FileCompareStatus::Different },
        ),
        CompareMethod::Existence => Some(FileCompareStatus::Identical),
    }
}

fn same_time(a: &Option<i128>, b: &Option<i128>) -> (r: bool)
    ensures
        r == (a is Some && b is Some && a == b),
{
    match (a, b) {
        (Some(x), Some(y)) => *x == *y,
        _ => false,
    }
}

/// Decides whether two (non-directory) entries are identical under
/// `method`; `None` means their contents decide.
pub fn compare_entries(left: &FolderEntry, right: &FolderEntry, method: CompareMethod) -> (r: Option<FileCompareStatus>)
    ensures
        r == metadata_status(*left, *right, method),
{
    match method {
        CompareMethod::Full | CompareMethod::Quick | CompareMethod::Binary => None,
        CompareMethod::Date => Some(
            if same_time(&left.mtime, &right.mtime) {
                FileCompareStatus::Identical
            } else {
                FileCompareStatus::Different
            },
        ),
        CompareMethod::SizeDate => Some(
            if same_time(&left.mtime, &right.mtime) && left.size == right.size {
                FileCompareStatus::Identical
            } else {
                FileCompareStatus::Different
            },
        ),
        CompareMethod::Size => Some(
            if left.size == right.size { FileCompareStatus::Identical } else { FileCompareStatus::Different },
        ),
        CompareMethod::Existence => Some(FileCompareStatus::Identical),
    }
}

/// What the metadata methods decide for two files: by size, identical
/// exactly when the sizes are equal; by date, exactly when both modification
/// times are known and equal; by size and date, exactly when both of those
/// hold; by existence, always identical; the content methods (full, quick,
/// binary) leave the verdict to the bytes. Every metadata verdict is
/// identical or different, and swapping the two files changes nothing.
pub proof fn lemma_metadata_verdicts(l: FolderEntry, r: FolderEntry, m: CompareMethod)
    ensures
        (metadata_status(l, r, CompareMethod::Size) == Some(FileCompareStatus::Identical)) <==> l.size == r.size,
        (metadata_status(l, r, CompareMethod::Size) == Some(FileCompareStatus::Different)) <==> l.size != r.size,
        (metadata_status(l, r, CompareMethod::Date) == Some(FileCompareStatus::Identical)) <==> (l.mtime is Some
            && l.mtime == r.mtime),
        (metadata_status(l, r, CompareMethod::Date) == Some(FileCompareStatus::Different)) <==> !(l.mtime is Some
            && l.mtime == r.mtime),
        (metadata_status(l, r, CompareMethod::SizeDate) == Some(FileCompareStatus::Identical)) <==> (l.size
            == r.size && l.mtime is Some && l.mtime == r.mtime),
        (metadata_status(l, r, CompareMethod::SizeDate) == Some(FileCompareStatus::Different)) <==> !(l.size
            == r.size && l.mtime is Some && l.mtime == r.mtime),
        metadata_status(l, r, CompareMethod::Existence) == Some(FileCompareStatus::Identical),
        metadata_status(l, r, CompareMethod::Full) is None,
        metadata_status(l, r, CompareMethod::Quick) is None,
        metadata_status(l, r, CompareMethod::Binary) is None,
        metadata_status(l, r, m) == metadata_status(r, l, m),
{
}

/// The status of a path present on both sides: directories on both sides are
/// identical, a directory against a file differs, and two files compare by
/// metadata or, where the method looks at contents, by `same_content`.
pub open spec fn pair_status(le: FolderEntry, re: FolderEntry, method: CompareMethod, same_content: bool) -> FileCompareStatus {
    if le.is_dir && re.is_dir {
        FileCompareStatus::Identical
    } else if le.is_dir || re.is_dir {
        FileCompareStatus::Different
    } else {
        match metadata_status(le, re, method) {
            Some(s) => s,
            None => if same_content { FileCompareStatus::Identical } else { FileCompareStatus::Different },
        }
    }
}

/// Do the contents of the two entries of a path have to be compared?
pub open spec fn needs_content(le: FolderEntry, re: FolderEntry, method: CompareMethod) -> bool {
    !le.is_dir && !re.is_dir && metadata_status(le, re, method) is None
}

/// The relative paths of a listing.
pub open spec fn rel_paths(es: Seq<FolderEntry>) -> Seq<Seq<char>> {
    es.map_values(|e: FolderEntry| e.rel_path@)
}

/// A path of the merged listing with the position of its first entry on each side.
pub struct FolderPair {
    pub path: String,
    pub left: Option<usize>,
    pub right: Option<usize>,
}

pub open spec fn opt_index(o: Option<usize>) -> Option<int> {
    match o {
        Some(k) => Some(k as int),
        None => None,
    }
}

/// The pairs list every relative path of either side once, in order, each
/// with the first entry of that path on each side.
pub open spec fn pairs_match(left: Seq<FolderEntry>, right: Seq<FolderEntry>, pairs: Seq<FolderPair>) -> bool {
    &&& strictly_sorted(pairs.map_values(|p: FolderPair| p.path@))
    &&& forall|x: Seq<char>| pairs.map_values(|p: FolderPair| p.path@).contains(x) <==> (rel_paths(left).contains(x) || rel_paths(right).contains(x))
    &&& forall|k: int| 0 <= k < pairs.len() ==> opt_index((#[trigger] pairs[k]).left) == first_index(rel_paths(left), pairs[k].path@)
    &&& forall|k: int| 0 <= k < pairs.len() ==> opt_index((#[trigger] pairs[k]).right) == first_index(rel_paths(right), pairs[k].path@)
}

fn path_list(es: &Vec<FolderEntry>) -> (v: Vec<String>)
    ensures
        views(v@) == rel_paths(es@),
{
    let mut v: Vec<String> = Vec::new();
    let mut i: usize = 0;
    while i < es.len()
        invariant
            i <= es@.len(),
            views(v@) == rel_paths(es@).take(i as int),
        decreases es@.len() - i,
    {
        let ghost before = v@;
        v.push(str_to_string(es[i].rel_path.as_str()));
        assert(views(v@) =~= views(before).push(es@[i as int].rel_path@));
        assert(rel_paths(es@).take(i + 1) =~= rel_paths(es@).take(i as int).push(es@[i as int].rel_path@));
        i = i + 1;
    }
    assert(rel_paths(es@).take(es@.len() as int) =~= rel_paths(es@));
    v
}

/// Merges two listings: every relative path once, in order, with the first
/// entry of that path on each side.
pub fn folder_pairs(left: &Vec<FolderEntry>, right: &Vec<FolderEntry>) -> (pairs: Vec<FolderPair>)
    ensures
        pairs_match(left@, right@, pairs@),
{
    let lp = path_list(left);
    let rp = path_list(right);
    let all = sorted_union(&lp, &rp);
    let mut pairs: Vec<FolderPair> = Vec::new();
    let mut k: usize = 0;
    while k < all.len()
        invariant
            k <= all@.len(),
            views(lp@) == rel_paths(left@),
            views(rp@) == rel_paths(right@),
            pairs@.map_values(|p: FolderPair| p.path@) == views(all@).take(k as int),
            forall|j: int| 0 <= j < k ==> opt_index((#[trigger] pairs@[j]).left) == first_index(rel_paths(left@), pairs@[j].path@),
            forall|j: int| 0 <= j < k ==> opt_index((#[trigger] pairs@[j]).right) == first_index(rel_paths(right@), pairs@[j].path@),
        decreases all@.len() - k,
    {
        let name = all[k].as_str();
        let l = find_first(&lp, name);
        let r = find_first(&rp, name);
        let ghost before = pairs@;
        pairs.push(FolderPair { path: str_to_string(name), left: l, right: r });
        assert(pairs@.map_values(|p: FolderPair| p.path@) =~= before.map_values(|p: FolderPair| p.path@).push(all@[k as int]@));
        assert(views(all@).take(k + 1) =~= views(all@).take(k as int).push(all@[k as int]@));
        assert forall|j: int| 0 <= j < k + 1 implies opt_index((#[trigger] pairs@[j]).left) == first_index(rel_paths(left@), pairs@[j].path@) by {
            if j < k {
                assert(pairs@[j] == before[j]);
            }
        }
        assert forall|j: int| 0 <= j < k + 1 implies opt_index((#[trigger] pairs@[j]).right) == first_index(rel_paths(right@), pairs@[j].path@) by {
            if j < k {
                assert(pairs@[j] == before[j]);
            }
        }
        k = k + 1;
    }
    assert(views(all@).take(all@.len() as int) =~= views(all@));
    pairs
}

/// The size shown for an entry: none for a directory.
pub open spec fn shown_size(e: FolderEntry) -> Option<u64> {
    if e.is_dir { None } else { Some(e.size) }
}

pub open spec fn opt_view(o: Option<String>) -> Option<Seq<char>> {
    match o {
        Some(s) => Some(s@),
        None => None,
    }
}

/// The item listed for `path` given its first entry on each side.
pub open spec fn item_matches(
    item: FolderItem,
    path: Seq<char>,
    le: Option<FolderEntry>,
    re: Option<FolderEntry>,
    method: CompareMethod,
    same_content: bool,
) -> bool {
    &&& item.relative_path@ == path
    &&& match (le, re) {
        (Some(l), Some(r)) => {
            &&& item.is_directory == (l.is_dir && r.is_dir)
            &&& item.status == pair_status(l, r, method, same_content)
            &&& opt_view(item.left_path) == Some(l.full_path@)
            &&& opt_view(item.right_path) == Some(r.full_path@)
            &&& item.left_size == shown_size(l)
            &&& item.right_size == shown_size(r)
            &&& opt_view(item.left_modified) == opt_view(l.modified)
            &&& opt_view(item.right_modified) == opt_view(r.modified)
        },
        (Some(l), None) => {
            &&& item.is_directory == l.is_dir
            &&& item.status == FileCompareStatus::LeftOnly
            &&& opt_view(item.left_path) == Some(l.full_path@)
            &&& item.right_path is None
            &&& item.left_size == shown_size(l)
            &&& item.right_size is None
            &&& opt_view(item.left_modified) == opt_view(l.modified)
            &&& item.right_modified is None
        },
        (None, Some(r)) => {
            &&& item.is_directory == r.is_dir
            &&& item.status == FileCompareStatus::RightOnly
            &&& item.left_path is None
            &&& opt_view(item.right_path) == Some(r.full_path@)
            &&& item.left_size is None
            &&& item.right_size == shown_size(r)
            &&& item.left_modified is None
            &&& opt_view(item.right_modified) == opt_view(r.modified)
        },
        (None, None) => false,
    }
}

pub open spec fn entry_at(es: Seq<FolderEntry>, k: Option<int>) -> Option<FolderEntry> {
    match k {
        Some(i) => Some(es[i]),
        None => None,
    }
}

fn copy_opt(o: &Option<String>) -> (r: Option<String>)
    ensures
        opt_view(r) == opt_view(*o),
{
    match o {
        Some(s) => Some(str_to_string(s.as_str())),
        None => None,
    }
}

fn shown(e: &FolderEntry) -> (r: Option<u64>)
    ensures
        r == shown_size(*e),
{
    if e.is_dir { None } else { Some(e.size) }
}

/// Builds the item for `path` from its first entry on each side.
fn folder_item(
    path: &str,
    le: Option<&FolderEntry>,
    re: Option<&FolderEntry>,
    method: CompareMethod,
    same_content: bool,
) -> (item: FolderItem)
    requires
        le is Some || re is Some,
    ensures
        item_matches(
            item,
            path@,
            match le { Some(l) => Some(*l), None => None },
            match re { Some(r) => Some(*r), None => None },
            method,
            same_content,
        ),
{
    match (le, re) {
        (Some(l), Some(r)) => {
            let status = if l.is_dir && r.is_dir {
                FileCompareStatus::Identical
            } else if l.is_dir || r.is_dir {
                FileCompareStatus::Different
            } else {
                match compare_entries(l, r, method) {
                    Some(s) => s,
                    None => if same_content { FileCompareStatus::Identical } else { FileCompareStatus::Different },
                }
            };
            FolderItem {
                relative_path: str_to_string(path),
                is_directory: l.is_dir && r.is_dir,
                status,
                left_path: Some(str_to_string(l.full_path.as_str())),
                right_path: Some(str_to_string(r.full_path.as_str())),
                left_size: shown(l),
                right_size: shown(r),
                left_modified: copy_opt(&l.modified),
                right_modified: copy_opt(&r.modified),
            }
        },
        (Some(l), None) => FolderItem {
            relative_path: str_to_string(path),
            is_directory: l.is_dir,
            status: FileCompareStatus::LeftOnly,
            left_path: Some(str_to_string(l.full_path.as_str())),
            right_path: None,
            left_size: shown(l),
            right_size: None,
            left_modified: copy_opt(&l.modified),
            right_modified: None,
        },
        (None, Some(r)) => FolderItem {
            relative_path: str_to_string(path),
            is_directory: r.is_dir,
            status: FileCompareStatus::RightOnly,
            left_path: None,
            right_path: Some(str_to_string(r.full_path.as_str())),
            left_size: None,
            right_size: shown(r),
            left_modified: None,
            right_modified: copy_opt(&r.modified),
        },
        (None, None) => {
            proof { assert(false); }
            FolderItem {
                relative_path: str_to_string(path),
                is_directory: false,
                status: FileCompareStatus::Identical,
                left_path: None,
                right_path: None,
                left_size: None,
                right_size: None,
                left_modified: None,
                right_modified: None,
            }
        },
    }
}

/// Compares two folder listings: one item per relative path of either side,
/// in order, built from the first entry of the path on each side. Where two
/// files are compared by contents, `same_content[k]` tells whether the files
/// of the `k`-th path have the same bytes (see `folder_pairs`).
pub fn compare_folders_with_options(
    left: &Vec<FolderEntry>,
    right: &Vec<FolderEntry>,
    options: &FolderCompareOptions,
    same_content: &Vec<bool>,
) -> (items: Vec<FolderItem>)
    ensures
        exists|pairs: Seq<FolderPair>| {
            &&& pairs_match(left@, right@, pairs)
            &&& items@.len() == pairs.len()
            &&& forall|k: int| 0 <= k < pairs.len() ==> item_matches(
                #[trigger] items@[k],
                pairs[k].path@,
                entry_at(left@, opt_index(pairs[k].left)),
                entry_at(right@, opt_index(pairs[k].right)),
                options.compare_method,
                k < same_content@.len() && same_content@[k],
            )
        },
{
    let pairs = folder_pairs(left, right);
    let mut items: Vec<FolderItem> = Vec::new();
    let mut k: usize = 0;
    while k < pairs.len()
        invariant
            k <= pairs@.len(),
            pairs_match(left@, right@, pairs@),
            items@.len() == k,
            forall|j: int| 0 <= j < k ==> item_matches(
                #[trigger] items@[j],
                pairs@[j].path@,
                entry_at(left@, opt_index(pairs@[j].left)),
                entry_at(right@, opt_index(pairs@[j].right)),
                options.compare_method,
                j < same_content@.len() && same_content@[j],
            ),
        decreases pairs@.len() - k,
    {
        let p = &pairs[k];
        proof {
            crate::names::lemma_first_index(rel_paths(left@), p.path@);
            crate::names::lemma_first_index(rel_paths(right@), p.path@);
            assert(pairs@.map_values(|q: FolderPair| q.path@)[k as int] == p.path@);
            assert(pairs@.map_values(|q: FolderPair| q.path@).contains(p.path@));
        }
        let le: Option<&FolderEntry> = match p.left { Some(i) => Some(&left[i]), None => None };
        let re: Option<&FolderEntry> = match p.right { Some(i) => Some(&right[i]), None => None };
        let same = k < same_content.len() && same_content[k];
        let item = folder_item(p.path.as_str(), le, re, options.compare_method, same);
        items.push(item);
        k = k + 1;
    }
    items
}

} // verus!

verus! {

/// `s` without its leading slashes.
pub open spec fn trim_slashes(s: Seq<char>) -> Seq<char>
    decreases s.len(),
{
    if s.len() > 0 && s[0] == '/' {
        trim_slashes(s.drop_first())
    } else {
        s
    }
}

/// Index of the last slash of `s`, -1 when there is none.
pub open spec fn last_slash(s: Seq<char>) -> int
    decreases s.len(),
{
    if s.len() == 0 {
        -1
    } else if s.last() == '/' {
        s.len() - 1
    } else {
        last_slash(s.drop_last())
    }
}

/// The part of a relative path after its last slash.
pub open spec fn file_name_of(s: Seq<char>) -> Seq<char> {
    s.skip(last_slash(s) + 1)
}

pub open spec fn has_suffix(s: Seq<char>, p: Seq<char>) -> bool {
    p.len() <= s.len() && s.skip(s.len() - p.len()) == p
}

/// Does one ignore pattern match a relative path? Leading slashes of the
/// pattern are dropped and an empty pattern matches nothing; then it matches
/// the path itself or anything under it, `*.ext` matches file names ending in
/// `.ext`, `dir/` matches `dir`, anything under it or a file named `dir`, and
/// any pattern matches an equal file name.
pub open spec fn pattern_hits(rel: Seq<char>, pattern: Seq<char>) -> bool {
    let pat = trim_slashes(pattern);
    let f = file_name_of(rel);
    &&& pat.len() > 0
    &&& {
        ||| rel == pat
        ||| has_prefix(rel, pat.push('/'))
        ||| (has_prefix(pat, "*."@) && has_suffix(f, seq!['.'] + pat.skip(2)))
        ||| (pat.last() == '/' && (rel == pat.drop_last() || has_prefix(rel, pat.drop_last().push('/'))
            || f == pat.drop_last()))
        ||| f == pat
    }
}

/// Some pattern matches the path.
pub open spec fn ignored_by(rel: Seq<char>, patterns: Seq<Seq<char>>) -> bool {
    exists|k: int| 0 <= k < patterns.len() && #[trigger] pattern_hits(rel, patterns[k])
}

proof fn lemma_last_slash(s: Seq<char>)
    ensures
        -1 <= last_slash(s) < s.len(),
        last_slash(s) >= 0 ==> s[last_slash(s)] == '/',
        forall|i: int| last_slash(s) < i < s.len() ==> s[i] != '/',
    decreases s.len(),
{
    if s.len() > 0 && s.last() != '/' {
        lemma_last_slash(s.drop_last());
        assert forall|i: int| last_slash(s) < i < s.len() implies s[i] != '/' by {
            if i < s.len() - 1 {
                assert(s[i] == s.drop_last()[i]);
            }
        }
    }
}

fn sub_vec(v: &Vec<char>, lo: usize, hi: usize) -> (r: Vec<char>)
    requires
        lo <= hi <= v@.len(),
    ensures
        r@ == v@.subrange(lo as int, hi as int),
{
    let mut r: Vec<char> = Vec::new();
    let mut i: usize = lo;
    while i < hi
        invariant
            lo <= i <= hi,
            hi <= v@.len(),
            r@ == v@.subrange(lo as int, i as int),
        decreases hi - i,
    {
        r.push(v[i]);
        assert(r@ =~= v@.subrange(lo as int, i + 1));
        i = i + 1;
    }
    r
}

fn vec_eq(a: &Vec<char>, b: &Vec<char>) -> (r: bool)
    ensures
        r == (a@ == b@),
{
    if a.len() != b.len() {
        return false;
    }
    let r = crate::text::matches_at(a, b, 0);
    assert(a@.subrange(0, b@.len() as int) =~= a@);
    r
}

fn vec_starts_with(s: &Vec<char>, p: &Vec<char>) -> (r: bool)
    ensures
        r == has_prefix(s@, p@),
{
    let r = crate::text::matches_at(s, p, 0);
    assert(s@.subrange(0, p@.len() as int) =~= s@.take(p@.len() as int));
    r
}

fn vec_ends_with(s: &Vec<char>, p: &Vec<char>) -> (r: bool)
    ensures
        r == has_suffix(s@, p@),
{
    if p.len() > s.len() {
        return false;
    }
    let r = crate::text::matches_at(s, p, s.len() - p.len());
    assert(s@.subrange(s@.len() - p@.len(), s@.len() as int) =~= s@.skip(s@.len() - p@.len()));
    r
}

fn with_char(v: &Vec<char>, c: char) -> (r: Vec<char>)
    ensures
        r@ == v@.push(c),
{
    let mut r = sub_vec(v, 0, v.len());
    assert(v@.subrange(0, v@.len() as int) =~= v@);
    r.push(c);
    r
}

/// Does one pattern match the path?
fn pattern_matches(rel: &Vec<char>, name: &Vec<char>, pattern: &str) -> (r: bool)
    requires
        name@ == file_name_of(rel@),
    ensures
        r == pattern_hits(rel@, pattern@),
{
    let pv = str_chars(pattern);
    let mut a: usize = 0;
    assert(pv@.skip(0) =~= pv@);
    while a < pv.len() && pv[a] == '/'
        invariant
            a <= pv@.len(),
            trim_slashes(pv@) == trim_slashes(pv@.skip(a as int)),
        decreases pv@.len() - a,
    {
        assert(pv@.skip(a as int).drop_first() =~= pv@.skip(a + 1));
        a = a + 1;
    }
    assert(trim_slashes(pv@.skip(a as int)) == pv@.skip(a as int));
    let pat = sub_vec(&pv, a, pv.len());
    assert(pat@ =~= pv@.skip(a as int));
    if pat.len() == 0 {
        return false;
    }
    if vec_eq(rel, &pat) || vec_starts_with(rel, &with_char(&pat, '/')) {
        return true;
    }
    let star_dot = str_chars("*.");
    proof {
        reveal_strlit("*.");
    }
    if vec_starts_with(&pat, &star_dot) {
        let ext = sub_vec(&pat, 2, pat.len());
        let mut dot_ext: Vec<char> = vec!['.'];
        let mut i: usize = 0;
        while i < ext.len()
            invariant
                i <= ext@.len(),
                dot_ext@ == seq!['.'] + ext@.take(i as int),
            decreases ext@.len() - i,
        {
            dot_ext.push(ext[i]);
            assert(dot_ext@ =~= seq!['.'] + ext@.take(i + 1));
            i = i + 1;
        }
        assert(ext@.take(ext@.len() as int) =~= ext@);
        assert(ext@ =~= pat@.skip(2));
        if vec_ends_with(name, &dot_ext) {
            return true;
        }
    }
    if pat[pat.len() - 1] == '/' {
        let dir = sub_vec(&pat, 0, pat.len() - 1);
        assert(dir@ =~= pat@.drop_last());
        if vec_eq(rel, &dir) || vec_starts_with(rel, &with_char(&dir, '/')) || vec_eq(name, &dir) {
            return true;
        }
    }
    vec_eq(name, &pat)
}

/// The part of a path after its last slash.
fn file_name_part(rel: &Vec<char>) -> (r: Vec<char>)
    ensures
        r@ == file_name_of(rel@),
{
    proof { lemma_last_slash(rel@); }
    let mut i: usize = rel.len();
    while i > 0 && rel[i - 1] != '/'
        invariant
            i <= rel@.len(),
            forall|j: int| i <= j < rel@.len() ==> rel@[j] != '/',
            -1 <= last_slash(rel@) < rel@.len(),
            last_slash(rel@) >= 0 ==> rel@[last_slash(rel@)] == '/',
            forall|j: int| last_slash(rel@) < j < rel@.len() ==> rel@[j] != '/',
        decreases i,
    {
        i = i - 1;
    }
    assert(last_slash(rel@) + 1 == i);
    let r = sub_vec(rel, i, rel.len());
    assert(r@ =~= rel@.skip(i as int));
    r
}

/// Whether a relative path matches one of the patterns.
pub fn should_ignore(rel_path: &str, patterns: &Vec<String>) -> (r: bool)
    ensures
        r == ignored_by(rel_path@, views(patterns@)),
{
    let rel = str_chars(rel_path);
    let name = file_name_part(&rel);
    let mut k: usize = 0;
    while k < patterns.len()
        invariant
            k <= patterns@.len(),
            rel@ == rel_path@,
            name@ == file_name_of(rel@),
            forall|j: int| 0 <= j < k ==> !pattern_hits(rel_path@, #[trigger] views(patterns@)[j]),
        decreases patterns@.len() - k,
    {
        if pattern_matches(&rel, &name, patterns[k].as_str()) {
            assert(pattern_hits(rel_path@, views(patterns@)[k as int]));
            return true;
        }
        k = k + 1;
    }
    false
}

pub open spec fn is_leap(y: int) -> bool {
    y % 4 == 0 && (y % 100 != 0 || y % 400 == 0)
}

pub open spec fn year_days(y: int) -> int {
    if is_leap(y) { 366 } else { 365 }
}

/// Starting in year `y` with `days` days to go: the year reached and the day of that year.
pub open spec fn civil_year(days: int, y: int) -> (int, int)
    decreases days,
{
    if days < year_days(y) || days < 0 {
        (y, days)
    } else {
        civil_year(days - year_days(y), y + 1)
    }
}

pub open spec fn month_len(m: int, leap: bool) -> int {
    if m == 1 {
        if leap { 29 } else { 28 }
    } else if m == 3 || m == 5 || m == 8 || m == 10 {
        30
    } else {
        31
    }
}

/// From month index `m` (0 = January) with `rem` days to go: the month index
/// reached and the day in it (0-based).
pub open spec fn civil_month(rem: int, leap: bool, m: int) -> (int, int)
    decreases 12 - m,
{
    if m >= 12 || rem < month_len(m, leap) {
        (m, rem)
    } else {
        civil_month(rem - month_len(m, leap), leap, m + 1)
    }
}

/// "YYYY-MM-DD HH:MM" (UTC) for a time `secs` seconds after the Unix epoch.
pub open spec fn time_text(secs: nat) -> Seq<char> {
    let days = secs / 86400;
    let tod = secs % 86400;
    let (year, rem) = civil_year(days as int, 1970);
    let (m, d) = civil_month(rem, is_leap(year), 0);
    zero_pad(dec(year as nat), 4) + seq!['-'] + zero_pad(dec((m + 1) as nat), 2) + seq!['-']
        + zero_pad(dec((d + 1) as nat), 2) + seq![' '] + zero_pad(dec(tod / 3600), 2) + seq![':']
        + zero_pad(dec((tod % 3600) / 60), 2)
}

fn year_length(y: u64) -> (n: u64)
    ensures
        n == year_days(y as int),
{
    if y % 4 == 0 && (y % 100 != 0 || y % 400 == 0) { 366 } else { 365 }
}

fn month_length(m: u64, leap: bool) -> (n: u64)
    ensures
        n == month_len(m as int, leap),
{
    if m == 1 {
        if leap { 29 } else { 28 }
    } else if m == 3 || m == 5 || m == 8 || m == 10 {
        30
    } else {
        31
    }
}

/// Formats a modification time (seconds after the Unix epoch) as "YYYY-MM-DD HH:MM" UTC.
pub fn format_time(secs: u64) -> (s: String)
    ensures
        s@ == time_text(secs as nat),
{
    let days = secs / 86400;
    let time_of_day = secs % 86400;
    let hours = time_of_day / 3600;
    let minutes = (time_of_day % 3600) / 60;
    let mut year: u64 = 1970;
    let mut remaining = days;
    while remaining >= year_length(year)
        invariant
            remaining <= days,
            days == secs / 86400,
            year - 1970 <= days - remaining,
            1970 <= year,
            civil_year(days as int, 1970) == civil_year(remaining as int, year as int),
        decreases remaining,
    {
        remaining = remaining - year_length(year);
        year = year + 1;
    }
    let leap = year % 4 == 0 && (year % 100 != 0 || year % 400 == 0);
    let mut month: u64 = 0;
    let ghost start_rem = remaining;
    while month < 12 && remaining >= month_length(month, leap)
        invariant
            month <= 12,
            remaining <= start_rem,
            leap == is_leap(year as int),
            civil_month(start_rem as int, leap, 0) == civil_month(remaining as int, leap, month as int),
        decreases 12 - month,
    {
        remaining = remaining - month_length(month, leap);
        month = month + 1;
    }
    let mut out = String::new();
    push_padded(&mut out, year, 10, 4);
    crate::text::push_char(&mut out, '-');
    push_padded(&mut out, month + 1, 10, 2);
    crate::text::push_char(&mut out, '-');
    push_padded(&mut out, remaining + 1, 10, 2);
    crate::text::push_char(&mut out, ' ');
    push_padded(&mut out, hours, 10, 2);
    crate::text::push_char(&mut out, ':');
    push_padded(&mut out, minutes, 10, 2);
    assert(out@ =~= time_text(secs as nat));
    out
}

} // verus!

verus! {

/// The patterns of a `.gitignore` text: its lines, trimmed, leaving out blank
/// lines and lines that start with `#`.
pub open spec fn gitignore_from(lines: Seq<Seq<char>>) -> Seq<Seq<char>>
    decreases lines.len(),
{
    if lines.len() == 0 {
        Seq::empty()
    } else {
        let prev = gitignore_from(lines.drop_last());
        let l = lines.last();
        if trimmed(l).len() > 0 && !(l.len() > 0 && l[0] == '#') {
            prev.push(trimmed(l))
        } else {
            prev
        }
    }
}

/// Reads the patterns of a `.gitignore` file's text.
pub fn gitignore_patterns(content: &str) -> (pats: Vec<String>)
    ensures
        views(pats@) == gitignore_from(text_lines(content@)),
{
    let lines = split_lines(content);
    let ghost ls = views(lines@);
    let mut pats: Vec<String> = Vec::new();
    let mut i: usize = 0;
    while i < lines.len()
        invariant
            i <= lines@.len(),
            ls == views(lines@),
            ls == text_lines(content@),
            views(pats@) == gitignore_from(ls.take(i as int)),
        decreases lines@.len() - i,
    {
        let l = str_chars(lines[i].as_str());
        assert(ls.take(i + 1).drop_last() =~= ls.take(i as int));
        assert(ls.take(i + 1).last() == l@);
        let (a, b) = trim_bounds(&l);
        if a < b && !(l.len() > 0 && l[0] == '#') {
            let t = string_from_range(l.as_slice(), a, b);
            let ghost before = pats@;
            pats.push(t);
            assert(views(pats@) =~= views(before).push(trimmed(l@)));
        }
        i = i + 1;
    }
    assert(ls.take(lines@.len() as int) =~= ls);
    pats
}

/// The first ten characters of a modification time: its date.
pub open spec fn date_part(m: Seq<char>) -> Seq<char> {
    m.take(if m.len() < 10 { m.len() as int } else { 10 })
}

/// Whether an extension filter admits a file: empty admits all, else some
/// entry equals the file's extension ignoring case.
pub open spec fn extension_admitted(filter: Seq<Seq<char>>, full_path: Seq<char>) -> bool {
    let ext = match crate::text::path_extension(full_path) {
        Some(e) => e,
        None => Seq::empty(),
    };
    filter.len() == 0 || exists|k: int| 0 <= k < filter.len() && #[trigger] lowercase(filter[k]) == lowercase(ext)
}

/// Whether a directory entry is listed: not `.git`, not ignored, and for
/// files within the extension, size and date filters.
pub open spec fn entry_listed(
    rel: Seq<char>,
    file_name: Seq<char>,
    full_path: Seq<char>,
    is_dir: bool,
    size: u64,
    modified: Option<Seq<char>>,
    gitignore: Seq<Seq<char>>,
    options: FolderCompareOptions,
) -> bool {
    &&& file_name != ".git"@
    &&& !ignored_by(rel, gitignore)
    &&& !ignored_by(rel, views(options.exclude_patterns@))
    &&& (is_dir || extension_admitted(views(options.extension_filter@), full_path))
    &&& (is_dir || !(options.min_size > 0 && size < options.min_size))
    &&& (is_dir || !(options.max_size > 0 && size > options.max_size))
    &&& (is_dir || match modified {
        Some(m) => {
            &&& !(options.modified_after@.len() > 0 && lex_lt(date_part(m), options.modified_after@))
            &&& !(options.modified_before@.len() > 0 && lex_lt(options.modified_before@, date_part(m)))
        },
        None => true,
    })
}

fn extension_ok(filter: &Vec<String>, full_path: &str) -> (b: bool)
    ensures
        b == extension_admitted(views(filter@), full_path@),
{
    if filter.len() == 0 {
        return true;
    }
    let ext = match crate::text::file_extension(full_path) {
        Some(e) => e,
        None => String::new(),
    };
    let ext_l = to_lowercase(ext.as_str());
    let mut k: usize = 0;
    while k < filter.len()
        invariant
            k <= filter@.len(),
            ext_l@ == lowercase(match crate::text::path_extension(full_path@) {
                Some(e) => e,
                None => Seq::empty(),
            }),
            forall|j: int| 0 <= j < k ==> #[trigger] lowercase(views(filter@)[j]) != ext_l@,
        decreases filter@.len() - k,
    {
        let f = to_lowercase(filter[k].as_str());
        assert(views(filter@)[k as int] == filter@[k as int]@);
        if str_eq(f.as_str(), ext_l.as_str()) {
            return true;
        }
        k = k + 1;
    }
    false
}

/// Decides whether a directory entry is listed (see `entry_listed`).
pub fn keep_entry(
    rel: &str,
    file_name: &str,
    full_path: &str,
    is_dir: bool,
    size: u64,
    modified: &Option<String>,
    gitignore: &Vec<String>,
    options: &FolderCompareOptions,
) -> (b: bool)
    ensures
        b == entry_listed(rel@, file_name@, full_path@, is_dir, size, opt_view(*modified), views(gitignore@), *options),
{
    if str_eq(file_name, ".git") {
        return false;
    }
    if should_ignore(rel, gitignore) {
        return false;
    }
    if should_ignore(rel, &options.exclude_patterns) {
        return false;
    }
    if !is_dir && !extension_ok(&options.extension_filter, full_path) {
        return false;
    }
    if !is_dir {
        if options.min_size > 0 && size < options.min_size {
            return false;
        }
        if options.max_size > 0 && size > options.max_size {
            return false;
        }
    }
    if !is_dir {
        if let Some(m) = modified {
            let mv = str_chars(m.as_str());
            let n = if mv.len() < 10 { mv.len() } else { 10 };
            let d = string_from_range(mv.as_slice(), 0, n);
            assert(d@ =~= date_part(m@));
            if !options.modified_after.as_str().is_empty() && str_lt(d.as_str(), options.modified_after.as_str()) {
                return false;
            }
            if !options.modified_before.as_str().is_empty() && str_lt(options.modified_before.as_str(), d.as_str()) {
                return false;
            }
        }
    }
    true
}

/// Whether a folder found at `depth` is searched further (`max_depth` 0 is unlimited).
pub fn descend_into(depth: usize, options: &FolderCompareOptions) -> (b: bool)
    requires
        depth < usize::MAX,
    ensures
        b == !(options.max_depth > 0 && depth + 1 >= options.max_depth),
{
    !(options.max_depth > 0 && depth + 1 >= options.max_depth)
}

} // verus!
