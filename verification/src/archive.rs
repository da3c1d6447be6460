//! ZIP archives compared entry by entry, listed like a folder comparison.
use vstd::prelude::*;
use crate::text::{str_chars, str_to_string, views, push_char, push_str, file_extension, path_extension,
    eq_ignore_ascii_case, str_eq_ignore_ascii_case};
use crate::models::{FileCompareStatus, FolderItem};
use crate::names::{sorted_union, strictly_sorted, last_index, find_last, lemma_last_index};
use crate::numfmt::{dec, push_dec};
use crate::folder::opt_view;

verus! {

/// The data starts with the ZIP magic bytes `PK\x03\x04`.
pub open spec fn zip_magic(data: Seq<u8>) -> bool {
    data.len() >= 4 && data[0] == 0x50u8 && data[1] == 0x4Bu8 && data[2] == 0x03u8 && data[3] == 0x04u8
}

/// The path's extension is `zip` in any ASCII case.
pub open spec fn zip_named(path: Seq<char>) -> bool {
    path_extension(path) matches Some(e) && eq_ignore_ascii_case(e, "zip"@)
}

/// True if the data starts with the ZIP magic bytes `PK\x03\x04`.
pub fn is_zip_bytes(data: &[u8]) -> (b: bool)
    ensures
        b == zip_magic(data@),
{
    data.len() >= 4 && data[0] == 0x50u8 && data[1] == 0x4Bu8 && data[2] == 0x03u8 && data[3] == 0x04u8
}

/// True if the path's extension is `zip` in any ASCII case.
pub fn is_zip_path(path: &str) -> (b: bool)
    ensures
        b == zip_named(path@),
{
    match file_extension(path) {
        Some(e) => str_eq_ignore_ascii_case(e.as_str(), "zip"),
        None => false,
    }
}

/// One member of an archive: its name, uncompressed size and CRC-32.
#[derive(Debug, Clone)]
pub struct ZipEntry {
    pub name: String,
    pub size: u64,
    pub crc: u32,
}

pub open spec fn zip_entry_view(e: ZipEntry) -> (Seq<char>, u64, u32) {
    (e.name@, e.size, e.crc)
}

/// The members that the `zip` crate reads from archive bytes, in the order of
/// the central directory, leaving out those it cannot open or name; empty
/// when the bytes are no archive it can open.
pub uninterp spec fn zip_members(data: Seq<u8>) -> Seq<(Seq<char>, u64, u32)>;

/// Opens the archive with `zip::ZipArchive::new` and lists each member that
/// `by_index` opens and `name` decodes, with `size` and `crc32`.
#[verifier::external_body]
fn read_zip_entries(data: &[u8]) -> (v: Vec<ZipEntry>)
    ensures
        v@.map_values(|e: ZipEntry| zip_entry_view(e)) == zip_members(data@),
{
    let mut archive = match zip::ZipArchive::new(std::io::Cursor::new(data)) {
        Ok(a) => a,
        Err(_) => return Vec::new(),
    };
    let mut entries = Vec::new();
    for i in 0..archive.len() {
        if let Ok(file) = archive.by_index(i) {
            if let Ok(name) = file.name() {
                entries.push(ZipEntry { name: name.to_string(), size: file.size(), crc: file.crc32() });
            }
        }
    }
    entries
}

/// `q` rounded to the nearest integer, ties to even, where `q = num / den`.
pub open spec fn round_half_even(num: nat, den: nat) -> nat
    recommends
        den > 0,
{
    let q = num / den;
    let r = num % den;
    if 2 * r > den || (2 * r == den && q % 2 == 1) { q + 1 } else { q }
}

/// `bytes / unit` with one decimal, rounded to the nearest tenth (ties to even).
pub open spec fn tenths_text(bytes: nat, unit: nat) -> Seq<char> {
    let t = round_half_even(bytes * 10, unit);
    dec(t / 10) + seq!['.'] + dec(t % 10)
}

/// A size for display: "N B" below 1 KiB, else KiB or MiB with one decimal.
pub open spec fn size_text(bytes: nat) -> Seq<char> {
    if bytes < 1024 {
        dec(bytes) + " B"@
    } else if bytes < 1024 * 1024 {
        tenths_text(bytes, 1024) + " KB"@
    } else {
        tenths_text(bytes, 1024 * 1024) + " MB"@
    }
}

fn push_tenths(out: &mut String, bytes: u64, unit: u64)
    requires
        unit == 1024 || unit == 1024 * 1024,
    ensures
        final(out)@ == old(out)@ + tenths_text(bytes as nat, unit as nat),
{
    let num: u128 = (bytes as u128) * 10;
    let q: u128 = num / (unit as u128);
    let r: u128 = num % (unit as u128);
    let t: u128 = if 2 * r > unit as u128 || (2 * r == unit as u128 && q % 2 == 1) { q + 1 } else { q };
    assert(t == round_half_even(bytes as nat * 10, unit as nat));
    assert(t / 10 <= u64::MAX) by (nonlinear_arith)
        requires
            t <= q + 1,
            q == num / (unit as u128),
            num == bytes as nat * 10,
            unit >= 1024,
            bytes <= u64::MAX,
    ;
    push_dec(out, (t / 10) as u64);
    push_char(out, '.');
    push_dec(out, (t % 10) as u64);
}

/// Formats a byte count for display.
pub fn format_size(bytes: u64) -> (s: String)
    ensures
        s@ == size_text(bytes as nat),
{
    let mut s = String::new();
    if bytes < 1024 {
        push_dec(&mut s, bytes);
        push_str(&mut s, " B");
    } else if bytes < 1024 * 1024 {
        push_tenths(&mut s, bytes, 1024);
        push_str(&mut s, " KB");
    } else {
        push_tenths(&mut s, bytes, 1024 * 1024);
        push_str(&mut s, " MB");
    }
    s
}

/// A member name with its trailing slashes removed.
pub open spec fn trim_trailing_slashes(s: Seq<char>) -> Seq<char>
    decreases s.len(),
{
    if s.len() > 0 && s.last() == '/' {
        trim_trailing_slashes(s.drop_last())
    } else {
        s
    }
}

/// The member names of a list of entries.
pub open spec fn entry_names(es: Seq<ZipEntry>) -> Seq<Seq<char>> {
    es.map_values(|e: ZipEntry| e.name@)
}

/// The item listed for member `name`, given the last entry of that name on
/// each side: a name ending in `/` is a directory; two directories are
/// identical, two files are identical when CRC and size agree; paths are
/// shown as `archive::name` and the size text stands where a folder listing
/// shows the modification time.
pub open spec fn zip_item_matches(
    item: FolderItem,
    name: Seq<char>,
    le: Option<ZipEntry>,
    re: Option<ZipEntry>,
    lp: Seq<char>,
    rp: Seq<char>,
) -> bool {
    let is_dir = name.len() > 0 && name.last() == '/';
    &&& item.relative_path@ == trim_trailing_slashes(name)
    &&& item.is_directory == is_dir
    &&& item.status == match (le, re) {
        (Some(l), Some(r)) => if is_dir || (l.crc == r.crc && l.size == r.size) {
            FileCompareStatus::Identical
        } else {
            FileCompareStatus::Different
        },
        (Some(_), None) => FileCompareStatus::LeftOnly,
        _ => FileCompareStatus::RightOnly,
    }
    &&& opt_view(item.left_path) == match le { Some(_) => Some(lp + "::"@ + name), None => None }
    &&& opt_view(item.right_path) == match re { Some(_) => Some(rp + "::"@ + name), None => None }
    &&& item.left_size == match le { Some(l) => if is_dir { None } else { Some(l.size) }, None => None }
    &&& item.right_size == match re { Some(r) => if is_dir { None } else { Some(r.size) }, None => None }
    &&& opt_view(item.left_modified) == match le {
        Some(l) => Some(if is_dir { Seq::empty() } else { size_text(l.size as nat) }),
        None => None,
    }
    &&& opt_view(item.right_modified) == match re {
        Some(r) => Some(if is_dir { Seq::empty() } else { size_text(r.size as nat) }),
        None => None,
    }
}

pub open spec fn zip_entry_at(es: Seq<ZipEntry>, k: Option<int>) -> Option<ZipEntry> {
    match k {
        Some(i) => Some(es[i]),
        None => None,
    }
}

/// `items` list the members of `left` and `right` by the names `names`
/// (see `zip_item_matches`).
pub open spec fn zip_listing(
    left: Seq<ZipEntry>,
    right: Seq<ZipEntry>,
    names: Seq<Seq<char>>,
    items: Seq<FolderItem>,
    lp: Seq<char>,
    rp: Seq<char>,
) -> bool {
    &&& strictly_sorted(names)
    &&& forall|x: Seq<char>| names.contains(x) <==> (entry_names(left).contains(x) || entry_names(right).contains(x))
    &&& items.len() == names.len()
    &&& forall|k: int| 0 <= k < names.len() ==> zip_item_matches(
        #[trigger] items[k],
        names[k],
        zip_entry_at(left, last_index(entry_names(left), names[k])),
        zip_entry_at(right, last_index(entry_names(right), names[k])),
        lp,
        rp,
    )
}

fn name_list(es: &Vec<ZipEntry>) -> (v: Vec<String>)
    ensures
        views(v@) == entry_names(es@),
{
    let mut v: Vec<String> = Vec::new();
    let mut i: usize = 0;
    while i < es.len()
        invariant
            i <= es@.len(),
            views(v@) == entry_names(es@).take(i as int),
        decreases es@.len() - i,
    {
        let ghost before = v@;
        v.push(str_to_string(es[i].name.as_str()));
        assert(views(v@) =~= views(before).push(es@[i as int].name@));
        assert(entry_names(es@).take(i + 1) =~= entry_names(es@).take(i as int).push(es@[i as int].name@));
        i = i + 1;
    }
    assert(entry_names(es@).take(es@.len() as int) =~= entry_names(es@));
    v
}

fn archive_path(archive: &str, name: &str) -> (s: String)
    ensures
        s@ == archive@ + "::"@ + name@,
{
    let mut s = str_to_string(archive);
    push_str(&mut s, "::");
    push_str(&mut s, name);
    s
}

fn trimmed_name(name: &str) -> (s: String)
    ensures
        s@ == trim_trailing_slashes(name@),
{
    let v = str_chars(name);
    let mut n: usize = v.len();
    assert(v@.take(n as int) =~= v@);
    while n > 0 && v[n - 1] == '/'
        invariant
            n <= v@.len(),
            trim_trailing_slashes(name@) == trim_trailing_slashes(v@.take(n as int)),
            v@ == name@,
        decreases n,
    {
        assert(v@.take(n as int).drop_last() =~= v@.take(n - 1));
        n = n - 1;
    }
    assert(n > 0 ==> v@.take(n as int).last() == v@[n - 1]);
    crate::text::string_from_range(v.as_slice(), 0, n)
}

fn zip_item(name: &str, le: Option<&ZipEntry>, re: Option<&ZipEntry>, lp: &str, rp: &str) -> (item: FolderItem)
    requires
        le is Some || re is Some,
    ensures
        zip_item_matches(
            item,
            name@,
            match le { Some(l) => Some(*l), None => None },
            match re { Some(r) => Some(*r), None => None },
            lp@,
            rp@,
        ),
{
    let v = str_chars(name);
    let is_dir = v.len() > 0 && v[v.len() - 1] == '/';
    let status = match (le, re) {
        (Some(l), Some(r)) => if is_dir || (l.crc == r.crc && l.size == r.size) {
            FileCompareStatus::Identical
        } else {
            FileCompareStatus::Different
        },
        (Some(_), None) => FileCompareStatus::LeftOnly,
        _ => FileCompareStatus::RightOnly,
    };
    let left_path = match le { Some(_) => Some(archive_path(lp, name)), None => None };
    let right_path = match re { Some(_) => Some(archive_path(rp, name)), None => None };
    let left_size = match le { Some(l) => if is_dir { None } else { Some(l.size) }, None => None };
    let right_size = match re { Some(r) => if is_dir { None } else { Some(r.size) }, None => None };
    let left_modified = match le {
        Some(l) => Some(if is_dir { String::new() } else { format_size(l.size) }),
        None => None,
    };
    let right_modified = match re {
        Some(r) => Some(if is_dir { String::new() } else { format_size(r.size) }),
        None => None,
    };
    proof {
        if le is Some && is_dir {
            assert(left_modified->0@ =~= Seq::<char>::empty());
        }
        if re is Some && is_dir {
            assert(right_modified->0@ =~= Seq::<char>::empty());
        }
    }
    FolderItem {
        relative_path: trimmed_name(name),
        is_directory: is_dir,
        status,
        left_path,
        right_path,
        left_size,
        right_size,
        left_modified,
        right_modified,
    }
}

/// Lists two archives' members side by side: every member name once, in
/// order, compared through the last entry of that name on each side.
pub fn compare_zip_entries(left: &Vec<ZipEntry>, right: &Vec<ZipEntry>, left_path_str: &str, right_path_str: &str) -> (items: Vec<FolderItem>)
    ensures
        exists|names: Seq<Seq<char>>| #[trigger] zip_listing(left@, right@, names, items@, left_path_str@, right_path_str@),
{
    let ln = name_list(left);
    let rn = name_list(right);
    let all = sorted_union(&ln, &rn);
    let mut items: Vec<FolderItem> = Vec::new();
    let mut k: usize = 0;
    while k < all.len()
        invariant
            k <= all@.len(),
            views(ln@) == entry_names(left@),
            views(rn@) == entry_names(right@),
            strictly_sorted(views(all@)),
            forall|x: Seq<char>| views(all@).contains(x) <==> (views(ln@).contains(x) || views(rn@).contains(x)),
            items@.len() == k,
            forall|j: int| 0 <= j < k ==> zip_item_matches(
                #[trigger] items@[j],
                views(all@)[j],
                zip_entry_at(left@, last_index(entry_names(left@), views(all@)[j])),
                zip_entry_at(right@, last_index(entry_names(right@), views(all@)[j])),
                left_path_str@,
                right_path_str@,
            ),
        decreases all@.len() - k,
    {
        let name = all[k].as_str();
        proof {
            assert(views(all@)[k as int] == name@);
            assert(views(all@).contains(name@));
            lemma_last_index(entry_names(left@), name@);
            lemma_last_index(entry_names(right@), name@);
        }
        let l = find_last(&ln, name);
        let r = find_last(&rn, name);
        let le: Option<&ZipEntry> = match l { Some(i) => Some(&left[i]), None => None };
        let re: Option<&ZipEntry> = match r { Some(i) => Some(&right[i]), None => None };
        let item = zip_item(name, le, re, left_path_str, right_path_str);
        items.push(item);
        k = k + 1;
    }
    assert(zip_listing(left@, right@, views(all@), items@, left_path_str@, right_path_str@));
    items
}

/// Compares two ZIP archives' bytes member by member (see `compare_zip_entries`).
pub fn compare_zip_archives(left_data: &[u8], right_data: &[u8], left_path_str: &str, right_path_str: &str) -> (items: Vec<FolderItem>)
    ensures
        exists|left: Seq<ZipEntry>, right: Seq<ZipEntry>, names: Seq<Seq<char>>| {
            &&& left.map_values(|e: ZipEntry| zip_entry_view(e)) == zip_members(left_data@)
            &&& right.map_values(|e: ZipEntry| zip_entry_view(e)) == zip_members(right_data@)
            &&& #[trigger] zip_listing(left, right, names, items@, left_path_str@, right_path_str@)
        },
{
    let left = read_zip_entries(left_data);
    let right = read_zip_entries(right_data);
    let items = compare_zip_entries(&left, &right, left_path_str, right_path_str);
    let ghost names = choose|names: Seq<Seq<char>>| zip_listing(left@, right@, names, items@, left_path_str@, right_path_str@);
    assert(zip_listing(left@, right@, names, items@, left_path_str@, right_path_str@));
    items
}

} // verus!
