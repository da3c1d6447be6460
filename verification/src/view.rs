//! View modes, diff statistics and small display helpers.
use vstd::prelude::*;
use crate::text::{split_words, words_from, push_char, str_chars};
use crate::models::DiffResult;

verus! {

/// What a tab shows. The numbers (see `as_i32`) are those the view layer uses;
/// 2 is not used.
#[derive(Debug, Clone, Copy, PartialEq, Eq, Structural)]
pub enum ViewMode {
    FileDiff,
    FolderCompare,
    ThreeWayText,
    ExcelCompare,
    ImageCompare,
    CsvCompare,
    Blank,
    CsvThreeWay,
}

pub open spec fn view_mode_code(m: ViewMode) -> i32 {
    match m {
        ViewMode::FileDiff => 0,
        ViewMode::FolderCompare => 1,
        ViewMode::ThreeWayText => 3,
        ViewMode::ExcelCompare => 4,
        ViewMode::ImageCompare => 5,
        ViewMode::CsvCompare => 6,
        ViewMode::Blank => 7,
        ViewMode::CsvThreeWay => 8,
    }
}

/// The mode a number stands for; unknown numbers are `Blank`.
pub open spec fn view_mode_of(v: i32) -> ViewMode {
    if v == 0 {
        ViewMode::FileDiff
    } else if v == 1 {
        ViewMode::FolderCompare
    } else if v == 3 {
        ViewMode::ThreeWayText
    } else if v == 4 {
        ViewMode::ExcelCompare
    } else if v == 5 {
        ViewMode::ImageCompare
    } else if v == 6 {
        ViewMode::CsvCompare
    } else if v == 8 {
        ViewMode::CsvThreeWay
    } else {
        ViewMode::Blank
    }
}

impl ViewMode {
    pub fn as_i32(self) -> (r: i32)
        ensures
            r == view_mode_code(self),
    {
        match self {
            ViewMode::FileDiff => 0,
            ViewMode::FolderCompare => 1,
            ViewMode::ThreeWayText => 3,
            ViewMode::ExcelCompare => 4,
            ViewMode::ImageCompare => 5,
            ViewMode::CsvCompare => 6,
            ViewMode::Blank => 7,
            ViewMode::CsvThreeWay => 8,
        }
    }

    /// Excel, CSV and three-way CSV tabs show a table.
    pub fn is_table_mode(self) -> (b: bool)
        ensures
            b == (self == ViewMode::ExcelCompare || self == ViewMode::CsvCompare || self == ViewMode::CsvThreeWay),
    {
        match self {
            ViewMode::ExcelCompare | ViewMode::CsvCompare | ViewMode::CsvThreeWay => true,
            _ => false,
        }
    }

    /// Two- and three-way text tabs show text.
    pub fn is_text_mode(self) -> (b: bool)
        ensures
            b == (self == ViewMode::FileDiff || self == ViewMode::ThreeWayText),
    {
        match self {
            ViewMode::FileDiff | ViewMode::ThreeWayText => true,
            _ => false,
        }
    }
}

impl From<i32> for ViewMode {
    fn from(v: i32) -> (m: ViewMode) {
        if v == 0 {
            ViewMode::FileDiff
        } else if v == 1 {
            ViewMode::FolderCompare
        } else if v == 3 {
            ViewMode::ThreeWayText
        } else if v == 4 {
            ViewMode::ExcelCompare
        } else if v == 5 {
            ViewMode::ImageCompare
        } else if v == 6 {
            ViewMode::CsvCompare
        } else if v == 8 {
            ViewMode::CsvThreeWay
        } else {
            ViewMode::Blank
        }
    }
}

impl vstd::std_specs::convert::FromSpecImpl<i32> for ViewMode {
    open spec fn obeys_from_spec() -> bool {
        true
    }

    open spec fn from_spec(v: i32) -> ViewMode {
        view_mode_of(v)
    }
}

/// Reading a mode's number back gives the mode.
pub proof fn lemma_view_mode_round_trip(m: ViewMode)
    ensures
        view_mode_of(view_mode_code(m)) == m,
{
}

/// Result of a diff computed in the background, applied to its tab later.
pub struct PendingDiffResult {
    pub tab_index: usize,
    pub diff_result: DiffResult,
    pub left_text: String,
    pub right_text: String,
    pub left_highlights: Vec<i32>,
    pub right_highlights: Vec<i32>,
    pub tab_width: usize,
    pub left_path: Option<String>,
    pub right_path: Option<String>,
    pub left_encoding: String,
    pub right_encoding: String,
}

/// The decimal value of a run of ASCII digits.
pub open spec fn digits_value(d: Seq<char>) -> int
    decreases d.len(),
{
    if d.len() == 0 {
        0
    } else {
        10 * digits_value(d.drop_last()) + (d.last() as int - '0' as int)
    }
}

pub open spec fn is_digit(c: char) -> bool {
    '0' <= c && c <= '9'
}

pub open spec fn all_digits(d: Seq<char>) -> bool {
    forall|i: int| 0 <= i < d.len() ==> is_digit(#[trigger] d[i])
}

/// What `str::parse::<i32>` gives: an optional `+` or `-`, then one or more
/// ASCII digits, with a value in range; `None` for anything else.
pub open spec fn parse_i32_spec(s: Seq<char>) -> Option<i32> {
    let neg = s.len() > 0 && s[0] == '-';
    let signed = s.len() > 0 && (s[0] == '-' || s[0] == '+');
    let d = if signed { s.drop_first() } else { s };
    if d.len() == 0 || !all_digits(d) {
        None
    } else {
        let v = if neg { -digits_value(d) } else { digits_value(d) };
        if i32::MIN <= v <= i32::MAX { Some(v as i32) } else { None }
    }
}

/// `str::parse::<i32>` on the characters of `s`.
pub fn parse_i32(s: &Vec<char>) -> (r: Option<i32>)
    ensures
        r == parse_i32_spec(s@),
{
    let neg = s.len() > 0 && s[0] == '-';
    let signed = s.len() > 0 && (s[0] == '-' || s[0] == '+');
    let start: usize = if signed { 1 } else { 0 };
    let ghost d = if signed { s@.drop_first() } else { s@ };
    assert(signed == (s@.len() > 0 && (s@[0] == '-' || s@[0] == '+')));
    assert(neg == (s@.len() > 0 && s@[0] == '-'));
    if s.len() == start {
        return None;
    }
    // Values at or above CAP are out of range for either sign.
    let cap: u64 = 2147483649;
    let mut acc: u64 = 0;
    let mut i: usize = start;
    while i < s.len()
        invariant
            start <= i <= s@.len(),
            d == s@.skip(start as int),
            signed == (s@.len() > 0 && (s@[0] == '-' || s@[0] == '+')),
            d == (if signed { s@.drop_first() } else { s@ }),
            cap == 2147483649,
            all_digits(d.take(i - start)),
            acc as int == if digits_value(d.take(i - start)) < cap { digits_value(d.take(i - start)) } else { cap as int },
        decreases s@.len() - i,
    {
        let c = s[i];
        assert(d[i - start] == c);
        if !('0' <= c && c <= '9') {
            assert(!is_digit(d[i - start]));
            assert(!all_digits(d));
            assert(d.len() > 0);
            assert(parse_i32_spec(s@) is None);
            return None;
        }
        let dg = (c as u32 - '0' as u32) as u64;
        let ghost prev = d.take(i - start);
        let ghost next = d.take(i - start + 1);
        assert(next.drop_last() =~= prev);
        assert(next.last() == c);
        assert(digits_value(prev) >= 0) by {
            lemma_digits_nonneg(prev);
        }
        let v = acc * 10 + dg;
        acc = if v < cap { v } else { cap };
        proof {
            if digits_value(prev) >= cap {
                assert(digits_value(next) >= 10 * digits_value(prev)) by (nonlinear_arith)
                    requires
                        digits_value(next) == 10 * digits_value(prev) + (c as int - '0' as int),
                        '0' <= c;
            }
            assert forall|k: int| 0 <= k < next.len() implies is_digit(#[trigger] next[k]) by {
                if k < prev.len() {
                    assert(next[k] == prev[k]);
                }
            }
        }
        i = i + 1;
    }
    assert(d.take(s@.len() - start) =~= d);
    assert(all_digits(d));
    assert(d.len() > 0);
    if acc >= cap {
        assert(parse_i32_spec(s@) is None);
        None
    } else if neg {
        assert(acc as int == digits_value(d));
        if acc == 2147483648 {
            Some(i32::MIN)
        } else {
            Some(-(acc as i32))
        }
    } else if acc <= 2147483647 {
        assert(acc as int == digits_value(d));
        Some(acc as i32)
    } else {
        assert(acc as int == digits_value(d));
        None
    }
}

proof fn lemma_digits_nonneg(d: Seq<char>)
    requires
        all_digits(d),
    ensures
        digits_value(d) >= 0,
    decreases d.len(),
{
    if d.len() > 0 {
        assert(is_digit(d[d.len() - 1]));
        assert forall|i: int| 0 <= i < d.drop_last().len() implies is_digit(#[trigger] d.drop_last()[i]) by {
            assert(d.drop_last()[i] == d[i]);
        }
        lemma_digits_nonneg(d.drop_last());
    }
}

/// The number after a sign prefix, 0 when it does not parse.
pub open spec fn stat_value(rest: Seq<char>) -> i32 {
    match parse_i32_spec(rest) {
        Some(v) => v,
        None => 0,
    }
}

/// The counts read from the first `n` words: `+N` sets added, `-N` removed,
/// `~N` modified; a later word of a kind wins.
pub open spec fn stats_from(words: Seq<Seq<char>>, n: int) -> (i32, i32, i32)
    decreases n,
{
    if n <= 0 {
        (0, 0, 0)
    } else {
        let prev = stats_from(words, n - 1);
        let w = words[n - 1];
        if w.len() > 0 && w[0] == '+' {
            (stat_value(w.drop_first()), prev.1, prev.2)
        } else if w.len() > 0 && w[0] == '-' {
            (prev.0, stat_value(w.drop_first()), prev.2)
        } else if w.len() > 0 && w[0] == '~' {
            (prev.0, prev.1, stat_value(w.drop_first()))
        } else {
            prev
        }
    }
}

/// The (added, removed, modified) counts of a stats text such as "+3 -1 ~2".
pub open spec fn diff_stats_of(s: Seq<char>) -> (i32, i32, i32) {
    let words = words_from(s, Seq::empty());
    stats_from(words, words.len() as int)
}

fn rest_after_first(w: &Vec<char>) -> (r: Vec<char>)
    requires
        w@.len() > 0,
    ensures
        r@ == w@.drop_first(),
{
    let mut r: Vec<char> = Vec::new();
    let mut i: usize = 1;
    while i < w.len()
        invariant
            1 <= i <= w@.len(),
            r@ == w@.subrange(1, i as int),
        decreases w@.len() - i,
    {
        r.push(w[i]);
        assert(r@ =~= w@.subrange(1, i + 1));
        i = i + 1;
    }
    assert(r@ =~= w@.drop_first());
    r
}

/// Parses a diff stats text "+A -R ~M" into (added, removed, modified).
pub fn parse_diff_stats(s: &str) -> (r: (i32, i32, i32))
    ensures
        r == diff_stats_of(s@),
{
    let words = split_words(s);
    let ghost ws = words@.map_values(|w: Vec<char>| w@);
    let mut added: i32 = 0;
    let mut removed: i32 = 0;
    let mut modified: i32 = 0;
    let mut k: usize = 0;
    while k < words.len()
        invariant
            k <= words@.len(),
            ws == words@.map_values(|w: Vec<char>| w@),
            stats_from(ws, k as int) == (added, removed, modified),
        decreases words@.len() - k,
    {
        let w = &words[k];
        assert(ws[k as int] == w@);
        if w.len() > 0 && w[0] == '+' {
            added = match parse_i32(&rest_after_first(w)) { Some(v) => v, None => 0 };
        } else if w.len() > 0 && w[0] == '-' {
            removed = match parse_i32(&rest_after_first(w)) { Some(v) => v, None => 0 };
        } else if w.len() > 0 && w[0] == '~' {
            modified = match parse_i32(&rest_after_first(w)) { Some(v) => v, None => 0 };
        }
        k = k + 1;
    }
    (added, removed, modified)
}

/// A stats text together with the counts read from it, as the view shows them.
pub struct DiffStatsDisplay {
    pub text: String,
    pub added: i32,
    pub removed: i32,
    pub modified: i32,
}

/// The stats text and its parsed counts, for display.
pub fn sync_diff_stats(stats: &str) -> (d: DiffStatsDisplay)
    ensures
        d.text@ == stats@,
        (d.added, d.removed, d.modified) == diff_stats_of(stats@),
{
    let (added, removed, modified) = parse_diff_stats(stats);
    DiffStatsDisplay { text: crate::text::str_to_string(stats), added, removed, modified }
}

/// Native file dialogs always work on macOS and Windows (`os` as in
/// `std::env::consts::OS`).
pub fn has_native_file_dialog(os: &str) -> (b: bool)
    ensures
        b == (os@ == "macos"@ || os@ == "windows"@),
{
    crate::text::str_eq(os, "macos") || crate::text::str_eq(os, "windows")
}

/// Every tab replaced by `w` spaces.
pub open spec fn tabs_expanded(s: Seq<char>, w: nat) -> Seq<char>
    decreases s.len(),
{
    if s.len() == 0 {
        Seq::empty()
    } else {
        tabs_expanded(s.drop_last(), w) + if s.last() == '\t' {
            Seq::new(w, |i: int| ' ')
        } else {
            seq![s.last()]
        }
    }
}

/// Replaces each tab of `text` with `tab_width` spaces.
pub fn expand_tabs(text: &str, tab_width: usize) -> (r: String)
    ensures
        r@ == tabs_expanded(text@, tab_width as nat),
{
    let chars = str_chars(text);
    let mut out = String::new();
    let mut i: usize = 0;
    while i < chars.len()
        invariant
            i <= chars@.len(),
            chars@ == text@,
            out@ == tabs_expanded(chars@.take(i as int), tab_width as nat),
        decreases chars@.len() - i,
    {
        let c = chars[i];
        let ghost before = out@;
        assert(chars@.take(i + 1).drop_last() =~= chars@.take(i as int));
        assert(chars@.take(i + 1).last() == c);
        if c == '\t' {
            let mut k: usize = 0;
            while k < tab_width
                invariant
                    k <= tab_width,
                    out@ == before + Seq::new(k as nat, |j: int| ' '),
                decreases tab_width - k,
            {
                push_char(&mut out, ' ');
                assert(out@ =~= before + Seq::new((k + 1) as nat, |j: int| ' '));
                k = k + 1;
            }
        } else {
            push_char(&mut out, c);
            assert(out@ =~= before + seq![c]);
        }
        i = i + 1;
    }
    assert(chars@.take(chars@.len() as int) =~= chars@);
    out
}

} // verus!
