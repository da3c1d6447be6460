//! Two-way line diff: normalization of the compared text (filters, white
//! space, case), grouping of the line changes into aligned rows, word-level
//! changes of modified rows and detection of moved lines.
use vstd::prelude::*;
use crate::pane_buffer::rows_well_formed;
use crate::models::{DiffLine, DiffResult, LineStatus, WordDiffSegment, statuses, marks_change_starts, change_starts, is_change_start};
use crate::text::{
    str_chars, string_from_chars, split_lines, text_lines, views, all_ws, is_blank, trimmed,
    trim_bounds, collapse_ws, collapse_whitespace, push_char, push_str, join_lines_nl, lowercase,
    to_lowercase,
};

verus! {

/// Options that change what counts as a difference.
#[derive(Debug, Clone)]
pub struct DiffOptions {
    pub ignore_whitespace: bool,
    pub ignore_case: bool,
    pub ignore_blank_lines: bool,
    pub ignore_eol: bool,
    pub detect_moved_lines: bool,
    /// Line filter: regex patterns to exclude matching lines from comparison
    pub line_filters: Vec<String>,
    /// Substitution filters: (pattern, replacement) pairs applied before comparison
    pub substitution_filters: Vec<(String, String)>,
}

impl Default for DiffOptions {
    fn default() -> (o: Self)
        ensures
            !o.ignore_whitespace && !o.ignore_case && !o.ignore_blank_lines && !o.ignore_eol,
            o.detect_moved_lines,
            o.line_filters@.len() == 0,
            o.substitution_filters@.len() == 0,
    {
        DiffOptions {
            ignore_whitespace: false,
            ignore_case: false,
            ignore_blank_lines: false,
            ignore_eol: false,
            detect_moved_lines: true,
            line_filters: Vec::new(),
            substitution_filters: Vec::new(),
        }
    }
}

#[verifier::external_type_specification]
#[verifier::external_body]
pub struct ExRegex(regex::Regex);

/// A compiled regular expression together with the pattern it was compiled
/// from; only `compile_regex` makes one.
pub struct CompiledRegex {
    pattern: String,
    re: regex::Regex,
}

impl CompiledRegex {
    pub closed spec fn pattern_view(&self) -> Seq<char> {
        self.pattern@
    }
}

/// `regex::Regex::new` accepts the pattern.
pub uninterp spec fn regex_compiles(pattern: Seq<char>) -> bool;

/// `regex::Regex::is_match` of the compiled pattern on the text.
pub uninterp spec fn regex_finds(pattern: Seq<char>, text: Seq<char>) -> bool;

/// `regex::Regex::replace_all` of the compiled pattern on the text with the
/// replacement (with its `$name` expansion).
pub uninterp spec fn regex_replaced(pattern: Seq<char>, text: Seq<char>, replacement: Seq<char>) -> Seq<char>;

/// Calls `regex::Regex::new`; `Some` exactly when the pattern compiles, and it
/// then remembers the pattern.
#[verifier::external_body]
fn compile_regex(pattern: &str) -> (r: Option<CompiledRegex>)
    ensures
        r is Some == regex_compiles(pattern@),
        r matches Some(c) ==> c.pattern_view() == pattern@,
{
    regex::Regex::new(pattern).ok().map(|re| CompiledRegex { pattern: pattern.to_string(), re })
}

/// Calls `regex::Regex::is_match`; the answer is a function of the pattern
/// and the text only.
#[verifier::external_body]
fn regex_is_match(re: &CompiledRegex, text: &str) -> (b: bool)
    ensures
        b == regex_finds(re.pattern_view(), text@),
{
    re.re.is_match(text)
}

/// Calls `regex::Regex::replace_all`; the result is a function of the
/// pattern, the text and the replacement only.
#[verifier::external_body]
fn regex_replace_all(re: &CompiledRegex, text: &str, replacement: &str) -> (r: String)
    ensures
        r@ == regex_replaced(re.pattern_view(), text@, replacement@),
{
    re.re.replace_all(text, replacement).to_string()
}

/// The views of the line filter patterns.
pub open spec fn filter_views(o: DiffOptions) -> Seq<Seq<char>> {
    views(o.line_filters@)
}

/// The views of the substitution filters.
pub open spec fn subst_views(o: DiffOptions) -> Seq<(Seq<char>, Seq<char>)> {
    o.substitution_filters@.map_values(|p: (String, String)| (p.0@, p.1@))
}

/// A filter pattern is used when it is not blank and compiles.
pub open spec fn pattern_used(p: Seq<char>) -> bool {
    !all_ws(p) && regex_compiles(p)
}

/// The used patterns, in order.
pub open spec fn used_patterns(ps: Seq<Seq<char>>) -> Seq<Seq<char>>
    decreases ps.len(),
{
    if ps.len() == 0 {
        Seq::empty()
    } else {
        let r = used_patterns(ps.drop_last());
        if pattern_used(ps.last()) {
            r.push(ps.last())
        } else {
            r
        }
    }
}

/// Some pattern of `pats` matches the line.
pub open spec fn any_finds(pats: Seq<Seq<char>>, line: Seq<char>) -> bool
    decreases pats.len(),
{
    pats.len() > 0 && (any_finds(pats.drop_last(), line) || regex_finds(pats.last(), line))
}

/// Some used filter pattern matches the line.
pub open spec fn filtered_out(pats: Seq<Seq<char>>, line: Seq<char>) -> bool {
    any_finds(used_patterns(pats), line)
}

/// The substitutions whose pattern is used, in order.
pub open spec fn used_subs(subs: Seq<(Seq<char>, Seq<char>)>) -> Seq<(Seq<char>, Seq<char>)>
    decreases subs.len(),
{
    if subs.len() == 0 {
        Seq::empty()
    } else {
        let r = used_subs(subs.drop_last());
        if pattern_used(subs.last().0) {
            r.push(subs.last())
        } else {
            r
        }
    }
}

/// Each substitution applied in turn.
pub open spec fn apply_subs(subs: Seq<(Seq<char>, Seq<char>)>, line: Seq<char>) -> Seq<char>
    decreases subs.len(),
{
    if subs.len() == 0 {
        line
    } else {
        regex_replaced(subs.last().0, apply_subs(subs.drop_last(), line), subs.last().1)
    }
}

/// The used substitutions applied in order.
pub open spec fn substituted(subs: Seq<(Seq<char>, Seq<char>)>, line: Seq<char>) -> Seq<char> {
    apply_subs(used_subs(subs), line)
}

/// `s` without trailing carriage returns and line feeds.
pub open spec fn strip_eol(s: Seq<char>) -> Seq<char>
    decreases s.len(),
{
    if s.len() > 0 && (s.last() == '\r' || s.last() == '\n') {
        strip_eol(s.drop_last())
    } else {
        s
    }
}

/// A line after end-of-line stripping (when asked).
pub open spec fn eol_line(o: DiffOptions, line: Seq<char>) -> Seq<char> {
    if o.ignore_eol { strip_eol(line) } else { line }
}

/// The line is left out of the comparison.
pub open spec fn line_dropped(o: DiffOptions, line: Seq<char>) -> bool {
    let l = eol_line(o, line);
    (o.ignore_blank_lines && all_ws(l)) || filtered_out(filter_views(o), l)
}

/// The form in which a kept line is compared.
pub open spec fn compared_form(o: DiffOptions, line: Seq<char>) -> Seq<char> {
    let l1 = substituted(subst_views(o), eol_line(o, line));
    let l2 = if o.ignore_whitespace { collapse_ws(l1) } else { l1 };
    if o.ignore_case { lowercase(l2) } else { l2 }
}

/// The compared forms of the kept lines.
pub open spec fn normalized_lines(o: DiffOptions, lines: Seq<Seq<char>>) -> Seq<Seq<char>>
    decreases lines.len(),
{
    if lines.len() == 0 {
        Seq::empty()
    } else {
        let rest = normalized_lines(o, lines.drop_last());
        if line_dropped(o, lines.last()) {
            rest
        } else {
            rest.push(compared_form(o, lines.last()))
        }
    }
}

/// The lines that take part in the comparison, as they stand in the text.
pub open spec fn kept_lines(o: DiffOptions, lines: Seq<Seq<char>>) -> Seq<Seq<char>>
    decreases lines.len(),
{
    if lines.len() == 0 {
        Seq::empty()
    } else {
        let rest = kept_lines(o, lines.drop_last());
        if line_dropped(o, lines.last()) {
            rest
        } else {
            rest.push(lines.last())
        }
    }
}

/// The text that is actually diffed: each kept line in compared form,
/// followed by a line feed.
pub open spec fn normalized_text(o: DiffOptions, text: Seq<char>) -> Seq<char> {
    join_lines_nl(normalized_lines(o, text_lines(text)))
}

fn strip_eol_chars(v: &Vec<char>) -> (n: usize)
    ensures
        n <= v@.len(),
        v@.take(n as int) == strip_eol(v@),
{
    let mut n = v.len();
    assert(v@.take(n as int) =~= v@);
    while n > 0 && (v[n - 1] == '\r' || v[n - 1] == '\n')
        invariant
            n <= v@.len(),
            strip_eol(v@) == strip_eol(v@.take(n as int)),
        decreases n,
    {
        assert(v@.take(n as int).drop_last() =~= v@.take(n - 1));
        n = n - 1;
    }
    n
}

/// The patterns of compiled regexes.
pub open spec fn patterns_of(res: Seq<CompiledRegex>) -> Seq<Seq<char>> {
    res.map_values(|r: CompiledRegex| r.pattern_view())
}

/// Compiles the used line filters.
fn compile_line_filters(patterns: &Vec<String>) -> (res: Vec<CompiledRegex>)
    ensures
        patterns_of(res@) == used_patterns(views(patterns@)),
{
    let mut res: Vec<CompiledRegex> = Vec::new();
    let mut i: usize = 0;
    while i < patterns.len()
        invariant
            i <= patterns@.len(),
            patterns_of(res@) == used_patterns(views(patterns@).take(i as int)),
        decreases patterns@.len() - i,
    {
        assert(views(patterns@).take(i + 1).drop_last() =~= views(patterns@).take(i as int));
        assert(views(patterns@).take(i + 1).last() == patterns@[i as int]@);
        let p = str_chars(patterns[i].as_str());
        if !is_blank(&p) {
            match compile_regex(patterns[i].as_str()) {
                Some(re) => {
                    let ghost old_res = res@;
                    res.push(re);
                    assert(patterns_of(res@) =~= patterns_of(old_res).push(re.pattern_view()));
                },
                None => {},
            }
        }
        i = i + 1;
    }
    assert(views(patterns@).take(patterns@.len() as int) =~= views(patterns@));
    res
}

/// Does some compiled filter match the line?
fn any_filter_matches(filters: &Vec<CompiledRegex>, line: &str) -> (b: bool)
    ensures
        b == any_finds(patterns_of(filters@), line@),
{
    let mut i: usize = 0;
    let mut found = false;
    while i < filters.len()
        invariant
            i <= filters@.len(),
            found == any_finds(patterns_of(filters@).take(i as int), line@),
        decreases filters@.len() - i,
    {
        assert(patterns_of(filters@).take(i + 1).drop_last() =~= patterns_of(filters@).take(i as int));
        if regex_is_match(&filters[i], line) {
            found = true;
        }
        i = i + 1;
    }
    assert(patterns_of(filters@).take(filters@.len() as int) =~= patterns_of(filters@));
    found
}


/// The (pattern, replacement) views of compiled substitutions.
pub open spec fn subs_of(res: Seq<(CompiledRegex, String)>) -> Seq<(Seq<char>, Seq<char>)> {
    res.map_values(|r: (CompiledRegex, String)| (r.0.pattern_view(), r.1@))
}

/// Compiles the used substitution filters.
fn compile_substitution_filters(filters: &Vec<(String, String)>) -> (res: Vec<(CompiledRegex, String)>)
    ensures
        subs_of(res@) == used_subs(filters@.map_values(|p: (String, String)| (p.0@, p.1@))),
{
    let ghost all = filters@.map_values(|p: (String, String)| (p.0@, p.1@));
    let mut res: Vec<(CompiledRegex, String)> = Vec::new();
    let mut i: usize = 0;
    while i < filters.len()
        invariant
            i <= filters@.len(),
            all == filters@.map_values(|p: (String, String)| (p.0@, p.1@)),
            subs_of(res@) == used_subs(all.take(i as int)),
        decreases filters@.len() - i,
    {
        assert(all.take(i + 1).drop_last() =~= all.take(i as int));
        assert(all.take(i + 1).last() == (filters@[i as int].0@, filters@[i as int].1@));
        let p = str_chars(filters[i].0.as_str());
        if !is_blank(&p) {
            match compile_regex(filters[i].0.as_str()) {
                Some(re) => {
                    let ghost old_res = res@;
                    let r = filters[i].1.clone();
                    res.push((re, r));
                    assert(subs_of(res@) =~= subs_of(old_res).push((re.pattern_view(), r@)));
                },
                None => {},
            }
        }
        i = i + 1;
    }
    assert(all.take(filters@.len() as int) =~= all);
    res
}

/// Applies the compiled substitutions in order.
fn apply_substitutions(subs: &Vec<(CompiledRegex, String)>, line: String) -> (r: String)
    ensures
        r@ == apply_subs(subs_of(subs@), line@),
{
    let mut l = line;
    let mut i: usize = 0;
    while i < subs.len()
        invariant
            i <= subs@.len(),
            l@ == apply_subs(subs_of(subs@).take(i as int), line@),
        decreases subs@.len() - i,
    {
        assert(subs_of(subs@).take(i + 1).drop_last() =~= subs_of(subs@).take(i as int));
        l = regex_replace_all(&subs[i].0, l.as_str(), subs[i].1.as_str());
        i = i + 1;
    }
    assert(subs_of(subs@).take(subs@.len() as int) =~= subs_of(subs@));
    l
}

/// The text that is diffed in place of `text`: filtered lines dropped, the
/// kept ones substituted, white space collapsed and lower-cased as the
/// options ask, each followed by a line feed.
pub fn normalize_text(text: &str, options: &DiffOptions) -> (r: String)
    ensures
        r@ == normalized_text(*options, text@),
{
    let (normalized, _kept, _count, _lines) = normalize_keeping_lines(text, options);
    normalized
}

/// `normalize_text`, together with the kept lines as they stand in the text
/// and the number of lines of the text.
fn normalize_keeping_lines(text: &str, options: &DiffOptions) -> (r: (String, Vec<String>, usize, Vec<String>))
    ensures
        r.0@ == normalized_text(*options, text@),
        views(r.1@) == kept_lines(*options, text_lines(text@)),
        r.2 == text_lines(text@).len(),
        views(r.3@) == normalized_lines(*options, text_lines(text@)),
{
    let line_filters = compile_line_filters(&options.line_filters);
    let sub_filters = compile_substitution_filters(&options.substitution_filters);
    let lines = split_lines(text);
    let ghost tl = text_lines(text@);
    let mut result = String::new();
    let mut kept: Vec<String> = Vec::new();
    let mut normalized: Vec<String> = Vec::new();
    let mut i: usize = 0;
    while i < lines.len()
        invariant
            i <= lines@.len(),
            views(lines@) == tl,
            tl == text_lines(text@),
            patterns_of(line_filters@) == used_patterns(filter_views(*options)),
            subs_of(sub_filters@) == used_subs(subst_views(*options)),
            result@ == join_lines_nl(normalized_lines(*options, tl.take(i as int))),
            views(kept@) == kept_lines(*options, tl.take(i as int)),
            views(normalized@) == normalized_lines(*options, tl.take(i as int)),
        decreases lines@.len() - i,
    {
        let ghost line_v = lines@[i as int]@;
        assert(tl.take(i + 1).drop_last() =~= tl.take(i as int));
        assert(tl.take(i + 1).last() == line_v);
        let chars = str_chars(lines[i].as_str());
        let l: String = if options.ignore_eol {
            let n = strip_eol_chars(&chars);
            let s = crate::text::string_from_range(chars.as_slice(), 0, n);
            assert(chars@.subrange(0, n as int) == chars@.take(n as int));
            s
        } else {
            lines[i].clone()
        };
        assert(l@ == eol_line(*options, line_v));
        let l_chars = str_chars(l.as_str());
        let blank = options.ignore_blank_lines && is_blank(&l_chars);
        if blank || any_filter_matches(&line_filters, l.as_str()) {
            assert(line_dropped(*options, line_v));
        } else {
            let l1 = apply_substitutions(&sub_filters, l);
            let l2 = if options.ignore_whitespace {
                let c = collapse_whitespace(&str_chars(l1.as_str()));
                string_from_chars(c.as_slice())
            } else {
                l1
            };
            let l3 = if options.ignore_case { to_lowercase(l2.as_str()) } else { l2 };
            assert(l3@ == compared_form(*options, line_v));
            let ghost prev = normalized_lines(*options, tl.take(i as int));
            push_str(&mut result, l3.as_str());
            push_char(&mut result, '\n');
            let ghost norm_before = normalized@;
            let ghost l3v = l3@;
            normalized.push(l3);
            assert(views(normalized@) =~= views(norm_before).push(l3v));
            assert(prev.push(l3@).drop_last() =~= prev);
            let ghost kept_before = kept@;
            kept.push(lines[i].clone());
            assert(views(kept@) =~= views(kept_before).push(line_v));
        }
        i = i + 1;
    }
    assert(tl.take(lines@.len() as int) =~= tl);
    let count = lines.len();
    (result, kept, count, normalized)
}


/// One change of a line diff.
#[derive(Debug, Clone, Copy, PartialEq, Eq, Structural)]
pub enum ChangeKind {
    Equal,
    Delete,
    Insert,
}

/// The diff algorithm to run.
#[derive(Debug, Clone, Copy, PartialEq, Eq, Structural)]
pub enum DiffAlgorithm {
    Myers,
    Patience,
}

/// Each equal change pairs equal lines: the `k`-th change, when equal, stands
/// for left line `left_steps` and right line `right_steps` of the changes before it.
pub open spec fn equal_steps_pair(tags: Seq<ChangeKind>, ll: Seq<Seq<char>>, rl: Seq<Seq<char>>) -> bool {
    forall|k: int| 0 <= k < tags.len() && #[trigger] tags[k] == ChangeKind::Equal
        ==> ll[left_steps(tags.take(k)) as int] == rl[right_steps(tags.take(k)) as int]
}

/// Every change is an equal one.
pub open spec fn all_equal_tags(tags: Seq<ChangeKind>) -> bool {
    forall|k: int| 0 <= k < tags.len() ==> #[trigger] tags[k] == ChangeKind::Equal
}

/// How many leading lines two line lists have in common.
pub open spec fn common_prefix(a: Seq<Seq<char>>, b: Seq<Seq<char>>) -> nat
    decreases a.len(),
{
    if a.len() == 0 || b.len() == 0 || a[0] != b[0] {
        0
    } else {
        1 + common_prefix(a.drop_first(), b.drop_first())
    }
}

/// How many changes at the start are equal ones.
pub open spec fn leading_equal(tags: Seq<ChangeKind>) -> nat
    decreases tags.len(),
{
    if tags.len() == 0 || tags[0] != ChangeKind::Equal {
        0
    } else {
        1 + leading_equal(tags.drop_first())
    }
}

/// Runs `similar::TextDiff::configure().algorithm(..).timeout(..)` and
/// `diff_slices` on the lines `old` and `new`, and returns the tags of
/// `iter_all_changes()`. In similar's source the algorithms always emit a
/// complete edit script in order (past the deadline the rest of a range is
/// emitted as deleted and inserted), and an equal change only where the items
/// compare equal. Equal inputs come back as equal changes only (both
/// algorithms take the common prefix first, before any deadline check), and
/// with Myers the common leading lines come first as equal changes: Myers
/// emits them before anything else, and the `Compact` clean-up that follows
/// only moves a hunk up into them to move it back down as far as it goes.
/// The common trailing lines are not claimed: `Compact` may slide a deletion
/// down into them.
/// Which of the valid scripts comes back otherwise is not stated: it depends
/// on the time taken.
#[verifier::external_body]
fn diff_line_changes(old: &Vec<String>, new: &Vec<String>, algorithm: DiffAlgorithm, timeout_secs: u64) -> (tags: Vec<ChangeKind>)
    ensures
        left_steps(tags@) == old@.len(),
        right_steps(tags@) == new@.len(),
        equal_steps_pair(tags@, views(old@), views(new@)),
        views(old@) == views(new@) ==> all_equal_tags(tags@),
        algorithm == DiffAlgorithm::Myers ==> leading_equal(tags@) >= common_prefix(views(old@), views(new@)),
{
    let alg = match algorithm {
        DiffAlgorithm::Myers => similar::Algorithm::Myers,
        DiffAlgorithm::Patience => similar::Algorithm::Patience,
    };
    let o: Vec<&str> = old.iter().map(|s| s.as_str()).collect();
    let n: Vec<&str> = new.iter().map(|s| s.as_str()).collect();
    let diff = similar::TextDiff::configure().algorithm(alg).timeout(std::time::Duration::from_secs(timeout_secs)).diff_slices(&o, &n);
    diff.iter_all_changes().map(|c| match c.tag() {
        similar::ChangeTag::Equal => ChangeKind::Equal,
        similar::ChangeTag::Delete => ChangeKind::Delete,
        similar::ChangeTag::Insert => ChangeKind::Insert,
    }).collect()
}

/// Number of left lines the changes walk over (equal or deleted).
pub open spec fn left_steps(tags: Seq<ChangeKind>) -> nat
    decreases tags.len(),
{
    if tags.len() == 0 {
        0
    } else {
        left_steps(tags.drop_last()) + if tags.last() != ChangeKind::Insert { 1nat } else { 0nat }
    }
}

/// Number of right lines the changes walk over (equal or inserted).
pub open spec fn right_steps(tags: Seq<ChangeKind>) -> nat
    decreases tags.len(),
{
    if tags.len() == 0 {
        0
    } else {
        right_steps(tags.drop_last()) + if tags.last() != ChangeKind::Delete { 1nat } else { 0nat }
    }
}

/// Number of leading non-equal changes.
pub open spec fn run_len(tags: Seq<ChangeKind>) -> nat
    decreases tags.len(),
{
    if tags.len() == 0 || tags[0] == ChangeKind::Equal {
        0
    } else {
        1 + run_len(tags.drop_first())
    }
}

pub proof fn lemma_run_len(tags: Seq<ChangeKind>)
    ensures
        run_len(tags) <= tags.len(),
        tags.len() > 0 && tags[0] != ChangeKind::Equal ==> run_len(tags) >= 1,
        forall|k: int| 0 <= k < run_len(tags) ==> #[trigger] tags[k] != ChangeKind::Equal,
        run_len(tags) < tags.len() ==> tags[run_len(tags) as int] == ChangeKind::Equal,
    decreases tags.len(),
{
    if tags.len() > 0 && tags[0] != ChangeKind::Equal {
        lemma_run_len(tags.drop_first());
        assert forall|k: int| 0 <= k < run_len(tags) implies #[trigger] tags[k] != ChangeKind::Equal by {
            if k > 0 { assert(tags[k] == tags.drop_first()[k - 1]); }
        }
        if run_len(tags) < tags.len() {
            assert(tags[run_len(tags) as int] == tags.drop_first()[run_len(tags) - 1]);
        }
    }
}

/// The status and line numbers of a row.
pub struct RowShape {
    pub status: LineStatus,
    pub left: Option<u32>,
    pub right: Option<u32>,
}

/// The rows of one block of `d` deleted and `n` inserted lines starting after
/// left line `l` and right line `r`: deleted and inserted lines paired as
/// modified, the rest removed or added.
pub open spec fn block_shapes(d: int, n: int, l: int, r: int) -> Seq<RowShape> {
    let m = if d < n { d } else { n };
    Seq::new((if d > n { d } else { n }) as nat, |j: int|
        if j < m {
            RowShape { status: LineStatus::Modified, left: Some((l + j + 1) as u32), right: Some((r + j + 1) as u32) }
        } else if d > n {
            RowShape { status: LineStatus::Removed, left: Some((l + j + 1) as u32), right: None }
        } else {
            RowShape { status: LineStatus::Added, left: None, right: Some((r + j + 1) as u32) }
        })
}

/// The rows the changes turn into, after left line `l` and right line `r`:
/// one equal row per equal change, and one block per maximal run of other changes.
pub open spec fn row_shapes(tags: Seq<ChangeKind>, l: int, r: int) -> Seq<RowShape>
    decreases tags.len(),
{
    if tags.len() == 0 {
        Seq::empty()
    } else if tags[0] == ChangeKind::Equal {
        seq![RowShape { status: LineStatus::Equal, left: Some((l + 1) as u32), right: Some((r + 1) as u32) }]
            + row_shapes(tags.drop_first(), l + 1, r + 1)
    } else {
        let k = run_len(tags) as int;
        proof { lemma_run_len(tags); }
        let run = tags.take(k);
        let d = left_steps(run) as int;
        let n = right_steps(run) as int;
        block_shapes(d, n, l, r) + row_shapes(tags.skip(k), l + d, r + n)
    }
}

/// The text of the given (1-based) line, empty for a ghost cell or past the end.
pub open spec fn line_at(lines: Seq<Seq<char>>, no: Option<u32>) -> Seq<char> {
    match no {
        Some(k) => if 1 <= k <= lines.len() { lines[k - 1] } else { Seq::empty() },
        None => Seq::empty(),
    }
}


/// The changes `similar` computes for a Myers character diff of `old`
/// against `new`: each change's kind and the character it covers.
pub uninterp spec fn similar_char_changes(old: Seq<char>, new: Seq<char>) -> Seq<(ChangeKind, Seq<char>)>;

/// Runs `similar::TextDiff::configure().algorithm(Myers).diff_chars(old, new)`
/// (no deadline) and returns each change of `iter_all_changes()` with its text.
#[verifier::external_body]
fn diff_char_changes(old: &str, new: &str) -> (r: Vec<(ChangeKind, String)>)
    ensures
        r@.map_values(|c: (ChangeKind, String)| (c.0, c.1@)) == similar_char_changes(old@, new@),
{
    let diff = similar::TextDiff::configure().algorithm(similar::Algorithm::Myers).diff_chars(old, new);
    diff.iter_all_changes().map(|c| (match c.tag() {
        similar::ChangeTag::Equal => ChangeKind::Equal,
        similar::ChangeTag::Delete => ChangeKind::Delete,
        similar::ChangeTag::Insert => ChangeKind::Insert,
    }, c.value().to_string())).collect()
}

/// Appends `text` to the segments, extending the last one when it has the
/// same `changed` flag.
pub open spec fn add_segment(segs: Seq<(Seq<char>, bool)>, text: Seq<char>, changed: bool) -> Seq<(Seq<char>, bool)> {
    if segs.len() > 0 && segs.last().1 == changed {
        segs.drop_last().push((segs.last().0 + text, changed))
    } else {
        segs.push((text, changed))
    }
}

/// The segments of one side (left: equal and deleted text; right: equal and
/// inserted text), unchanged and changed runs merged.
pub open spec fn side_segments(changes: Seq<(ChangeKind, Seq<char>)>, left: bool) -> Seq<(Seq<char>, bool)>
    decreases changes.len(),
{
    if changes.len() == 0 {
        Seq::empty()
    } else {
        let segs = side_segments(changes.drop_last(), left);
        let (k, t) = changes.last();
        if k == ChangeKind::Equal {
            add_segment(segs, t, false)
        } else if (k == ChangeKind::Delete) == left {
            add_segment(segs, t, true)
        } else {
            segs
        }
    }
}

/// The (text, changed) views of segments.
pub open spec fn seg_views(segs: Seq<WordDiffSegment>) -> Seq<(Seq<char>, bool)> {
    segs.map_values(|s: WordDiffSegment| (s.text@, s.changed))
}

/// The word-level segments of a modified line pair.
pub open spec fn word_diff_spec(left: Seq<char>, right: Seq<char>) -> (Seq<(Seq<char>, bool)>, Seq<(Seq<char>, bool)>) {
    let ch = similar_char_changes(left, right);
    (side_segments(ch, true), side_segments(ch, false))
}

fn push_segment(segs: &mut Vec<WordDiffSegment>, text: &str, changed: bool)
    ensures
        seg_views(final(segs)@) == add_segment(seg_views(old(segs)@), text@, changed),
{
    let n = segs.len();
    if n > 0 && segs[n - 1].changed == changed {
        let ghost before = segs@;
        let mut last = segs.pop().unwrap();
        push_str(&mut last.text, text);
        segs.push(last);
        assert(seg_views(segs@) =~= seg_views(before).drop_last().push((seg_views(before).last().0 + text@, changed)));
    } else {
        let ghost before = segs@;
        segs.push(WordDiffSegment { text: crate::text::str_to_string(text), changed });
        assert(seg_views(segs@) =~= seg_views(before).push((text@, changed)));
    }
}

/// Character-level segments of both sides of a modified line pair.
pub fn compute_word_diff(left: &str, right: &str) -> (r: (Vec<WordDiffSegment>, Vec<WordDiffSegment>))
    ensures
        (seg_views(r.0@), seg_views(r.1@)) == word_diff_spec(left@, right@),
{
    let changes = diff_char_changes(left, right);
    let ghost cv = changes@.map_values(|c: (ChangeKind, String)| (c.0, c.1@));
    let mut left_segs: Vec<WordDiffSegment> = Vec::new();
    let mut right_segs: Vec<WordDiffSegment> = Vec::new();
    let mut i: usize = 0;
    while i < changes.len()
        invariant
            i <= changes@.len(),
            cv == changes@.map_values(|c: (ChangeKind, String)| (c.0, c.1@)),
            seg_views(left_segs@) == side_segments(cv.take(i as int), true),
            seg_views(right_segs@) == side_segments(cv.take(i as int), false),
        decreases changes@.len() - i,
    {
        assert(cv.take(i + 1).drop_last() =~= cv.take(i as int));
        assert(cv.take(i + 1).last() == (changes@[i as int].0, changes@[i as int].1@));
        let text = changes[i].1.as_str();
        match changes[i].0 {
            ChangeKind::Equal => {
                push_segment(&mut left_segs, text, false);
                push_segment(&mut right_segs, text, false);
            },
            ChangeKind::Delete => {
                push_segment(&mut left_segs, text, true);
            },
            ChangeKind::Insert => {
                push_segment(&mut right_segs, text, true);
            },
        }
        i = i + 1;
    }
    assert(cv.take(changes@.len() as int) =~= cv);
    (left_segs, right_segs)
}


/// A row of a two-way diff by value.
pub struct DiffLineView {
    pub left_no: Option<u32>,
    pub right_no: Option<u32>,
    pub left: Seq<char>,
    pub right: Seq<char>,
    pub status: LineStatus,
    pub left_segs: Seq<(Seq<char>, bool)>,
    pub right_segs: Seq<(Seq<char>, bool)>,
}

pub open spec fn line_view(l: DiffLine) -> DiffLineView {
    DiffLineView {
        left_no: l.left_line_no,
        right_no: l.right_line_no,
        left: l.left_text@,
        right: l.right_text@,
        status: l.status,
        left_segs: seg_views(l.left_word_segments@),
        right_segs: seg_views(l.right_word_segments@),
    }
}

pub open spec fn lines_view(ls: Seq<DiffLine>) -> Seq<DiffLineView> {
    ls.map_values(|l: DiffLine| line_view(l))
}

/// The row for a shape: the texts of its lines, and word segments when modified.
pub open spec fn shaped_line(sh: RowShape, ll: Seq<Seq<char>>, rl: Seq<Seq<char>>) -> DiffLineView {
    let lt = line_at(ll, sh.left);
    let rt = line_at(rl, sh.right);
    DiffLineView {
        left_no: sh.left,
        right_no: sh.right,
        left: lt,
        right: rt,
        status: sh.status,
        left_segs: if sh.status == LineStatus::Modified { word_diff_spec(lt, rt).0 } else { Seq::empty() },
        right_segs: if sh.status == LineStatus::Modified { word_diff_spec(lt, rt).1 } else { Seq::empty() },
    }
}

/// The rows that the changes describe, before moved-line detection.
pub open spec fn rows_spec(ll: Seq<Seq<char>>, rl: Seq<Seq<char>>, tags: Seq<ChangeKind>) -> Seq<DiffLineView> {
    row_shapes(tags, 0, 0).map_values(|sh: RowShape| shaped_line(sh, ll, rl))
}

/// `lines[no - 1]`, or an empty string when out of range.
fn text_of_line(lines: &Vec<String>, no: u32) -> (s: String)
    ensures
        s@ == line_at(views(lines@), Some(no)),
{
    if no >= 1 && ((no - 1) as usize) < lines.len() {
        lines[(no - 1) as usize].clone()
    } else {
        String::new()
    }
}

fn make_row(sh: &RowShape, left_lines: &Vec<String>, right_lines: &Vec<String>) -> (row: DiffLine)
    ensures
        line_view(row) == shaped_line(*sh, views(left_lines@), views(right_lines@)),
{
    let lt = match sh.left {
        Some(n) => text_of_line(left_lines, n),
        None => String::new(),
    };
    let rt = match sh.right {
        Some(n) => text_of_line(right_lines, n),
        None => String::new(),
    };
    let (ls, rs) = if sh.status == LineStatus::Modified {
        compute_word_diff(lt.as_str(), rt.as_str())
    } else {
        (Vec::new(), Vec::new())
    };
    proof {
        if sh.status != LineStatus::Modified {
            assert(seg_views(ls@) =~= Seq::<(Seq<char>, bool)>::empty());
            assert(seg_views(rs@) =~= Seq::<(Seq<char>, bool)>::empty());
        }
    }
    DiffLine {
        left_line_no: sh.left,
        right_line_no: sh.right,
        left_text: lt,
        right_text: rt,
        status: sh.status,
        left_word_segments: ls,
        right_word_segments: rs,
    }
}

/// Appends the rows of a block of `d` deleted and `n` inserted lines.
fn emit_block(
    rows: &mut Vec<DiffLine>,
    left_lines: &Vec<String>,
    right_lines: &Vec<String>,
    d: u32,
    n: u32,
    l: u32,
    r: u32,
)
    requires
        l + d < u32::MAX,
        r + n < u32::MAX,
    ensures
        lines_view(final(rows)@) == lines_view(old(rows)@) + block_shapes(d as int, n as int, l as int, r as int).map_values(
            |sh: RowShape| shaped_line(sh, views(left_lines@), views(right_lines@))),
{
    let ghost start = lines_view(rows@);
    let ghost bs = block_shapes(d as int, n as int, l as int, r as int);
    let ghost target = bs.map_values(|sh: RowShape| shaped_line(sh, views(left_lines@), views(right_lines@)));
    let m = if d < n { d } else { n };
    let total = if d > n { d } else { n };
    let mut j: u32 = 0;
    while j < total
        invariant
            j <= total,
            m == (if d < n { d } else { n }),
            total == (if d > n { d } else { n }),
            l + d < u32::MAX,
            r + n < u32::MAX,
            bs == block_shapes(d as int, n as int, l as int, r as int),
            target == bs.map_values(|sh: RowShape| shaped_line(sh, views(left_lines@), views(right_lines@))),
            lines_view(rows@) == start + target.take(j as int),
        decreases total - j,
    {
        let sh = if j < m {
            RowShape { status: LineStatus::Modified, left: Some(l + j + 1), right: Some(r + j + 1) }
        } else if d > n {
            RowShape { status: LineStatus::Removed, left: Some(l + j + 1), right: None }
        } else {
            RowShape { status: LineStatus::Added, left: None, right: Some(r + j + 1) }
        };
        assert(sh == bs[j as int]);
        let row = make_row(&sh, left_lines, right_lines);
        let ghost before = rows@;
        rows.push(row);
        assert(lines_view(rows@) =~= lines_view(before).push(line_view(row)));
        assert(target.take(j + 1) =~= target.take(j as int).push(target[j as int]));
        j = j + 1;
    }
    assert(target.take(total as int) =~= target);
}

proof fn lemma_run_len_exact(t: Seq<ChangeKind>, k: int)
    requires
        0 <= k <= t.len(),
        forall|x: int| 0 <= x < k ==> #[trigger] t[x] != ChangeKind::Equal,
        k == t.len() || t[k] == ChangeKind::Equal,
    ensures
        run_len(t) == k,
    decreases k,
{
    if k > 0 {
        assert forall|x: int| 0 <= x < k - 1 implies #[trigger] t.drop_first()[x] != ChangeKind::Equal by {
            assert(t.drop_first()[x] == t[x + 1]);
        }
        if k < t.len() {
            assert(t.drop_first()[k - 1] == t[k]);
        }
        lemma_run_len_exact(t.drop_first(), k - 1);
    }
}

/// The rows the changes describe: one equal row per equal change, and per
/// run of deletions and insertions, pairs as modified rows followed by the
/// surplus as removed or added rows.
fn build_rows(left_lines: &Vec<String>, right_lines: &Vec<String>, tags: &Vec<ChangeKind>) -> (rows: Vec<DiffLine>)
    requires
        left_steps(tags@) < u32::MAX,
        right_steps(tags@) < u32::MAX,
    ensures
        lines_view(rows@) == rows_spec(views(left_lines@), views(right_lines@), tags@),
{
    let ghost ll = views(left_lines@);
    let ghost rl = views(right_lines@);
    let ghost full = row_shapes(tags@, 0, 0);
    let mut rows: Vec<DiffLine> = Vec::new();
    let mut done: Ghost<Seq<RowShape>> = Ghost(Seq::empty());
    let mut l: u32 = 0;
    let mut r: u32 = 0;
    let mut i: usize = 0;
    assert(tags@.skip(0) =~= tags@);
    assert(tags@.take(0) =~= Seq::<ChangeKind>::empty());
    while i < tags.len()
        invariant
            i <= tags@.len(),
            ll == views(left_lines@),
            rl == views(right_lines@),
            full == row_shapes(tags@, 0, 0),
            done@ + row_shapes(tags@.skip(i as int), l as int, r as int) == full,
            lines_view(rows@) == done@.map_values(|sh: RowShape| shaped_line(sh, ll, rl)),
            l == left_steps(tags@.take(i as int)),
            r == right_steps(tags@.take(i as int)),
            left_steps(tags@) < u32::MAX,
            right_steps(tags@) < u32::MAX,
        decreases tags@.len() - i,
    {
        proof { crate::diff_engine::lemma_steps_prefix(tags@, i as int); }
        let ghost rest = tags@.skip(i as int);
        if tags[i] == ChangeKind::Equal {
            assert(rest[0] == ChangeKind::Equal);
            assert(rest.drop_first() =~= tags@.skip(i + 1));
            assert(tags@.take(i + 1).drop_last() =~= tags@.take(i as int));
            proof { crate::diff_engine::lemma_steps_prefix(tags@, i + 1); }
            let sh = RowShape { status: LineStatus::Equal, left: Some(l + 1), right: Some(r + 1) };
            let row = make_row(&sh, left_lines, right_lines);
            let ghost before = rows@;
            rows.push(row);
            proof {
                assert(lines_view(rows@) =~= lines_view(before).push(line_view(row)));
                assert(done@.push(sh).map_values(|x: RowShape| shaped_line(x, ll, rl)) =~= done@.map_values(|x: RowShape| shaped_line(x, ll, rl)).push(shaped_line(sh, ll, rl)));
                assert(done@ + (seq![sh] + row_shapes(tags@.skip(i + 1), l + 1, r + 1)) =~= done@.push(sh) + row_shapes(tags@.skip(i + 1), l + 1, r + 1));
                done@ = done@.push(sh);
            }
            l = l + 1;
            r = r + 1;
            i = i + 1;
        } else {
            // Collect the whole run of deletions and insertions as one block.
            let mut j = i;
            let mut d: u32 = 0;
            let mut n: u32 = 0;
            while j < tags.len() && tags[j] != ChangeKind::Equal
                invariant
                    i <= j <= tags@.len(),
                    forall|x: int| i <= x < j ==> #[trigger] tags@[x] != ChangeKind::Equal,
                    d == left_steps(tags@.subrange(i as int, j as int)),
                    n == right_steps(tags@.subrange(i as int, j as int)),
                    l + d == left_steps(tags@.take(j as int)),
                    r + n == right_steps(tags@.take(j as int)),
                    left_steps(tags@) < u32::MAX,
                    right_steps(tags@) < u32::MAX,
                decreases tags@.len() - j,
            {
                assert(tags@.subrange(i as int, j + 1).drop_last() =~= tags@.subrange(i as int, j as int));
                assert(tags@.take(j + 1).drop_last() =~= tags@.take(j as int));
                proof { crate::diff_engine::lemma_steps_prefix(tags@, j + 1); }
                if tags[j] == ChangeKind::Delete {
                    d = d + 1;
                } else {
                    n = n + 1;
                }
                j = j + 1;
            }
            proof {
                assert forall|x: int| 0 <= x < j - i implies #[trigger] rest[x] != ChangeKind::Equal by {
                    assert(rest[x] == tags@[i + x]);
                }
                if j < tags@.len() { assert(rest[j - i] == tags@[j as int]); }
                lemma_run_len_exact(rest, j - i);
                assert(rest.take(j - i) =~= tags@.subrange(i as int, j as int));
                assert(rest.skip(j - i) =~= tags@.skip(j as int));
                crate::diff_engine::lemma_steps_prefix(tags@, j as int);
            }
            let ghost bs = block_shapes(d as int, n as int, l as int, r as int);
            emit_block(&mut rows, left_lines, right_lines, d, n, l, r);
            proof {
                assert((done@ + bs).map_values(|x: RowShape| shaped_line(x, ll, rl)) =~= done@.map_values(|x: RowShape| shaped_line(x, ll, rl)) + bs.map_values(|x: RowShape| shaped_line(x, ll, rl)));
                assert(done@ + (bs + row_shapes(tags@.skip(j as int), l + d, r + n)) =~= (done@ + bs) + row_shapes(tags@.skip(j as int), l + d, r + n));
                done@ = done@ + bs;
            }
            l = l + d;
            r = r + n;
            i = j;
        }
    }
    assert(tags@.skip(i as int) =~= Seq::<ChangeKind>::empty());
    assert(done@ =~= full);
    rows
}

/// Prefix counts never exceed the totals.
pub proof fn lemma_steps_prefix(tags: Seq<ChangeKind>, k: int)
    requires
        0 <= k <= tags.len(),
    ensures
        left_steps(tags.take(k)) <= left_steps(tags),
        right_steps(tags.take(k)) <= right_steps(tags),
    decreases tags.len() - k,
{
    if k < tags.len() {
        lemma_steps_prefix(tags, k + 1);
        assert(tags.take(k + 1).drop_last() =~= tags.take(k));
    } else {
        assert(tags.take(k) =~= tags);
    }
}


/// Row `j` is an added row, still unmatched, whose trimmed right text is `t`.
pub open spec fn move_candidate(rows: Seq<DiffLineView>, j: int, t: Seq<char>) -> bool {
    &&& 0 <= j < rows.len()
    &&& rows[j].status == LineStatus::Added
    &&& trimmed(rows[j].right) == t
}

/// Row `i` (removed, with non-blank text) is matched with the last unmatched
/// added row of the same trimmed text, if any: both become moved and each
/// shows the other's text on its ghost side.
pub open spec fn move_step(rows: Seq<DiffLineView>, i: int) -> Seq<DiffLineView> {
    let t = trimmed(rows[i].left);
    let j = last_candidate(rows, t, rows.len() as int);
    if rows[i].status == LineStatus::Removed && t.len() > 0 && j >= 0 {
        let ri = rows[i];
        let rj = rows[j];
        rows.update(i, DiffLineView { status: LineStatus::Moved, right: rj.right, ..ri }).update(j,
            DiffLineView { status: LineStatus::Moved, left: ri.left, ..rj })
    } else {
        rows
    }
}

/// The last candidate for `t` below `k`, or -1.
pub open spec fn last_candidate(rows: Seq<DiffLineView>, t: Seq<char>, k: int) -> int
    decreases k,
{
    if k <= 0 {
        -1
    } else if move_candidate(rows, k - 1, t) {
        k - 1
    } else {
        last_candidate(rows, t, k - 1)
    }
}

proof fn lemma_last_candidate(rows: Seq<DiffLineView>, t: Seq<char>, k: int)
    requires
        0 <= k <= rows.len(),
    ensures
        -1 <= last_candidate(rows, t, k) < k,
        last_candidate(rows, t, k) >= 0 ==> move_candidate(rows, last_candidate(rows, t, k), t),
        forall|x: int| last_candidate(rows, t, k) < x < k ==> !move_candidate(rows, x, t),
    decreases k,
{
    if k > 0 {
        lemma_last_candidate(rows, t, k - 1);
    }
}

/// The rows after matching removed rows `0..k` in order.
pub open spec fn moved_upto(rows: Seq<DiffLineView>, k: int) -> Seq<DiffLineView>
    decreases k,
{
    if k <= 0 {
        rows
    } else {
        move_step(moved_upto(rows, k - 1), k - 1)
    }
}

/// Moved-line detection over all rows.
pub open spec fn detect_moved_spec(rows: Seq<DiffLineView>) -> Seq<DiffLineView> {
    moved_upto(rows, rows.len() as int)
}

proof fn lemma_move_step_len(rows: Seq<DiffLineView>, i: int)
    requires
        0 <= i < rows.len(),
    ensures
        move_step(rows, i).len() == rows.len(),
{
    lemma_last_candidate(rows, trimmed(rows[i].left), rows.len() as int);
}

proof fn lemma_moved_upto_len(rows: Seq<DiffLineView>, k: int)
    requires
        0 <= k <= rows.len(),
    ensures
        moved_upto(rows, k).len() == rows.len(),
    decreases k,
{
    if k > 0 {
        lemma_moved_upto_len(rows, k - 1);
        lemma_move_step_len(moved_upto(rows, k - 1), k - 1);
    }
}

/// Key hash for grouping texts into buckets.
pub open spec fn key_hash(s: Seq<char>) -> nat
    decreases s.len(),
{
    if s.len() == 0 {
        0
    } else {
        ((key_hash(s.drop_last()) * 31 + (s.last() as nat)) % 1000000007) as nat
    }
}

fn hash_chars(v: &Vec<char>) -> (h: u64)
    ensures
        h == key_hash(v@),
{
    let mut h: u64 = 0;
    let mut i: usize = 0;
    while i < v.len()
        invariant
            i <= v@.len(),
            h == key_hash(v@.take(i as int)),
            h < 1000000007,
        decreases v@.len() - i,
    {
        assert(v@.take(i + 1).drop_last() =~= v@.take(i as int));
        proof { crate::text::lemma_char_u64(v[i as int]); }
        let c = v[i] as u32 as u64;
        assert(c == (v@.take(i + 1).last() as nat));
        h = (h * 31 + c) % 1000000007;
        i = i + 1;
    }
    assert(v@.take(v@.len() as int) =~= v@);
    h
}

fn same_chars(a: &Vec<char>, b: &Vec<char>) -> (r: bool)
    ensures
        r == (a@ == b@),
{
    if a.len() != b.len() {
        return false;
    }
    let mut k: usize = 0;
    while k < a.len()
        invariant
            a@.len() == b@.len(),
            k <= a@.len(),
            forall|x: int| 0 <= x < k ==> a@[x] == b@[x],
        decreases a@.len() - k,
    {
        if a[k] != b[k] {
            return false;
        }
        k = k + 1;
    }
    assert(a@ =~= b@);
    true
}

/// The trimmed text of a string.
fn trimmed_chars(s: &String) -> (r: Vec<char>)
    ensures
        r@ == trimmed(s@),
{
    let c = str_chars(s.as_str());
    let (a, b) = trim_bounds(&c);
    let mut r: Vec<char> = Vec::new();
    let mut k = a;
    while k < b
        invariant
            a <= k <= b <= c@.len(),
            r@ == c@.subrange(a as int, k as int),
        decreases b - k,
    {
        r.push(c[k]);
        k = k + 1;
        assert(r@ =~= c@.subrange(a as int, k as int));
    }
    r
}

pub open spec fn bucket_of(key: Seq<char>, nb: nat) -> int {
    (key_hash(key) % nb) as int
}

/// Buckets hold, in increasing order, exactly the unmatched added rows with
/// a non-blank key, each in the bucket of its key.
spec fn buckets_ok(buckets: Seq<Vec<usize>>, keys: Seq<Seq<char>>, rows: Seq<DiffLineView>, nb: nat) -> bool {
    &&& buckets.len() == nb
    &&& keys.len() == rows.len()
    &&& forall|b: int, p: int| 0 <= b < nb && 0 <= p < buckets[b]@.len() ==> {
        let j = #[trigger] buckets[b]@[p] as int;
        &&& j < rows.len()
        &&& rows[j].status == LineStatus::Added
        &&& keys[j] == trimmed(rows[j].right)
        &&& keys[j].len() > 0
        &&& bucket_of(keys[j], nb) == b
    }
    &&& forall|b: int, p: int, q: int| 0 <= b < nb && 0 <= p < q < buckets[b]@.len() ==> buckets[b]@[p] < buckets[b]@[q]
    &&& forall|j: int| 0 <= j < rows.len() && rows[j].status == LineStatus::Added && #[trigger] keys[j].len() > 0 ==>
        buckets[bucket_of(keys[j], nb)]@.contains(j as usize)
    &&& forall|j: int| 0 <= j < rows.len() && rows[j].status == LineStatus::Added ==> keys[j] == #[trigger] trimmed(rows[j].right)
}


proof fn lemma_last_candidate_is(rows: Seq<DiffLineView>, t: Seq<char>, k: int, j: int)
    requires
        0 <= j < k <= rows.len(),
        move_candidate(rows, j, t),
        forall|x: int| j < x < k ==> !move_candidate(rows, x, t),
    ensures
        last_candidate(rows, t, k) == j,
    decreases k,
{
    if k - 1 > j {
        lemma_last_candidate_is(rows, t, k - 1, j);
    }
}

proof fn lemma_no_candidate(rows: Seq<DiffLineView>, t: Seq<char>, k: int)
    requires
        0 <= k <= rows.len(),
        forall|x: int| 0 <= x < k ==> !move_candidate(rows, x, t),
    ensures
        last_candidate(rows, t, k) == -1,
    decreases k,
{
    if k > 0 {
        lemma_no_candidate(rows, t, k - 1);
    }
}

proof fn lemma_buckets_after_move(
    old_b: Seq<Vec<usize>>,
    new_b: Seq<Vec<usize>>,
    kv: Seq<Seq<char>>,
    cur: Seq<DiffLineView>,
    nv: Seq<DiffLineView>,
    nb: nat,
    c: int,
    p: int,
    i: int,
    jj: int,
)
    requires
        buckets_ok(old_b, kv, cur, nb),
        0 <= c < nb,
        0 <= p < old_b[c]@.len(),
        old_b[c]@[p] == jj,
        new_b.len() == old_b.len(),
        new_b[c]@ == old_b[c]@.remove(p),
        forall|c2: int| 0 <= c2 < nb && c2 != c ==> new_b[c2]@ == old_b[c2]@,
        nv.len() == cur.len(),
        cur.len() <= usize::MAX,
        0 <= i < cur.len(),
        cur[i].status == LineStatus::Removed,
        nv[i].status == LineStatus::Moved,
        nv[jj].status == LineStatus::Moved,
        forall|x: int| 0 <= x < cur.len() && x != i && x != jj ==> nv[x] == cur[x],
    ensures
        buckets_ok(new_b, kv, nv, nb),
{
    assert forall|b: int, q: int| 0 <= b < nb && 0 <= q < new_b[b]@.len() implies {
        let j = #[trigger] new_b[b]@[q] as int;
        &&& j < nv.len()
        &&& nv[j].status == LineStatus::Added
        &&& kv[j] == trimmed(nv[j].right)
        &&& kv[j].len() > 0
        &&& bucket_of(kv[j], nb) == b
    } by {
        let q0 = if b == c && q >= p { q + 1 } else { q };
        assert(new_b[b]@[q] == old_b[b]@[q0]);
        let x = old_b[b]@[q0] as int;
        assert(cur[x].status == LineStatus::Added);
        if b == c {
            if q0 < p { assert(old_b[c]@[q0] < old_b[c]@[p]); } else { assert(old_b[c]@[p] < old_b[c]@[q0]); }
        }
        assert(x != jj);
        assert(x != i);
    }
    assert forall|b: int, q: int, r: int| 0 <= b < nb && 0 <= q < r < new_b[b]@.len() implies new_b[b]@[q] < new_b[b]@[r] by {
        let q0 = if b == c && q >= p { q + 1 } else { q };
        let r0 = if b == c && r >= p { r + 1 } else { r };
        assert(new_b[b]@[q] == old_b[b]@[q0]);
        assert(new_b[b]@[r] == old_b[b]@[r0]);
    }
    assert forall|x: int| 0 <= x < nv.len() && nv[x].status == LineStatus::Added && #[trigger] kv[x].len() > 0 implies
        new_b[bucket_of(kv[x], nb)]@.contains(x as usize) by {
        assert(x != i && x != jj);
        assert(nv[x] == cur[x]);
        let b = bucket_of(kv[x], nb);
        assert(old_b[b]@.contains(x as usize));
        let q0 = choose|q0: int| 0 <= q0 < old_b[b]@.len() && old_b[b]@[q0] == x as usize;
        assert(old_b[b]@[q0] == x as usize);
        assert(x as usize as int == x);
        if b == c {
            assert(old_b[c]@[q0] as int != jj);
            assert(q0 != p);
            let q = if q0 > p { q0 - 1 } else { q0 };
            assert(new_b[b]@[q] == x as usize);
        } else {
            assert(new_b[b]@[q0] == x as usize);
        }
    }
    assert forall|x: int| 0 <= x < nv.len() && nv[x].status == LineStatus::Added implies kv[x] == #[trigger] trimmed(nv[x].right) by {
        assert(x != i && x != jj);
        assert(nv[x] == cur[x]);
    }
}

/// Finds, in one bucket, the last row whose key is `t`.
fn find_in_bucket(bucket: &Vec<usize>, keys: &Vec<Vec<char>>, t: &Vec<char>) -> (r: Option<usize>)
    requires
        forall|p: int| 0 <= p < bucket@.len() ==> (#[trigger] bucket@[p]) < keys@.len(),
    ensures
        r matches Some(p) ==> p < bucket@.len() && keys@[bucket@[p as int] as int]@ == t@
            && forall|q: int| p < q < bucket@.len() ==> keys@[#[trigger] bucket@[q] as int]@ != t@,
        r is None ==> forall|q: int| 0 <= q < bucket@.len() ==> keys@[#[trigger] bucket@[q] as int]@ != t@,
{
    let mut p = bucket.len();
    while p > 0
        invariant
            p <= bucket@.len(),
            forall|q: int| 0 <= q < bucket@.len() ==> (#[trigger] bucket@[q]) < keys@.len(),
            forall|q: int| p <= q < bucket@.len() ==> keys@[#[trigger] bucket@[q] as int]@ != t@,
        decreases p,
    {
        p = p - 1;
        let j = bucket[p];
        if same_chars(&keys[j], t) {
            return Some(p);
        }
    }
    None
}

/// Marks removed rows that reappear as added rows elsewhere (same trimmed,
/// non-blank text) as moved: each removed row, in order, takes the last
/// still-unmatched added row with its text.
pub fn detect_moved_lines(rows: &mut Vec<DiffLine>)
    ensures
        lines_view(final(rows)@) == detect_moved_spec(lines_view(old(rows)@)),
{
    let ghost init = lines_view(rows@);
    let n = rows.len();
    // Trimmed right texts, the keys of added rows.
    let mut keys: Vec<Vec<char>> = Vec::new();
    let mut j: usize = 0;
    while j < n
        invariant
            n == rows@.len(),
            j <= n,
            keys@.len() == j,
            forall|x: int| 0 <= x < j ==> (#[trigger] keys@[x])@ == trimmed(rows@[x].right_text@),
        decreases n - j,
    {
        keys.push(trimmed_chars(&rows[j].right_text));
        j = j + 1;
    }
    let ghost kv = keys@.map_values(|k: Vec<char>| k@);
    let nb: u64 = (n as u64) / 2 + 1;
    let mut buckets: Vec<Vec<usize>> = Vec::new();
    let mut b: u64 = 0;
    while b < nb
        invariant
            b <= nb,
            nb == (n as u64) / 2 + 1,
            buckets@.len() == b,
            forall|x: int| 0 <= x < b ==> (#[trigger] buckets@[x])@.len() == 0,
        decreases nb - b,
    {
        buckets.push(Vec::new());
        b = b + 1;
    }
    let mut j: usize = 0;
    while j < n
        invariant
            n == rows@.len(),
            j <= n,
            nb == (n as u64) / 2 + 1,
            init == lines_view(rows@),
            kv == keys@.map_values(|k: Vec<char>| k@),
            kv.len() == n,
            forall|x: int| 0 <= x < n ==> kv[x] == #[trigger] trimmed(init[x].right),
            buckets@.len() == nb,
            forall|c: int, p: int| 0 <= c < nb && 0 <= p < buckets@[c]@.len() ==> {
                let x = #[trigger] buckets@[c]@[p] as int;
                &&& x < j
                &&& init[x].status == LineStatus::Added
                &&& kv[x].len() > 0
                &&& bucket_of(kv[x], nb as nat) == c
            },
            forall|c: int, p: int, q: int| 0 <= c < nb && 0 <= p < q < buckets@[c]@.len() ==> buckets@[c]@[p] < buckets@[c]@[q],
            forall|x: int| 0 <= x < j && init[x].status == LineStatus::Added && #[trigger] kv[x].len() > 0 ==>
                buckets@[bucket_of(kv[x], nb as nat)]@.contains(x as usize),
        decreases n - j,
    {
        assert(init[j as int] == line_view(rows@[j as int]));
        if rows[j].status == LineStatus::Added && keys[j].len() > 0 {
            let h = hash_chars(&keys[j]);
            let c = (h % nb) as usize;
            assert(kv[j as int] == keys@[j as int]@);
            let ghost old_b = buckets@;
            buckets[c].push(j);
            proof {
                assert forall|c2: int, p: int| 0 <= c2 < nb && 0 <= p < buckets@[c2]@.len() implies {
                    let x = #[trigger] buckets@[c2]@[p] as int;
                    &&& x < j + 1
                    &&& init[x].status == LineStatus::Added
                    &&& kv[x].len() > 0
                    &&& bucket_of(kv[x], nb as nat) == c2
                } by {
                    if c2 != c || p < old_b[c2]@.len() {
                        assert(buckets@[c2]@[p] == old_b[c2]@[p]);
                    }
                }
                assert forall|c2: int, p: int, q: int| 0 <= c2 < nb && 0 <= p < q < buckets@[c2]@.len() implies buckets@[c2]@[p] < buckets@[c2]@[q] by {
                    if c2 != c || q < old_b[c2]@.len() {
                        assert(buckets@[c2]@[q] == old_b[c2]@[q]);
                        assert(buckets@[c2]@[p] == old_b[c2]@[p]);
                    } else {
                        assert(buckets@[c2]@[p] == old_b[c2]@[p]);
                    }
                }
                assert forall|x: int| 0 <= x < j + 1 && init[x].status == LineStatus::Added && #[trigger] kv[x].len() > 0 implies
                    buckets@[bucket_of(kv[x], nb as nat)]@.contains(x as usize) by {
                    if x < j {
                        let c2 = bucket_of(kv[x], nb as nat);
                        let p = choose|p: int| 0 <= p < old_b[c2]@.len() && old_b[c2]@[p] == x as usize;
                        assert(buckets@[c2]@[p] == old_b[c2]@[p]);
                    } else {
                        assert(buckets@[c as int]@[old_b[c as int]@.len() as int] == j);
                    }
                }
            }
        }
        j = j + 1;
    }
    let mut i: usize = 0;
    while i < n
        invariant
            n == rows@.len(),
            i <= n,
            nb == (n as u64) / 2 + 1,
            init.len() == n,
            lines_view(rows@) == moved_upto(init, i as int),
            kv == keys@.map_values(|k: Vec<char>| k@),
            buckets_ok(buckets@, kv, lines_view(rows@), nb as nat),
        decreases n - i,
    {
        let ghost cur = lines_view(rows@);
        proof { lemma_moved_upto_len(init, i as int); }
        assert(cur[i as int] == line_view(rows@[i as int]));
        if rows[i].status == LineStatus::Removed {
            let t = trimmed_chars(&rows[i].left_text);
            if t.len() > 0 {
                let h = hash_chars(&t);
                let c = (h % nb) as usize;
                proof {
                    assert forall|p: int| 0 <= p < buckets@[c as int]@.len() implies (#[trigger] buckets@[c as int]@[p]) < keys@.len() by {
                        assert(buckets@[c as int]@[p] < cur.len());
                    }
                }
                let found = find_in_bucket(&buckets[c], &keys, &t);
                match found {
                    Some(p) => {
                        let jj = buckets[c][p];
                        proof {
                            assert(kv[jj as int] == keys@[jj as int]@);
                            assert(move_candidate(cur, jj as int, t@));
                            assert forall|x: int| jj < x < n implies !move_candidate(cur, x, t@) by {
                                if move_candidate(cur, x, t@) {
                                    assert(kv[x] == trimmed(cur[x].right));
                                    assert(buckets@[bucket_of(kv[x], nb as nat)]@.contains(x as usize));
                                    let q = choose|q: int| 0 <= q < buckets@[c as int]@.len() && buckets@[c as int]@[q] == x as usize;
                                    if q <= p {
                                        if q < p { assert(buckets@[c as int]@[q] < buckets@[c as int]@[p as int]); }
                                    }
                                    assert(keys@[buckets@[c as int]@[q] as int]@ == t@);
                                }
                            }
                            lemma_last_candidate_is(cur, t@, n as int, jj as int);
                        }
                        let right = rows[jj].right_text.clone();
                        let left = rows[i].left_text.clone();
                        rows[i].status = LineStatus::Moved;
                        rows[i].right_text = right;
                        rows[jj].status = LineStatus::Moved;
                        rows[jj].left_text = left;
                        let ghost old_b = buckets@;
                        buckets[c].remove(p);
                        proof {
                            let nv = lines_view(rows@);
                            assert(nv =~= move_step(cur, i as int));
                            assert forall|c2: int| 0 <= c2 < nb && c2 != c implies buckets@[c2]@ == old_b[c2]@ by {}
                            lemma_buckets_after_move(old_b, buckets@, kv, cur, nv, nb as nat, c as int, p as int, i as int, jj as int);
                        }
                    },
                    None => {
                        proof {
                            assert forall|x: int| 0 <= x < n implies !move_candidate(cur, x, t@) by {
                                if move_candidate(cur, x, t@) {
                                    assert(kv[x] == trimmed(cur[x].right));
                                    assert(buckets@[bucket_of(kv[x], nb as nat)]@.contains(x as usize));
                                    let q = choose|q: int| 0 <= q < buckets@[c as int]@.len() && buckets@[c as int]@[q] == x as usize;
                                    assert(keys@[buckets@[c as int]@[q] as int]@ != t@);
                                }
                            }
                            lemma_no_candidate(cur, t@, n as int);
                        }
                    },
                }
            }
        }
        i = i + 1;
    }
    proof { lemma_moved_upto_len(init, n as int); }
}


/// Line count above which the faster patience algorithm is used.
pub const LARGE_FILE_THRESHOLD: usize = 10000;
/// Seconds after which the line diff gives up and approximates.
pub const DIFF_TIMEOUT_SECS: u64 = 5;

/// The rows of the diff for the given changes, with moved-line detection when asked.
pub open spec fn diff_rows_spec(ll: Seq<Seq<char>>, rl: Seq<Seq<char>>, tags: Seq<ChangeKind>, detect_moved: bool) -> Seq<DiffLineView> {
    let rows = rows_spec(ll, rl, tags);
    if detect_moved { detect_moved_spec(rows) } else { rows }
}

/// `result` holds the rows, change starts and change count that the changes
/// `tags` give for lines `ll` and `rl` (with moved-line detection when asked).
/// Whether `tags` is a complete edit script of `ll` into `rl` is stated apart
/// (`left_steps`, `right_steps`, `equal_steps_pair`).
pub open spec fn is_diff_for(result: DiffResult, ll: Seq<Seq<char>>, rl: Seq<Seq<char>>, tags: Seq<ChangeKind>, detect_moved: bool) -> bool {
    &&& lines_view(result.lines@) == diff_rows_spec(ll, rl, tags, detect_moved)
    &&& marks_change_starts(statuses(result.lines@), result.diff_positions@)
    &&& result.diff_count == result.diff_positions@.len()
}

proof fn lemma_empty_diff(ll: Seq<Seq<char>>, rl: Seq<Seq<char>>, detect_moved: bool)
    ensures
        diff_rows_spec(ll, rl, Seq::empty(), detect_moved) == Seq::<DiffLineView>::empty(),
{
    assert(rows_spec(ll, rl, Seq::empty()) =~= Seq::<DiffLineView>::empty());
}

fn empty_diff(Ghost(ll): Ghost<Seq<Seq<char>>>, Ghost(rl): Ghost<Seq<Seq<char>>>, detect_moved: bool) -> (r: DiffResult)
    ensures
        is_diff_for(r, ll, rl, Seq::empty(), detect_moved),
        r.lines@.len() == 0,
        r.diff_count == 0,
{
    proof { lemma_empty_diff(ll, rl, detect_moved); }
    let r = DiffResult { lines: Vec::new(), diff_count: 0, diff_positions: Vec::new() };
    assert(lines_view(r.lines@) =~= Seq::<DiffLineView>::empty());
    r
}

/// The changes walk over few enough lines to number them (and the rows) in `u32`.
pub open spec fn steps_ok(tags: Seq<ChangeKind>) -> bool {
    left_steps(tags) + right_steps(tags) < u32::MAX
}

/// Counts the changes that walk over left and right lines, stopping once
/// their sum reaches the line-number limit.
fn steps_fit(tags: &Vec<ChangeKind>) -> (ok: bool)
    ensures
        ok == steps_ok(tags@),
{
    let mut l: u64 = 0;
    let mut r: u64 = 0;
    let mut i: usize = 0;
    while i < tags.len()
        invariant
            i <= tags@.len(),
            l == left_steps(tags@.take(i as int)),
            r == right_steps(tags@.take(i as int)),
            l + r < u32::MAX,
        decreases tags@.len() - i,
    {
        assert(tags@.take(i + 1).drop_last() =~= tags@.take(i as int));
        if tags[i] != ChangeKind::Insert {
            l = l + 1;
        }
        if tags[i] != ChangeKind::Delete {
            r = r + 1;
        }
        if l + r >= u32::MAX as u64 {
            proof { lemma_steps_prefix(tags@, i + 1); }
            return false;
        }
        i = i + 1;
    }
    assert(tags@.take(tags@.len() as int) =~= tags@);
    true
}

/// The diff of two line lists for the given changes (in diff order), with
/// moved-line detection when asked; an empty diff when the changes walk over
/// too many lines to number.
pub fn diff_result_from_changes(
    left_lines: &Vec<String>,
    right_lines: &Vec<String>,
    changes: &Vec<ChangeKind>,
    detect_moved: bool,
) -> (result: DiffResult)
    ensures
        steps_ok(changes@) ==> is_diff_for(result, views(left_lines@), views(right_lines@), changes@, detect_moved),
        !steps_ok(changes@) ==> is_diff_for(result, views(left_lines@), views(right_lines@), Seq::empty(), detect_moved),
        rows_well_formed(result.lines@),
        all_equal_tags(changes@) ==> result.diff_count == 0 && forall|i: int| 0 <= i < result.lines@.len()
            ==> (#[trigger] result.lines@[i]).status == LineStatus::Equal,
        steps_ok(changes@) ==> result.lines@.len() >= leading_equal(changes@) && forall|i: int|
            0 <= i < leading_equal(changes@) ==> (#[trigger] result.lines@[i]).status == LineStatus::Equal,
{
    if !steps_fit(changes) {
        return empty_diff(Ghost(views(left_lines@)), Ghost(views(right_lines@)), detect_moved);
    }
    let mut lines = build_rows(left_lines, right_lines, changes);
    let ghost rows0 = rows_spec(views(left_lines@), views(right_lines@), changes@);
    proof {
        lemma_rows_len(changes@, 0, 0);
        lemma_moved_upto_len(rows0, rows0.len() as int);
        assert(lines_view(lines@).len() == lines@.len());
    }
    if detect_moved {
        detect_moved_lines(&mut lines);
    }
    assert(lines_view(lines@).len() == lines@.len());
    proof {
        lemma_rows_spec_ok(views(left_lines@), views(right_lines@), changes@);
        if detect_moved {
            lemma_moved_upto_ok(rows0, rows0.len() as int);
        }
        lemma_view_rows_ok(lines@);
    }
    let (diff_positions, diff_count) = change_starts(&lines);
    proof {
        let pe = leading_equal(changes@) as int;
        lemma_leading_equal(changes@);
        lemma_prefix_shapes(changes@, 0, 0, pe);
        let rows0w = rows_spec(views(left_lines@), views(right_lines@), changes@);
        assert forall|i: int| 0 <= i < pe implies (#[trigger] rows0w[i]).status == LineStatus::Equal by {
            assert(row_shapes(changes@, 0, 0)[i].status == LineStatus::Equal);
        }
        lemma_moved_upto_keeps_equal(rows0w, rows0w.len() as int, pe);
        assert forall|i: int| 0 <= i < pe implies (#[trigger] lines@[i]).status == LineStatus::Equal by {
            assert(lines_view(lines@)[i] == line_view(lines@[i]));
        }
        if all_equal_tags(changes@) {
            lemma_equal_shapes(changes@, 0, 0);
            let rows0v = rows_spec(views(left_lines@), views(right_lines@), changes@);
            assert forall|i: int| 0 <= i < rows0v.len() implies (#[trigger] rows0v[i]).status == LineStatus::Equal by {
                assert(row_shapes(changes@, 0, 0)[i].status == LineStatus::Equal);
            }
            lemma_moved_upto_equal(rows0v, rows0v.len() as int);
            assert forall|i: int| 0 <= i < lines@.len() implies (#[trigger] lines@[i]).status == LineStatus::Equal by {
                assert(lines_view(lines@)[i] == line_view(lines@[i]));
            }
            if diff_positions@.len() > 0 {
                let p0 = diff_positions@[0] as int;
                assert(is_change_start(statuses(lines@), p0));
                assert(statuses(lines@)[p0] == lines@[p0].status);
            }
        }
    }
    DiffResult { lines, diff_count, diff_positions }
}

proof fn lemma_equal_shapes(tags: Seq<ChangeKind>, l: int, r: int)
    requires
        all_equal_tags(tags),
    ensures
        forall|i: int| 0 <= i < row_shapes(tags, l, r).len() ==> (#[trigger] row_shapes(tags, l, r)[i]).status
            == LineStatus::Equal,
    decreases tags.len(),
{
    if tags.len() > 0 {
        assert(tags[0] == ChangeKind::Equal);
        let t = tags.drop_first();
        assert forall|k: int| 0 <= k < t.len() implies #[trigger] t[k] == ChangeKind::Equal by {
            assert(t[k] == tags[k + 1]);
        }
        lemma_equal_shapes(t, l + 1, r + 1);
        let head = seq![RowShape { status: LineStatus::Equal, left: Some((l + 1) as u32), right: Some((r + 1) as u32) }];
        let rest = row_shapes(t, l + 1, r + 1);
        assert(row_shapes(tags, l, r) == head + rest);
        assert forall|i: int| 0 <= i < row_shapes(tags, l, r).len() implies (#[trigger] row_shapes(tags, l, r)[i]).status
            == LineStatus::Equal by {
            if i > 0 {
                assert((head + rest)[i] == rest[i - 1]);
            }
        }
    }
}

proof fn lemma_leading_equal(tags: Seq<ChangeKind>)
    ensures
        leading_equal(tags) <= tags.len(),
        forall|k: int| 0 <= k < leading_equal(tags) ==> #[trigger] tags[k] == ChangeKind::Equal,
    decreases tags.len(),
{
    if tags.len() > 0 && tags[0] == ChangeKind::Equal {
        lemma_leading_equal(tags.drop_first());
        assert forall|k: int| 0 <= k < leading_equal(tags) implies #[trigger] tags[k] == ChangeKind::Equal by {
            if k > 0 {
                assert(tags[k] == tags.drop_first()[k - 1]);
            }
        }
    }
}

proof fn lemma_prefix_shapes(tags: Seq<ChangeKind>, l: int, r: int, p: int)
    requires
        0 <= p <= tags.len(),
        forall|k: int| 0 <= k < p ==> #[trigger] tags[k] == ChangeKind::Equal,
    ensures
        row_shapes(tags, l, r).len() >= p,
        forall|i: int| 0 <= i < p ==> (#[trigger] row_shapes(tags, l, r)[i]).status == LineStatus::Equal,
    decreases p,
{
    if p > 0 {
        assert(tags[0] == ChangeKind::Equal);
        let t = tags.drop_first();
        assert forall|k: int| 0 <= k < p - 1 implies #[trigger] t[k] == ChangeKind::Equal by {
            assert(t[k] == tags[k + 1]);
        }
        lemma_prefix_shapes(t, l + 1, r + 1, p - 1);
        let head = seq![RowShape { status: LineStatus::Equal, left: Some((l + 1) as u32), right: Some((r + 1) as u32) }];
        let rest = row_shapes(t, l + 1, r + 1);
        assert(row_shapes(tags, l, r) == head + rest);
        assert forall|i: int| 0 <= i < p implies (#[trigger] row_shapes(tags, l, r)[i]).status == LineStatus::Equal by {
            if i > 0 {
                assert((head + rest)[i] == rest[i - 1]);
            }
        }
    }
}

proof fn lemma_move_step_keeps_equal(rows: Seq<DiffLineView>, i: int, p: int)
    requires
        0 <= i < rows.len(),
        0 <= p <= rows.len(),
        forall|x: int| 0 <= x < p ==> (#[trigger] rows[x]).status == LineStatus::Equal,
    ensures
        move_step(rows, i).len() == rows.len(),
        forall|x: int| 0 <= x < p ==> (#[trigger] move_step(rows, i)[x]).status == LineStatus::Equal,
{
    let t = trimmed(rows[i].left);
    lemma_last_candidate(rows, t, rows.len() as int);
    let j = last_candidate(rows, t, rows.len() as int);
    assert forall|x: int| 0 <= x < p implies (#[trigger] move_step(rows, i)[x]).status == LineStatus::Equal by {
        assert(rows[x].status == LineStatus::Equal);
        if rows[i].status == LineStatus::Removed && t.len() > 0 && j >= 0 {
            assert(x != i);
            assert(move_candidate(rows, j, t));
            assert(x != j);
        }
    }
}

proof fn lemma_moved_upto_keeps_equal(rows: Seq<DiffLineView>, k: int, p: int)
    requires
        0 <= k <= rows.len(),
        0 <= p <= rows.len(),
        forall|x: int| 0 <= x < p ==> (#[trigger] rows[x]).status == LineStatus::Equal,
    ensures
        moved_upto(rows, k).len() == rows.len(),
        forall|x: int| 0 <= x < p ==> (#[trigger] moved_upto(rows, k)[x]).status == LineStatus::Equal,
    decreases k,
{
    if k > 0 {
        lemma_moved_upto_keeps_equal(rows, k - 1, p);
        lemma_move_step_keeps_equal(moved_upto(rows, k - 1), k - 1, p);
    }
}

proof fn lemma_moved_upto_equal(rows: Seq<DiffLineView>, k: int)
    requires
        0 <= k <= rows.len(),
        forall|i: int| 0 <= i < rows.len() ==> (#[trigger] rows[i]).status == LineStatus::Equal,
    ensures
        moved_upto(rows, k) == rows,
    decreases k,
{
    if k > 0 {
        lemma_moved_upto_equal(rows, k - 1);
        assert(rows[k - 1].status == LineStatus::Equal);
    }
}

/// A row's line numbers are positive and present as its status asks.
pub open spec fn row_numbers_ok(left: Option<u32>, right: Option<u32>, status: LineStatus) -> bool {
    &&& (left matches Some(n) ==> n >= 1)
    &&& (right matches Some(n) ==> n >= 1)
    &&& match status {
        LineStatus::Equal | LineStatus::Modified => left is Some && right is Some,
        LineStatus::Added => left is None && right is Some,
        LineStatus::Removed => left is Some && right is None,
        LineStatus::Moved => left is Some || right is Some,
    }
}

pub open spec fn view_rows_ok(rows: Seq<DiffLineView>) -> bool {
    forall|i: int| 0 <= i < rows.len() ==> #[trigger] row_numbers_ok(rows[i].left_no, rows[i].right_no, rows[i].status)
}

proof fn lemma_row_shapes_ok(tags: Seq<ChangeKind>, l: int, r: int)
    requires
        0 <= l,
        0 <= r,
        l + left_steps(tags) <= u32::MAX,
        r + right_steps(tags) <= u32::MAX,
    ensures
        forall|i: int| 0 <= i < row_shapes(tags, l, r).len() ==> #[trigger] row_numbers_ok(
            row_shapes(tags, l, r)[i].left,
            row_shapes(tags, l, r)[i].right,
            row_shapes(tags, l, r)[i].status,
        ),
    decreases tags.len(),
{
    if tags.len() > 0 {
        if tags[0] == ChangeKind::Equal {
            lemma_steps_concat(seq![tags[0]], tags.drop_first());
            assert(seq![tags[0]] + tags.drop_first() =~= tags);
            assert(seq![tags[0]].drop_last() =~= Seq::<ChangeKind>::empty());
            lemma_row_shapes_ok(tags.drop_first(), l + 1, r + 1);
            let head = seq![RowShape { status: LineStatus::Equal, left: Some((l + 1) as u32), right: Some((r + 1) as u32) }];
            let rest = row_shapes(tags.drop_first(), l + 1, r + 1);
            assert(row_shapes(tags, l, r) == head + rest);
            assert forall|i: int| 0 <= i < row_shapes(tags, l, r).len() implies #[trigger] row_numbers_ok(
                row_shapes(tags, l, r)[i].left,
                row_shapes(tags, l, r)[i].right,
                row_shapes(tags, l, r)[i].status,
            ) by {
                if i > 0 {
                    assert((head + rest)[i] == rest[i - 1]);
                }
            }
        } else {
            lemma_run_len(tags);
            let k = run_len(tags) as int;
            let run = tags.take(k);
            let d = left_steps(run) as int;
            let n = right_steps(run) as int;
            lemma_steps_concat(run, tags.skip(k));
            assert(run + tags.skip(k) =~= tags);
            lemma_row_shapes_ok(tags.skip(k), l + d, r + n);
            let block = block_shapes(d, n, l, r);
            let rest = row_shapes(tags.skip(k), l + d, r + n);
            assert(row_shapes(tags, l, r) == block + rest);
            assert forall|i: int| 0 <= i < row_shapes(tags, l, r).len() implies #[trigger] row_numbers_ok(
                row_shapes(tags, l, r)[i].left,
                row_shapes(tags, l, r)[i].right,
                row_shapes(tags, l, r)[i].status,
            ) by {
                if i >= block.len() {
                    assert((block + rest)[i] == rest[i - block.len()]);
                } else {
                    assert((block + rest)[i] == block[i]);
                }
            }
        }
    }
}

proof fn lemma_rows_spec_ok(ll: Seq<Seq<char>>, rl: Seq<Seq<char>>, tags: Seq<ChangeKind>)
    requires
        steps_ok(tags),
    ensures
        view_rows_ok(rows_spec(ll, rl, tags)),
{
    lemma_row_shapes_ok(tags, 0, 0);
    let rows = rows_spec(ll, rl, tags);
    assert forall|i: int| 0 <= i < rows.len() implies #[trigger] row_numbers_ok(rows[i].left_no, rows[i].right_no, rows[i].status) by {
        let sh = row_shapes(tags, 0, 0)[i];
        assert(row_numbers_ok(sh.left, sh.right, sh.status));
    }
}

proof fn lemma_move_step_ok(rows: Seq<DiffLineView>, i: int)
    requires
        0 <= i < rows.len(),
        view_rows_ok(rows),
    ensures
        view_rows_ok(move_step(rows, i)),
{
    let t = trimmed(rows[i].left);
    lemma_last_candidate(rows, t, rows.len() as int);
    let m = move_step(rows, i);
    assert forall|x: int| 0 <= x < m.len() implies #[trigger] row_numbers_ok(m[x].left_no, m[x].right_no, m[x].status) by {
        assert(row_numbers_ok(rows[x].left_no, rows[x].right_no, rows[x].status));
    }
}

proof fn lemma_moved_upto_ok(rows: Seq<DiffLineView>, k: int)
    requires
        0 <= k <= rows.len(),
        view_rows_ok(rows),
    ensures
        view_rows_ok(moved_upto(rows, k)),
    decreases k,
{
    if k > 0 {
        lemma_moved_upto_ok(rows, k - 1);
        lemma_moved_upto_len(rows, k - 1);
        lemma_move_step_ok(moved_upto(rows, k - 1), k - 1);
    }
}

proof fn lemma_view_rows_ok(ls: Seq<DiffLine>)
    requires
        view_rows_ok(lines_view(ls)),
    ensures
        rows_well_formed(ls),
{
    assert forall|i: int| #![trigger ls[i]] 0 <= i < ls.len() implies row_numbers_ok(ls[i].left_line_no, ls[i].right_line_no, ls[i].status) by {
        assert(lines_view(ls)[i] == line_view(ls[i]));
        assert(row_numbers_ok(lines_view(ls)[i].left_no, lines_view(ls)[i].right_no, lines_view(ls)[i].status));
    }
}

/// The number of rows is at most the number of lines walked over.
proof fn lemma_rows_len(tags: Seq<ChangeKind>, l: int, r: int)
    ensures
        row_shapes(tags, l, r).len() <= left_steps(tags) + right_steps(tags),
    decreases tags.len(),
{
    if tags.len() > 0 {
        if tags[0] == ChangeKind::Equal {
            lemma_rows_len(tags.drop_first(), l + 1, r + 1);
            lemma_steps_concat(seq![tags[0]], tags.drop_first());
            assert(seq![tags[0]] + tags.drop_first() =~= tags);
            assert(seq![tags[0]].drop_last() =~= Seq::<ChangeKind>::empty());
        } else {
            lemma_run_len(tags);
            let k = run_len(tags) as int;
            let run = tags.take(k);
            lemma_rows_len(tags.skip(k), l + left_steps(run), r + right_steps(run));
            lemma_steps_concat(run, tags.skip(k));
            assert(run + tags.skip(k) =~= tags);
        }
    }
}

proof fn lemma_steps_concat(a: Seq<ChangeKind>, b: Seq<ChangeKind>)
    ensures
        left_steps(a + b) == left_steps(a) + left_steps(b),
        right_steps(a + b) == right_steps(a) + right_steps(b),
    decreases b.len(),
{
    if b.len() > 0 {
        lemma_steps_concat(a, b.drop_last());
        assert((a + b).drop_last() =~= a + b.drop_last());
    } else {
        assert(a + b =~= a);
    }
}

/// The normalized lines are as many as the kept lines.
pub proof fn lemma_normalized_len(o: DiffOptions, lines: Seq<Seq<char>>)
    ensures
        normalized_lines(o, lines).len() == kept_lines(o, lines).len(),
    decreases lines.len(),
{
    if lines.len() > 0 {
        lemma_normalized_len(o, lines.drop_last());
    }
}

/// Diffs two texts line by line. The lines that the options leave out (blank
/// or filtered lines) take no part; the others are compared in their
/// normalized form (see `normalize_text`) and shown as they are in the texts.
/// The line diff itself comes from `similar` under a deadline, so which edit
/// script is used is not known in advance: the result is the diff for some
/// complete script over the kept lines whose equal steps pair equal
/// normalized lines (or an empty diff if the lines are too many to number).
/// Texts whose normalized lines agree give no difference at all, and (for
/// texts small enough for Myers) the leading normalized lines the two texts
/// share stay equal rows at the top.
pub fn compute_diff_with_options(left_text: &str, right_text: &str, options: &DiffOptions) -> (result: DiffResult)
    ensures
        exists|tags: Seq<ChangeKind>| is_diff_for(
            result,
            kept_lines(*options, text_lines(left_text@)),
            kept_lines(*options, text_lines(right_text@)),
            tags,
            options.detect_moved_lines,
        ),
        kept_lines(*options, text_lines(left_text@)).len() + kept_lines(*options, text_lines(right_text@)).len() < u32::MAX
            ==> exists|tags: Seq<ChangeKind>| {
            &&& left_steps(tags) == kept_lines(*options, text_lines(left_text@)).len()
            &&& right_steps(tags) == kept_lines(*options, text_lines(right_text@)).len()
            &&& equal_steps_pair(
                tags,
                normalized_lines(*options, text_lines(left_text@)),
                normalized_lines(*options, text_lines(right_text@)),
            )
            &&& is_diff_for(
                result,
                kept_lines(*options, text_lines(left_text@)),
                kept_lines(*options, text_lines(right_text@)),
                tags,
                options.detect_moved_lines,
            )
        },
        rows_well_formed(result.lines@),
        normalized_lines(*options, text_lines(left_text@)) == normalized_lines(*options, text_lines(right_text@))
            ==> result.diff_count == 0 && forall|i: int| 0 <= i < result.lines@.len()
            ==> (#[trigger] result.lines@[i]).status == LineStatus::Equal,
        text_lines(left_text@).len() <= LARGE_FILE_THRESHOLD && text_lines(right_text@).len() <= LARGE_FILE_THRESHOLD
            && kept_lines(*options, text_lines(left_text@)).len() + kept_lines(*options, text_lines(right_text@)).len()
            < u32::MAX ==> {
            let cp = common_prefix(normalized_lines(*options, text_lines(left_text@)),
                normalized_lines(*options, text_lines(right_text@)));
            &&& result.lines@.len() >= cp
            &&& forall|i: int| 0 <= i < cp ==> (#[trigger] result.lines@[i]).status == LineStatus::Equal
        },
{
    let (_left_normalized, left_orig_lines, left_count, left_lines) = normalize_keeping_lines(left_text, options);
    let (_right_normalized, right_orig_lines, right_count, right_lines) = normalize_keeping_lines(right_text, options);
    proof {
        lemma_normalized_len(*options, text_lines(left_text@));
        lemma_normalized_len(*options, text_lines(right_text@));
    }
    let line_count = if left_count > right_count { left_count } else { right_count };
    let algorithm = if line_count > LARGE_FILE_THRESHOLD { DiffAlgorithm::Patience } else { DiffAlgorithm::Myers };
    let changes = diff_line_changes(&left_lines, &right_lines, algorithm, DIFF_TIMEOUT_SECS);
    assert(left_lines@.len() == views(left_lines@).len());
    assert(right_lines@.len() == views(right_lines@).len());
    assert(left_orig_lines@.len() == views(left_orig_lines@).len());
    assert(right_orig_lines@.len() == views(right_orig_lines@).len());
    let result = diff_result_from_changes(&left_orig_lines, &right_orig_lines, &changes, options.detect_moved_lines);
    result
}

} // verus!
