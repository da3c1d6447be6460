//! File types by extension, and per-line syntax highlight classes.
use vstd::prelude::*;
use vstd::string::StringSliceAdditionalSpecFns;
use crate::text::{file_extension, path_extension, str_eq, split_lines, text_lines};

verus! {

/// The display name of a file type by extension (exact, case-sensitive).
pub open spec fn file_type_name(ext: Seq<char>) -> Seq<char> {
    if ext == "rs"@ {
        "Rust"@
    } else if ext == "js"@ || ext == "mjs"@ || ext == "cjs"@ {
        "JavaScript"@
    } else if ext == "jsx"@ {
        "JSX"@
    } else if ext == "ts"@ {
        "TypeScript"@
    } else if ext == "tsx"@ {
        "TSX"@
    } else if ext == "py"@ || ext == "pyw"@ {
        "Python"@
    } else if ext == "json"@ {
        "JSON"@
    } else if ext == "c"@ {
        "C"@
    } else if ext == "h"@ {
        "C Header"@
    } else if ext == "cpp"@ || ext == "cc"@ || ext == "cxx"@ {
        "C++"@
    } else if ext == "hpp"@ || ext == "hxx"@ {
        "C++ Header"@
    } else if ext == "java"@ {
        "Java"@
    } else if ext == "rb"@ {
        "Ruby"@
    } else if ext == "go"@ {
        "Go"@
    } else if ext == "swift"@ {
        "Swift"@
    } else if ext == "kt"@ || ext == "kts"@ {
        "Kotlin"@
    } else if ext == "html"@ || ext == "htm"@ {
        "HTML"@
    } else if ext == "css"@ {
        "CSS"@
    } else if ext == "xml"@ {
        "XML"@
    } else if ext == "yaml"@ || ext == "yml"@ {
        "YAML"@
    } else if ext == "toml"@ {
        "TOML"@
    } else if ext == "md"@ || ext == "markdown"@ {
        "Markdown"@
    } else if ext == "sh"@ || ext == "bash"@ {
        "Shell"@
    } else if ext == "sql"@ {
        "SQL"@
    } else if ext == "txt"@ {
        "Text"@
    } else {
        "Plain Text"@
    }
}

fn file_type_of(e: &str) -> (r: &'static str)
    ensures
        r@ == file_type_name(e@),
{
    if str_eq(e, "rs") {
        "Rust"
    } else if str_eq(e, "js") || str_eq(e, "mjs") || str_eq(e, "cjs") {
        "JavaScript"
    } else if str_eq(e, "jsx") {
        "JSX"
    } else if str_eq(e, "ts") {
        "TypeScript"
    } else if str_eq(e, "tsx") {
        "TSX"
    } else if str_eq(e, "py") || str_eq(e, "pyw") {
        "Python"
    } else if str_eq(e, "json") {
        "JSON"
    } else if str_eq(e, "c") {
        "C"
    } else if str_eq(e, "h") {
        "C Header"
    } else if str_eq(e, "cpp") || str_eq(e, "cc") || str_eq(e, "cxx") {
        "C++"
    } else if str_eq(e, "hpp") || str_eq(e, "hxx") {
        "C++ Header"
    } else if str_eq(e, "java") {
        "Java"
    } else if str_eq(e, "rb") {
        "Ruby"
    } else if str_eq(e, "go") {
        "Go"
    } else if str_eq(e, "swift") {
        "Swift"
    } else if str_eq(e, "kt") || str_eq(e, "kts") {
        "Kotlin"
    } else if str_eq(e, "html") || str_eq(e, "htm") {
        "HTML"
    } else if str_eq(e, "css") {
        "CSS"
    } else if str_eq(e, "xml") {
        "XML"
    } else if str_eq(e, "yaml") || str_eq(e, "yml") {
        "YAML"
    } else if str_eq(e, "toml") {
        "TOML"
    } else if str_eq(e, "md") || str_eq(e, "markdown") {
        "Markdown"
    } else if str_eq(e, "sh") || str_eq(e, "bash") {
        "Shell"
    } else if str_eq(e, "sql") {
        "SQL"
    } else if str_eq(e, "txt") {
        "Text"
    } else {
        "Plain Text"
    }
}

/// The extension of a path, empty when it has none.
pub open spec fn extension_or_empty(path: Seq<char>) -> Seq<char> {
    match path_extension(path) {
        Some(e) => e,
        None => Seq::empty(),
    }
}

/// The name of a file's type by its extension.
pub fn detect_file_type(file_path: &str) -> (name: &'static str)
    ensures
        name@ == file_type_name(extension_or_empty(file_path@)),
{
    match file_extension(file_path) {
        Some(e) => file_type_of(e.as_str()),
        None => {
            proof {
                reveal_strlit("");
            }
            assert(""@ =~= Seq::<char>::empty());
            file_type_of("")
        },
    }
}

} // verus!

verus! {

/// One event of a highlight run, as `tree_sitter_highlight` reports them: a
/// span of source bytes, the start of a highlight (by its index in the list
/// of recognized names), the end of the innermost highlight, or an error
/// (after which nothing more is read).
#[derive(Debug, Clone, Copy, PartialEq, Eq, Structural)]
pub enum HlEvent {
    Source(usize, usize),
    Start(usize),
    End,
    Failed,
}

/// The grammars that highlighting knows.
#[derive(Debug, Clone, Copy, PartialEq, Eq, Structural)]
pub enum Grammar {
    Rust,
    JavaScript,
    Python,
    Json,
    C,
}

/// The grammar for a file extension (exact, case-sensitive).
pub open spec fn grammar_of(ext: Seq<char>) -> Option<Grammar> {
    if ext == "rs"@ {
        Some(Grammar::Rust)
    } else if ext == "js"@ || ext == "mjs"@ || ext == "cjs"@ || ext == "jsx"@ {
        Some(Grammar::JavaScript)
    } else if ext == "py"@ || ext == "pyw"@ {
        Some(Grammar::Python)
    } else if ext == "json"@ {
        Some(Grammar::Json)
    } else if ext == "c"@ || ext == "h"@ {
        Some(Grammar::C)
    } else {
        None
    }
}

/// Picks the grammar for a file extension.
pub fn grammar_for(ext: &str) -> (g: Option<Grammar>)
    ensures
        g == grammar_of(ext@),
{
    if str_eq(ext, "rs") {
        Some(Grammar::Rust)
    } else if str_eq(ext, "js") || str_eq(ext, "mjs") || str_eq(ext, "cjs") || str_eq(ext, "jsx") {
        Some(Grammar::JavaScript)
    } else if str_eq(ext, "py") || str_eq(ext, "pyw") {
        Some(Grammar::Python)
    } else if str_eq(ext, "json") {
        Some(Grammar::Json)
    } else if str_eq(ext, "c") || str_eq(ext, "h") {
        Some(Grammar::C)
    } else {
        None
    }
}

/// The highlight names that are told apart; a highlight is reported by its
/// index in this list.
pub open spec fn recognized_names() -> Seq<Seq<char>> {
    seq![
        "keyword"@, "string"@, "comment"@, "number"@, "function"@, "function.builtin"@, "type"@, "type.builtin"@,
        "variable"@, "variable.builtin"@, "operator"@, "constant"@, "constant.builtin"@, "property"@, "attribute"@,
        "punctuation.bracket"@, "punctuation.delimiter"@, "constructor"@, "module"@, "tag"@, "embedded"@,
    ]
}

/// How many highlight names are told apart.
pub const HIGHLIGHT_KINDS: usize = 21;

pub open spec fn str_views(v: Seq<&str>) -> Seq<Seq<char>> {
    v.map_values(|s: &str| s@)
}

fn highlight_names() -> (v: Vec<&'static str>)
    ensures
        str_views(v@) == recognized_names(),
        v@.len() == HIGHLIGHT_KINDS,
{
    let v = vec![
        "keyword", "string", "comment", "number", "function", "function.builtin", "type", "type.builtin",
        "variable", "variable.builtin", "operator", "constant", "constant.builtin", "property", "attribute",
        "punctuation.bracket", "punctuation.delimiter", "constructor", "module", "tag", "embedded",
    ];
    assert(str_views(v@) =~= recognized_names());
    v
}

pub open spec fn events_view(r: Option<Vec<HlEvent>>) -> Option<Seq<HlEvent>> {
    match r {
        Some(v) => Some(v@),
        None => None,
    }
}

/// The events of highlighting `source` with the Rust grammar of
/// `tree_sitter_rust` (configuration named `name`, recognizing `names`);
/// `None` when the configuration or the run could not start.
pub uninterp spec fn rust_highlight_events(source: Seq<char>, name: Seq<char>, names: Seq<Seq<char>>) -> Option<Seq<HlEvent>>;

/// As `rust_highlight_events`, with `tree_sitter_javascript` (highlight,
/// injection and locals queries).
pub uninterp spec fn javascript_highlight_events(source: Seq<char>, name: Seq<char>, names: Seq<Seq<char>>) -> Option<Seq<HlEvent>>;

/// As `rust_highlight_events`, with `tree_sitter_python`.
pub uninterp spec fn python_highlight_events(source: Seq<char>, name: Seq<char>, names: Seq<Seq<char>>) -> Option<Seq<HlEvent>>;

/// As `rust_highlight_events`, with `tree_sitter_json`.
pub uninterp spec fn json_highlight_events(source: Seq<char>, name: Seq<char>, names: Seq<Seq<char>>) -> Option<Seq<HlEvent>>;

/// As `rust_highlight_events`, with `tree_sitter_c`.
pub uninterp spec fn c_highlight_events(source: Seq<char>, name: Seq<char>, names: Seq<Seq<char>>) -> Option<Seq<HlEvent>>;

/// Builds a `tree_sitter_highlight::HighlightConfiguration` for the Rust
/// grammar and highlights query of `tree_sitter_rust`, configures it with
/// `names`, runs `Highlighter::highlight` on the source bytes and collects
/// the events. Claimed: the result is the named one for these arguments.
#[verifier::external_body]
fn rust_events(source: &str, name: &str, names: &[&str]) -> (r: Option<Vec<HlEvent>>)
    ensures
        events_view(r) == rust_highlight_events(source@, name@, str_views(names@)),
{
    let lang = tree_sitter_rust::LANGUAGE.into();
    let mut config = tree_sitter_highlight::HighlightConfiguration::new(lang, name, tree_sitter_rust::HIGHLIGHTS_QUERY, "", "").ok()?;
    config.configure(names);
    let mut highlighter = tree_sitter_highlight::Highlighter::new();
    let events = highlighter.highlight(&config, source.as_bytes(), None, None, |_| None).ok()?;
    Some(events.map(|e| match e {
        Ok(tree_sitter_highlight::HighlightEvent::Source { start, end }) => HlEvent::Source(start, end),
        Ok(tree_sitter_highlight::HighlightEvent::HighlightStart(h)) => HlEvent::Start(h.0),
        Ok(tree_sitter_highlight::HighlightEvent::HighlightEnd) => HlEvent::End,
        Err(_) => HlEvent::Failed,
    }).collect())
}


/// Builds a `tree_sitter_highlight::HighlightConfiguration` for the JavaScript
/// grammar of `tree_sitter_javascript` (highlight, injections and locals queries), configures it with `names`, runs
/// `Highlighter::highlight` on the source bytes and collects the events.
/// Claimed: the result is the named one for these arguments.
#[verifier::external_body]
fn javascript_events(source: &str, name: &str, names: &[&str]) -> (r: Option<Vec<HlEvent>>)
    ensures
        events_view(r) == javascript_highlight_events(source@, name@, str_views(names@)),
{
    let lang = tree_sitter_javascript::LANGUAGE.into();
    let mut config = tree_sitter_highlight::HighlightConfiguration::new(lang, name, tree_sitter_javascript::HIGHLIGHT_QUERY, tree_sitter_javascript::INJECTIONS_QUERY, tree_sitter_javascript::LOCALS_QUERY).ok()?;
    config.configure(names);
    let mut highlighter = tree_sitter_highlight::Highlighter::new();
    let events = highlighter.highlight(&config, source.as_bytes(), None, None, |_| None).ok()?;
    Some(events.map(|e| match e {
        Ok(tree_sitter_highlight::HighlightEvent::Source { start, end }) => HlEvent::Source(start, end),
        Ok(tree_sitter_highlight::HighlightEvent::HighlightStart(h)) => HlEvent::Start(h.0),
        Ok(tree_sitter_highlight::HighlightEvent::HighlightEnd) => HlEvent::End,
        Err(_) => HlEvent::Failed,
    }).collect())
}

/// Builds a `tree_sitter_highlight::HighlightConfiguration` for the Python
/// grammar of `tree_sitter_python` (highlights query), configures it with `names`, runs
/// `Highlighter::highlight` on the source bytes and collects the events.
/// Claimed: the result is the named one for these arguments.
#[verifier::external_body]
fn python_events(source: &str, name: &str, names: &[&str]) -> (r: Option<Vec<HlEvent>>)
    ensures
        events_view(r) == python_highlight_events(source@, name@, str_views(names@)),
{
    let lang = tree_sitter_python::LANGUAGE.into();
    let mut config = tree_sitter_highlight::HighlightConfiguration::new(lang, name, tree_sitter_python::HIGHLIGHTS_QUERY, "", "").ok()?;
    config.configure(names);
    let mut highlighter = tree_sitter_highlight::Highlighter::new();
    let events = highlighter.highlight(&config, source.as_bytes(), None, None, |_| None).ok()?;
    Some(events.map(|e| match e {
        Ok(tree_sitter_highlight::HighlightEvent::Source { start, end }) => HlEvent::Source(start, end),
        Ok(tree_sitter_highlight::HighlightEvent::HighlightStart(h)) => HlEvent::Start(h.0),
        Ok(tree_sitter_highlight::HighlightEvent::HighlightEnd) => HlEvent::End,
        Err(_) => HlEvent::Failed,
    }).collect())
}

/// Builds a `tree_sitter_highlight::HighlightConfiguration` for the JSON
/// grammar of `tree_sitter_json` (highlights query), configures it with `names`, runs
/// `Highlighter::highlight` on the source bytes and collects the events.
/// Claimed: the result is the named one for these arguments.
#[verifier::external_body]
fn json_events(source: &str, name: &str, names: &[&str]) -> (r: Option<Vec<HlEvent>>)
    ensures
        events_view(r) == json_highlight_events(source@, name@, str_views(names@)),
{
    let lang = tree_sitter_json::LANGUAGE.into();
    let mut config = tree_sitter_highlight::HighlightConfiguration::new(lang, name, tree_sitter_json::HIGHLIGHTS_QUERY, "", "").ok()?;
    config.configure(names);
    let mut highlighter = tree_sitter_highlight::Highlighter::new();
    let events = highlighter.highlight(&config, source.as_bytes(), None, None, |_| None).ok()?;
    Some(events.map(|e| match e {
        Ok(tree_sitter_highlight::HighlightEvent::Source { start, end }) => HlEvent::Source(start, end),
        Ok(tree_sitter_highlight::HighlightEvent::HighlightStart(h)) => HlEvent::Start(h.0),
        Ok(tree_sitter_highlight::HighlightEvent::HighlightEnd) => HlEvent::End,
        Err(_) => HlEvent::Failed,
    }).collect())
}

/// Builds a `tree_sitter_highlight::HighlightConfiguration` for the C
/// grammar of `tree_sitter_c` (highlight query), configures it with `names`, runs
/// `Highlighter::highlight` on the source bytes and collects the events.
/// Claimed: the result is the named one for these arguments.
#[verifier::external_body]
fn c_events(source: &str, name: &str, names: &[&str]) -> (r: Option<Vec<HlEvent>>)
    ensures
        events_view(r) == c_highlight_events(source@, name@, str_views(names@)),
{
    let lang = tree_sitter_c::LANGUAGE.into();
    let mut config = tree_sitter_highlight::HighlightConfiguration::new(lang, name, tree_sitter_c::HIGHLIGHT_QUERY, "", "").ok()?;
    config.configure(names);
    let mut highlighter = tree_sitter_highlight::Highlighter::new();
    let events = highlighter.highlight(&config, source.as_bytes(), None, None, |_| None).ok()?;
    Some(events.map(|e| match e {
        Ok(tree_sitter_highlight::HighlightEvent::Source { start, end }) => HlEvent::Source(start, end),
        Ok(tree_sitter_highlight::HighlightEvent::HighlightStart(h)) => HlEvent::Start(h.0),
        Ok(tree_sitter_highlight::HighlightEvent::HighlightEnd) => HlEvent::End,
        Err(_) => HlEvent::Failed,
    }).collect())
}

/// The events of highlighting `source` with grammar `g`.
pub open spec fn grammar_events(g: Grammar, source: Seq<char>, name: Seq<char>, names: Seq<Seq<char>>) -> Option<Seq<HlEvent>> {
    match g {
        Grammar::Rust => rust_highlight_events(source, name, names),
        Grammar::JavaScript => javascript_highlight_events(source, name, names),
        Grammar::Python => python_highlight_events(source, name, names),
        Grammar::Json => json_highlight_events(source, name, names),
        Grammar::C => c_highlight_events(source, name, names),
    }
}

/// Highlights `source` with grammar `g`.
fn grammar_highlight_events(g: Grammar, source: &str, name: &str, names: &[&str]) -> (r: Option<Vec<HlEvent>>)
    ensures
        events_view(r) == grammar_events(g, source@, name@, str_views(names@)),
{
    match g {
        Grammar::Rust => rust_events(source, name, names),
        Grammar::JavaScript => javascript_events(source, name, names),
        Grammar::Python => python_events(source, name, names),
        Grammar::Json => json_events(source, name, names),
        Grammar::C => c_events(source, name, names),
    }
}


/// The byte offsets at which the lines of `b` start: 0, and one past each line feed.
pub open spec fn line_starts_of(b: Seq<u8>) -> Seq<usize>
    decreases b.len(),
{
    if b.len() == 0 {
        seq![0usize]
    } else {
        let p = line_starts_of(b.drop_last());
        if b.last() == 10u8 { p.push(b.len() as usize) } else { p }
    }
}

/// How many elements of `s` are at most `x`.
pub open spec fn count_le(s: Seq<usize>, x: usize) -> nat
    decreases s.len(),
{
    if s.len() == 0 {
        0
    } else {
        count_le(s.drop_last(), x) + if s.last() <= x { 1nat } else { 0nat }
    }
}

/// The line of byte offset `x`: the last line that starts at or before it.
pub open spec fn line_at(starts: Seq<usize>, x: usize) -> int {
    if count_le(starts, x) > 0 { count_le(starts, x) - 1 } else { 0 }
}

/// No error event among the first `n` events.
pub open spec fn running(ev: Seq<HlEvent>, n: int) -> bool
    decreases n,
{
    n <= 0 || (running(ev, n - 1) && ev[n - 1] != HlEvent::Failed)
}

/// The highlight in force after the first `n` events: the last one started,
/// none after an end.
pub open spec fn active_after(ev: Seq<HlEvent>, n: int) -> Option<usize>
    decreases n,
{
    if n <= 0 {
        None
    } else {
        match ev[n - 1] {
            HlEvent::Start(h) => Some(h),
            HlEvent::End => None,
            _ => active_after(ev, n - 1),
        }
    }
}

/// The length of a span (none when it is reversed).
pub open spec fn span_len(s: usize, e: usize) -> int {
    if s <= e { e - s } else { 0 }
}

/// What event `j` adds to the weight of highlight `h` on line `line`: the
/// length of its span when it is a span read before any error, under
/// highlight `h`, and reaches that line (lines past the last are not kept).
pub open spec fn added_by(ev: Seq<HlEvent>, starts: Seq<usize>, lc: int, j: int, line: int, h: int) -> int {
    if running(ev, j + 1) && 0 <= h < HIGHLIGHT_KINDS && active_after(ev, j) == Some(h as usize) {
        match ev[j] {
            HlEvent::Source(s, e) => if line_at(starts, s) <= line && line <= line_at(starts, e) && line <= lc - 1 {
                span_len(s, e)
            } else {
                0
            },
            _ => 0,
        }
    } else {
        0
    }
}

/// The weight of highlight `h` on line `line` after the first `n` events.
pub open spec fn weight(ev: Seq<HlEvent>, starts: Seq<usize>, lc: int, n: int, line: int, h: int) -> int
    decreases n,
{
    if n <= 0 { 0 } else { weight(ev, starts, lc, n - 1, line, h) + added_by(ev, starts, lc, n - 1, line, h) }
}

/// Among the first `k` weights, the first of the largest positive ones and
/// its weight; (-1, 0) when none is positive.
pub open spec fn best_of(ws: Seq<int>, k: int) -> (int, int)
    decreases k,
{
    if k <= 0 {
        (-1, 0)
    } else {
        let p = best_of(ws, k - 1);
        if ws[k - 1] > p.1 { (k - 1, ws[k - 1]) } else { p }
    }
}

/// The weights of all highlights on a line after all events.
pub open spec fn line_weights(ev: Seq<HlEvent>, starts: Seq<usize>, lc: int, line: int) -> Seq<int> {
    Seq::new(HIGHLIGHT_KINDS as nat, |h: int| weight(ev, starts, lc, ev.len() as int, line, h))
}

/// For each of `lc` lines, the highlight that covers most of its bytes (the
/// first of equals), or -1 when none covers any.
pub open spec fn line_highlights(ev: Seq<HlEvent>, starts: Seq<usize>, lc: int) -> Seq<i32> {
    Seq::new(lc as nat, |line: int| best_of(line_weights(ev, starts, lc, line), HIGHLIGHT_KINDS as int).0 as i32)
}

proof fn lemma_count_le_split(s: Seq<usize>, x: usize, k: int)
    requires
        0 <= k <= s.len(),
        forall|i: int| 0 <= i < k ==> s[i] <= x,
        forall|i: int| k <= i < s.len() ==> s[i] > x,
    ensures
        count_le(s, x) == k,
    decreases s.len(),
{
    if s.len() > 0 {
        let d = s.drop_last();
        if k == s.len() {
            lemma_count_le_split(d, x, k - 1);
        } else {
            lemma_count_le_split(d, x, k);
        }
    }
}

/// Strictly increasing, starting at 0, none past `n`.
pub open spec fn starts_ok(s: Seq<usize>, n: int) -> bool {
    &&& s.len() >= 1
    &&& s[0] == 0
    &&& forall|a: int, c: int| 0 <= a < c < s.len() ==> s[a] < s[c]
    &&& forall|a: int| 0 <= a < s.len() ==> s[a] <= n
}

fn line_starts(b: &[u8]) -> (s: Vec<usize>)
    ensures
        s@ == line_starts_of(b@),
        starts_ok(s@, b@.len() as int),
{
    let mut s: Vec<usize> = vec![0];
    let mut i: usize = 0;
    assert(b@.take(0) =~= Seq::<u8>::empty());
    while i < b.len()
        invariant
            i <= b@.len(),
            s@ == line_starts_of(b@.take(i as int)),
            starts_ok(s@, i as int),
        decreases b@.len() - i,
    {
        assert(b@.take(i + 1).drop_last() =~= b@.take(i as int));
        if b[i] == 10u8 {
            s.push(i + 1);
        }
        i = i + 1;
    }
    assert(b@.take(b@.len() as int) =~= b@);
    s
}

fn line_index(starts: &Vec<usize>, x: usize) -> (r: usize)
    requires
        starts_ok(starts@, usize::MAX as int),
    ensures
        r == line_at(starts@, x),
{
    let mut lo: usize = 0;
    let mut hi: usize = starts.len();
    while lo < hi
        invariant
            0 <= lo <= hi <= starts@.len(),
            starts_ok(starts@, usize::MAX as int),
            forall|i: int| 0 <= i < lo ==> starts@[i] <= x,
            forall|i: int| hi <= i < starts@.len() ==> starts@[i] > x,
        decreases hi - lo,
    {
        let mid = lo + (hi - lo) / 2;
        if starts[mid] <= x {
            lo = mid + 1;
        } else {
            hi = mid;
        }
    }
    proof { lemma_count_le_split(starts@, x, lo as int); }
    if lo > 0 { lo - 1 } else { 0 }
}


proof fn lemma_weight_bound(ev: Seq<HlEvent>, starts: Seq<usize>, lc: int, n: int, line: int, h: int)
    requires
        0 <= n,
    ensures
        0 <= weight(ev, starts, lc, n, line, h) <= n * (usize::MAX as int),
    decreases n,
{
    if n > 0 {
        lemma_weight_bound(ev, starts, lc, n - 1, line, h);
        assert(0 <= added_by(ev, starts, lc, n - 1, line, h) <= usize::MAX);
        assert((n - 1) * (usize::MAX as int) + (usize::MAX as int) == n * (usize::MAX as int)) by (nonlinear_arith);
    }
}

/// The tally: one row of `HIGHLIGHT_KINDS` weights per line.
pub open spec fn counts_ok(c: Seq<Vec<u128>>, lc: int) -> bool {
    &&& c.len() == lc
    &&& forall|l: int| 0 <= l < lc ==> (#[trigger] c[l])@.len() == HIGHLIGHT_KINDS
}

fn zero_counts(lc: usize) -> (c: Vec<Vec<u128>>)
    ensures
        counts_ok(c@, lc as int),
        forall|l: int, h: int| 0 <= l < lc && 0 <= h < HIGHLIGHT_KINDS ==> c@[l]@[h] == 0,
{
    let mut c: Vec<Vec<u128>> = Vec::new();
    let mut l: usize = 0;
    while l < lc
        invariant
            l <= lc,
            counts_ok(c@, l as int),
            forall|a: int, h: int| 0 <= a < l && 0 <= h < HIGHLIGHT_KINDS ==> c@[a]@[h] == 0,
        decreases lc - l,
    {
        let mut row: Vec<u128> = Vec::new();
        let mut h: usize = 0;
        while h < HIGHLIGHT_KINDS
            invariant
                h <= HIGHLIGHT_KINDS,
                row@.len() == h,
                forall|k: int| 0 <= k < h ==> row@[k] == 0,
            decreases HIGHLIGHT_KINDS - h,
        {
            row.push(0);
            h = h + 1;
        }
        c.push(row);
        l = l + 1;
    }
    c
}

/// Adds `span` to the weight of highlight `hl` on lines `lo..=hi`.
fn add_span(counts: &mut Vec<Vec<u128>>, lc: usize, lo: usize, hi: usize, hl: usize, span: u128)
    requires
        counts_ok(old(counts)@, lc as int),
        hl < HIGHLIGHT_KINDS,
        hi < lc,
        forall|l: int| lo <= l <= hi ==> old(counts)@[l]@[hl as int] + span <= u128::MAX,
    ensures
        counts_ok(final(counts)@, lc as int),
        forall|l: int, h: int| 0 <= l < lc && 0 <= h < HIGHLIGHT_KINDS ==> final(counts)@[l]@[h]
            == old(counts)@[l]@[h] + (if lo <= l <= hi && h == hl { span as int } else { 0int }),
{
    if lo > hi {
        return;
    }
    let mut line = lo;
    while line <= hi
        invariant
            lo <= line,
            hi < lc,
            line <= hi + 1,
            hl < HIGHLIGHT_KINDS,
            counts_ok(counts@, lc as int),
            forall|l: int| line <= l <= hi ==> old(counts)@[l]@[hl as int] + span <= u128::MAX,
            forall|l: int, h: int| 0 <= l < lc && 0 <= h < HIGHLIGHT_KINDS ==> counts@[l]@[h]
                == old(counts)@[l]@[h] + (if lo <= l < line && h == hl { span as int } else { 0int }),
        decreases hi + 1 - line,
    {
        let v = counts[line][hl] + span;
        counts[line].set(hl, v);
        line = line + 1;
    }
}

/// For each of `line_count` lines of `source`, the highlight that covers most
/// of its bytes in the highlight events `events` (see `line_highlights`).
pub fn dominant_highlights(source: &str, line_count: usize, events: &Vec<HlEvent>) -> (r: Vec<i32>)
    requires
        line_count >= 1,
    ensures
        r@ == line_highlights(events@, line_starts_of(source.spec_bytes()), line_count as int),
{
    let ghost ev = events@;
    let ghost lc = line_count as int;
    let bytes = source.as_bytes();
    let starts = line_starts(bytes);
    let ghost st = starts@;
    let mut counts = zero_counts(line_count);
    let mut cur: Option<usize> = None;
    let mut stopped = false;
    let mut j: usize = 0;
    while j < events.len()
        invariant
            j <= ev.len(),
            ev == events@,
            lc == line_count,
            line_count >= 1,
            starts@ == st,
            st == line_starts_of(source.spec_bytes()),
            starts_ok(st, usize::MAX as int),
            counts_ok(counts@, lc),
            forall|l: int, h: int| 0 <= l < lc && 0 <= h < HIGHLIGHT_KINDS ==> counts@[l]@[h] == weight(ev, st, lc, j as int, l, h),
            cur == active_after(ev, j as int),
            stopped == !running(ev, j as int),
        decreases ev.len() - j,
    {
        let event = events[j];
        let ghost before = counts@;
        match event {
            HlEvent::Source(s, e) => {
                let mut applied = false;
                if !stopped {
                    if let Some(hl) = cur {
                        if hl < HIGHLIGHT_KINDS {
                            let lo = line_index(&starts, s);
                            let el = line_index(&starts, e);
                            let hi = if el < line_count - 1 { el } else { line_count - 1 };
                            let span: usize = if s <= e { e - s } else { 0 };
                            proof {
                                assert forall|l: int| lo <= l <= hi implies before[l]@[hl as int] + span <= u128::MAX by {
                                    lemma_weight_bound(ev, st, lc, j as int, l, hl as int);
                                    assert(j + 1 <= usize::MAX);
                                    assert(j * (usize::MAX as int) + span <= (usize::MAX as int) * (usize::MAX as int)) by (nonlinear_arith)
                                        requires
                                            j + 1 <= usize::MAX,
                                            span <= usize::MAX;
                                    assert((usize::MAX as int) * (usize::MAX as int) <= u128::MAX) by (nonlinear_arith)
                                        requires
                                            usize::MAX <= u64::MAX;
                                }
                            }
                            add_span(&mut counts, line_count, lo, hi, hl, span as u128);
                            applied = true;
                            assert forall|l: int, h: int| 0 <= l < lc && 0 <= h < HIGHLIGHT_KINDS implies
                                counts@[l]@[h] == weight(ev, st, lc, j + 1, l, h) by {
                                assert(added_by(ev, st, lc, j as int, l, h) == (if lo <= l <= hi && h == hl { span as int } else { 0int }));
                                assert(weight(ev, st, lc, j + 1, l, h) == weight(ev, st, lc, j as int, l, h) + added_by(ev, st, lc, j as int, l, h));
                                assert(before[l]@[h] == weight(ev, st, lc, j as int, l, h));
                            }
                        }
                    }
                }
                if !applied {
                    assert forall|l: int, h: int| 0 <= l < lc && 0 <= h < HIGHLIGHT_KINDS implies
                        counts@[l]@[h] == weight(ev, st, lc, j + 1, l, h) by {
                        assert(added_by(ev, st, lc, j as int, l, h) == 0);
                        assert(weight(ev, st, lc, j + 1, l, h) == weight(ev, st, lc, j as int, l, h) + added_by(ev, st, lc, j as int, l, h));
                    }
                }
            },
            HlEvent::Start(h) => {
                cur = Some(h);
                assert forall|l: int, k: int| 0 <= l < lc && 0 <= k < HIGHLIGHT_KINDS implies
                    counts@[l]@[k] == weight(ev, st, lc, j + 1, l, k) by {
                    assert(added_by(ev, st, lc, j as int, l, k) == 0);
                    assert(weight(ev, st, lc, j + 1, l, k) == weight(ev, st, lc, j as int, l, k) + added_by(ev, st, lc, j as int, l, k));
                }
            },
            HlEvent::End => {
                cur = None;
                assert forall|l: int, k: int| 0 <= l < lc && 0 <= k < HIGHLIGHT_KINDS implies
                    counts@[l]@[k] == weight(ev, st, lc, j + 1, l, k) by {
                    assert(added_by(ev, st, lc, j as int, l, k) == 0);
                    assert(weight(ev, st, lc, j + 1, l, k) == weight(ev, st, lc, j as int, l, k) + added_by(ev, st, lc, j as int, l, k));
                }
            },
            HlEvent::Failed => {
                stopped = true;
                assert forall|l: int, k: int| 0 <= l < lc && 0 <= k < HIGHLIGHT_KINDS implies
                    counts@[l]@[k] == weight(ev, st, lc, j + 1, l, k) by {
                    assert(added_by(ev, st, lc, j as int, l, k) == 0);
                    assert(weight(ev, st, lc, j + 1, l, k) == weight(ev, st, lc, j as int, l, k) + added_by(ev, st, lc, j as int, l, k));
                }
            },
        }
        j = j + 1;
    }
    let mut out: Vec<i32> = Vec::new();
    let mut l: usize = 0;
    while l < line_count
        invariant
            l <= line_count,
            lc == line_count,
            ev == events@,
            counts_ok(counts@, lc),
            forall|a: int, h: int| 0 <= a < lc && 0 <= h < HIGHLIGHT_KINDS ==> counts@[a]@[h] == weight(ev, st, lc, ev.len() as int, a, h),
            out@.len() == l,
            forall|a: int| 0 <= a < l ==> out@[a] == line_highlights(ev, st, lc)[a],
        decreases line_count - l,
    {
        let ghost ws = line_weights(ev, st, lc, l as int);
        let mut best_type: i32 = -1;
        let mut best_count: u128 = 0;
        let mut h: usize = 0;
        while h < HIGHLIGHT_KINDS
            invariant
                h <= HIGHLIGHT_KINDS,
                l < lc,
                counts_ok(counts@, lc),
                ws == line_weights(ev, st, lc, l as int),
                forall|k: int| 0 <= k < HIGHLIGHT_KINDS ==> counts@[l as int]@[k] == ws[k],
                (best_type as int, best_count as int) == best_of(ws, h as int),
            decreases HIGHLIGHT_KINDS - h,
        {
            if counts[l][h] > best_count {
                best_count = counts[l][h];
                best_type = h as i32;
            }
            h = h + 1;
        }
        out.push(best_type);
        l = l + 1;
    }
    out
}


/// Every line without a highlight.
pub open spec fn plain_lines(lc: int) -> Seq<i32> {
    Seq::new(lc as nat, |i: int| -1i32)
}

fn plain(lc: usize) -> (r: Vec<i32>)
    ensures
        r@ == plain_lines(lc as int),
{
    let mut r: Vec<i32> = Vec::new();
    let mut i: usize = 0;
    while i < lc
        invariant
            i <= lc,
            r@ == plain_lines(i as int),
        decreases lc - i,
    {
        r.push(-1);
        assert(r@ =~= plain_lines(i + 1));
        i = i + 1;
    }
    r
}

/// The highlight class of each line of a file (at least one line): plain
/// when the extension has no grammar or highlighting cannot run, else the
/// dominant highlight of the events of the grammar for the extension.
pub open spec fn highlights_for(source: Seq<char>, bytes: Seq<u8>, path: Seq<char>) -> Seq<i32> {
    let lc = if text_lines(source).len() > 0 { text_lines(source).len() as int } else { 1 };
    let ext = match path_extension(path) {
        Some(e) => e,
        None => Seq::empty(),
    };
    match grammar_of(ext) {
        None => plain_lines(lc),
        Some(g) => match grammar_events(g, source, ext, recognized_names()) {
            None => plain_lines(lc),
            Some(ev) => line_highlights(ev, line_starts_of(bytes), lc),
        },
    }
}

/// Per-line syntax highlight classes of a file: for each line, the index of
/// the highlight name (see `recognized_names`) that covers most of it, or -1.
pub fn highlight_lines(source: &str, file_path: &str) -> (r: Vec<i32>)
    ensures
        r@ == highlights_for(source@, source.spec_bytes(), file_path@),
{
    let n = split_lines(source).len();
    let lc = if n > 0 { n } else { 1 };
    let ext = match file_extension(file_path) {
        Some(e) => e,
        None => String::new(),
    };
    proof {
        if path_extension(file_path@) is None {
            assert(ext@ =~= Seq::<char>::empty());
        }
    }
    match grammar_for(ext.as_str()) {
        None => plain(lc),
        Some(g) => {
            let names = highlight_names();
            match grammar_highlight_events(g, source, ext.as_str(), names.as_slice()) {
                None => plain(lc),
                Some(ev) => dominant_highlights(source, lc, &ev),
            }
        },
    }
}

} // verus!
