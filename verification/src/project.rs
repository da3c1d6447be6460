//! WinMerge-compatible project files: one `<paths>` entry per comparison.
use vstd::prelude::*;
use crate::text::{push_char, push_str, str_chars, str_eq, str_to_string, trimmed, trim_bounds, string_from_range, joined_path, join_path};
use crate::numfmt::{dec, push_i64};
use crate::view::{parse_i32, parse_i32_spec};

verus! {

/// One `<paths>` entry of a project file. Paths are the text written in the
/// file; relative ones are resolved against the project file's folder by
/// whoever opens the files.
#[derive(Debug, Clone, PartialEq)]
pub struct ProjectEntry {
    pub left: Option<String>,
    pub middle: Option<String>,
    pub right: Option<String>,
    pub white_spaces: Option<i32>,
    pub ignore_case: Option<bool>,
    pub ignore_blank_lines: Option<bool>,
    pub ignore_eol: Option<bool>,
    pub subfolders: Option<bool>,
    pub compare_method: Option<i32>,
}

impl Default for ProjectEntry {
    fn default() -> (e: Self)
        ensures
            entry_fields(e) == no_fields(),
    {
        ProjectEntry {
            left: None,
            middle: None,
            right: None,
            white_spaces: None,
            ignore_case: None,
            ignore_blank_lines: None,
            ignore_eol: None,
            subfolders: None,
            compare_method: None,
        }
    }
}

/// The fields of an entry as plain values.
pub struct EntryFields {
    pub left: Option<Seq<char>>,
    pub middle: Option<Seq<char>>,
    pub right: Option<Seq<char>>,
    pub white_spaces: Option<i32>,
    pub ignore_case: Option<bool>,
    pub ignore_blank_lines: Option<bool>,
    pub ignore_eol: Option<bool>,
    pub subfolders: Option<bool>,
    pub compare_method: Option<i32>,
}

pub open spec fn opt_str(o: Option<String>) -> Option<Seq<char>> {
    match o {
        Some(s) => Some(s@),
        None => None,
    }
}

pub open spec fn entry_fields(e: ProjectEntry) -> EntryFields {
    EntryFields {
        left: opt_str(e.left),
        middle: opt_str(e.middle),
        right: opt_str(e.right),
        white_spaces: e.white_spaces,
        ignore_case: e.ignore_case,
        ignore_blank_lines: e.ignore_blank_lines,
        ignore_eol: e.ignore_eol,
        subfolders: e.subfolders,
        compare_method: e.compare_method,
    }
}

pub open spec fn no_fields() -> EntryFields {
    EntryFields {
        left: None,
        middle: None,
        right: None,
        white_spaces: None,
        ignore_case: None,
        ignore_blank_lines: None,
        ignore_eol: None,
        subfolders: None,
        compare_method: None,
    }
}

/// Text with `& < > " '` written as XML entities.
pub open spec fn xml_escaped(s: Seq<char>) -> Seq<char>
    decreases s.len(),
{
    if s.len() == 0 {
        Seq::empty()
    } else {
        let c = s.last();
        xml_escaped(s.drop_last()) + if c == '&' {
            "&amp;"@
        } else if c == '<' {
            "&lt;"@
        } else if c == '>' {
            "&gt;"@
        } else if c == '"' {
            "&quot;"@
        } else if c == '\'' {
            "&apos;"@
        } else {
            seq![c]
        }
    }
}

/// Escapes the five predefined XML entities in element text.
pub fn escape_xml_text(text: &str) -> (out: String)
    ensures
        out@ == xml_escaped(text@),
{
    let chars = str_chars(text);
    let mut out = String::new();
    let mut i: usize = 0;
    while i < chars.len()
        invariant
            i <= chars@.len(),
            chars@ == text@,
            out@ == xml_escaped(chars@.take(i as int)),
        decreases chars@.len() - i,
    {
        let c = chars[i];
        assert(chars@.take(i + 1).drop_last() =~= chars@.take(i as int));
        assert(chars@.take(i + 1).last() == c);
        if c == '&' {
            push_str(&mut out, "&amp;");
        } else if c == '<' {
            push_str(&mut out, "&lt;");
        } else if c == '>' {
            push_str(&mut out, "&gt;");
        } else if c == '"' {
            push_str(&mut out, "&quot;");
        } else if c == '\'' {
            push_str(&mut out, "&apos;");
        } else {
            push_char(&mut out, c);
        }
        i = i + 1;
    }
    assert(chars@.take(chars@.len() as int) =~= chars@);
    out
}

/// A number as `{}` prints an `i32`.
pub open spec fn int_text(v: i32) -> Seq<char> {
    if v < 0 { seq!['-'] + dec((-v) as nat) } else { dec(v as nat) }
}

/// `\t\t<tag>body</tag>\n`
pub open spec fn element(tag: Seq<char>, body: Seq<char>) -> Seq<char> {
    "\t\t<"@ + tag + ">"@ + body + "</"@ + tag + ">\n"@
}

pub open spec fn path_element(tag: Seq<char>, p: Option<Seq<char>>) -> Seq<char> {
    match p {
        Some(t) => element(tag, xml_escaped(t)),
        None => Seq::empty(),
    }
}

pub open spec fn int_element(tag: Seq<char>, v: Option<i32>) -> Seq<char> {
    match v {
        Some(n) => element(tag, int_text(n)),
        None => Seq::empty(),
    }
}

pub open spec fn bool_element(tag: Seq<char>, v: Option<bool>) -> Seq<char> {
    match v {
        Some(b) => element(tag, if b { "1"@ } else { "0"@ }),
        None => Seq::empty(),
    }
}

pub open spec fn project_header() -> Seq<char> {
    "<?xml version=\"1.0\" encoding=\"UTF-8\"?>\n<project>\n\t<paths>\n"@
}

pub open spec fn project_footer() -> Seq<char> {
    "\t</paths>\n</project>\n"@
}

/// The project XML of one entry: its set fields in the order left, middle,
/// right, subfolders, white-spaces, ignore-blank-lines, ignore-case,
/// ignore-carriage-return-diff, compare-method.
pub open spec fn project_xml(e: EntryFields) -> Seq<char> {
    project_header() + path_element("left"@, e.left) + path_element("middle"@, e.middle)
        + path_element("right"@, e.right) + bool_element("subfolders"@, e.subfolders)
        + int_element("white-spaces"@, e.white_spaces) + bool_element("ignore-blank-lines"@, e.ignore_blank_lines)
        + bool_element("ignore-case"@, e.ignore_case) + bool_element("ignore-carriage-return-diff"@, e.ignore_eol)
        + int_element("compare-method"@, e.compare_method) + project_footer()
}

fn push_open(out: &mut String, tag: &str)
    ensures
        final(out)@ == old(out)@ + "\t\t<"@ + tag@ + ">"@,
{
    push_str(out, "\t\t<");
    push_str(out, tag);
    push_str(out, ">");
}

fn push_close(out: &mut String, tag: &str)
    ensures
        final(out)@ == old(out)@ + "</"@ + tag@ + ">\n"@,
{
    push_str(out, "</");
    push_str(out, tag);
    push_str(out, ">\n");
}

/// Appends a path element with its text escaped.
fn push_path_element(out: &mut String, tag: &str, path: &str)
    ensures
        final(out)@ == old(out)@ + element(tag@, xml_escaped(path@)),
{
    push_text_element(out, tag, path);
}

/// Appends a text element with its text escaped.
fn push_text_element(out: &mut String, tag: &str, text: &str)
    ensures
        final(out)@ == old(out)@ + element(tag@, xml_escaped(text@)),
{
    let ghost start = out@;
    push_open(out, tag);
    let e = escape_xml_text(text);
    push_str(out, e.as_str());
    push_close(out, tag);
    assert(out@ =~= start + element(tag@, xml_escaped(text@)));
}

/// Appends a boolean element as 1 or 0.
fn push_bool_element(out: &mut String, tag: &str, value: bool)
    ensures
        final(out)@ == old(out)@ + element(tag@, if value { "1"@ } else { "0"@ }),
{
    let ghost start = out@;
    push_open(out, tag);
    push_str(out, if value { "1" } else { "0" });
    push_close(out, tag);
    assert(out@ =~= start + element(tag@, if value { "1"@ } else { "0"@ }));
}

/// Appends a number element.
fn push_int_element(out: &mut String, tag: &str, value: i32)
    ensures
        final(out)@ == old(out)@ + element(tag@, int_text(value)),
{
    let ghost start = out@;
    push_open(out, tag);
    push_i64(out, value as i64);
    push_close(out, tag);
    assert(out@ =~= start + element(tag@, int_text(value)));
}

/// Serializes one entry as WinMerge-compatible project XML; only set fields
/// are written.
pub fn write_project(entry: &ProjectEntry) -> (xml: String)
    ensures
        xml@ == project_xml(entry_fields(*entry)),
{
    let mut out = str_to_string("<?xml version=\"1.0\" encoding=\"UTF-8\"?>\n<project>\n\t<paths>\n");
    let ghost f = entry_fields(*entry);
    let ghost s0 = out@;
    if let Some(p) = &entry.left {
        push_path_element(&mut out, "left", p.as_str());
    }
    assert(out@ =~= s0 + path_element("left"@, f.left));
    let ghost s1 = out@;
    if let Some(p) = &entry.middle {
        push_path_element(&mut out, "middle", p.as_str());
    }
    assert(out@ =~= s1 + path_element("middle"@, f.middle));
    let ghost s2 = out@;
    if let Some(p) = &entry.right {
        push_path_element(&mut out, "right", p.as_str());
    }
    assert(out@ =~= s2 + path_element("right"@, f.right));
    let ghost s3 = out@;
    if let Some(v) = entry.subfolders {
        push_bool_element(&mut out, "subfolders", v);
    }
    assert(out@ =~= s3 + bool_element("subfolders"@, f.subfolders));
    let ghost s4 = out@;
    if let Some(v) = entry.white_spaces {
        push_int_element(&mut out, "white-spaces", v);
    }
    assert(out@ =~= s4 + int_element("white-spaces"@, f.white_spaces));
    let ghost s5 = out@;
    if let Some(v) = entry.ignore_blank_lines {
        push_bool_element(&mut out, "ignore-blank-lines", v);
    }
    assert(out@ =~= s5 + bool_element("ignore-blank-lines"@, f.ignore_blank_lines));
    let ghost s6 = out@;
    if let Some(v) = entry.ignore_case {
        push_bool_element(&mut out, "ignore-case", v);
    }
    assert(out@ =~= s6 + bool_element("ignore-case"@, f.ignore_case));
    let ghost s7 = out@;
    if let Some(v) = entry.ignore_eol {
        push_bool_element(&mut out, "ignore-carriage-return-diff", v);
    }
    assert(out@ =~= s7 + bool_element("ignore-carriage-return-diff"@, f.ignore_eol));
    let ghost s8 = out@;
    if let Some(v) = entry.compare_method {
        push_int_element(&mut out, "compare-method", v);
    }
    assert(out@ =~= s8 + int_element("compare-method"@, f.compare_method));
    push_str(&mut out, "\t</paths>\n</project>\n");
    assert(out@ =~= project_xml(f));
    out
}

} // verus!

verus! {

/// A child node of an element, as plain values: whether it is an element,
/// its tag name, and its text.
pub type XmlLeaf = (bool, Seq<char>, Option<Seq<char>>);

/// A child node of the root element with its own child nodes.
pub type XmlBranch = (bool, Seq<char>, Seq<XmlLeaf>);

/// What `roxmltree` reads from a document: the root element's tag name and
/// its child nodes two levels deep (each with `is_element`, the local tag
/// name and `text`), or the parse error's message.
pub uninterp spec fn xml_outline(xml: Seq<char>) -> Result<(Seq<char>, Seq<XmlBranch>), Seq<char>>;

/// A child node of an element.
pub struct XmlNode {
    pub is_element: bool,
    pub name: String,
    pub text: Option<String>,
    pub children: Vec<XmlNode>,
}

pub open spec fn leaf_view(n: XmlNode) -> XmlLeaf {
    (n.is_element, n.name@, opt_str(n.text))
}

pub open spec fn branch_view(n: XmlNode) -> XmlBranch {
    (n.is_element, n.name@, n.children@.map_values(|c: XmlNode| leaf_view(c)))
}

/// Parses `xml` with `roxmltree::Document::parse` and reads the root
/// element's tag name and its child nodes two levels deep.
#[verifier::external_body]
fn read_xml_outline(xml: &str) -> (r: Result<(String, Vec<XmlNode>), String>)
    ensures
        match r {
            Ok((root, kids)) => xml_outline(xml@) == Ok::<(Seq<char>, Seq<XmlBranch>), Seq<char>>(
                (root@, kids@.map_values(|k: XmlNode| branch_view(k))),
            ),
            Err(e) => xml_outline(xml@) == Err::<(Seq<char>, Seq<XmlBranch>), Seq<char>>(e@),
        },
{
    let doc = roxmltree::Document::parse(xml).map_err(|e| e.to_string())?;
    let root = doc.root_element();
    let node = |n: roxmltree::Node, children: Vec<XmlNode>| XmlNode {
        is_element: n.is_element(),
        name: n.tag_name().name().to_string(),
        text: n.text().map(|t| t.to_string()),
        children,
    };
    let kids = root.children().map(|k| node(k, k.children().map(|c| node(c, Vec::new())).collect())).collect();
    Ok((root.tag_name().name().to_string(), kids))
}

/// `s` without a leading byte order mark.
pub open spec fn without_bom(s: Seq<char>) -> Seq<char> {
    if s.len() > 0 && s[0] == '\u{FEFF}' { s.drop_first() } else { s }
}

/// A path element's text, trimmed and resolved against the project's folder
/// `base` (see `joined_path`); none when empty or missing.
pub open spec fn path_text(t: Option<Seq<char>>, base: Seq<char>) -> Option<Seq<char>> {
    let s = trimmed(match t { Some(x) => x, None => Seq::empty() });
    if s.len() == 0 { None } else { Some(joined_path(base, s)) }
}

/// A number element's value: its trimmed text as an `i32`, else 0.
pub open spec fn int_value(t: Option<Seq<char>>) -> i32 {
    match parse_i32_spec(trimmed(match t { Some(x) => x, None => Seq::empty() })) {
        Some(v) => v,
        None => 0,
    }
}

pub open spec fn ranged(v: i32, lo: i32, hi: i32) -> Option<i32> {
    if lo <= v <= hi { Some(v) } else { None }
}

/// The fields after reading one element of a `<paths>` entry; unknown
/// elements change nothing.
pub open spec fn apply_element(f: EntryFields, name: Seq<char>, t: Option<Seq<char>>, base: Seq<char>) -> EntryFields {
    if name == "left"@ {
        EntryFields { left: path_text(t, base), ..f }
    } else if name == "middle"@ {
        EntryFields { middle: path_text(t, base), ..f }
    } else if name == "right"@ {
        EntryFields { right: path_text(t, base), ..f }
    } else if name == "white-spaces"@ {
        EntryFields { white_spaces: ranged(int_value(t), 0, 2), ..f }
    } else if name == "ignore-case"@ {
        EntryFields { ignore_case: Some(int_value(t) != 0), ..f }
    } else if name == "ignore-blank-lines"@ {
        EntryFields { ignore_blank_lines: Some(int_value(t) != 0), ..f }
    } else if name == "ignore-carriage-return-diff"@ {
        EntryFields { ignore_eol: Some(int_value(t) != 0), ..f }
    } else if name == "subfolders"@ {
        EntryFields { subfolders: Some(int_value(t) != 0), ..f }
    } else if name == "compare-method"@ {
        EntryFields { compare_method: ranged(int_value(t), 0, 6), ..f }
    } else {
        f
    }
}

/// The fields read from the first `n` child nodes of a `<paths>` element.
pub open spec fn fields_from(nodes: Seq<XmlLeaf>, n: int, base: Seq<char>) -> EntryFields
    decreases n,
{
    if n <= 0 {
        no_fields()
    } else {
        let f = fields_from(nodes, n - 1, base);
        let c = nodes[n - 1];
        if c.0 { apply_element(f, c.1, c.2, base) } else { f }
    }
}

/// One entry per `<paths>` element among the first `n` child nodes of the root.
pub open spec fn entries_from(kids: Seq<XmlBranch>, n: int, base: Seq<char>) -> Seq<EntryFields>
    decreases n,
{
    if n <= 0 {
        Seq::empty()
    } else {
        let prev = entries_from(kids, n - 1, base);
        let k = kids[n - 1];
        if k.0 && k.1 == "paths"@ { prev.push(fields_from(k.2, k.2.len() as int, base)) } else { prev }
    }
}

/// What a project file's text gives, with relative paths resolved against
/// the folder `base`: its entries, or an error message.
pub open spec fn parsed_project(xml: Seq<char>, base: Seq<char>) -> Result<Seq<EntryFields>, Seq<char>> {
    match xml_outline(without_bom(xml)) {
        Err(e) => Err(e),
        Ok((root, kids)) => if root != "project"@ {
            Err("expected <project> as the root element, found <"@ + root + ">"@)
        } else {
            Ok(entries_from(kids, kids.len() as int, base))
        },
    }
}

fn trimmed_text(t: &Option<String>) -> (s: String)
    ensures
        s@ == trimmed(match opt_str(*t) { Some(x) => x, None => Seq::empty() }),
{
    let v = match t {
        Some(x) => str_chars(x.as_str()),
        None => Vec::new(),
    };
    let (a, b) = trim_bounds(&v);
    string_from_range(v.as_slice(), a, b)
}

fn parse_path(t: &Option<String>, base_dir: &str) -> (p: Option<String>)
    ensures
        opt_str(p) == path_text(opt_str(*t), base_dir@),
{
    let s = trimmed_text(t);
    if s.as_str().is_empty() { None } else { Some(join_path(base_dir, s.as_str())) }
}

fn parse_int(t: &Option<String>) -> (v: i32)
    ensures
        v == int_value(opt_str(*t)),
{
    let s = trimmed_text(t);
    match parse_i32(&str_chars(s.as_str())) {
        Some(v) => v,
        None => 0,
    }
}

fn parse_ranged_int(t: &Option<String>, lo: i32, hi: i32) -> (r: Option<i32>)
    ensures
        r == ranged(int_value(opt_str(*t)), lo, hi),
{
    let v = parse_int(t);
    if lo <= v && v <= hi { Some(v) } else { None }
}

/// Reads one `<paths>` element's child nodes into an entry.
fn parse_paths_entry(nodes: &Vec<XmlNode>, base_dir: &str) -> (e: ProjectEntry)
    ensures
        entry_fields(e) == fields_from(nodes@.map_values(|c: XmlNode| leaf_view(c)), nodes@.len() as int, base_dir@),
{
    let ghost ls = nodes@.map_values(|c: XmlNode| leaf_view(c));
    let mut entry = ProjectEntry::default();
    let mut i: usize = 0;
    while i < nodes.len()
        invariant
            i <= nodes@.len(),
            ls == nodes@.map_values(|c: XmlNode| leaf_view(c)),
            entry_fields(entry) == fields_from(ls, i as int, base_dir@),
        decreases nodes@.len() - i,
    {
        let c = &nodes[i];
        assert(ls[i as int] == leaf_view(*c));
        if c.is_element {
            let n = c.name.as_str();
            if str_eq(n, "left") {
                entry.left = parse_path(&c.text, base_dir);
            } else if str_eq(n, "middle") {
                entry.middle = parse_path(&c.text, base_dir);
            } else if str_eq(n, "right") {
                entry.right = parse_path(&c.text, base_dir);
            } else if str_eq(n, "white-spaces") {
                entry.white_spaces = parse_ranged_int(&c.text, 0, 2);
            } else if str_eq(n, "ignore-case") {
                entry.ignore_case = Some(parse_int(&c.text) != 0);
            } else if str_eq(n, "ignore-blank-lines") {
                entry.ignore_blank_lines = Some(parse_int(&c.text) != 0);
            } else if str_eq(n, "ignore-carriage-return-diff") {
                entry.ignore_eol = Some(parse_int(&c.text) != 0);
            } else if str_eq(n, "subfolders") {
                entry.subfolders = Some(parse_int(&c.text) != 0);
            } else if str_eq(n, "compare-method") {
                entry.compare_method = parse_ranged_int(&c.text, 0, 6);
            }
        }
        i = i + 1;
    }
    entry
}

fn strip_bom(xml: &str) -> (s: String)
    ensures
        s@ == without_bom(xml@),
{
    let v = str_chars(xml);
    if v.len() > 0 && v[0] == '\u{FEFF}' {
        let s = string_from_range(v.as_slice(), 1, v.len());
        assert(s@ =~= xml@.drop_first());
        s
    } else {
        str_to_string(xml)
    }
}

/// Parses a WinMerge project XML into one entry per `<paths>` element,
/// resolving relative paths against the project's folder `base_dir`.
/// Elements without an equivalent here are skipped, not rejected.
pub fn parse_project(xml: &str, base_dir: &str) -> (r: Result<Vec<ProjectEntry>, String>)
    ensures
        match r {
            Ok(v) => parsed_project(xml@, base_dir@) == Ok::<Seq<EntryFields>, Seq<char>>(v@.map_values(|e: ProjectEntry| entry_fields(e))),
            Err(e) => parsed_project(xml@, base_dir@) == Err::<Seq<EntryFields>, Seq<char>>(e@),
        },
{
    let text = strip_bom(xml);
    let (root, kids) = match read_xml_outline(text.as_str()) {
        Ok(x) => x,
        Err(e) => return Err(e),
    };
    let ghost ks = kids@.map_values(|k: XmlNode| branch_view(k));
    if !str_eq(root.as_str(), "project") {
        let mut msg = str_to_string("expected <project> as the root element, found <");
        push_str(&mut msg, root.as_str());
        push_str(&mut msg, ">");
        return Err(msg);
    }
    let mut entries: Vec<ProjectEntry> = Vec::new();
    let mut i: usize = 0;
    while i < kids.len()
        invariant
            i <= kids@.len(),
            ks == kids@.map_values(|k: XmlNode| branch_view(k)),
            entries@.map_values(|e: ProjectEntry| entry_fields(e)) == entries_from(ks, i as int, base_dir@),
        decreases kids@.len() - i,
    {
        let k = &kids[i];
        assert(ks[i as int] == branch_view(*k));
        if k.is_element && str_eq(k.name.as_str(), "paths") {
            let e = parse_paths_entry(&k.children, base_dir);
            let ghost before = entries@;
            entries.push(e);
            assert(entries@.map_values(|e: ProjectEntry| entry_fields(e)) =~= before.map_values(
                |e: ProjectEntry| entry_fields(e),
            ).push(entry_fields(e)));
        }
        i = i + 1;
    }
    Ok(entries)
}

} // verus!

verus! {

/// The `white-spaces` value of the whitespace toggles: 0 compares all
/// whitespace, 1 ignores changes in it, 2 ignores all of it.
pub open spec fn white_spaces_code(ignore_whitespace: bool, ignore_whitespace_all: bool) -> i32 {
    if !ignore_whitespace { 0 } else if ignore_whitespace_all { 2 } else { 1 }
}

/// The whitespace toggles of a `white-spaces` value (2 and above ignore all).
pub open spec fn white_spaces_flags(code: i32) -> (bool, bool) {
    if code == 0 { (false, false) } else if code == 1 { (true, false) } else { (true, true) }
}

/// The `white-spaces` value to save for the whitespace toggles.
pub fn white_spaces_of(ignore_whitespace: bool, ignore_whitespace_all: bool) -> (code: i32)
    ensures
        code == white_spaces_code(ignore_whitespace, ignore_whitespace_all),
{
    if !ignore_whitespace {
        0
    } else if ignore_whitespace_all {
        2
    } else {
        1
    }
}

/// The whitespace toggles an opened project sets from its `white-spaces` value.
pub fn whitespace_flags(white_spaces: i32) -> (flags: (bool, bool))
    ensures
        flags == white_spaces_flags(white_spaces),
{
    if white_spaces == 0 {
        (false, false)
    } else if white_spaces == 1 {
        (true, false)
    } else {
        (true, true)
    }
}

/// Saving the whitespace toggles to a project and opening it again gives
/// them back (ignoring all whitespace only counts while whitespace is
/// ignored), and each stored value 0, 1 or 2 survives opening and saving.
pub proof fn lemma_white_spaces_round_trip(ignore_whitespace: bool, ignore_whitespace_all: bool, code: i32)
    ensures
        white_spaces_flags(white_spaces_code(ignore_whitespace, ignore_whitespace_all))
            == (ignore_whitespace, ignore_whitespace && ignore_whitespace_all),
        0 <= code <= 2 ==> white_spaces_code(white_spaces_flags(code).0, white_spaces_flags(code).1) == code,
{
}

/// The folder depth after opening a project: a project that includes
/// subfolders lifts a depth of 1 to unlimited (0), one that does not sets 1,
/// and without the setting the depth stays.
pub fn folder_depth_for(subfolders: Option<bool>, current_depth: i32) -> (d: i32)
    ensures
        d == match subfolders {
            Some(true) => if current_depth == 1 { 0 } else { current_depth },
            Some(false) => 1,
            None => current_depth,
        },
{
    match subfolders {
        Some(true) => if current_depth == 1 { 0 } else { current_depth },
        Some(false) => 1,
        None => current_depth,
    }
}

/// The options a project entry stores when a tab is saved as a project.
pub struct ProjectOptions {
    pub ignore_whitespace: bool,
    pub ignore_whitespace_all: bool,
    pub ignore_case: bool,
    pub ignore_blank_lines: bool,
    pub ignore_eol: bool,
    pub folder_max_depth: i32,
    pub folder_compare_method: i32,
}

/// The entry that saving a tab as a project writes: the (already resolved)
/// paths, the text options, and for a folder comparison whether subfolders
/// are included (any depth but 1) and the compare method when it is 0 to 6.
pub fn project_entry_for(left: &str, middle: Option<&str>, right: &str, is_folder: bool, opts: &ProjectOptions) -> (e: ProjectEntry)
    ensures
        entry_fields(e) == (EntryFields {
            left: Some(left@),
            middle: match middle { Some(m) => Some(m@), None => None },
            right: Some(right@),
            white_spaces: Some(white_spaces_code(opts.ignore_whitespace, opts.ignore_whitespace_all)),
            ignore_case: Some(opts.ignore_case),
            ignore_blank_lines: Some(opts.ignore_blank_lines),
            ignore_eol: Some(opts.ignore_eol),
            subfolders: if is_folder { Some(opts.folder_max_depth != 1) } else { None },
            compare_method: if is_folder && 0 <= opts.folder_compare_method <= 6 { Some(opts.folder_compare_method) } else { None },
        }),
{
    let m = match middle {
        Some(x) => Some(str_to_string(x)),
        None => None,
    };
    ProjectEntry {
        left: Some(str_to_string(left)),
        middle: m,
        right: Some(str_to_string(right)),
        white_spaces: Some(white_spaces_of(opts.ignore_whitespace, opts.ignore_whitespace_all)),
        ignore_case: Some(opts.ignore_case),
        ignore_blank_lines: Some(opts.ignore_blank_lines),
        ignore_eol: Some(opts.ignore_eol),
        subfolders: if is_folder { Some(opts.folder_max_depth != 1) } else { None },
        compare_method: if is_folder && 0 <= opts.folder_compare_method && opts.folder_compare_method <= 6 {
            Some(opts.folder_compare_method)
        } else {
            None
        },
    }
}

} // verus!
