//! Reports of a comparison: HTML, unified diff, CSV, JSON and Excel.
use vstd::prelude::*;
use crate::text::{push_char, push_str, str_chars, str_to_string, ascii_lowered};
use crate::numfmt::{dec, push_dec, digit_char};
use crate::models::{DiffLine, DiffResult, LineStatus, FolderItem, FileCompareStatus, statuses};
use crate::pane_buffer::runs_before;

verus! {

/// One comment of a diff block, across all tabs.
pub struct CommentEntry {
    pub tab_title: String,
    pub left_file: String,
    pub right_file: String,
    pub diff_block: usize,
    pub comment: String,
}

/// Each character mapped to a piece of text, the pieces concatenated.
pub open spec fn escaped_with(s: Seq<char>, f: spec_fn(char) -> Seq<char>) -> Seq<char>
    decreases s.len(),
{
    if s.len() == 0 {
        Seq::empty()
    } else {
        escaped_with(s.drop_last(), f) + f(s.last())
    }
}

/// Doubling of double quotes (CSV).
pub open spec fn csv_piece(c: char) -> Seq<char> {
    if c == '"' { "\"\""@ } else { seq![c] }
}

/// JSON string escapes: backslash, double quote, line feed, carriage
/// return and tab by their short forms, other control characters as
/// `\u00XX` (upper-case hexadecimal).
pub open spec fn json_piece(c: char) -> Seq<char> {
    if c == '\\' {
        "\\\\"@
    } else if c == '"' {
        "\\\""@
    } else if c == '\n' {
        "\\n"@
    } else if c == '\r' {
        "\\r"@
    } else if c == '\t' {
        "\\t"@
    } else if (c as u32) < 0x20 {
        "\\u00"@ + seq![digit_char(((c as u32) / 16) as nat), digit_char(((c as u32) % 16) as nat)]
    } else {
        seq![c]
    }
}

fn hex_digit(d: u32) -> (r: char)
    requires
        d < 16,
    ensures
        r == digit_char(d as nat),
{
    if d < 10 { (48 + d) as u8 as char } else { (55 + d) as u8 as char }
}

/// HTML escapes: `& < > "` as entities, a space as `&nbsp;`, a tab as four.
pub open spec fn html_piece(c: char) -> Seq<char> {
    if c == '&' {
        "&amp;"@
    } else if c == '<' {
        "&lt;"@
    } else if c == '>' {
        "&gt;"@
    } else if c == '"' {
        "&quot;"@
    } else if c == ' ' {
        "&nbsp;"@
    } else if c == '\t' {
        "&nbsp;&nbsp;&nbsp;&nbsp;"@
    } else {
        seq![c]
    }
}

/// Which escaping to apply.
pub enum Escape {
    Csv,
    Json,
    Html,
}

pub open spec fn piece_of(e: Escape, c: char) -> Seq<char> {
    match e {
        Escape::Csv => csv_piece(c),
        Escape::Json => json_piece(c),
        Escape::Html => html_piece(c),
    }
}

pub open spec fn escaped(s: Seq<char>, e: Escape) -> Seq<char> {
    escaped_with(s, |c: char| piece_of(e, c))
}

/// Appends `s` escaped.
pub fn push_escaped(out: &mut String, s: &str, e: Escape)
    ensures
        final(out)@ == old(out)@ + escaped(s@, e),
{
    let chars = str_chars(s);
    let ghost start = out@;
    let mut i: usize = 0;
    while i < chars.len()
        invariant
            i <= chars@.len(),
            chars@ == s@,
            out@ == start + escaped(chars@.take(i as int), e),
        decreases chars@.len() - i,
    {
        let c = chars[i];
        assert(chars@.take(i + 1).drop_last() =~= chars@.take(i as int));
        assert(chars@.take(i + 1).last() == c);
        match e {
            Escape::Csv => {
                if c == '"' { push_str(out, "\"\"") } else { push_char(out, c) }
            },
            Escape::Json => {
                if c == '\\' {
                    push_str(out, "\\\\")
                } else if c == '"' {
                    push_str(out, "\\\"")
                } else if c == '\n' {
                    push_str(out, "\\n")
                } else if c == '\r' {
                    push_str(out, "\\r")
                } else if c == '\t' {
                    push_str(out, "\\t")
                } else if (c as u32) < 0x20 {
                    let n = c as u32;
                    push_str(out, "\\u00");
                    push_char(out, hex_digit(n / 16));
                    push_char(out, hex_digit(n % 16));
                } else {
                    push_char(out, c)
                }
            },
            Escape::Html => {
                if c == '&' {
                    push_str(out, "&amp;")
                } else if c == '<' {
                    push_str(out, "&lt;")
                } else if c == '>' {
                    push_str(out, "&gt;")
                } else if c == '"' {
                    push_str(out, "&quot;")
                } else if c == ' ' {
                    push_str(out, "&nbsp;")
                } else if c == '\t' {
                    push_str(out, "&nbsp;&nbsp;&nbsp;&nbsp;")
                } else {
                    push_char(out, c)
                }
            },
        }
        assert(out@ =~= start + escaped(chars@.take(i + 1), e));
        i = i + 1;
    }
    assert(chars@.take(chars@.len() as int) =~= chars@);
}

/// Escapes text for HTML (see `html_piece`).
pub fn escape_html(s: &str) -> (r: String)
    ensures
        r@ == escaped(s@, Escape::Html),
{
    let mut r = String::new();
    push_escaped(&mut r, s, Escape::Html);
    r
}

/// `"text"` with inner quotes doubled.
pub open spec fn csv_quoted(s: Seq<char>) -> Seq<char> {
    seq!['"'] + escaped(s, Escape::Csv) + seq!['"']
}

pub open spec fn comment_csv_line(e: CommentEntry) -> Seq<char> {
    csv_quoted(e.tab_title@) + seq![','] + csv_quoted(e.left_file@) + seq![','] + csv_quoted(e.right_file@) + seq![',']
        + dec(e.diff_block as nat) + seq![','] + csv_quoted(e.comment@) + seq!['\n']
}

pub open spec fn comments_csv_body(es: Seq<CommentEntry>) -> Seq<char>
    decreases es.len(),
{
    if es.len() == 0 {
        Seq::empty()
    } else {
        comments_csv_body(es.drop_last()) + comment_csv_line(es.last())
    }
}

fn push_csv_quoted(out: &mut String, s: &str)
    ensures
        final(out)@ == old(out)@ + csv_quoted(s@),
{
    let ghost start = out@;
    push_char(out, '"');
    push_escaped(out, s, Escape::Csv);
    push_char(out, '"');
    assert(out@ =~= start + csv_quoted(s@));
}

fn push_comment_csv_line(out: &mut String, e: &CommentEntry)
    ensures
        final(out)@ == old(out)@ + comment_csv_line(*e),
{
    let ghost before = out@;
    push_csv_quoted(out, e.tab_title.as_str());
    push_char(out, ',');
    push_csv_quoted(out, e.left_file.as_str());
    push_char(out, ',');
    push_csv_quoted(out, e.right_file.as_str());
    push_char(out, ',');
    push_dec(out, e.diff_block as u64);
    push_char(out, ',');
    push_csv_quoted(out, e.comment.as_str());
    push_char(out, '\n');
    assert(out@ =~= before + comment_csv_line(*e));
}

/// Exports all comments as CSV: a header line, then one line per comment.
pub fn export_all_comments_csv(entries: &Vec<CommentEntry>) -> (out: String)
    ensures
        out@ == "Tab,Left File,Right File,Diff Block,Comment\n"@ + comments_csv_body(entries@),
{
    let mut out = str_to_string("Tab,Left File,Right File,Diff Block,Comment\n");
    let ghost head = out@;
    let mut i: usize = 0;
    while i < entries.len()
        invariant
            i <= entries@.len(),
            head == "Tab,Left File,Right File,Diff Block,Comment\n"@,
            out@ == head + comments_csv_body(entries@.take(i as int)),
        decreases entries@.len() - i,
    {
        let e = &entries[i];
        let ghost before = out@;
        push_comment_csv_line(&mut out, e);
        assert(entries@.take(i + 1).drop_last() =~= entries@.take(i as int));
        assert(out@ =~= before + comment_csv_line(*e));
        i = i + 1;
    }
    assert(entries@.take(entries@.len() as int) =~= entries@);
    out
}

pub open spec fn json_str(s: Seq<char>) -> Seq<char> {
    escaped(s, Escape::Json)
}

pub open spec fn comment_json_line(e: CommentEntry, last: bool) -> Seq<char> {
    "  {\"tab\":\""@ + json_str(e.tab_title@) + "\",\"left_file\":\""@ + json_str(e.left_file@)
        + "\",\"right_file\":\""@ + json_str(e.right_file@) + "\",\"diff_block\":"@ + dec(e.diff_block as nat)
        + ",\"comment\":\""@ + json_str(e.comment@) + "\"}"@ + if last { "\n"@ } else { ",\n"@ }
}

/// The lines of the first `n` of `count` comments.
pub open spec fn comments_json_body(es: Seq<CommentEntry>, n: int) -> Seq<char>
    decreases n,
{
    if n <= 0 {
        Seq::empty()
    } else {
        comments_json_body(es, n - 1) + comment_json_line(es[n - 1], n >= es.len())
    }
}

/// Appends one comment's JSON line.
fn push_comment_json(out: &mut String, e: &CommentEntry, last: bool)
    ensures
        final(out)@ == old(out)@ + comment_json_line(*e, last),
{
    let ghost before = out@;
    push_str(out, "  {\"tab\":\"");
    push_escaped(out, e.tab_title.as_str(), Escape::Json);
    push_str(out, "\",\"left_file\":\"");
    push_escaped(out, e.left_file.as_str(), Escape::Json);
    push_str(out, "\",\"right_file\":\"");
    push_escaped(out, e.right_file.as_str(), Escape::Json);
    push_str(out, "\",\"diff_block\":");
    push_dec(out, e.diff_block as u64);
    push_str(out, ",\"comment\":\"");
    push_escaped(out, e.comment.as_str(), Escape::Json);
    push_str(out, "\"}");
    if last {
        push_str(out, "\n");
    } else {
        push_str(out, ",\n");
    }
    assert(out@ =~= before + comment_json_line(*e, last));
}

/// Exports all comments as a JSON array of objects.
pub fn export_all_comments_json(entries: &Vec<CommentEntry>) -> (out: String)
    ensures
        out@ == "[\n"@ + comments_json_body(entries@, entries@.len() as int) + "]\n"@,
{
    let mut out = str_to_string("[\n");
    let mut i: usize = 0;
    while i < entries.len()
        invariant
            i <= entries@.len(),
            out@ == "[\n"@ + comments_json_body(entries@, i as int),
        decreases entries@.len() - i,
    {
        let last = i + 1 >= entries.len();
        push_comment_json(&mut out, &entries[i], last);
        i = i + 1;
    }
    push_str(&mut out, "]\n");
    out
}

/// The name of a row status in the CSV export.
pub open spec fn status_name(s: LineStatus) -> Seq<char> {
    match s {
        LineStatus::Equal => "Equal"@,
        LineStatus::Added => "Added"@,
        LineStatus::Removed => "Removed"@,
        LineStatus::Modified => "Modified"@,
        LineStatus::Moved => "Moved"@,
    }
}

fn status_str(s: LineStatus) -> (r: &'static str)
    ensures
        r@ == status_name(s),
{
    match s {
        LineStatus::Equal => "Equal",
        LineStatus::Added => "Added",
        LineStatus::Removed => "Removed",
        LineStatus::Modified => "Modified",
        LineStatus::Moved => "Moved",
    }
}

/// A line number as text, empty for none.
pub open spec fn no_text(n: Option<u32>) -> Seq<char> {
    match n {
        Some(k) => dec(k as nat),
        None => Seq::empty(),
    }
}

fn push_no(out: &mut String, n: Option<u32>)
    ensures
        final(out)@ == old(out)@ + no_text(n),
{
    match n {
        Some(k) => push_dec(out, k as u64),
        None => {
            assert(old(out)@ + no_text(n) =~= old(out)@);
        },
    }
}

pub open spec fn csv_row(l: DiffLine, sep: char) -> Seq<char> {
    status_name(l.status) + seq![sep] + no_text(l.left_line_no) + seq![sep] + no_text(l.right_line_no) + seq![sep]
        + csv_quoted(l.left_text@) + seq![sep] + csv_quoted(l.right_text@) + seq!['\n']
}

pub open spec fn csv_rows(ls: Seq<DiffLine>, sep: char) -> Seq<char>
    decreases ls.len(),
{
    if ls.len() == 0 {
        Seq::empty()
    } else {
        csv_rows(ls.drop_last(), sep) + csv_row(ls.last(), sep)
    }
}

pub open spec fn csv_header(sep: char) -> Seq<char> {
    "Status"@ + seq![sep] + "Left Line"@ + seq![sep] + "Right Line"@ + seq![sep] + "Left Text"@ + seq![sep] + "Right Text\n"@
}

fn push_csv_row(out: &mut String, l: &DiffLine, sep: char)
    ensures
        final(out)@ == old(out)@ + csv_row(*l, sep),
{
    let ghost before = out@;
    push_str(out, status_str(l.status));
    push_char(out, sep);
    push_no(out, l.left_line_no);
    push_char(out, sep);
    push_no(out, l.right_line_no);
    push_char(out, sep);
    push_csv_quoted(out, l.left_text.as_str());
    push_char(out, sep);
    push_csv_quoted(out, l.right_text.as_str());
    push_char(out, '\n');
    assert(out@ =~= before + csv_row(*l, sep));
}

/// Exports the rows of a diff as CSV (or TSV with a tab separator); the
/// titles are not used.
pub fn export_csv(result: &DiffResult, left_title: &str, right_title: &str, sep: char) -> (out: String)
    ensures
        out@ == csv_header(sep) + csv_rows(result.lines@, sep),
{
    let mut out = String::new();
    push_str(&mut out, "Status");
    push_char(&mut out, sep);
    push_str(&mut out, "Left Line");
    push_char(&mut out, sep);
    push_str(&mut out, "Right Line");
    push_char(&mut out, sep);
    push_str(&mut out, "Left Text");
    push_char(&mut out, sep);
    push_str(&mut out, "Right Text\n");
    let ghost head = out@;
    assert(head =~= csv_header(sep));
    let lines = &result.lines;
    let mut i: usize = 0;
    while i < lines.len()
        invariant
            i <= lines@.len(),
            head == csv_header(sep),
            out@ == head + csv_rows(lines@.take(i as int), sep),
        decreases lines@.len() - i,
    {
        let l = &lines[i];
        push_csv_row(&mut out, l, sep);
        assert(lines@.take(i + 1).drop_last() =~= lines@.take(i as int));
        i = i + 1;
    }
    assert(lines@.take(lines@.len() as int) =~= lines@);
    out
}

pub open spec fn folder_status_text(s: FileCompareStatus) -> Seq<char> {
    match s {
        FileCompareStatus::Identical => "Identical"@,
        FileCompareStatus::Different => "Different"@,
        FileCompareStatus::LeftOnly => "Left only"@,
        FileCompareStatus::RightOnly => "Right only"@,
    }
}

pub open spec fn folder_status_color(s: FileCompareStatus) -> Seq<char> {
    match s {
        FileCompareStatus::Identical => "#888"@,
        FileCompareStatus::Different => "#b08800"@,
        FileCompareStatus::LeftOnly => "#cb2431"@,
        FileCompareStatus::RightOnly => "#22863a"@,
    }
}

pub open spec fn opt_text(o: Option<String>) -> Seq<char> {
    match o {
        Some(s) => s@,
        None => Seq::empty(),
    }
}

pub open spec fn folder_row(item: FolderItem) -> Seq<char> {
    "<tr><td>"@ + escaped(item.relative_path@, Escape::Html) + "</td><td style=\"color:"@ + folder_status_color(item.status)
        + "\">"@ + folder_status_text(item.status) + "</td><td>"@ + opt_text(item.left_modified) + "</td><td>"@
        + opt_text(item.right_modified) + "</td></tr>\n"@
}

pub open spec fn folder_rows(items: Seq<FolderItem>) -> Seq<char>
    decreases items.len(),
{
    if items.len() == 0 {
        Seq::empty()
    } else {
        folder_rows(items.drop_last()) + folder_row(items.last())
    }
}

pub open spec fn folder_html_head() -> Seq<char> {
    "<!DOCTYPE html>\n<html><head><meta charset=\"utf-8\"><title>Folder Compare</title>\n<style>body{font-family:monospace;font-size:13px} table{border-collapse:collapse;width:100%} th,td{border:1px solid #ddd;padding:4px 8px} th{background:#f0f0f0}</style>\n</head><body>\n<h2>Folder Compare: "@
}

pub open spec fn folder_html_mid() -> Seq<char> {
    "</h2>\n<table><tr><th>Path</th><th>Status</th><th>Left Modified</th><th>Right Modified</th></tr>\n"@
}

/// An HTML report of a folder comparison.
pub open spec fn folder_html(items: Seq<FolderItem>, lt: Seq<char>, rt: Seq<char>) -> Seq<char> {
    folder_html_head() + escaped(lt, Escape::Html) + " &#x2194; "@ + escaped(rt, Escape::Html) + folder_html_mid()
        + folder_rows(items) + "\n</table></body></html>"@
}

fn folder_status_strs(s: FileCompareStatus) -> (r: (&'static str, &'static str))
    ensures
        r.0@ == folder_status_text(s),
        r.1@ == folder_status_color(s),
{
    match s {
        FileCompareStatus::Identical => ("Identical", "#888"),
        FileCompareStatus::Different => ("Different", "#b08800"),
        FileCompareStatus::LeftOnly => ("Left only", "#cb2431"),
        FileCompareStatus::RightOnly => ("Right only", "#22863a"),
    }
}

fn push_opt(out: &mut String, o: &Option<String>)
    ensures
        final(out)@ == old(out)@ + opt_text(*o),
{
    match o {
        Some(s) => push_str(out, s.as_str()),
        None => {
            assert(old(out)@ + opt_text(*o) =~= old(out)@);
        },
    }
}

/// Exports a folder comparison as an HTML page.
pub fn export_folder_html(items: &Vec<FolderItem>, left_title: &str, right_title: &str) -> (out: String)
    ensures
        out@ == folder_html(items@, left_title@, right_title@),
{
    let mut rows = String::new();
    let mut i: usize = 0;
    while i < items.len()
        invariant
            i <= items@.len(),
            rows@ == folder_rows(items@.take(i as int)),
        decreases items@.len() - i,
    {
        let item = &items[i];
        let (text, color) = folder_status_strs(item.status);
        let ghost before = rows@;
        push_str(&mut rows, "<tr><td>");
        push_escaped(&mut rows, item.relative_path.as_str(), Escape::Html);
        push_str(&mut rows, "</td><td style=\"color:");
        push_str(&mut rows, color);
        push_str(&mut rows, "\">");
        push_str(&mut rows, text);
        push_str(&mut rows, "</td><td>");
        push_opt(&mut rows, &item.left_modified);
        push_str(&mut rows, "</td><td>");
        push_opt(&mut rows, &item.right_modified);
        push_str(&mut rows, "</td></tr>\n");
        assert(items@.take(i + 1).drop_last() =~= items@.take(i as int));
        assert(rows@ =~= before + folder_row(*item));
        i = i + 1;
    }
    assert(items@.take(items@.len() as int) =~= items@);
    let mut out = String::new();
    push_str(
        &mut out,
        "<!DOCTYPE html>\n<html><head><meta charset=\"utf-8\"><title>Folder Compare</title>\n<style>body{font-family:monospace;font-size:13px} table{border-collapse:collapse;width:100%} th,td{border:1px solid #ddd;padding:4px 8px} th{background:#f0f0f0}</style>\n</head><body>\n<h2>Folder Compare: ",
    );
    push_escaped(&mut out, left_title, Escape::Html);
    push_str(&mut out, " &#x2194; ");
    push_escaped(&mut out, right_title, Escape::Html);
    push_str(&mut out, "</h2>\n<table><tr><th>Path</th><th>Status</th><th>Left Modified</th><th>Right Modified</th></tr>\n");
    push_str(&mut out, rows.as_str());
    push_str(&mut out, "\n</table></body></html>");
    assert(out@ =~= folder_html(items@, left_title@, right_title@));
    out
}

} // verus!

verus! {

pub const CSS: &'static str = "
body {
    font-family: -apple-system, BlinkMacSystemFont, \"Segoe UI\", sans-serif;
    margin: 0; padding: 20px;
    background: #f5f5f5;
}
.header { margin-bottom: 20px; }
.header h1 { margin: 0; font-size: 24px; }
.summary { color: #666; margin: 4px 0; }
table {
    width: 100%; border-collapse: collapse;
    font-family: \"SF Mono\", \"Menlo\", \"Monaco\", monospace;
    font-size: 13px; background: white;
    border: 1px solid #ddd;
}
thead { background: #f0f0f0; }
th { padding: 6px 8px; text-align: left; border: 1px solid #ddd; font-weight: 600; }
td { padding: 2px 8px; border: 1px solid #eee; white-space: pre; vertical-align: top; }
.line-no { width: 40px; color: #999; text-align: right; user-select: none; }
.content { min-width: 200px; }
tr.added { background: #e6ffec; }
tr.removed { background: #ffebe9; }
tr.modified { background: #fff8c5; }
tr.moved { background: #e0e8ff; }
.comment-row td { background: #fffbe6; color: #856404; font-style: italic; padding: 4px 8px; border: 1px solid #ffd700; }
.footer { margin-top: 20px; color: #999; font-size: 12px; }
@media print {
    body { background: white; padding: 0; }
    .header h1 { font-size: 16px; }
}
";

pub open spec fn row_class(s: LineStatus) -> Seq<char> {
    match s {
        LineStatus::Equal => ""@,
        LineStatus::Added => "added"@,
        LineStatus::Removed => "removed"@,
        LineStatus::Modified => "modified"@,
        LineStatus::Moved => "moved"@,
    }
}

/// Each HTML row's class names its status: for every status but Equal it is
/// the status's name (as the CSV and Excel reports write it) in lower case,
/// so an added row has class "added" and a removed row class "removed";
/// equal rows have no class; different statuses never share a class.
pub proof fn lemma_row_class_names_status(s: LineStatus, t: LineStatus)
    ensures
        s != LineStatus::Equal ==> row_class(s) == ascii_lowered(status_name(s)),
        s == LineStatus::Equal ==> row_class(s).len() == 0,
        s != t ==> row_class(s) != row_class(t),
{
    reveal_strlit("");
    reveal_strlit("added");
    reveal_strlit("removed");
    reveal_strlit("modified");
    reveal_strlit("moved");
    reveal_strlit("Added");
    reveal_strlit("Removed");
    reveal_strlit("Modified");
    reveal_strlit("Moved");
    assert(ascii_lowered("Added"@) =~= "added"@);
    assert(ascii_lowered("Removed"@) =~= "removed"@);
    assert(ascii_lowered("Modified"@) =~= "modified"@);
    assert(ascii_lowered("Moved"@) =~= "moved"@);
    assert("added"@ != "removed"@) by { assert("added"@.len() != "removed"@.len()); }
    assert("added"@ != "modified"@) by { assert("added"@.len() != "modified"@.len()); }
    assert("added"@ != "moved"@) by { assert("added"@[1] != "moved"@[1]); }
    assert("removed"@ != "modified"@) by { assert("removed"@.len() != "modified"@.len()); }
    assert("removed"@ != "moved"@) by { assert("removed"@.len() != "moved"@.len()); }
    assert("modified"@ != "moved"@) by { assert("modified"@.len() != "moved"@.len()); }
}

fn row_class_str(s: LineStatus) -> (r: &'static str)
    ensures
        r@ == row_class(s),
{
    match s {
        LineStatus::Equal => "",
        LineStatus::Added => "added",
        LineStatus::Removed => "removed",
        LineStatus::Modified => "modified",
        LineStatus::Moved => "moved",
    }
}

pub open spec fn html_row(l: DiffLine) -> Seq<char> {
    "<tr class=\""@ + row_class(l.status) + "\">\n"@ + "<td class=\"line-no\">"@ + no_text(l.left_line_no) + "</td>"@
        + "<td class=\"content\">"@ + escaped(l.left_text@, Escape::Html) + "</td>\n"@ + "<td class=\"line-no\">"@
        + no_text(l.right_line_no) + "</td>"@ + "<td class=\"content\">"@ + escaped(l.right_text@, Escape::Html)
        + "</td>\n"@ + "</tr>\n"@
}

/// The comment row of diff block `k`, when it has a non-empty comment.
pub open spec fn comment_row(comments: Map<usize, String>, k: nat) -> Seq<char> {
    if k <= usize::MAX && comments.dom().contains(k as usize) && comments[k as usize]@.len() > 0 {
        "<tr class=\"comment-row\"><td colspan=\"4\">\u{1F4AC} "@ + escaped(comments[k as usize]@, Escape::Html) + "</td></tr>\n"@
    } else {
        Seq::empty()
    }
}

proof fn lemma_runs_positive(st: Seq<LineStatus>, i: int)
    requires
        0 <= i < st.len(),
        st[i] != LineStatus::Equal,
    ensures
        runs_before(st, i + 1) >= 1,
    decreases i,
{
    if i > 0 && st[i - 1] != LineStatus::Equal {
        lemma_runs_positive(st, i - 1);
    }
}

/// Row `i` is the last row of a diff block (a run of changed rows).
pub open spec fn ends_block(lines: Seq<DiffLine>, i: int) -> bool {
    lines[i].status != LineStatus::Equal && (i + 1 == lines.len() || lines[i + 1].status == LineStatus::Equal)
}

/// The table rows of the first `n` diff rows; the last row of each diff
/// block is followed by that block's comment, if any (blocks counted from 0).
pub open spec fn html_body(lines: Seq<DiffLine>, comments: Map<usize, String>, n: int) -> Seq<char>
    decreases n,
{
    if n <= 0 {
        Seq::empty()
    } else {
        let l = lines[n - 1];
        html_body(lines, comments, n - 1) + html_row(l) + if ends_block(lines, n - 1) {
            comment_row(comments, (runs_before(statuses(lines), n) - 1) as nat)
        } else {
            Seq::empty()
        }
    }
}

/// The report's head: page head, style, title, summary and column titles.
pub open spec fn html_head(r: DiffResult, lt: Seq<char>, rt: Seq<char>) -> Seq<char> {
    "<!DOCTYPE html>\n<html>\n<head>\n"@ + "<meta charset=\"utf-8\">\n"@ + "<title>WinXMerge - Diff Report</title>\n"@
        + "<style>\n"@ + CSS@ + "</style>\n"@ + "</head>\n<body>\n"@ + "<div class=\"header\">\n"@
        + "<h1>WinXMerge - Diff Report</h1>\n"@ + "<p class=\"summary\">"@ + dec(r.diff_count as nat)
        + " differences found</p>\n"@ + "</div>\n"@ + "<table>\n<thead>\n<tr>\n"@
        + "<th class=\"line-no\">#</th><th class=\"content\">"@ + escaped(lt, Escape::Html) + "</th>\n"@
        + "<th class=\"line-no\">#</th><th class=\"content\">"@ + escaped(rt, Escape::Html) + "</th>\n"@
        + "</tr>\n</thead>\n<tbody>\n"@
}

/// The report up to (not including) its closing `</body>`.
pub open spec fn html_prefix(r: DiffResult, lt: Seq<char>, rt: Seq<char>, comments: Map<usize, String>) -> Seq<char> {
    html_head(r, lt, rt) + html_body(r.lines@, comments, r.lines@.len() as int)
        + "</tbody>\n</table>\n"@ + "<div class=\"footer\">Generated by WinXMerge</div>\n"@
}

pub open spec fn print_script() -> Seq<char> {
    "<script>window.onload=function(){window.print();}</script>\n"@
}

fn push_html_row(out: &mut String, l: &DiffLine)
    ensures
        final(out)@ == old(out)@ + html_row(*l),
{
    let ghost before = out@;
    push_str(out, "<tr class=\"");
    push_str(out, row_class_str(l.status));
    push_str(out, "\">\n");
    push_str(out, "<td class=\"line-no\">");
    push_no(out, l.left_line_no);
    push_str(out, "</td>");
    push_str(out, "<td class=\"content\">");
    push_escaped(out, l.left_text.as_str(), Escape::Html);
    push_str(out, "</td>\n");
    push_str(out, "<td class=\"line-no\">");
    push_no(out, l.right_line_no);
    push_str(out, "</td>");
    push_str(out, "<td class=\"content\">");
    push_escaped(out, l.right_text.as_str(), Escape::Html);
    push_str(out, "</td>\n");
    push_str(out, "</tr>\n");
    assert(out@ =~= before + html_row(*l));
}

fn push_comment_row(out: &mut String, comments: &std::collections::HashMap<usize, String>, k: usize)
    ensures
        final(out)@ == old(out)@ + comment_row(comments@, k as nat),
{
    broadcast use vstd::std_specs::hash::group_hash_axioms;
    let ghost before = out@;
    match comments.get(&k) {
        Some(c) => {
            if !c.as_str().is_empty() {
                push_str(out, "<tr class=\"comment-row\"><td colspan=\"4\">\u{1F4AC} ");
                push_escaped(out, c.as_str(), Escape::Html);
                push_str(out, "</td></tr>\n");
                assert(out@ =~= before + comment_row(comments@, k as nat));
            } else {
                assert(comment_row(comments@, k as nat) =~= Seq::<char>::empty());
                assert(out@ =~= before + comment_row(comments@, k as nat));
            }
        },
        None => {
            assert(out@ =~= before + comment_row(comments@, k as nat));
        },
    }
}

fn push_html_head(out: &mut String, diff_result: &DiffResult, left_title: &str, right_title: &str)
    ensures
        final(out)@ == old(out)@ + html_head(*diff_result, left_title@, right_title@),
{
    let ghost start = out@;
    push_str(out, "<!DOCTYPE html>\n<html>\n<head>\n");
    push_str(out, "<meta charset=\"utf-8\">\n");
    push_str(out, "<title>WinXMerge - Diff Report</title>\n");
    push_str(out, "<style>\n");
    push_str(out, CSS);
    push_str(out, "</style>\n");
    push_str(out, "</head>\n<body>\n");
    push_str(out, "<div class=\"header\">\n");
    push_str(out, "<h1>WinXMerge - Diff Report</h1>\n");
    push_str(out, "<p class=\"summary\">");
    push_dec(out, diff_result.diff_count as u64);
    push_str(out, " differences found</p>\n");
    push_str(out, "</div>\n");
    push_str(out, "<table>\n<thead>\n<tr>\n");
    push_str(out, "<th class=\"line-no\">#</th><th class=\"content\">");
    push_escaped(out, left_title, Escape::Html);
    push_str(out, "</th>\n");
    push_str(out, "<th class=\"line-no\">#</th><th class=\"content\">");
    push_escaped(out, right_title, Escape::Html);
    push_str(out, "</th>\n");
    push_str(out, "</tr>\n</thead>\n<tbody>\n");
    assert(out@ =~= start + html_head(*diff_result, left_title@, right_title@));
}

fn push_html_body(out: &mut String, lines: &Vec<DiffLine>, comments: &std::collections::HashMap<usize, String>)
    ensures
        final(out)@ == old(out)@ + html_body(lines@, comments@, lines@.len() as int),
{
    let ghost head = out@;
    let ghost st = statuses(lines@);
    let mut runs: usize = 0;
    let mut i: usize = 0;
    while i < lines.len()
        invariant
            i <= lines@.len(),
            st == statuses(lines@),
            runs == runs_before(st, i as int),
            runs <= i,
            out@ == head + html_body(lines@, comments@, i as int),
        decreases lines@.len() - i,
    {
        let l = &lines[i];
        assert(st[i as int] == l.status);
        if i > 0 {
            assert(st[i - 1] == lines@[i - 1].status);
        }
        if l.status != LineStatus::Equal && (i == 0 || lines[i - 1].status == LineStatus::Equal) {
            runs = runs + 1;
        }
        push_html_row(out, l);
        if l.status != LineStatus::Equal && (i + 1 == lines.len() || lines[i + 1].status == LineStatus::Equal) {
            proof {
                lemma_runs_positive(st, i as int);
            }
            push_comment_row(out, comments, runs - 1);
        }
        assert(out@ =~= head + html_body(lines@, comments@, i + 1));
        i = i + 1;
    }
}

fn push_html_prefix(
    out: &mut String,
    diff_result: &DiffResult,
    left_title: &str,
    right_title: &str,
    comments: &std::collections::HashMap<usize, String>,
)
    ensures
        final(out)@ == old(out)@ + html_prefix(*diff_result, left_title@, right_title@, comments@),
{
    let ghost start = out@;
    push_html_head(out, diff_result, left_title, right_title);
    push_html_body(out, &diff_result.lines, comments);
    push_str(out, "</tbody>\n</table>\n");
    push_str(out, "<div class=\"footer\">Generated by WinXMerge</div>\n");
    assert(out@ =~= start + html_prefix(*diff_result, left_title@, right_title@, comments@));
}

/// Exports a diff as an HTML report; the last row of the `k`-th diff block
/// (run of changed rows) is followed by the comment stored under `k`, when
/// there is a non-empty one.
pub fn export_html(
    diff_result: &DiffResult,
    left_title: &str,
    right_title: &str,
    comments: &std::collections::HashMap<usize, String>,
) -> (html: String)
    ensures
        html@ == html_prefix(*diff_result, left_title@, right_title@, comments@) + "</body>\n</html>"@,
{
    let mut html = String::new();
    push_html_prefix(&mut html, diff_result, left_title, right_title, comments);
    push_str(&mut html, "</body>\n</html>");
    html
}

/// The HTML report with a script that opens the print dialog, placed just
/// before the closing `</body>`.
pub fn export_html_for_print(
    diff_result: &DiffResult,
    left_title: &str,
    right_title: &str,
    comments: &std::collections::HashMap<usize, String>,
) -> (html: String)
    ensures
        html@ == html_prefix(*diff_result, left_title@, right_title@, comments@) + print_script() + "</body>\n</html>"@,
{
    let mut html = String::new();
    push_html_prefix(&mut html, diff_result, left_title, right_title, comments);
    push_str(&mut html, "<script>window.onload=function(){window.print();}</script>\n");
    push_str(&mut html, "</body>\n</html>");
    html
}

} // verus!

verus! {

/// Lines of context around a change in a unified diff.
pub const CONTEXT_LINES: usize = 3;

pub open spec fn is_change(lines: Seq<DiffLine>, j: int) -> bool {
    lines[j].status != LineStatus::Equal
}

/// The first changed row in `[from, to)`, if any.
pub open spec fn next_change(lines: Seq<DiffLine>, from: int, to: int) -> Option<int>
    decreases to - from,
{
    if from >= to {
        None
    } else if is_change(lines, from) {
        Some(from)
    } else {
        next_change(lines, from + 1, to)
    }
}

pub proof fn lemma_next_change(lines: Seq<DiffLine>, from: int, to: int)
    ensures
        next_change(lines, from, to) matches Some(j) ==> from <= j < to && is_change(lines, j),
        next_change(lines, from, to) is None ==> forall|j: int| from <= j < to ==> !is_change(lines, j),
    decreases to - from,
{
    if from < to && !is_change(lines, from) {
        lemma_next_change(lines, from + 1, to);
    }
}

pub open spec fn min_i(a: int, b: int) -> int {
    if a < b { a } else { b }
}

/// Where a hunk's changes end, scanning from row `e`: changed rows extend
/// it, and an equal row does too when another change follows within the
/// next `2 * CONTEXT_LINES + 1` rows.
pub open spec fn changes_end(lines: Seq<DiffLine>, e: int) -> int
    decreases lines.len() - e,
{
    if e >= lines.len() || e < 0 {
        e
    } else if is_change(lines, e) {
        changes_end(lines, e + 1)
    } else {
        match next_change(lines, e, min_i(e + 2 * CONTEXT_LINES + 1, lines.len() as int)) {
            Some(nc) => {
                proof {
                    lemma_next_change(lines, e, min_i(e + 2 * CONTEXT_LINES + 1, lines.len() as int));
                }
                changes_end(lines, nc + 1)
            },
            None => e,
        }
    }
}

pub proof fn lemma_changes_end(lines: Seq<DiffLine>, e: int)
    requires
        0 <= e,
    ensures
        e <= changes_end(lines, e),
        e < lines.len() ==> changes_end(lines, e) <= lines.len(),
        e < lines.len() && is_change(lines, e) ==> e < changes_end(lines, e),
    decreases lines.len() - e,
{
    if e < lines.len() {
        if is_change(lines, e) {
            lemma_changes_end(lines, e + 1);
        } else {
            let to = min_i(e + 2 * CONTEXT_LINES + 1, lines.len() as int);
            lemma_next_change(lines, e, to);
            match next_change(lines, e, to) {
                Some(nc) => lemma_changes_end(lines, nc + 1),
                None => {},
            }
        }
    }
}

/// The first line number of one side in rows `[a, b)` (1 when none) and how
/// many rows of that side there are.
pub open spec fn side_span(lines: Seq<DiffLine>, a: int, b: int, left: bool) -> (u32, nat)
    decreases b - a,
{
    if a >= b {
        (1, 0)
    } else {
        let rest = side_span(lines, a + 1, b, left);
        let no = if left { lines[a].left_line_no } else { lines[a].right_line_no };
        match no {
            Some(n) => (n, rest.1 + 1),
            None => rest,
        }
    }
}

/// How one row shows in a hunk: an equal row as context with a space;
/// any other row as `-` and its left text where it has a left line, then
/// `+` and its right text where it has a right line. So every line counted
/// in the `@@` header shows exactly once.
pub open spec fn hunk_line(l: DiffLine) -> Seq<char> {
    if l.status == LineStatus::Equal {
        seq![' '] + l.left_text@ + seq!['\n']
    } else {
        (if l.left_line_no is Some { seq!['-'] + l.left_text@ + seq!['\n'] } else { Seq::empty() })
            + (if l.right_line_no is Some { seq!['+'] + l.right_text@ + seq!['\n'] } else { Seq::empty() })
    }
}

pub open spec fn hunk_lines(lines: Seq<DiffLine>, a: int, b: int) -> Seq<char>
    decreases b - a,
{
    if a >= b {
        Seq::empty()
    } else {
        hunk_lines(lines, a, b - 1) + hunk_line(lines[b - 1])
    }
}

/// One hunk over rows `[a, b)`: its `@@ -l,n +r,m @@` header, then its rows.
pub open spec fn hunk_text(lines: Seq<DiffLine>, a: int, b: int) -> Seq<char> {
    let l = side_span(lines, a, b, true);
    let r = side_span(lines, a, b, false);
    "@@ -"@ + dec(l.0 as nat) + seq![','] + dec(l.1) + " +"@ + dec(r.0 as nat) + seq![','] + dec(r.1) + " @@\n"@
        + hunk_lines(lines, a, b)
}

/// The hunks from row `i` on: each starts `CONTEXT_LINES` rows before a
/// change and ends `CONTEXT_LINES` rows after its changes end.
pub open spec fn hunks_from(lines: Seq<DiffLine>, i: int) -> Seq<char>
    decreases lines.len() - i,
{
    if i >= lines.len() || i < 0 {
        Seq::empty()
    } else if !is_change(lines, i) {
        hunks_from(lines, i + 1)
    } else {
        let a = if i >= CONTEXT_LINES { i - CONTEXT_LINES } else { 0 };
        let b = min_i(changes_end(lines, i) + CONTEXT_LINES, lines.len() as int);
        proof {
            lemma_changes_end(lines, i);
        }
        hunk_text(lines, a, b) + hunks_from(lines, b)
    }
}

/// A unified diff: the two titles, then the hunks.
pub open spec fn unified_diff(lines: Seq<DiffLine>, lt: Seq<char>, rt: Seq<char>) -> Seq<char> {
    "--- "@ + lt + "\n+++ "@ + rt + seq!['\n'] + hunks_from(lines, 0)
}

fn find_changes_end(lines: &Vec<DiffLine>, start: usize) -> (e: usize)
    requires
        start < lines@.len(),
    ensures
        e == changes_end(lines@, start as int),
{
    proof { lemma_changes_end(lines@, start as int); }
    let mut e = start;
    while e < lines.len()
        invariant
            start <= e <= lines@.len(),
            changes_end(lines@, start as int) == changes_end(lines@, e as int),
        ensures
            e == changes_end(lines@, start as int),
        decreases lines@.len() - e,
    {
        if lines[e].status != LineStatus::Equal {
            e = e + 1;
        } else {
            let look = if lines.len() - e > 2 * CONTEXT_LINES + 1 { e + 2 * CONTEXT_LINES + 1 } else { lines.len() };
            assert(look as int == min_i(e + 2 * CONTEXT_LINES + 1, lines@.len() as int));
            let mut j = e;
            while j < look && lines[j].status == LineStatus::Equal
                invariant
                    e <= j <= look,
                    look <= lines@.len(),
                    next_change(lines@, e as int, look as int) == next_change(lines@, j as int, look as int),
                decreases look - j,
            {
                j = j + 1;
            }
            proof { lemma_next_change(lines@, e as int, look as int); }
            if j < look {
                e = j + 1;
            } else {
                break;
            }
        }
    }
    e
}

fn side_start_count(lines: &Vec<DiffLine>, a: usize, b: usize, left: bool) -> (r: (u32, u32))
    requires
        a <= b <= lines@.len(),
        lines@.len() < u32::MAX,
    ensures
        r.0 == side_span(lines@, a as int, b as int, left).0,
        r.1 == side_span(lines@, a as int, b as int, left).1,
{
    let mut start: u32 = 1;
    let mut count: u32 = 0;
    let mut k = b;
    while k > a
        invariant
            a <= k <= b,
            b <= lines@.len(),
            lines@.len() < u32::MAX,
            count <= b - k,
            (start, count as nat) == side_span(lines@, k as int, b as int, left),
        decreases k,
    {
        k = k - 1;
        let no = if left { lines[k].left_line_no } else { lines[k].right_line_no };
        match no {
            Some(n) => {
                start = n;
                count = count + 1;
            },
            None => {},
        }
    }
    (start, count)
}

fn push_hunk_line(out: &mut String, l: &DiffLine)
    ensures
        final(out)@ == old(out)@ + hunk_line(*l),
{
    let ghost before = out@;
    if l.status == LineStatus::Equal {
        push_char(out, ' ');
        push_str(out, l.left_text.as_str());
        push_char(out, '\n');
    } else {
        if l.left_line_no.is_some() {
            push_char(out, '-');
            push_str(out, l.left_text.as_str());
            push_char(out, '\n');
        }
        if l.right_line_no.is_some() {
            push_char(out, '+');
            push_str(out, l.right_text.as_str());
            push_char(out, '\n');
        }
    }
    assert(out@ =~= before + hunk_line(*l));
}

fn push_hunk(out: &mut String, lines: &Vec<DiffLine>, a: usize, b: usize)
    requires
        a <= b <= lines@.len(),
        lines@.len() < u32::MAX,
    ensures
        final(out)@ == old(out)@ + hunk_text(lines@, a as int, b as int),
{
    let ghost start = out@;
    let (ls, lc) = side_start_count(lines, a, b, true);
    let (rs, rc) = side_start_count(lines, a, b, false);
    push_str(out, "@@ -");
    push_dec(out, ls as u64);
    push_char(out, ',');
    push_dec(out, lc as u64);
    push_str(out, " +");
    push_dec(out, rs as u64);
    push_char(out, ',');
    push_dec(out, rc as u64);
    push_str(out, " @@\n");
    let ghost head = out@;
    let mut k = a;
    while k < b
        invariant
            a <= k <= b,
            b <= lines@.len(),
            out@ == head + hunk_lines(lines@, a as int, k as int),
        decreases b - k,
    {
        push_hunk_line(out, &lines[k]);
        k = k + 1;
    }
    assert(out@ =~= start + hunk_text(lines@, a as int, b as int));
}

/// Exports a diff as a unified diff (patch) with three lines of context.
pub fn export_unified_diff(diff_result: &DiffResult, left_title: &str, right_title: &str) -> (out: String)
    requires
        diff_result.lines@.len() < u32::MAX,
    ensures
        out@ == unified_diff(diff_result.lines@, left_title@, right_title@),
{
    let mut out = String::new();
    push_str(&mut out, "--- ");
    push_str(&mut out, left_title);
    push_str(&mut out, "\n+++ ");
    push_str(&mut out, right_title);
    push_char(&mut out, '\n');
    let ghost head = out@;
    let lines = &diff_result.lines;
    let mut i: usize = 0;
    while i < lines.len()
        invariant
            i <= lines@.len(),
            lines@.len() < u32::MAX,
            out@ + hunks_from(lines@, i as int) == head + hunks_from(lines@, 0),
        decreases lines@.len() - i,
    {
        if lines[i].status == LineStatus::Equal {
            i = i + 1;
        } else {
            let a = if i >= CONTEXT_LINES { i - CONTEXT_LINES } else { 0 };
            let e = find_changes_end(lines, i);
            proof { lemma_changes_end(lines@, i as int); }
            let b = if lines.len() - e > CONTEXT_LINES { e + CONTEXT_LINES } else { lines.len() };
            let ghost before = out@;
            push_hunk(&mut out, lines, a, b);
            assert(hunks_from(lines@, i as int) == hunk_text(lines@, a as int, b as int) + hunks_from(lines@, b as int));
            assert(before + hunks_from(lines@, i as int) =~= out@ + hunks_from(lines@, b as int));
            i = b;
        }
    }
    assert(hunks_from(lines@, i as int) =~= Seq::<char>::empty());
    assert(out@ =~= out@ + hunks_from(lines@, i as int));
    out
}

} // verus!

verus! {

/// The fill of a report cell.
#[derive(Debug, Clone, Copy, PartialEq, Eq, Structural)]
pub enum XlsxStyle {
    Header,
    Added,
    Removed,
    Modified,
    Moved,
}

/// A value written to a report cell.
#[derive(Debug, Clone)]
pub enum XlsxValue {
    Text(String),
    Number(u32),
}

/// One cell of the Excel report: position, value and fill (`None` = plain).
#[derive(Debug, Clone)]
pub struct XlsxCell {
    pub row: u32,
    pub col: u16,
    pub value: XlsxValue,
    pub style: Option<XlsxStyle>,
}

/// A cell as plain values: row, column, text (or none for a number), number, fill.
pub type CellView = (nat, nat, Option<Seq<char>>, u32, Option<XlsxStyle>);

pub open spec fn cell_view(c: XlsxCell) -> CellView {
    match c.value {
        XlsxValue::Text(s) => (c.row as nat, c.col as nat, Some(s@), 0, c.style),
        XlsxValue::Number(n) => (c.row as nat, c.col as nat, None, n, c.style),
    }
}

pub open spec fn text_cell(row: nat, col: nat, s: Seq<char>, st: Option<XlsxStyle>) -> CellView {
    (row, col, Some(s), 0, st)
}

pub open spec fn number_cell(row: nat, col: nat, n: u32, st: Option<XlsxStyle>) -> CellView {
    (row, col, None, n, st)
}

/// The header row: Status, Left Line, left title, Right Line, right title, Comment.
pub open spec fn header_cells(lt: Seq<char>, rt: Seq<char>) -> Seq<CellView> {
    let h = Some(XlsxStyle::Header);
    seq![
        text_cell(0, 0, "Status"@, h),
        text_cell(0, 1, "Left Line"@, h),
        text_cell(0, 2, lt, h),
        text_cell(0, 3, "Right Line"@, h),
        text_cell(0, 4, rt, h),
        text_cell(0, 5, "Comment"@, h)
    ]
}

pub open spec fn style_of(s: LineStatus) -> Option<XlsxStyle> {
    match s {
        LineStatus::Equal => None,
        LineStatus::Added => Some(XlsxStyle::Added),
        LineStatus::Removed => Some(XlsxStyle::Removed),
        LineStatus::Modified => Some(XlsxStyle::Modified),
        LineStatus::Moved => Some(XlsxStyle::Moved),
    }
}

/// The comment of the `k`-th diff block, empty when it has none.
pub open spec fn comment_of(comments: Map<usize, String>, k: nat) -> Seq<char> {
    if k <= usize::MAX && comments.dom().contains(k as usize) { comments[k as usize]@ } else { Seq::empty() }
}

/// The cells of one diff row: status, line numbers where present, texts,
/// and, on the last row of diff block `k` (`with_comment`), the block's
/// comment when non-empty; filled by status.
pub open spec fn row_cells(l: DiffLine, row: nat, comments: Map<usize, String>, k: nat, with_comment: bool) -> Seq<CellView> {
    let st = style_of(l.status);
    seq![text_cell(row, 0, status_name(l.status), st)]
        + (match l.left_line_no { Some(n) => seq![number_cell(row, 1, n, st)], None => Seq::empty() })
        + seq![text_cell(row, 2, l.left_text@, st)]
        + (match l.right_line_no { Some(n) => seq![number_cell(row, 3, n, st)], None => Seq::empty() })
        + seq![text_cell(row, 4, l.right_text@, st)]
        + (if with_comment && comment_of(comments, k).len() > 0 {
            seq![text_cell(row, 5, comment_of(comments, k), st)]
        } else {
            Seq::empty()
        })
}

pub open spec fn body_cells(lines: Seq<DiffLine>, comments: Map<usize, String>, n: int) -> Seq<CellView>
    decreases n,
{
    if n <= 0 {
        Seq::empty()
    } else {
        body_cells(lines, comments, n - 1) + row_cells(
            lines[n - 1],
            n as nat,
            comments,
            (runs_before(statuses(lines), n) - 1) as nat,
            ends_block(lines, n - 1),
        )
    }
}

fn push_cell(cells: &mut Vec<XlsxCell>, row: u32, col: u16, value: XlsxValue, style: Option<XlsxStyle>)
    ensures
        final(cells)@ == old(cells)@.push(XlsxCell { row, col, value, style }),
{
    cells.push(XlsxCell { row, col, value, style });
}

pub open spec fn cell_views(cs: Seq<XlsxCell>) -> Seq<CellView> {
    cs.map_values(|c: XlsxCell| cell_view(c))
}

/// The cells of a row before its comment.
pub open spec fn line_cells(l: DiffLine, row: nat, st: Option<XlsxStyle>) -> Seq<CellView> {
    seq![text_cell(row, 0, status_name(l.status), st)]
        + (match l.left_line_no { Some(n) => seq![number_cell(row, 1, n, st)], None => Seq::empty() })
        + seq![text_cell(row, 2, l.left_text@, st)]
        + (match l.right_line_no { Some(n) => seq![number_cell(row, 3, n, st)], None => Seq::empty() })
        + seq![text_cell(row, 4, l.right_text@, st)]
}

/// The comment cell of a row, if any.
pub open spec fn comment_cells(row: nat, st: Option<XlsxStyle>, comments: Map<usize, String>, k: nat, with_comment: bool) -> Seq<CellView> {
    if with_comment && comment_of(comments, k).len() > 0 {
        seq![text_cell(row, 5, comment_of(comments, k), st)]
    } else {
        Seq::empty()
    }
}

fn push_line_cells(cells: &mut Vec<XlsxCell>, l: &DiffLine, row: u32, st: Option<XlsxStyle>)
    ensures
        cell_views(final(cells)@) == cell_views(old(cells)@) + line_cells(*l, row as nat, st),
{
    let ghost start = cell_views(cells@);
    push_cell(cells, row, 0, XlsxValue::Text(str_to_string(status_str(l.status))), st);
    let ghost c1 = cell_views(cells@);
    assert(c1 =~= start + seq![text_cell(row as nat, 0, status_name(l.status), st)]);
    if let Some(n) = l.left_line_no {
        push_cell(cells, row, 1, XlsxValue::Number(n), st);
    }
    let ghost c2 = cell_views(cells@);
    assert(c2 =~= c1 + match l.left_line_no { Some(n) => seq![number_cell(row as nat, 1, n, st)], None => Seq::empty() });
    push_cell(cells, row, 2, XlsxValue::Text(str_to_string(l.left_text.as_str())), st);
    let ghost c3 = cell_views(cells@);
    assert(c3 =~= c2 + seq![text_cell(row as nat, 2, l.left_text@, st)]);
    if let Some(n) = l.right_line_no {
        push_cell(cells, row, 3, XlsxValue::Number(n), st);
    }
    let ghost c4 = cell_views(cells@);
    assert(c4 =~= c3 + match l.right_line_no { Some(n) => seq![number_cell(row as nat, 3, n, st)], None => Seq::empty() });
    push_cell(cells, row, 4, XlsxValue::Text(str_to_string(l.right_text.as_str())), st);
    assert(cell_views(cells@) =~= c4 + seq![text_cell(row as nat, 4, l.right_text@, st)]);
    assert(cell_views(cells@) =~= start + line_cells(*l, row as nat, st));
}

fn push_comment_cell(
    cells: &mut Vec<XlsxCell>,
    row: u32,
    st: Option<XlsxStyle>,
    comments: &std::collections::HashMap<usize, String>,
    k: usize,
    with_comment: bool,
)
    ensures
        cell_views(final(cells)@) == cell_views(old(cells)@) + comment_cells(row as nat, st, comments@, k as nat, with_comment),
{
    broadcast use vstd::std_specs::hash::group_hash_axioms;
    let ghost start = cell_views(cells@);
    if with_comment {
        match comments.get(&k) {
            Some(c) => {
                if !c.as_str().is_empty() {
                    push_cell(cells, row, 5, XlsxValue::Text(str_to_string(c.as_str())), st);
                }
            },
            None => {},
        }
    }
    assert(cell_views(cells@) =~= start + comment_cells(row as nat, st, comments@, k as nat, with_comment));
}

fn push_row_cells(
    cells: &mut Vec<XlsxCell>,
    l: &DiffLine,
    row: u32,
    comments: &std::collections::HashMap<usize, String>,
    k: usize,
    with_comment: bool,
)
    ensures
        cell_views(final(cells)@) == cell_views(old(cells)@) + row_cells(*l, row as nat, comments@, k as nat, with_comment),
{
    let ghost start = cell_views(cells@);
    let st: Option<XlsxStyle> = match l.status {
        LineStatus::Equal => None,
        LineStatus::Added => Some(XlsxStyle::Added),
        LineStatus::Removed => Some(XlsxStyle::Removed),
        LineStatus::Modified => Some(XlsxStyle::Modified),
        LineStatus::Moved => Some(XlsxStyle::Moved),
    };
    push_line_cells(cells, l, row, st);
    push_comment_cell(cells, row, st, comments, k, with_comment);
    assert(row_cells(*l, row as nat, comments@, k as nat, with_comment) =~= line_cells(*l, row as nat, st) + comment_cells(row as nat, st, comments@, k as nat, with_comment));
    assert(cell_views(cells@) =~= start + row_cells(*l, row as nat, comments@, k as nat, with_comment));
}

/// The cells of the Excel report: the header row, then one row per diff row.
pub fn xlsx_cells(
    diff_result: &DiffResult,
    left_title: &str,
    right_title: &str,
    comments: &std::collections::HashMap<usize, String>,
) -> (cells: Vec<XlsxCell>)
    requires
        diff_result.lines@.len() < u32::MAX,
    ensures
        cell_views(cells@) == header_cells(left_title@, right_title@) + body_cells(
            diff_result.lines@,
            comments@,
            diff_result.lines@.len() as int,
        ),
{
    let mut cells: Vec<XlsxCell> = Vec::new();
    let h = Some(XlsxStyle::Header);
    push_cell(&mut cells, 0, 0, XlsxValue::Text(str_to_string("Status")), h);
    push_cell(&mut cells, 0, 1, XlsxValue::Text(str_to_string("Left Line")), h);
    push_cell(&mut cells, 0, 2, XlsxValue::Text(str_to_string(left_title)), h);
    push_cell(&mut cells, 0, 3, XlsxValue::Text(str_to_string("Right Line")), h);
    push_cell(&mut cells, 0, 4, XlsxValue::Text(str_to_string(right_title)), h);
    push_cell(&mut cells, 0, 5, XlsxValue::Text(str_to_string("Comment")), h);
    let ghost head = cell_views(cells@);
    assert(head =~= header_cells(left_title@, right_title@));
    let lines = &diff_result.lines;
    let ghost st = statuses(lines@);
    let mut runs: usize = 0;
    let mut i: usize = 0;
    while i < lines.len()
        invariant
            i <= lines@.len(),
            lines@.len() < u32::MAX,
            st == statuses(lines@),
            runs == runs_before(st, i as int),
            runs <= i,
            cell_views(cells@) == head + body_cells(lines@, comments@, i as int),
        decreases lines@.len() - i,
    {
        let l = &lines[i];
        assert(st[i as int] == l.status);
        if i > 0 {
            assert(st[i - 1] == lines@[i - 1].status);
        }
        if l.status != LineStatus::Equal && (i == 0 || lines[i - 1].status == LineStatus::Equal) {
            runs = runs + 1;
        }
        let last = l.status != LineStatus::Equal && (i + 1 == lines.len() || lines[i + 1].status == LineStatus::Equal);
        let k: usize = if last {
            proof {
                lemma_runs_positive(st, i as int);
            }
            runs - 1
        } else {
            0
        };
        push_row_cells(&mut cells, l, (i + 1) as u32, comments, k, last);
        assert(last ==> k == runs_before(st, i + 1) - 1);
        assert(cell_views(cells@) =~= head + body_cells(lines@, comments@, i + 1));
        i = i + 1;
    }
    cells
}

#[verifier::external_type_specification]
#[verifier::external_body]
pub struct ExWorkbook(rust_xlsxwriter::Workbook);

#[verifier::external_type_specification]
#[verifier::external_body]
pub struct ExFormat(rust_xlsxwriter::Format);

/// The cells of a workbook's first worksheet (empty when it has none), by
/// row and column: the text of a string cell (an empty text for a blank
/// cell), or no text and the number of a number cell. Cell formats are not
/// part of this view.
pub uninterp spec fn sheet_cells(wb: rust_xlsxwriter::Workbook) -> Map<(u32, u16), (Option<Seq<char>>, u32)>;

/// How many worksheets a workbook has.
pub uninterp spec fn sheet_count(wb: rust_xlsxwriter::Workbook) -> nat;

/// The first worksheet's name (empty when there is none).
pub uninterp spec fn sheet_name(wb: rust_xlsxwriter::Workbook) -> Seq<char>;

/// The cell at which the first worksheet's panes are frozen (row, column).
pub uninterp spec fn sheet_freeze(wb: rust_xlsxwriter::Workbook) -> (u32, u16);

/// The first worksheet's auto-filter range (first row, first column, last
/// row, last column), if it has one.
pub uninterp spec fn sheet_filter(wb: rust_xlsxwriter::Workbook) -> Option<(u32, u16, u32, u16)>;

/// Whether the workbook is plain: it holds no chartsheet, chart, table or
/// user-defined name (the things whose checks can make saving fail).
pub uninterp spec fn plain_workbook(wb: rust_xlsxwriter::Workbook) -> bool;

/// Whether the first worksheet holds a table (a table's own auto-filter
/// keeps a worksheet auto-filter from overlapping its header row).
pub uninterp spec fn sheet_has_tables(wb: rust_xlsxwriter::Workbook) -> bool;

/// The first row number past a worksheet's last row.
pub open spec fn xlsx_row_limit() -> int {
    1_048_576
}

/// The first column number past a worksheet's last column.
pub open spec fn xlsx_col_limit() -> int {
    16_384
}

/// The most UTF-16 code units a string cell holds.
pub open spec fn xlsx_max_string_units() -> int {
    32_767
}

/// The number of UTF-16 code units of a text.
pub open spec fn utf16_units(s: Seq<char>) -> nat
    decreases s.len(),
{
    if s.len() == 0 {
        0
    } else {
        utf16_units(s.drop_last()) + if (s.last() as u32) >= 0x10000 { 2nat } else { 1nat }
    }
}

/// Writing a string (with a format when `formatted`) succeeds on a sheet:
/// an empty text without a format is skipped, anything else needs a place
/// inside the sheet, and a non-empty text must fit in a cell.
pub open spec fn string_write_ok(row: u32, col: u16, t: Seq<char>, formatted: bool) -> bool {
    if t.len() == 0 && !formatted {
        true
    } else {
        &&& row < xlsx_row_limit()
        &&& col < xlsx_col_limit()
        &&& (t.len() == 0 || utf16_units(t) <= xlsx_max_string_units())
    }
}

/// The cells after a successful string write: an empty text leaves them
/// alone without a format and makes a blank cell with one; other texts
/// replace the cell.
pub open spec fn string_written(
    m: Map<(u32, u16), (Option<Seq<char>>, u32)>,
    row: u32,
    col: u16,
    t: Seq<char>,
    formatted: bool,
) -> Map<(u32, u16), (Option<Seq<char>>, u32)> {
    if t.len() == 0 && !formatted {
        m
    } else {
        m.insert((row, col), (Some(t), 0u32))
    }
}

/// A sheet without cells.
pub open spec fn no_cells() -> Map<(u32, u16), (Option<Seq<char>>, u32)> {
    Map::empty()
}

/// `Workbook::new` followed by `add_worksheet`: a workbook with one empty sheet.
#[verifier::external_body]
fn new_workbook() -> (wb: rust_xlsxwriter::Workbook)
    ensures
        sheet_count(wb) == 1,
        sheet_cells(wb) == no_cells(),
        !sheet_has_tables(wb),
        plain_workbook(wb),
        sheet_filter(wb) is None,
{
    let mut wb = rust_xlsxwriter::Workbook::new();
    wb.add_worksheet();
    wb
}

/// A character a sheet name may not hold.
pub open spec fn bad_name_char(c: char) -> bool {
    c == '*' || c == '?' || c == ':' || c == '[' || c == ']' || c == '\\' || c == '/'
}

/// No character of `s` is one a sheet name may not hold.
pub open spec fn no_bad_name_chars(s: Seq<char>) -> bool
    decreases s.len(),
{
    s.len() == 0 || (!bad_name_char(s.last()) && no_bad_name_chars(s.drop_last()))
}

/// A name `validate_sheetname` accepts: not blank, at most 31 UTF-16 units,
/// none of `* ? : [ ] \ /`, and no apostrophe first or last.
pub open spec fn sheet_name_ok(name: Seq<char>) -> bool {
    &&& name.len() > 0
    &&& utf16_units(name) <= 31
    &&& no_bad_name_chars(name)
    &&& name[0] != '\''
    &&& name.last() != '\''
}

/// `Worksheet::set_name` on the first sheet: fails without a sheet, and
/// otherwise succeeds exactly for a name that `validate_sheetname` accepts;
/// no sheet is added or removed and no cell changes.
#[verifier::external_body]
fn sheet_set_name(wb: &mut rust_xlsxwriter::Workbook, name: &str) -> (r: Result<(), String>)
    ensures
        sheet_count(*final(wb)) == sheet_count(*old(wb)),
        sheet_has_tables(*final(wb)) == sheet_has_tables(*old(wb)),
        plain_workbook(*final(wb)) == plain_workbook(*old(wb)),
        sheet_freeze(*final(wb)) == sheet_freeze(*old(wb)),
        sheet_filter(*final(wb)) == sheet_filter(*old(wb)),
        r is Ok ==> sheet_name(*final(wb)) == name@,
        r is Err ==> sheet_name(*final(wb)) == sheet_name(*old(wb)),
        sheet_cells(*final(wb)) == sheet_cells(*old(wb)),
        sheet_count(*old(wb)) == 0 ==> r is Err,
        sheet_count(*old(wb)) >= 1 ==> (r is Ok <==> sheet_name_ok(name@)),
{
    wb.worksheet_from_index(0).and_then(|s| s.set_name(name).map(|_| ())).map_err(|e| e.to_string())
}

/// `Format::new` with `set_background_color` of an RGB colour.
#[verifier::external_body]
fn fill_format(rgb: u32) -> rust_xlsxwriter::Format {
    rust_xlsxwriter::Format::new().set_background_color(rust_xlsxwriter::Color::RGB(rgb))
}

/// `Format::set_bold`.
#[verifier::external_body]
fn bold_format(f: rust_xlsxwriter::Format) -> rust_xlsxwriter::Format {
    f.set_bold()
}

/// Whether a fill is bold, and its background colour: the header is bold
/// on light grey, added rows green, removed red, modified yellow, moved blue.
pub open spec fn style_fill(style: XlsxStyle) -> (bool, u32) {
    match style {
        XlsxStyle::Header => (true, 0xF0F0F0u32),
        XlsxStyle::Added => (false, 0xE6FFECu32),
        XlsxStyle::Removed => (false, 0xFFEBE9u32),
        XlsxStyle::Modified => (false, 0xFFF8C5u32),
        XlsxStyle::Moved => (false, 0xE0E8FFu32),
    }
}

/// The boldness and colour of a fill (see `style_fill`).
pub fn fill_of(style: XlsxStyle) -> (r: (bool, u32))
    ensures
        r == style_fill(style),
{
    match style {
        XlsxStyle::Header => (true, 0xF0F0F0u32),
        XlsxStyle::Added => (false, 0xE6FFECu32),
        XlsxStyle::Removed => (false, 0xFFEBE9u32),
        XlsxStyle::Modified => (false, 0xFFF8C5u32),
        XlsxStyle::Moved => (false, 0xE0E8FFu32),
    }
}

/// The cell format of a fill: its background colour, bold for the header.
fn xlsx_format(style: XlsxStyle) -> rust_xlsxwriter::Format {
    let (bold, rgb) = fill_of(style);
    let f = fill_format(rgb);
    if bold { bold_format(f) } else { f }
}

/// `Worksheet::write_string` on the first sheet: fails without a sheet, for
/// a place outside the sheet or a text longer than a cell holds (leaving the
/// cells alone); an empty text is skipped; else the text replaces the cell.
#[verifier::external_body]
fn sheet_write_string(wb: &mut rust_xlsxwriter::Workbook, row: u32, col: u16, text: &str) -> (r: Result<(), String>)
    ensures
        sheet_count(*final(wb)) == sheet_count(*old(wb)),
        sheet_has_tables(*final(wb)) == sheet_has_tables(*old(wb)),
        plain_workbook(*final(wb)) == plain_workbook(*old(wb)),
        sheet_name(*final(wb)) == sheet_name(*old(wb)),
        sheet_freeze(*final(wb)) == sheet_freeze(*old(wb)),
        sheet_filter(*final(wb)) == sheet_filter(*old(wb)),
        sheet_count(*old(wb)) == 0 ==> r is Err,
        sheet_count(*old(wb)) >= 1 ==> (r is Ok <==> string_write_ok(row, col, text@, false)),
        r is Ok ==> sheet_cells(*final(wb)) == string_written(sheet_cells(*old(wb)), row, col, text@, false),
        r is Err ==> sheet_cells(*final(wb)) == sheet_cells(*old(wb)),
{
    wb.worksheet_from_index(0).and_then(|s| s.write_string(row, col, text).map(|_| ())).map_err(|e| e.to_string())
}

/// `Worksheet::write_string_with_format` on the first sheet: as
/// `sheet_write_string`, except that an empty text makes a blank cell
/// (which also needs a place inside the sheet).
#[verifier::external_body]
fn sheet_write_string_with_format(wb: &mut rust_xlsxwriter::Workbook, row: u32, col: u16, text: &str, f: &rust_xlsxwriter::Format) -> (r: Result<(), String>)
    ensures
        sheet_count(*final(wb)) == sheet_count(*old(wb)),
        sheet_has_tables(*final(wb)) == sheet_has_tables(*old(wb)),
        plain_workbook(*final(wb)) == plain_workbook(*old(wb)),
        sheet_name(*final(wb)) == sheet_name(*old(wb)),
        sheet_freeze(*final(wb)) == sheet_freeze(*old(wb)),
        sheet_filter(*final(wb)) == sheet_filter(*old(wb)),
        sheet_count(*old(wb)) == 0 ==> r is Err,
        sheet_count(*old(wb)) >= 1 ==> (r is Ok <==> string_write_ok(row, col, text@, true)),
        r is Ok ==> sheet_cells(*final(wb)) == string_written(sheet_cells(*old(wb)), row, col, text@, true),
        r is Err ==> sheet_cells(*final(wb)) == sheet_cells(*old(wb)),
{
    wb.worksheet_from_index(0).and_then(|s| s.write_string_with_format(row, col, text, f).map(|_| ())).map_err(|e| e.to_string())
}

/// `Worksheet::write_number` on the first sheet: fails without a sheet or
/// for a place outside it (leaving the cells alone); else the number
/// replaces the cell.
#[verifier::external_body]
fn sheet_write_number(wb: &mut rust_xlsxwriter::Workbook, row: u32, col: u16, n: u32) -> (r: Result<(), String>)
    ensures
        sheet_count(*final(wb)) == sheet_count(*old(wb)),
        sheet_has_tables(*final(wb)) == sheet_has_tables(*old(wb)),
        plain_workbook(*final(wb)) == plain_workbook(*old(wb)),
        sheet_name(*final(wb)) == sheet_name(*old(wb)),
        sheet_freeze(*final(wb)) == sheet_freeze(*old(wb)),
        sheet_filter(*final(wb)) == sheet_filter(*old(wb)),
        sheet_count(*old(wb)) == 0 ==> r is Err,
        sheet_count(*old(wb)) >= 1 ==> (r is Ok <==> (row < xlsx_row_limit() && col < xlsx_col_limit())),
        r is Ok ==> sheet_cells(*final(wb)) == sheet_cells(*old(wb)).insert((row, col), (None::<Seq<char>>, n)),
        r is Err ==> sheet_cells(*final(wb)) == sheet_cells(*old(wb)),
{
    wb.worksheet_from_index(0).and_then(|s| s.write_number(row, col, n).map(|_| ())).map_err(|e| e.to_string())
}

/// `Worksheet::write_number_with_format` on the first sheet (as `sheet_write_number`).
#[verifier::external_body]
fn sheet_write_number_with_format(wb: &mut rust_xlsxwriter::Workbook, row: u32, col: u16, n: u32, f: &rust_xlsxwriter::Format) -> (r: Result<(), String>)
    ensures
        sheet_count(*final(wb)) == sheet_count(*old(wb)),
        sheet_has_tables(*final(wb)) == sheet_has_tables(*old(wb)),
        plain_workbook(*final(wb)) == plain_workbook(*old(wb)),
        sheet_name(*final(wb)) == sheet_name(*old(wb)),
        sheet_freeze(*final(wb)) == sheet_freeze(*old(wb)),
        sheet_filter(*final(wb)) == sheet_filter(*old(wb)),
        sheet_count(*old(wb)) == 0 ==> r is Err,
        sheet_count(*old(wb)) >= 1 ==> (r is Ok <==> (row < xlsx_row_limit() && col < xlsx_col_limit())),
        r is Ok ==> sheet_cells(*final(wb)) == sheet_cells(*old(wb)).insert((row, col), (None::<Seq<char>>, n)),
        r is Err ==> sheet_cells(*final(wb)) == sheet_cells(*old(wb)),
{
    wb.worksheet_from_index(0).and_then(|s| s.write_number_with_format(row, col, n, f).map(|_| ())).map_err(|e| e.to_string())
}

/// `Worksheet::set_column_width` on the first sheet: fails without a sheet,
/// and otherwise exactly for a column outside the sheet; no sheet is added or
/// removed and no cell changes.
#[verifier::external_body]
fn sheet_set_column_width(wb: &mut rust_xlsxwriter::Workbook, col: u16, width: u16) -> (r: Result<(), String>)
    ensures
        sheet_count(*final(wb)) == sheet_count(*old(wb)),
        sheet_has_tables(*final(wb)) == sheet_has_tables(*old(wb)),
        plain_workbook(*final(wb)) == plain_workbook(*old(wb)),
        sheet_name(*final(wb)) == sheet_name(*old(wb)),
        sheet_freeze(*final(wb)) == sheet_freeze(*old(wb)),
        sheet_filter(*final(wb)) == sheet_filter(*old(wb)),
        sheet_cells(*final(wb)) == sheet_cells(*old(wb)),
        sheet_count(*old(wb)) == 0 ==> r is Err,
        sheet_count(*old(wb)) >= 1 ==> (r is Ok <==> col < xlsx_col_limit()),
{
    wb.worksheet_from_index(0).and_then(|s| s.set_column_width(col, width).map(|_| ())).map_err(|e| e.to_string())
}

/// `Worksheet::set_freeze_panes` on the first sheet: fails without a sheet,
/// and otherwise exactly for a place outside the sheet; no sheet is added or
/// removed and no cell changes.
#[verifier::external_body]
fn sheet_set_freeze_panes(wb: &mut rust_xlsxwriter::Workbook, row: u32, col: u16) -> (r: Result<(), String>)
    ensures
        sheet_count(*final(wb)) == sheet_count(*old(wb)),
        sheet_has_tables(*final(wb)) == sheet_has_tables(*old(wb)),
        plain_workbook(*final(wb)) == plain_workbook(*old(wb)),
        sheet_name(*final(wb)) == sheet_name(*old(wb)),
        sheet_filter(*final(wb)) == sheet_filter(*old(wb)),
        r is Ok ==> sheet_freeze(*final(wb)) == (row, col),
        r is Err ==> sheet_freeze(*final(wb)) == sheet_freeze(*old(wb)),
        sheet_cells(*final(wb)) == sheet_cells(*old(wb)),
        sheet_count(*old(wb)) == 0 ==> r is Err,
        sheet_count(*old(wb)) >= 1 ==> (r is Ok <==> (row < xlsx_row_limit() && col < xlsx_col_limit())),
{
    wb.worksheet_from_index(0).and_then(|s| s.set_freeze_panes(row, col).map(|_| ())).map_err(|e| e.to_string())
}

/// The ranges `Worksheet::autofilter` accepts: both corners inside the
/// sheet, the first not past the last.
pub open spec fn filter_range_ok(first_row: u32, first_col: u16, last_row: u32, last_col: u16) -> bool {
    &&& last_row < xlsx_row_limit()
    &&& last_col < xlsx_col_limit()
    &&& first_row <= last_row
    &&& first_col <= last_col
}

/// `Worksheet::autofilter` on the first sheet: fails without a sheet or for
/// a range it does not accept, and succeeds on a range it accepts when the
/// sheet holds no table (a table's filter could overlap); no sheet is added
/// or removed and no cell changes.
#[verifier::external_body]
fn sheet_autofilter(wb: &mut rust_xlsxwriter::Workbook, first_row: u32, first_col: u16, last_row: u32, last_col: u16) -> (r: Result<(), String>)
    ensures
        sheet_count(*final(wb)) == sheet_count(*old(wb)),
        sheet_has_tables(*final(wb)) == sheet_has_tables(*old(wb)),
        plain_workbook(*final(wb)) == plain_workbook(*old(wb)),
        sheet_name(*final(wb)) == sheet_name(*old(wb)),
        sheet_freeze(*final(wb)) == sheet_freeze(*old(wb)),
        r is Ok ==> sheet_filter(*final(wb)) == Some((first_row, first_col, last_row, last_col)),
        sheet_cells(*final(wb)) == sheet_cells(*old(wb)),
        sheet_count(*old(wb)) == 0 ==> r is Err,
        !filter_range_ok(first_row, first_col, last_row, last_col) ==> r is Err,
        sheet_count(*old(wb)) >= 1 && !sheet_has_tables(*old(wb)) && filter_range_ok(first_row, first_col, last_row, last_col)
            ==> r is Ok,
{
    wb.worksheet_from_index(0).and_then(|s| s.autofilter(first_row, first_col, last_row, last_col).map(|_| ())).map_err(|e| e.to_string())
}

/// `Workbook::save_to_buffer`: the file's bytes (which include the time of
/// writing, so they are not stated). In the source (`save_internal`) saving
/// fails only for a reused sheet name, a chartsheet without a chart, a
/// reused table or defined name, or a packaging error; with one plain sheet
/// none of the checks fails, and at most 20,000 cells (each at most 32,767
/// UTF-16 units, under 4 GiB of XML in all) keep every part within the zip
/// format's 4 GiB limit, so the save succeeds. Beyond that bound nothing is
/// claimed.
#[verifier::external_body]
fn workbook_bytes(wb: &mut rust_xlsxwriter::Workbook) -> (r: Result<Vec<u8>, String>)
    ensures
        sheet_count(*old(wb)) == 1 && plain_workbook(*old(wb)) && sheet_cells(*old(wb)).dom().finite()
            && sheet_cells(*old(wb)).dom().len() <= 20_000 ==> r is Ok,
{
    wb.save_to_buffer().map_err(|e| e.to_string())
}

/// A planned cell can be written to a sheet (see `string_write_ok`; a
/// number only needs a place inside the sheet).
pub open spec fn view_fits(v: CellView) -> bool {
    match v.2 {
        Some(t) => string_write_ok(v.0 as u32, v.1 as u16, t, v.4 is Some),
        None => v.0 < xlsx_row_limit() && v.1 < xlsx_col_limit(),
    }
}

/// The cells of a sheet after a planned cell was written to it.
pub open spec fn view_written(m: Map<(u32, u16), (Option<Seq<char>>, u32)>, v: CellView) -> Map<(u32, u16), (Option<Seq<char>>, u32)> {
    match v.2 {
        Some(t) => string_written(m, v.0 as u32, v.1 as u16, t, v.4 is Some),
        None => m.insert((v.0 as u32, v.1 as u16), (None::<Seq<char>>, v.3)),
    }
}

/// Writes one planned cell to the first sheet, with the fill's format when
/// it has one: succeeds (given a sheet) exactly when the cell fits, and then
/// the sheet's cells are those with the cell written; a failed write leaves
/// them alone.
fn write_cell(wb: &mut rust_xlsxwriter::Workbook, c: &XlsxCell) -> (r: Result<(), String>)
    ensures
        sheet_count(*final(wb)) == sheet_count(*old(wb)),
        sheet_has_tables(*final(wb)) == sheet_has_tables(*old(wb)),
        plain_workbook(*final(wb)) == plain_workbook(*old(wb)),
        sheet_name(*final(wb)) == sheet_name(*old(wb)),
        sheet_freeze(*final(wb)) == sheet_freeze(*old(wb)),
        sheet_filter(*final(wb)) == sheet_filter(*old(wb)),
        sheet_count(*old(wb)) >= 1 ==> (r is Ok <==> view_fits(cell_view(*c))),
        sheet_count(*old(wb)) == 0 ==> r is Err,
        r is Ok ==> sheet_cells(*final(wb)) == view_written(sheet_cells(*old(wb)), cell_view(*c)),
        r is Err ==> sheet_cells(*final(wb)) == sheet_cells(*old(wb)),
{
    match (&c.value, c.style) {
        (XlsxValue::Text(s), Some(st)) => sheet_write_string_with_format(wb, c.row, c.col, s.as_str(), &xlsx_format(st)),
        (XlsxValue::Text(s), None) => sheet_write_string(wb, c.row, c.col, s.as_str()),
        (XlsxValue::Number(n), Some(st)) => sheet_write_number_with_format(wb, c.row, c.col, *n, &xlsx_format(st)),
        (XlsxValue::Number(n), None) => sheet_write_number(wb, c.row, c.col, *n),
    }
}

/// The cells an Excel report of a diff plans: the header row, then one row per diff row.
pub open spec fn xlsx_report_cells(
    lines: Seq<DiffLine>,
    left_title: Seq<char>,
    right_title: Seq<char>,
    comments: Map<usize, String>,
) -> Seq<CellView> {
    header_cells(left_title, right_title) + body_cells(lines, comments, lines.len() as int)
}

/// The cells of a sheet after the planned cells were written in order.
pub open spec fn cells_written(
    m: Map<(u32, u16), (Option<Seq<char>>, u32)>,
    vs: Seq<CellView>,
) -> Map<(u32, u16), (Option<Seq<char>>, u32)>
    decreases vs.len(),
{
    if vs.len() == 0 {
        m
    } else {
        view_written(cells_written(m, vs.drop_last()), vs.last())
    }
}

/// Every planned cell fits in a sheet.
pub open spec fn all_fit(vs: Seq<CellView>) -> bool {
    forall|i: int| 0 <= i < vs.len() ==> view_fits(#[trigger] vs[i])
}

proof fn lemma_utf16_units_bound(s: Seq<char>)
    ensures
        utf16_units(s) <= 2 * s.len(),
    decreases s.len(),
{
    if s.len() > 0 {
        lemma_utf16_units_bound(s.drop_last());
    }
}

/// Writes the report sheet of a fresh workbook: names it "Diff Report",
/// writes the header cells, sets the column widths, writes the other cells,
/// freezes the header row and puts an auto-filter over rows `0..=last_row`
/// of the six columns. It succeeds exactly when every cell fits in a sheet
/// and `last_row` is a row of the sheet, and then the sheet holds exactly
/// the written cells.
pub fn fill_report_sheet(wb: &mut rust_xlsxwriter::Workbook, cells: &Vec<XlsxCell>, last_row: u32) -> (r: Result<(), String>)
    requires
        sheet_count(*old(wb)) == 1,
        sheet_cells(*old(wb)) == no_cells(),
        !sheet_has_tables(*old(wb)),
        plain_workbook(*old(wb)),
    ensures
        sheet_count(*final(wb)) == 1,
        plain_workbook(*final(wb)),
        r is Ok <==> (all_fit(cell_views(cells@)) && last_row < xlsx_row_limit()),
        r is Ok ==> sheet_cells(*final(wb)) == cells_written(no_cells(), cell_views(cells@)),
        r is Ok ==> sheet_cells(*final(wb)).dom().finite() && sheet_cells(*final(wb)).dom().len() <= cells@.len(),
        r is Ok ==> sheet_name(*final(wb)) == "Diff Report"@,
        r is Ok ==> sheet_freeze(*final(wb)) == (1u32, 0u16),
        r is Ok ==> sheet_filter(*final(wb)) == Some((0u32, 0u16, last_row, 5u16)),
{
    let ghost planned = cell_views(cells@);
    let name = "Diff Report";
    proof {
        reveal_strlit("Diff Report");
        assert(name@ =~= seq!['D', 'i', 'f', 'f', ' ', 'R', 'e', 'p', 'o', 'r', 't']);
        lemma_utf16_units_bound(name@);
        reveal_with_fuel(no_bad_name_chars, 12);
        assert(no_bad_name_chars(name@));
    }
    sheet_set_name(wb, name)?;
    let mut i: usize = 0;
    while i < cells.len() && i < 6
        invariant
            i <= cells@.len(),
            sheet_count(*wb) == 1,
            !sheet_has_tables(*wb),
            plain_workbook(*wb),
            sheet_name(*wb) == name@,
            planned == cell_views(cells@),
            all_fit(planned.take(i as int)),
            sheet_cells(*wb) == cells_written(no_cells(), planned.take(i as int)),
        decreases cells@.len() - i,
    {
        proof { lemma_cell_step(planned, i as int); }
        assert(planned[i as int] == cell_view(cells@[i as int]));
        let res = write_cell(wb, &cells[i]);
        if res.is_err() {
            proof { lemma_unfit_prefix(planned, i as int); }
            return res;
        }
        i = i + 1;
    }
    sheet_set_column_width(wb, 0, 10)?;
    sheet_set_column_width(wb, 1, 8)?;
    sheet_set_column_width(wb, 2, 60)?;
    sheet_set_column_width(wb, 3, 8)?;
    sheet_set_column_width(wb, 4, 60)?;
    sheet_set_column_width(wb, 5, 40)?;
    while i < cells.len()
        invariant
            i <= cells@.len(),
            sheet_count(*wb) == 1,
            !sheet_has_tables(*wb),
            plain_workbook(*wb),
            sheet_name(*wb) == name@,
            planned == cell_views(cells@),
            all_fit(planned.take(i as int)),
            sheet_cells(*wb) == cells_written(no_cells(), planned.take(i as int)),
        decreases cells@.len() - i,
    {
        proof { lemma_cell_step(planned, i as int); }
        assert(planned[i as int] == cell_view(cells@[i as int]));
        let res = write_cell(wb, &cells[i]);
        if res.is_err() {
            proof { lemma_unfit_prefix(planned, i as int); }
            return res;
        }
        i = i + 1;
    }
    assert(planned.take(planned.len() as int) =~= planned);
    proof {
        lemma_cells_written_size(no_cells(), planned);
    }
    sheet_set_freeze_panes(wb, 1, 0)?;
    sheet_autofilter(wb, 0, 0, last_row, 5)
}

proof fn lemma_cells_written_size(m: Map<(u32, u16), (Option<Seq<char>>, u32)>, vs: Seq<CellView>)
    requires
        m.dom().finite(),
    ensures
        cells_written(m, vs).dom().finite(),
        cells_written(m, vs).dom().len() <= m.dom().len() + vs.len(),
    decreases vs.len(),
{
    if vs.len() > 0 {
        lemma_cells_written_size(m, vs.drop_last());
        let prev = cells_written(m, vs.drop_last());
        let v = vs.last();
        match v.2 {
            Some(t) => {
                if !(t.len() == 0 && !(v.4 is Some)) {
                    let k = (v.0 as u32, v.1 as u16);
                    assert(prev.insert(k, (Some(t), 0u32)).dom() =~= prev.dom().insert(k));
                }
            },
            None => {
                let k = (v.0 as u32, v.1 as u16);
                assert(prev.insert(k, (None::<Seq<char>>, v.3)).dom() =~= prev.dom().insert(k));
            },
        }
    }
}

proof fn lemma_cell_step(vs: Seq<CellView>, i: int)
    requires
        0 <= i < vs.len(),
    ensures
        vs.take(i + 1).drop_last() == vs.take(i),
        vs.take(i + 1).last() == vs[i],
        all_fit(vs.take(i)) && view_fits(vs[i]) ==> all_fit(vs.take(i + 1)),
{
    assert(vs.take(i + 1).drop_last() =~= vs.take(i));
    if all_fit(vs.take(i)) && view_fits(vs[i]) {
        assert forall|j: int| 0 <= j < vs.take(i + 1).len() implies view_fits(#[trigger] vs.take(i + 1)[j]) by {
            if j < i { assert(vs.take(i + 1)[j] == vs.take(i)[j]); }
        }
    }
}

proof fn lemma_unfit_prefix(vs: Seq<CellView>, i: int)
    requires
        0 <= i < vs.len(),
        !view_fits(vs[i]),
    ensures
        !all_fit(vs),
{
}

/// Exports a diff as an Excel workbook: the cells of `xlsx_cells` on a sheet
/// named "Diff Report" (see `fill_report_sheet`), saved to bytes. Errors of
/// the writer come back as text: the export fails when a planned cell does
/// not fit in a sheet (a row past the sheet's last one, or a text longer than
/// a cell holds), and succeeds only when every planned cell was written.
pub fn export_xlsx(
    diff_result: &DiffResult,
    left_title: &str,
    right_title: &str,
    comments: &std::collections::HashMap<usize, String>,
) -> (r: Result<Vec<u8>, String>)
    requires
        diff_result.lines@.len() < u32::MAX,
    ensures
        r is Ok ==> all_fit(xlsx_report_cells(diff_result.lines@, left_title@, right_title@, comments@)),
        r is Ok ==> diff_result.lines@.len() < xlsx_row_limit(),
        !all_fit(xlsx_report_cells(diff_result.lines@, left_title@, right_title@, comments@)) ==> r is Err,
        all_fit(xlsx_report_cells(diff_result.lines@, left_title@, right_title@, comments@))
            && diff_result.lines@.len() < xlsx_row_limit()
            && xlsx_report_cells(diff_result.lines@, left_title@, right_title@, comments@).len() <= 20_000 ==> r is Ok,
{
    let cells = xlsx_cells(diff_result, left_title, right_title, comments);
    let mut wb = new_workbook();
    let last_row = diff_result.lines.len() as u32;
    fill_report_sheet(&mut wb, &cells, last_row)?;
    workbook_bytes(&mut wb)
}

} // verus!
