//! Command line arguments: WinMerge slash options (`/ignorews`, `/dl Mine`)
//! and the long/short forms (`--ignore-whitespace`, `-w`), option names
//! matched ignoring ASCII case.
use vstd::prelude::*;
use crate::text::{str_chars, str_eq, str_to_string, string_from_range, views, ascii_lowercase, to_ascii_lowercase};
use crate::folder::{CompareMethod, method_named};
use crate::view::{parse_i32, parse_i32_spec};

verus! {

pub const USAGE: &'static str = "WinXMerge \u{2014} cross-platform file diff and merge tool

Usage:
  winxmerge [options] <left> <right>          2-way compare
  winxmerge [options] <base> <left> <right>   3-way merge

Compare options:
  /ignorews[:N]          Ignore whitespace differences
                         (:0 disables, :1 ignores whitespace changes, :2 ignores all whitespace)
  /ignorecase[:N]        Ignore letter case differences
  /ignoreblanklines[:N]  Ignore blank line differences
  /ignoreeol[:N]         Ignore line ending differences

Folder compare options:
  /m <method>            Full|Quick|Binary|Date|SizeDate|Size|Existence
                         (also accepted as /m:<method>)

Window options:
  /dl <desc>             Description shown for the left pane
  /dm <desc>             Description shown for the middle pane (3-way)
  /dr <desc>             Description shown for the right pane
  /l <n>                 Jump to line <n> after the initial compare
  /e                     Close the window with the Esc key

Automation:
  /x, /xq                Close automatically when the files are identical
  /enableexitcode        Exit with 0 (identical), 1 (different) or 2 (error)

Other:
  /?, --help, -h         Show this help
  --clear-history        Clear the session and recent file list, then exit
  --server               Start as the IPC server (Unix only)

Long forms --ignore-whitespace|-w, --ignore-case|-i and --ignore-blank-lines|-B
are kept as aliases of the matching /ignore* options.
";

/// What the command line asks for; `None` options were not given.
#[derive(Debug, Clone, PartialEq)]
pub struct CliArgs {
    pub paths: Vec<String>,
    pub help: bool,
    pub server: bool,
    pub clear_history: bool,
    pub ignore_whitespace: Option<bool>,
    pub ignore_whitespace_all: Option<bool>,
    pub ignore_case: Option<bool>,
    pub ignore_blank_lines: Option<bool>,
    pub ignore_eol: Option<bool>,
    pub left_title: Option<String>,
    pub base_title: Option<String>,
    pub right_title: Option<String>,
    pub goto_line: Option<i32>,
    pub esc_closes: bool,
    pub auto_close_identical: bool,
    pub enable_exit_code: bool,
    pub folder_compare_method: Option<CompareMethod>,
}

/// The arguments as plain values.
pub struct CliView {
    pub paths: Seq<Seq<char>>,
    pub help: bool,
    pub server: bool,
    pub clear_history: bool,
    pub ignore_whitespace: Option<bool>,
    pub ignore_whitespace_all: Option<bool>,
    pub ignore_case: Option<bool>,
    pub ignore_blank_lines: Option<bool>,
    pub ignore_eol: Option<bool>,
    pub left_title: Option<Seq<char>>,
    pub base_title: Option<Seq<char>>,
    pub right_title: Option<Seq<char>>,
    pub goto_line: Option<i32>,
    pub esc_closes: bool,
    pub auto_close_identical: bool,
    pub enable_exit_code: bool,
    pub folder_compare_method: Option<CompareMethod>,
}

pub open spec fn ov(o: Option<String>) -> Option<Seq<char>> {
    match o {
        Some(s) => Some(s@),
        None => None,
    }
}

pub open spec fn cli_view(c: CliArgs) -> CliView {
    CliView {
        paths: views(c.paths@),
        help: c.help,
        server: c.server,
        clear_history: c.clear_history,
        ignore_whitespace: c.ignore_whitespace,
        ignore_whitespace_all: c.ignore_whitespace_all,
        ignore_case: c.ignore_case,
        ignore_blank_lines: c.ignore_blank_lines,
        ignore_eol: c.ignore_eol,
        left_title: ov(c.left_title),
        base_title: ov(c.base_title),
        right_title: ov(c.right_title),
        goto_line: c.goto_line,
        esc_closes: c.esc_closes,
        auto_close_identical: c.auto_close_identical,
        enable_exit_code: c.enable_exit_code,
        folder_compare_method: c.folder_compare_method,
    }
}

pub open spec fn empty_cli() -> CliView {
    CliView {
        paths: Seq::empty(),
        help: false,
        server: false,
        clear_history: false,
        ignore_whitespace: None,
        ignore_whitespace_all: None,
        ignore_case: None,
        ignore_blank_lines: None,
        ignore_eol: None,
        left_title: None,
        base_title: None,
        right_title: None,
        goto_line: None,
        esc_closes: false,
        auto_close_identical: false,
        enable_exit_code: false,
        folder_compare_method: None,
    }
}

impl Default for CliArgs {
    fn default() -> (c: Self)
        ensures
            cli_view(c) == empty_cli(),
    {
        let c = CliArgs {
            paths: Vec::new(),
            help: false,
            server: false,
            clear_history: false,
            ignore_whitespace: None,
            ignore_whitespace_all: None,
            ignore_case: None,
            ignore_blank_lines: None,
            ignore_eol: None,
            left_title: None,
            base_title: None,
            right_title: None,
            goto_line: None,
            esc_closes: false,
            auto_close_identical: false,
            enable_exit_code: false,
            folder_compare_method: None,
        };
        assert(views(c.paths@) =~= Seq::<Seq<char>>::empty());
        c
    }
}

/// The index of the first `:` in `s`, if any.
pub open spec fn first_colon(s: Seq<char>) -> Option<int>
    decreases s.len(),
{
    if s.len() == 0 {
        None
    } else if s[0] == ':' {
        Some(0)
    } else {
        match first_colon(s.drop_first()) {
            Some(k) => Some(k + 1),
            None => None,
        }
    }
}

/// An argument read as an option: `None` when it does not start with `/` or
/// `-`, or names an existing path; else its name (after `--`, `-` or `/`,
/// lower-cased) and its `:value` if any.
pub open spec fn option_parts(token: Seq<char>, exists: bool) -> Option<(Seq<char>, Option<Seq<char>>)> {
    if !(token.len() > 0 && (token[0] == '/' || token[0] == '-')) || exists {
        None
    } else {
        let body = if token.len() >= 2 && token[0] == '-' && token[1] == '-' { token.skip(2) } else { token.skip(1) };
        match first_colon(body) {
            Some(k) => Some((ascii_lowercase(body.take(k)), Some(body.skip(k + 1)))),
            None => Some((ascii_lowercase(body), None)),
        }
    }
}

/// Splits an option argument into its lower-cased name and optional value
/// (see `option_parts`); `exists` tells whether the argument names an existing path.
pub fn split_option(token: &str, exists: bool) -> (r: Option<(String, Option<String>)>)
    ensures
        match r {
            Some((n, v)) => option_parts(token@, exists) == Some((n@, ov(v))),
            None => option_parts(token@, exists) is None,
        },
{
    let t = str_chars(token);
    if !(t.len() > 0 && (t[0] == '/' || t[0] == '-')) || exists {
        return None;
    }
    let start: usize = if t.len() >= 2 && t[0] == '-' && t[1] == '-' { 2 } else { 1 };
    let ghost body = t@.skip(start as int);
    let mut k: usize = start;
    while k < t.len() && t[k] != ':'
        invariant
            start <= k <= t@.len(),
            body == t@.skip(start as int),
            first_colon(body) == match first_colon(t@.skip(k as int)) {
                Some(j) => Some(j + (k - start)),
                None => None,
            },
        decreases t@.len() - k,
    {
        assert(t@.skip(k as int).drop_first() =~= t@.skip(k + 1));
        k = k + 1;
    }
    if k < t.len() {
        assert(t@.skip(k as int)[0] == ':');
        let name = string_from_range(t.as_slice(), start, k);
        let value = string_from_range(t.as_slice(), k + 1, t.len());
        assert(name@ =~= body.take(k - start));
        assert(value@ =~= body.skip(k - start + 1));
        Some((to_ascii_lowercase(name.as_str()), Some(value)))
    } else {
        assert(t@.skip(k as int) =~= Seq::<char>::empty());
        let name = string_from_range(t.as_slice(), start, t.len());
        assert(name@ =~= body);
        Some((to_ascii_lowercase(name.as_str()), None))
    }
}

/// `:0` turns an option off; no value or any other value turns it on.
pub open spec fn flag_on(value: Option<Seq<char>>) -> bool {
    value != Some("0"@)
}

fn flag_value(value: &Option<String>) -> (b: bool)
    ensures
        b == flag_on(ov(*value)),
{
    match value {
        Some(v) => !str_eq(v.as_str(), "0"),
        None => true,
    }
}

pub open spec fn arg_at(args: Seq<Seq<char>>, i: int) -> Option<Seq<char>> {
    if 0 <= i < args.len() { Some(args[i]) } else { None }
}

pub open spec fn one_of(n: Seq<char>, a: Seq<char>, b: Seq<char>, c: Seq<char>) -> bool {
    n == a || n == b || n == c
}

/// What a flag option does (unknown names do nothing).
pub open spec fn apply_flag(name: Seq<char>, value: Option<Seq<char>>, c: CliView) -> CliView {
    if one_of(name, "?"@, "help"@, "h"@) {
        CliView { help: true, ..c }
    } else if name == "server"@ {
        CliView { server: true, ..c }
    } else if name == "clear-history"@ {
        CliView { clear_history: true, ..c }
    } else if one_of(name, "ignorews"@, "ignore-whitespace"@, "w"@) {
        let on = flag_on(value);
        CliView { ignore_whitespace: Some(on), ignore_whitespace_all: Some(on && value == Some("2"@)), ..c }
    } else if one_of(name, "ignorecase"@, "ignore-case"@, "i"@) {
        CliView { ignore_case: Some(flag_on(value)), ..c }
    } else if one_of(name, "ignoreblanklines"@, "ignore-blank-lines"@, "b"@) {
        CliView { ignore_blank_lines: Some(flag_on(value)), ..c }
    } else if name == "ignoreeol"@ || name == "ignore-eol"@ {
        CliView { ignore_eol: Some(flag_on(value)), ..c }
    } else if name == "e"@ {
        CliView { esc_closes: true, ..c }
    } else if name == "x"@ || name == "xq"@ {
        CliView { auto_close_identical: true, ..c }
    } else if name == "enableexitcode"@ {
        CliView { enable_exit_code: true, ..c }
    } else {
        c
    }
}

/// Options that may take the next argument as their value.
pub open spec fn is_value_option(name: Seq<char>) -> bool {
    name == "dl"@ || name == "dm"@ || name == "dr"@ || name == "l"@ || name == "m"@
}

/// What a value option does at position `i`: `/dl`, `/dm`, `/dr` and `/l`
/// take the next argument (when there is one); `/m` takes its `:value` or
/// else the next argument, and sets the method when the name is known.
pub open spec fn apply_value(args: Seq<Seq<char>>, i: int, name: Seq<char>, value: Option<Seq<char>>, c: CliView) -> (int, CliView) {
    let next = arg_at(args, i);
    let after_next = if next is Some { i + 1 } else { i };
    if name == "dl"@ {
        (after_next, CliView { left_title: next, ..c })
    } else if name == "dm"@ {
        (after_next, CliView { base_title: next, ..c })
    } else if name == "dr"@ {
        (after_next, CliView { right_title: next, ..c })
    } else if name == "l"@ {
        (after_next, CliView { goto_line: match next { Some(v) => parse_i32_spec(v), None => None }, ..c })
    } else {
        let (v, j) = match value {
            Some(x) => (Some(x), i),
            None => (next, after_next),
        };
        (j, match v {
            Some(x) => match method_named(ascii_lowercase(x)) {
                Some(m) => CliView { folder_compare_method: Some(m), ..c },
                None => c,
            },
            None => c,
        })
    }
}

/// What reading the option `name` (with `value`) does when the next
/// argument is at position `i`: the position after it and the arguments so far.
pub open spec fn apply_option(args: Seq<Seq<char>>, i: int, name: Seq<char>, value: Option<Seq<char>>, c: CliView) -> (int, CliView) {
    if is_value_option(name) {
        apply_value(args, i, name, value, c)
    } else {
        (i, apply_flag(name, value, c))
    }
}

/// The arguments read from position `i` on: non-options are paths, unknown
/// options are skipped.
pub open spec fn parse_from(args: Seq<Seq<char>>, exists: Seq<bool>, i: int, c: CliView) -> CliView
    decreases args.len() - i,
{
    if i >= args.len() || i < 0 {
        c
    } else {
        let e = if i < exists.len() { exists[i] } else { false };
        match option_parts(args[i], e) {
            None => parse_from(args, exists, i + 1, CliView { paths: c.paths.push(args[i]), ..c }),
            Some((name, value)) => {
                let (j, c2) = apply_option(args, i + 1, name, value, c);
                if j >= i + 1 {
                    parse_from(args, exists, j, c2)
                } else {
                    c2
                }
            },
        }
    }
}

fn apply_flag_exec(name: &str, value: &Option<String>, cli: &mut CliArgs)
    ensures
        cli_view(*final(cli)) == apply_flag(name@, ov(*value), cli_view(*old(cli))),
{
    let n = name;
    if str_eq(n, "?") || str_eq(n, "help") || str_eq(n, "h") {
        cli.help = true;
    } else if str_eq(n, "server") {
        cli.server = true;
    } else if str_eq(n, "clear-history") {
        cli.clear_history = true;
    } else if str_eq(n, "ignorews") || str_eq(n, "ignore-whitespace") || str_eq(n, "w") {
        let on = flag_value(value);
        let two = match value { Some(v) => str_eq(v.as_str(), "2"), None => false };
        cli.ignore_whitespace = Some(on);
        cli.ignore_whitespace_all = Some(on && two);
    } else if str_eq(n, "ignorecase") || str_eq(n, "ignore-case") || str_eq(n, "i") {
        cli.ignore_case = Some(flag_value(value));
    } else if str_eq(n, "ignoreblanklines") || str_eq(n, "ignore-blank-lines") || str_eq(n, "b") {
        cli.ignore_blank_lines = Some(flag_value(value));
    } else if str_eq(n, "ignoreeol") || str_eq(n, "ignore-eol") {
        cli.ignore_eol = Some(flag_value(value));
    } else if str_eq(n, "e") {
        cli.esc_closes = true;
    } else if str_eq(n, "x") || str_eq(n, "xq") {
        cli.auto_close_identical = true;
    } else if str_eq(n, "enableexitcode") {
        cli.enable_exit_code = true;
    }
}

fn apply_value_exec(args: &Vec<String>, i: usize, name: &str, value: Option<String>, cli: &mut CliArgs) -> (j: usize)
    requires
        i <= args@.len(),
        is_value_option(name@),
    ensures
        (j as int, cli_view(*final(cli))) == apply_value(views(args@), i as int, name@, ov(value), cli_view(*old(cli))),
        i <= j <= args@.len(),
{
    let ghost av = views(args@);
    let next_exists = i < args.len();
    if next_exists {
        assert(av[i as int] == args@[i as int]@);
    }
    let n = name;
    if str_eq(n, "dl") || str_eq(n, "dm") || str_eq(n, "dr") {
        let v = if next_exists { Some(str_to_string(args[i].as_str())) } else { None };
        if str_eq(n, "dl") {
            cli.left_title = v;
        } else if str_eq(n, "dm") {
            cli.base_title = v;
        } else {
            cli.right_title = v;
        }
        if next_exists { i + 1 } else { i }
    } else if str_eq(n, "l") {
        if next_exists {
            cli.goto_line = parse_i32(&str_chars(args[i].as_str()));
            i + 1
        } else {
            cli.goto_line = None;
            i
        }
    } else {
        let (v, j): (Option<String>, usize) = match value {
            Some(x) => (Some(x), i),
            None => if next_exists { (Some(str_to_string(args[i].as_str())), i + 1) } else { (None, i) },
        };
        if let Some(x) = v {
            if let Some(m) = CompareMethod::from_name(x.as_str()) {
                cli.folder_compare_method = Some(m);
            }
        }
        j
    }
}

/// Applies the option `name` when the next argument is at position `i`
/// (see `apply_option`); returns the position after it.
fn apply_named(args: &Vec<String>, i: usize, name: &str, value: Option<String>, cli: &mut CliArgs) -> (j: usize)
    requires
        i <= args@.len(),
    ensures
        (j as int, cli_view(*final(cli))) == apply_option(views(args@), i as int, name@, ov(value), cli_view(*old(cli))),
        i <= j <= args@.len(),
{
    let n = name;
    if str_eq(n, "dl") || str_eq(n, "dm") || str_eq(n, "dr") || str_eq(n, "l") || str_eq(n, "m") {
        apply_value_exec(args, i, name, value, cli)
    } else {
        apply_flag_exec(name, &value, cli);
        i
    }
}

/// Reads the command line (the first argument is the program). `exists[k]`
/// tells whether argument `k` names an existing path, which is then never an option.
pub fn parse(args: &Vec<String>, exists: &Vec<bool>) -> (cli: CliArgs)
    ensures
        cli_view(cli) == parse_from(views(args@), exists@, 1, empty_cli()),
{
    let ghost av = views(args@);
    let mut cli = CliArgs::default();
    if args.len() == 0 {
        return cli;
    }
    let mut i: usize = 1;
    while i < args.len()
        invariant
            1 <= i <= args@.len(),
            av == views(args@),
            parse_from(av, exists@, 1, empty_cli()) == parse_from(av, exists@, i as int, cli_view(cli)),
        decreases args@.len() - i,
    {
        let arg = &args[i];
        let e = i < exists.len() && exists[i];
        assert(av[i as int] == arg@);
        match split_option(arg.as_str(), e) {
            None => {
                let ghost before = cli_view(cli);
                cli.paths.push(str_to_string(arg.as_str()));
                assert(views(cli.paths@) =~= before.paths.push(arg@));
                i = i + 1;
            },
            Some((name, value)) => {
                i = apply_named(args, i + 1, name.as_str(), value, &mut cli);
            },
        }
    }
    cli
}

} // verus!
