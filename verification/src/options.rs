//! Reading the option fields of the settings dialog: lists separated by a
//! character, substitution pairs and plugin entries.
use vstd::prelude::*;
use crate::text::{str_chars, string_from_range, trimmed, trim_bounds};

verus! {

/// The pieces of `s` between the occurrences of `sep`, in order: one more
/// than there are separators (so a single empty piece for an empty text).
pub open spec fn split_on(s: Seq<char>, sep: char) -> Seq<Seq<char>>
    decreases s.len(),
{
    if s.len() == 0 {
        seq![Seq::<char>::empty()]
    } else {
        let rest = split_on(s.drop_last(), sep);
        if s.last() == sep {
            rest.push(Seq::empty())
        } else {
            rest.update(rest.len() - 1, rest.last().push(s.last()))
        }
    }
}

proof fn lemma_split_nonempty(s: Seq<char>, sep: char)
    ensures
        split_on(s, sep).len() >= 1,
    decreases s.len(),
{
    if s.len() > 0 {
        lemma_split_nonempty(s.drop_last(), sep);
    }
}

/// The trimmed pieces that are not empty, in order.
pub open spec fn nonempty_trimmed(ps: Seq<Seq<char>>) -> Seq<Seq<char>>
    decreases ps.len(),
{
    if ps.len() == 0 {
        Seq::empty()
    } else {
        let prev = nonempty_trimmed(ps.drop_last());
        let t = trimmed(ps.last());
        if t.len() == 0 { prev } else { prev.push(t) }
    }
}

/// The pieces of `s` split at `sep`.
pub fn split_pieces(s: &str, sep: char) -> (v: Vec<Vec<char>>)
    ensures
        v@.map_values(|p: Vec<char>| p@) == split_on(s@, sep),
{
    let cs = str_chars(s);
    let mut v: Vec<Vec<char>> = Vec::new();
    let mut cur: Vec<char> = Vec::new();
    let mut i: usize = 0;
    while i < cs.len()
        invariant
            i <= cs@.len(),
            cs@ == s@,
            v@.map_values(|p: Vec<char>| p@).push(cur@) == split_on(s@.take(i as int), sep),
        decreases cs@.len() - i,
    {
        proof {
            assert(s@.take(i + 1).drop_last() =~= s@.take(i as int));
            assert(s@.take(i + 1).last() == cs@[i as int]);
            lemma_split_nonempty(s@.take(i as int), sep);
        }
        let ghost before = v@.map_values(|p: Vec<char>| p@).push(cur@);
        if cs[i] == sep {
            let done = cur;
            v.push(done);
            cur = Vec::new();
            assert(v@.map_values(|p: Vec<char>| p@).push(cur@) =~= before.push(Seq::empty()));
        } else {
            cur.push(cs[i]);
            assert(v@.map_values(|p: Vec<char>| p@).push(cur@) =~= before.update(before.len() - 1, before.last().push(cs@[i as int])));
        }
        i = i + 1;
    }
    assert(s@.take(cs@.len() as int) =~= s@);
    let ghost before = v@.map_values(|p: Vec<char>| p@).push(cur@);
    v.push(cur);
    assert(v@.map_values(|p: Vec<char>| p@) =~= before);
    v
}

/// The trimmed text of a piece.
fn trimmed_string(p: &Vec<char>) -> (s: String)
    ensures
        s@ == trimmed(p@),
{
    let (a, b) = trim_bounds(p);
    string_from_range(p.as_slice(), a, b)
}

/// The non-empty trimmed pieces of `s` split at `sep`.
pub fn split_trimmed(s: &str, sep: char) -> (out: Vec<String>)
    ensures
        out@.map_values(|x: String| x@) == nonempty_trimmed(split_on(s@, sep)),
{
    let pieces = split_pieces(s, sep);
    let ghost ps = pieces@.map_values(|p: Vec<char>| p@);
    let mut out: Vec<String> = Vec::new();
    let mut i: usize = 0;
    while i < pieces.len()
        invariant
            i <= pieces@.len(),
            ps == pieces@.map_values(|p: Vec<char>| p@),
            out@.map_values(|x: String| x@) == nonempty_trimmed(ps.take(i as int)),
        decreases pieces@.len() - i,
    {
        proof {
            assert(ps.take(i + 1).drop_last() =~= ps.take(i as int));
            assert(ps.take(i + 1).last() == pieces@[i as int]@);
        }
        let t = trimmed_string(&pieces[i]);
        if !t.as_str().is_empty() {
            let ghost before = out@.map_values(|x: String| x@);
            out.push(t);
            assert(out@.map_values(|x: String| x@) =~= before.push(t@));
        }
        i = i + 1;
    }
    assert(ps.take(pieces@.len() as int) =~= ps);
    out
}

/// The folder exclude patterns of the option field: `;`-separated, trimmed, empty ones dropped.
pub fn parse_folder_exclude_patterns(s: &str) -> (v: Vec<String>)
    ensures
        v@.map_values(|x: String| x@) == nonempty_trimmed(split_on(s@, ';')),
{
    split_trimmed(s, ';')
}

/// The line filters of the option field: `|`-separated, trimmed, empty ones dropped.
pub fn parse_line_filters(s: &str) -> (v: Vec<String>)
    ensures
        v@.map_values(|x: String| x@) == nonempty_trimmed(split_on(s@, '|')),
{
    split_trimmed(s, '|')
}

/// The substitution pairs of the first `n` pieces: each pattern with the
/// replacement at the same place, both trimmed; pairs whose pattern is
/// blank are dropped.
pub open spec fn substitution_pairs(ps: Seq<Seq<char>>, rs: Seq<Seq<char>>, n: int) -> Seq<(Seq<char>, Seq<char>)>
    decreases n,
{
    if n <= 0 {
        Seq::empty()
    } else {
        let prev = substitution_pairs(ps, rs, n - 1);
        let p = trimmed(ps[n - 1]);
        if p.len() == 0 { prev } else { prev.push((p, trimmed(rs[n - 1]))) }
    }
}

/// The substitution filters of the two option fields: the `|`-separated
/// patterns paired in order with the `|`-separated replacements (as far as
/// both go), both trimmed, pairs with a blank pattern dropped.
pub fn parse_substitution_filters(patterns: &str, replacements: &str) -> (v: Vec<(String, String)>)
    ensures
        v@.map_values(|x: (String, String)| (x.0@, x.1@)) == substitution_pairs(
            split_on(patterns@, '|'),
            split_on(replacements@, '|'),
            if split_on(patterns@, '|').len() <= split_on(replacements@, '|').len() {
                split_on(patterns@, '|').len() as int
            } else {
                split_on(replacements@, '|').len() as int
            },
        ),
{
    let ps = split_pieces(patterns, '|');
    let rs = split_pieces(replacements, '|');
    let ghost pv = ps@.map_values(|p: Vec<char>| p@);
    let ghost rv = rs@.map_values(|p: Vec<char>| p@);
    let n = if ps.len() <= rs.len() { ps.len() } else { rs.len() };
    let mut out: Vec<(String, String)> = Vec::new();
    let mut i: usize = 0;
    while i < n
        invariant
            i <= n,
            n <= ps@.len(),
            n <= rs@.len(),
            pv == ps@.map_values(|p: Vec<char>| p@),
            rv == rs@.map_values(|p: Vec<char>| p@),
            out@.map_values(|x: (String, String)| (x.0@, x.1@)) == substitution_pairs(pv, rv, i as int),
        decreases n - i,
    {
        let p = trimmed_string(&ps[i]);
        assert(pv[i as int] == ps@[i as int]@);
        assert(rv[i as int] == rs@[i as int]@);
        if !p.as_str().is_empty() {
            let r = trimmed_string(&rs[i]);
            let ghost before = out@.map_values(|x: (String, String)| (x.0@, x.1@));
            out.push((p, r));
            assert(out@.map_values(|x: (String, String)| (x.0@, x.1@)) =~= before.push((p@, r@)));
        }
        i = i + 1;
    }
    out
}

/// A plugin of the menu: a name and the command it runs.
#[derive(Debug, Clone)]
pub struct PluginEntry {
    pub name: String,
    pub command: String,
}

/// The first index of `c` in `s` at or after `from`.
pub open spec fn first_from(s: Seq<char>, c: char, from: int) -> Option<int>
    decreases s.len() - from,
{
    if from >= s.len() || from < 0 {
        None
    } else if s[from] == c {
        Some(from)
    } else {
        first_from(s, c, from + 1)
    }
}

/// The plugin a piece names: text before its first `:` is the name, the
/// rest the command, both trimmed; none for a blank piece, a piece without
/// `:`, or an empty name or command.
pub open spec fn plugin_of(p: Seq<char>) -> Option<(Seq<char>, Seq<char>)> {
    if trimmed(p).len() == 0 {
        None
    } else {
        match first_from(p, ':', 0) {
            None => None,
            Some(k) => {
                let name = trimmed(p.take(k));
                let cmd = trimmed(p.skip(k + 1));
                if name.len() == 0 || cmd.len() == 0 { None } else { Some((name, cmd)) }
            },
        }
    }
}

/// The plugins named by the pieces, in order.
pub open spec fn plugins_of(ps: Seq<Seq<char>>) -> Seq<(Seq<char>, Seq<char>)>
    decreases ps.len(),
{
    if ps.len() == 0 {
        Seq::empty()
    } else {
        let prev = plugins_of(ps.drop_last());
        match plugin_of(ps.last()) {
            Some(e) => prev.push(e),
            None => prev,
        }
    }
}

proof fn lemma_first_from(s: Seq<char>, c: char, from: int)
    ensures
        first_from(s, c, from) matches Some(k) ==> from <= k < s.len() && s[k] == c,
    decreases s.len() - from,
{
    if 0 <= from < s.len() && s[from] != c {
        lemma_first_from(s, c, from + 1);
    }
}

fn find_char(s: &Vec<char>, c: char) -> (r: Option<usize>)
    ensures
        r == match first_from(s@, c, 0) {
            Some(k) => Some(k as usize),
            None => None::<usize>,
        },
{
    let mut i: usize = 0;
    while i < s.len()
        invariant
            i <= s@.len(),
            first_from(s@, c, 0) == first_from(s@, c, i as int),
        decreases s@.len() - i,
    {
        if s[i] == c {
            return Some(i);
        }
        i = i + 1;
    }
    None
}

/// The plugin list of the option field: `|`-separated `name:command`
/// entries; malformed or blank entries are skipped.
pub fn parse_plugins(s: &str) -> (v: Vec<PluginEntry>)
    ensures
        v@.map_values(|e: PluginEntry| (e.name@, e.command@)) == plugins_of(split_on(s@, '|')),
{
    let pieces = split_pieces(s, '|');
    let ghost ps = pieces@.map_values(|p: Vec<char>| p@);
    let mut out: Vec<PluginEntry> = Vec::new();
    let mut i: usize = 0;
    while i < pieces.len()
        invariant
            i <= pieces@.len(),
            ps == pieces@.map_values(|p: Vec<char>| p@),
            out@.map_values(|e: PluginEntry| (e.name@, e.command@)) == plugins_of(ps.take(i as int)),
        decreases pieces@.len() - i,
    {
        proof {
            assert(ps.take(i + 1).drop_last() =~= ps.take(i as int));
            assert(ps.take(i + 1).last() == pieces@[i as int]@);
        }
        let p = &pieces[i];
        let whole = trimmed_string(p);
        if !whole.as_str().is_empty() {
            proof {
                lemma_first_from(p@, ':', 0);
            }
            match find_char(p, ':') {
                Some(k) => {
                    let name_part = take_chars(p, k);
                    let cmd_part = skip_chars(p, k + 1);
                    let name = trimmed_string(&name_part);
                    let command = trimmed_string(&cmd_part);
                    if !name.as_str().is_empty() && !command.as_str().is_empty() {
                        let ghost before = out@.map_values(|e: PluginEntry| (e.name@, e.command@));
                        let e = PluginEntry { name, command };
                        out.push(e);
                        assert(out@.map_values(|e: PluginEntry| (e.name@, e.command@)) =~= before.push((e.name@, e.command@)));
                    }
                },
                None => {},
            }
        }
        i = i + 1;
    }
    assert(ps.take(pieces@.len() as int) =~= ps);
    out
}

fn take_chars(p: &Vec<char>, k: usize) -> (r: Vec<char>)
    requires
        k <= p@.len(),
    ensures
        r@ == p@.take(k as int),
{
    let mut r: Vec<char> = Vec::new();
    let mut i: usize = 0;
    while i < k
        invariant
            i <= k <= p@.len(),
            r@ == p@.take(i as int),
        decreases k - i,
    {
        r.push(p[i]);
        assert(r@ =~= p@.take(i + 1));
        i = i + 1;
    }
    r
}

fn skip_chars(p: &Vec<char>, k: usize) -> (r: Vec<char>)
    requires
        k <= p@.len(),
    ensures
        r@ == p@.skip(k as int),
{
    let mut r: Vec<char> = Vec::new();
    let mut i: usize = k;
    while i < p.len()
        invariant
            k <= i <= p@.len(),
            r@ == p@.subrange(k as int, i as int),
        decreases p@.len() - i,
    {
        r.push(p[i]);
        assert(r@ =~= p@.subrange(k as int, i + 1));
        i = i + 1;
    }
    assert(p@.subrange(k as int, p@.len() as int) =~= p@.skip(k as int));
    r
}

/// What changing a diff option does to the current tab.
#[derive(Debug, Clone, Copy, PartialEq, Eq, Structural)]
pub enum OptionRerun {
    /// Not both files are open: nothing to compare again.
    Nothing,
    /// The view was edited: compare the edited texts again.
    Rescan,
    /// Read both files again and compare them.
    RunDiff,
}

/// How a tab is compared again after a diff option changed: only with both
/// files open, from the edited texts when there are edits, else from disk.
pub fn rerun_after_option_change(has_left_path: bool, has_right_path: bool, has_unsaved_changes: bool, editing_dirty: bool) -> (r: OptionRerun)
    ensures
        r == if !(has_left_path && has_right_path) {
            OptionRerun::Nothing
        } else if has_unsaved_changes || editing_dirty {
            OptionRerun::Rescan
        } else {
            OptionRerun::RunDiff
        },
{
    if has_left_path && has_right_path {
        if has_unsaved_changes || editing_dirty {
            OptionRerun::Rescan
        } else {
            OptionRerun::RunDiff
        }
    } else {
        OptionRerun::Nothing
    }
}

} // verus!
