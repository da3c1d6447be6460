//! Character-level string helpers shared by the comparison and export modules.
use vstd::prelude::*;
use vstd::std_specs::iter::IteratorSpec;

verus! {

/// `String::push` appends one character.
#[verifier::external_body]
pub(crate) fn push_char(s: &mut String, c: char)
    ensures
        final(s)@ == old(s)@.push(c),
{
    s.push(c);
}

/// The characters of `s`, in order.
pub fn str_chars(s: &str) -> (v: Vec<char>)
    ensures
        v@ == s@,
{
    let mut out: Vec<char> = Vec::new();
    let mut it = s.chars();
    proof {
        broadcast use vstd::string::group_string_axioms;
    }
    loop
        invariant
            it.obeys_prophetic_iter_laws(),
            s@ == out@ + it.remaining(),
            it.decrease() is Some,
        ensures
            out@ == s@,
        decreases it.decrease()->0,
    {
        match it.next() {
            Some(c) => {
                out.push(c);
            },
            None => {
                assert(out@ + it.remaining() =~= out@);
                break ;
            },
        }
    }
    out
}

} // verus!

verus! {

/// `s` without one trailing carriage return.
pub open spec fn strip_cr(s: Seq<char>) -> Seq<char> {
    if s.len() > 0 && s.last() == '\r' {
        s.drop_last()
    } else {
        s
    }
}

/// Lines of `s` (as `str::lines` splits them) when `cur` holds the
/// characters already read of the current, unfinished line.
pub open spec fn lines_from(s: Seq<char>, cur: Seq<char>) -> Seq<Seq<char>>
    decreases s.len(),
{
    if s.len() == 0 {
        if cur.len() == 0 {
            Seq::empty()
        } else {
            seq![cur]
        }
    } else if s[0] == '\n' {
        seq![strip_cr(cur)] + lines_from(s.drop_first(), Seq::empty())
    } else {
        lines_from(s.drop_first(), cur.push(s[0]))
    }
}

/// The lines of a text: split at `\n`, a `\r` before the `\n` dropped, and no
/// empty last line after a final line ending.
pub open spec fn text_lines(s: Seq<char>) -> Seq<Seq<char>> {
    lines_from(s, Seq::empty())
}

/// Each line followed by `\n`, concatenated.
pub open spec fn join_lines_nl(lines: Seq<Seq<char>>) -> Seq<char>
    decreases lines.len(),
{
    if lines.len() == 0 {
        Seq::empty()
    } else {
        join_lines_nl(lines.drop_last()) + lines.last() + seq!['\n']
    }
}

/// The views of a vector of strings.
pub open spec fn views(v: Seq<String>) -> Seq<Seq<char>> {
    v.map_values(|s: String| s@)
}

/// A `String` holding the characters `v[lo..hi]`.
pub fn string_from_range(v: &[char], lo: usize, hi: usize) -> (s: String)
    requires
        lo <= hi <= v@.len(),
    ensures
        s@ == v@.subrange(lo as int, hi as int),
{
    let mut s = String::new();
    let mut i: usize = lo;
    while i < hi
        invariant
            lo <= i <= hi <= v@.len(),
            s@ == v@.subrange(lo as int, i as int),
        decreases hi - i,
    {
        push_char(&mut s, v[i]);
        i = i + 1;
        assert(s@ =~= v@.subrange(lo as int, i as int));
    }
    s
}

/// A `String` holding the characters of `v`.
pub fn string_from_chars(v: &[char]) -> (s: String)
    ensures
        s@ == v@,
{
    let s = string_from_range(v, 0, v.len());
    assert(v@.subrange(0, v@.len() as int) =~= v@);
    s
}

/// A `String` holding `cur` without one trailing carriage return.
fn line_without_cr(cur: &Vec<char>) -> (s: String)
    ensures
        s@ == strip_cr(cur@),
{
    if cur.len() > 0 && cur[cur.len() - 1] == '\r' {
        let s = string_from_range(cur.as_slice(), 0, cur.len() - 1);
        assert(cur@.subrange(0, cur.len() - 1) =~= cur@.drop_last());
        s
    } else {
        string_from_chars(cur.as_slice())
    }
}

/// Splits `s` into its lines (the same lines as `str::lines`).
pub fn split_lines(s: &str) -> (lines: Vec<String>)
    ensures
        views(lines@) == text_lines(s@),
{
    let chars = str_chars(s);
    let mut lines: Vec<String> = Vec::new();
    let mut cur: Vec<char> = Vec::new();
    let mut i: usize = 0;
    assert(chars@.skip(0) =~= chars@);
    while i < chars.len()
        invariant
            i <= chars.len(),
            chars@ == s@,
            text_lines(s@) == views(lines@) + lines_from(chars@.skip(i as int), cur@),
        decreases chars.len() - i,
    {
        let c = chars[i];
        let ghost rest = chars@.skip(i as int);
        assert(rest.drop_first() =~= chars@.skip(i + 1));
        if c == '\n' {
            let line = line_without_cr(&cur);
            let ghost old_lines = lines@;
            lines.push(line);
            cur = Vec::new();
            assert(views(lines@) =~= views(old_lines).push(line@));
            assert(views(lines@) + lines_from(chars@.skip(i + 1), cur@) =~= views(old_lines) + (
            seq![line@] + lines_from(rest.drop_first(), Seq::empty())));
        } else {
            cur.push(c);
        }
        i = i + 1;
    }
    assert(chars@.skip(i as int) =~= Seq::<char>::empty());
    if cur.len() > 0 {
        let ghost old_lines = lines@;
        let line = string_from_chars(cur.as_slice());
        lines.push(line);
        assert(views(lines@) =~= views(old_lines).push(line@));
    }
    assert(views(lines@) =~= text_lines(s@));
    lines
}


proof fn lemma_join_prepend(x: Seq<char>, rest: Seq<Seq<char>>)
    ensures
        join_lines_nl(seq![x] + rest) == x + seq!['\n'] + join_lines_nl(rest),
    decreases rest.len(),
{
    if rest.len() == 0 {
        assert(seq![x] + rest =~= seq![x]);
        assert(seq![x].drop_last() =~= Seq::<Seq<char>>::empty());
        assert(join_lines_nl(seq![x]) == join_lines_nl(Seq::<Seq<char>>::empty()) + x + seq!['\n']);
        assert(x + seq!['\n'] + join_lines_nl(rest) =~= Seq::<char>::empty() + x + seq!['\n']);
    } else {
        let all = seq![x] + rest;
        assert(all.drop_last() =~= seq![x] + rest.drop_last());
        assert(all.last() == rest.last());
        lemma_join_prepend(x, rest.drop_last());
        assert(join_lines_nl(all) == join_lines_nl(all.drop_last()) + all.last() + seq!['\n']);
        assert(join_lines_nl(rest) == join_lines_nl(rest.drop_last()) + rest.last() + seq!['\n']);
        assert(x + seq!['\n'] + join_lines_nl(rest.drop_last()) + rest.last() + seq!['\n'] =~= x + seq!['\n'] + (join_lines_nl(rest.drop_last()) + rest.last() + seq!['\n']));
    }
}

proof fn lemma_join_lines_from(s: Seq<char>, cur: Seq<char>)
    requires
        forall|i: int| 0 <= i < s.len() ==> s[i] != '\r',
        forall|i: int| 0 <= i < cur.len() ==> cur[i] != '\r',
        (s.len() == 0 && cur.len() == 0) || (s.len() > 0 && s.last() == '\n'),
    ensures
        join_lines_nl(lines_from(s, cur)) == cur + s,
    decreases s.len(),
{
    if s.len() == 0 {
        assert(cur + s =~= Seq::<char>::empty());
    } else {
        let rest = s.drop_first();
        if s[0] == '\n' {
            if cur.len() > 0 {
                assert(cur[cur.len() - 1] != '\r');
            }
            assert(strip_cr(cur) == cur);
            if rest.len() > 0 {
                assert(rest.last() == s.last());
            }
            lemma_join_lines_from(rest, Seq::empty());
            lemma_join_prepend(cur, lines_from(rest, Seq::empty()));
            assert(cur + seq!['\n'] + (Seq::<char>::empty() + rest) =~= cur + s);
        } else {
            assert(rest.len() > 0);
            assert(rest.last() == s.last());
            lemma_join_lines_from(rest, cur.push(s[0]));
            assert(cur.push(s[0]) + rest =~= cur + s);
        }
    }
}

/// Joining the lines of a text, each followed by `\n`, gives the text back
/// when it has no carriage return and is empty or ends with a line feed.
pub proof fn lemma_join_text_lines(s: Seq<char>)
    requires
        forall|i: int| 0 <= i < s.len() ==> s[i] != '\r',
        s.len() == 0 || s.last() == '\n',
    ensures
        join_lines_nl(text_lines(s)) == s,
{
    lemma_join_lines_from(s, Seq::empty());
    assert(Seq::<char>::empty() + s =~= s);
}

/// Appends `t` to `s`.
pub(crate) fn push_str(s: &mut String, t: &str)
    ensures
        final(s)@ == old(s)@ + t@,
{
    s.append(t);
}


/// Unicode `White_Space` (what `char::is_whitespace` tests).
pub open spec fn is_ws(c: char) -> bool {
    ('\u{9}' <= c && c <= '\u{d}') || c == ' ' || c == '\u{85}' || c == '\u{a0}' || c == '\u{1680}'
        || ('\u{2000}' <= c && c <= '\u{200a}') || c == '\u{2028}' || c == '\u{2029}' || c
        == '\u{202f}' || c == '\u{205f}' || c == '\u{3000}'
}

/// Tests `is_ws`.
pub fn is_whitespace_char(c: char) -> (b: bool)
    ensures
        b == is_ws(c),
{
    ('\u{9}' <= c && c <= '\u{d}') || c == ' ' || c == '\u{85}' || c == '\u{a0}' || c == '\u{1680}'
        || ('\u{2000}' <= c && c <= '\u{200a}') || c == '\u{2028}' || c == '\u{2029}' || c
        == '\u{202f}' || c == '\u{205f}' || c == '\u{3000}'
}

/// Every character of `s` is white space (so `s.trim()` is empty).
pub open spec fn all_ws(s: Seq<char>) -> bool {
    forall|i: int| 0 <= i < s.len() ==> is_ws(#[trigger] s[i])
}

/// Tests `all_ws`.
pub fn is_blank(s: &Vec<char>) -> (b: bool)
    ensures
        b == all_ws(s@),
{
    let mut i: usize = 0;
    while i < s.len()
        invariant
            i <= s@.len(),
            forall|k: int| 0 <= k < i ==> is_ws(#[trigger] s@[k]),
        decreases s@.len() - i,
    {
        if !is_whitespace_char(s[i]) {
            return false;
        }
        i = i + 1;
    }
    true
}

/// Index of the first non-white-space character (or the length).
pub open spec fn trim_start_index(s: Seq<char>) -> int
    decreases s.len(),
{
    if s.len() == 0 || !is_ws(s[0]) {
        0
    } else {
        1 + trim_start_index(s.drop_first())
    }
}

/// Index after the last non-white-space character (or 0).
pub open spec fn trim_end_index(s: Seq<char>) -> int
    decreases s.len(),
{
    if s.len() == 0 || !is_ws(s.last()) {
        s.len() as int
    } else {
        trim_end_index(s.drop_last())
    }
}

/// `s` without leading and trailing white space (`str::trim`).
pub open spec fn trimmed(s: Seq<char>) -> Seq<char> {
    let t = s.subrange(trim_start_index(s), s.len() as int);
    t.subrange(0, trim_end_index(t))
}

proof fn lemma_trim_start_bound(s: Seq<char>)
    ensures
        0 <= trim_start_index(s) <= s.len(),
        forall|i: int| 0 <= i < trim_start_index(s) ==> is_ws(#[trigger] s[i]),
        trim_start_index(s) < s.len() ==> !is_ws(s[trim_start_index(s)]),
    decreases s.len(),
{
    if s.len() > 0 && is_ws(s[0]) {
        lemma_trim_start_bound(s.drop_first());
        assert forall|i: int| 0 <= i < trim_start_index(s) implies is_ws(#[trigger] s[i]) by {
            if i > 0 { assert(s[i] == s.drop_first()[i - 1]); }
        }
    }
}

proof fn lemma_trim_end_bound(s: Seq<char>)
    ensures
        0 <= trim_end_index(s) <= s.len(),
        forall|i: int| trim_end_index(s) <= i < s.len() ==> is_ws(#[trigger] s[i]),
        trim_end_index(s) > 0 ==> !is_ws(s[trim_end_index(s) - 1]),
    decreases s.len(),
{
    if s.len() > 0 && is_ws(s.last()) {
        lemma_trim_end_bound(s.drop_last());
        assert forall|i: int| trim_end_index(s) <= i < s.len() implies is_ws(#[trigger] s[i]) by {
            if i < s.len() - 1 { assert(s[i] == s.drop_last()[i]); }
        }
    }
}

/// `(start, end)` with `s[start..end]` the trimmed text.
pub fn trim_bounds(s: &Vec<char>) -> (r: (usize, usize))
    ensures
        r.0 <= r.1 <= s@.len(),
        s@.subrange(r.0 as int, r.1 as int) == trimmed(s@),
{
    proof { lemma_trim_start_bound(s@); }
    let mut a: usize = 0;
    while a < s.len() && is_whitespace_char(s[a])
        invariant
            a <= s@.len(),
            forall|i: int| 0 <= i < a ==> is_ws(#[trigger] s@[i]),
            a <= trim_start_index(s@),
            0 <= trim_start_index(s@) <= s@.len(),
            forall|i: int| 0 <= i < trim_start_index(s@) ==> is_ws(#[trigger] s@[i]),
            trim_start_index(s@) < s@.len() ==> !is_ws(s@[trim_start_index(s@)]),
        decreases s@.len() - a,
    {
        a = a + 1;
    }
    assert(a == trim_start_index(s@));
    let ghost t = s@.subrange(a as int, s@.len() as int);
    proof { lemma_trim_end_bound(t); }
    let mut b: usize = s.len();
    while b > a && is_whitespace_char(s[b - 1])
        invariant
            a <= b <= s@.len(),
            t == s@.subrange(a as int, s@.len() as int),
            forall|i: int| b <= i < s@.len() ==> is_ws(#[trigger] s@[i]),
            b - a >= trim_end_index(t),
            0 <= trim_end_index(t) <= t.len(),
            forall|i: int| trim_end_index(t) <= i < t.len() ==> is_ws(#[trigger] t[i]),
            trim_end_index(t) > 0 ==> !is_ws(t[trim_end_index(t) - 1]),
        decreases b,
    {
        assert(t[b - 1 - a] == s@[b - 1]);
        b = b - 1;
    }
    if b > a {
        assert(t[b - 1 - a] == s@[b - 1]);
    }
    assert(b - a == trim_end_index(t));
    assert(s@.subrange(a as int, b as int) =~= t.subrange(0, trim_end_index(t)));
    (a, b)
}

/// The white-space separated words of `s` (`str::split_whitespace`) when
/// `cur` holds the characters already read of the current word.
pub open spec fn words_from(s: Seq<char>, cur: Seq<char>) -> Seq<Seq<char>>
    decreases s.len(),
{
    let done: Seq<Seq<char>> = if cur.len() > 0 { seq![cur] } else { Seq::empty() };
    if s.len() == 0 {
        done
    } else if is_ws(s[0]) {
        done + words_from(s.drop_first(), Seq::empty())
    } else {
        words_from(s.drop_first(), cur.push(s[0]))
    }
}

/// Words joined with single spaces.
pub open spec fn join_spaces(ws: Seq<Seq<char>>) -> Seq<char>
    decreases ws.len(),
{
    if ws.len() == 0 {
        Seq::empty()
    } else if ws.len() == 1 {
        ws[0]
    } else {
        join_spaces(ws.drop_last()) + seq![' '] + ws.last()
    }
}

/// `s.split_whitespace().collect::<Vec<_>>().join(" ")`.
pub open spec fn collapse_ws(s: Seq<char>) -> Seq<char> {
    join_spaces(words_from(s, Seq::empty()))
}

proof fn lemma_join_spaces_push(ws: Seq<Seq<char>>, w: Seq<char>)
    ensures
        join_spaces(ws.push(w)) == if ws.len() == 0 { w } else { join_spaces(ws) + seq![' '] + w },
{
    assert(ws.push(w).drop_last() =~= ws);
}

/// Collapses white space as `split_whitespace` followed by a join with one space.
pub fn collapse_whitespace(s: &Vec<char>) -> (out: Vec<char>)
    ensures
        out@ == collapse_ws(s@),
{
    let mut out: Vec<char> = Vec::new();
    let mut done: Ghost<Seq<Seq<char>>> = Ghost(Seq::empty());
    let mut cur: Vec<char> = Vec::new();
    let mut any_word = false;
    let mut i: usize = 0;
    assert(s@.skip(0) =~= s@);
    while i < s.len()
        invariant
            i <= s@.len(),
            any_word == (done@.len() > 0),
            words_from(s@, Seq::empty()) == done@ + words_from(s@.skip(i as int), cur@),
            out@ == join_spaces(done@),
        decreases s@.len() - i,
    {
        let c = s[i];
        let ghost rest = s@.skip(i as int);
        assert(rest.drop_first() =~= s@.skip(i + 1));
        assert(rest[0] == c);
        if is_whitespace_char(c) {
            assert(words_from(rest, cur@) == (if cur@.len() > 0 { seq![cur@] } else { Seq::<Seq<char>>::empty() }) + words_from(rest.drop_first(), Seq::empty()));
            if cur.len() > 0 {
                proof { lemma_join_spaces_push(done@, cur@); }
                if any_word {
                    out.push(' ');
                }
                let mut k: usize = 0;
                let ghost base = out@;
                while k < cur.len()
                    invariant
                        k <= cur@.len(),
                        out@ == base + cur@.take(k as int),
                    decreases cur@.len() - k,
                {
                    out.push(cur[k]);
                    k = k + 1;
                    assert(out@ =~= base + cur@.take(k as int));
                }
                assert(cur@.take(cur@.len() as int) =~= cur@);
                proof {
                    if done@.len() == 0 { assert(base =~= Seq::<char>::empty()); assert(out@ =~= cur@); }
                    else { assert(base == join_spaces(done@) + seq![' ']); }
                }
                let ghost old_done = done@;
                proof { done@ = done@.push(cur@); }
                assert(old_done + (seq![cur@] + words_from(rest.drop_first(), Seq::empty())) =~= done@ + words_from(s@.skip(i + 1), Seq::empty()));
                cur = Vec::new();
                assert(words_from(s@, Seq::empty()) == done@ + words_from(s@.skip(i + 1), cur@));
                any_word = true;
            } else {
                assert(cur@ =~= Seq::<char>::empty());
                assert(done@ + words_from(rest, cur@) =~= done@ + words_from(s@.skip(i + 1), Seq::empty()));
            }
        } else {
            assert(words_from(rest, cur@) == words_from(rest.drop_first(), cur@.push(c)));
            cur.push(c);
            assert(words_from(s@, Seq::empty()) == done@ + words_from(s@.skip(i + 1), cur@));
        }
        i = i + 1;
    }
    assert(s@.skip(i as int) =~= Seq::<char>::empty());
    if cur.len() > 0 {
        proof { lemma_join_spaces_push(done@, cur@); }
        if any_word {
            out.push(' ');
        }
        let mut k: usize = 0;
        let ghost base = out@;
        while k < cur.len()
            invariant
                k <= cur@.len(),
                out@ == base + cur@.take(k as int),
            decreases cur@.len() - k,
        {
            out.push(cur[k]);
            k = k + 1;
            assert(out@ =~= base + cur@.take(k as int));
        }
        assert(cur@.take(cur@.len() as int) =~= cur@);
        proof {
            if done@.len() == 0 { assert(base =~= Seq::<char>::empty()); assert(out@ =~= cur@); }
            assert(done@ + words_from(Seq::empty(), cur@) =~= done@.push(cur@));
        }
    } else {
        assert(done@ + words_from(Seq::empty(), cur@) =~= done@);
    }
    out
}


/// A `String` with the characters of `s`.
pub fn str_to_string(s: &str) -> (r: String)
    ensures
        r@ == s@,
{
    let mut r = String::new();
    push_str(&mut r, s);
    assert(r@ =~= s@);
    r
}


pub proof fn lemma_char_u64(c: char)
    ensures
        (c as nat) == ((c as u32) as u64),
        (c as u32) <= 0x10FFFF,
{
    vstd::utf8::char_is_scalar(c);
}


/// The last position of `c` among the first `n` characters of `s`.
pub open spec fn last_pos(s: Seq<char>, c: char, n: int) -> Option<int>
    decreases n,
{
    if n <= 0 {
        None
    } else if s[n - 1] == c {
        Some(n - 1)
    } else {
        last_pos(s, c, n - 1)
    }
}

/// A path without its trailing `/` separators and trailing `.` components
/// (`a/b/` and `a/b/.` both name `b`, as `Path::components` reads them).
pub open spec fn trim_tail(s: Seq<char>) -> Seq<char>
    decreases s.len(),
{
    if s.len() > 0 && s.last() == '/' {
        trim_tail(s.drop_last())
    } else if s.len() >= 2 && s.last() == '.' && s[s.len() - 2] == '/' {
        trim_tail(s.drop_last())
    } else {
        s
    }
}

/// The file name of a path: the text after the last `/` once trailing
/// separators and `.` components are gone (empty for `/` or an empty path).
pub open spec fn base_name(path: Seq<char>) -> Seq<char> {
    let t = trim_tail(path);
    match last_pos(t, '/', t.len() as int) {
        Some(i) => t.skip(i + 1),
        None => t,
    }
}

/// The extension of a path, with `/` as the separator: the text after the
/// last `.` of its file name (see `base_name`); none when the name has no
/// `.`, starts with its only `.` (a hidden file), or is `..` or `.`.
pub open spec fn path_extension(path: Seq<char>) -> Option<Seq<char>> {
    let name = base_name(path);
    if name == ".."@ {
        None
    } else {
        match last_pos(name, '.', name.len() as int) {
            Some(i) => if i > 0 { Some(name.skip(i + 1)) } else { None },
            None => None,
        }
    }
}

proof fn lemma_last_pos_range(s: Seq<char>, c: char, n: int)
    requires
        n <= s.len(),
    ensures
        last_pos(s, c, n) matches Some(i) ==> 0 <= i < n && s[i] == c,
    decreases n,
{
    if n > 0 && s[n - 1] != c {
        lemma_last_pos_range(s, c, n - 1);
    }
}

fn last_index(v: &Vec<char>, c: char) -> (r: Option<usize>)
    ensures
        r matches Some(i) ==> i < v@.len() && v@[i as int] == c && last_pos(v@, c, v@.len() as int) == Some(i as int),
        r is None ==> last_pos(v@, c, v@.len() as int) is None,
{
    proof {
        lemma_last_pos_range(v@, c, v@.len() as int);
    }
    let mut k: usize = v.len();
    while k > 0
        invariant
            k <= v@.len(),
            last_pos(v@, c, v@.len() as int) == last_pos(v@, c, k as int),
        decreases k,
    {
        if v[k - 1] == c {
            return Some(k - 1);
        }
        k = k - 1;
    }
    None
}

fn chars_from(v: &Vec<char>, lo: usize) -> (r: Vec<char>)
    requires
        lo <= v@.len(),
    ensures
        r@ == v@.skip(lo as int),
{
    let mut r: Vec<char> = Vec::new();
    let mut i: usize = lo;
    while i < v.len()
        invariant
            lo <= i <= v@.len(),
            r@ == v@.subrange(lo as int, i as int),
        decreases v@.len() - i,
    {
        r.push(v[i]);
        assert(r@ =~= v@.subrange(lo as int, i + 1));
        i = i + 1;
    }
    assert(v@.subrange(lo as int, v@.len() as int) =~= v@.skip(lo as int));
    r
}

/// `base` joined with `p` as `Path::join` does with `/` separators: an
/// absolute `p` replaces `base`; otherwise `p` follows `base`, after a `/`
/// unless `base` is empty or already ends with one.
pub open spec fn joined_path(base: Seq<char>, p: Seq<char>) -> Seq<char> {
    if p.len() > 0 && p[0] == '/' {
        p
    } else if base.len() == 0 || base.last() == '/' {
        base + p
    } else {
        base + seq!['/'] + p
    }
}

/// Joins a path to a folder (see `joined_path`).
pub fn join_path(base: &str, p: &str) -> (r: String)
    ensures
        r@ == joined_path(base@, p@),
{
    let pc = str_chars(p);
    if pc.len() > 0 && pc[0] == '/' {
        return str_to_string(p);
    }
    let bc = str_chars(base);
    let mut r = str_to_string(base);
    if bc.len() > 0 && bc[bc.len() - 1] != '/' {
        push_char(&mut r, '/');
        assert(r@ == base@ + seq!['/']);
    }
    push_str(&mut r, p);
    r
}

/// The length of `trim_tail` of the characters.
fn trim_tail_len(v: &Vec<char>) -> (n: usize)
    ensures
        n <= v@.len(),
        v@.take(n as int) == trim_tail(v@),
{
    let mut n: usize = v.len();
    assert(v@.take(n as int) =~= v@);
    while n > 0 && (v[n - 1] == '/' || (n >= 2 && v[n - 1] == '.' && v[n - 2] == '/'))
        invariant
            n <= v@.len(),
            trim_tail(v@.take(n as int)) == trim_tail(v@),
        decreases n,
    {
        let ghost t = v@.take(n as int);
        assert(t.drop_last() =~= v@.take(n - 1));
        assert(t.last() == v@[n - 1]);
        n = n - 1;
    }
    proof {
        let t = v@.take(n as int);
        if n > 0 {
            assert(t.last() == v@[n - 1]);
        }
        if n >= 2 {
            assert(t[t.len() - 2] == v@[n - 2]);
        }
        assert(trim_tail(t) == t);
    }
    n
}

/// The first `n` characters.
fn prefix_chars(v: &Vec<char>, n: usize) -> (r: Vec<char>)
    requires
        n <= v@.len(),
    ensures
        r@ == v@.take(n as int),
{
    let mut r: Vec<char> = Vec::new();
    let mut i: usize = 0;
    while i < n
        invariant
            i <= n <= v@.len(),
            r@ == v@.take(i as int),
        decreases n - i,
    {
        r.push(v[i]);
        assert(r@ =~= v@.take(i + 1));
        i = i + 1;
    }
    r
}

/// The extension of a path (see `path_extension`).
pub(crate) fn file_extension(path: &str) -> (r: Option<String>)
    ensures
        r is Some == path_extension(path@) is Some,
        r matches Some(e) ==> e@ == path_extension(path@)->0,
{
    let full = str_chars(path);
    let n = trim_tail_len(&full);
    let p = prefix_chars(&full, n);
    let slash = last_index(&p, '/');
    let mut start: usize = 0;
    if let Some(i) = slash {
        start = i + 1;
    }
    let name = chars_from(&p, start);
    proof {
        assert(p@ == trim_tail(path@));
        match slash {
            Some(i) => {
                assert(base_name(path@) == p@.skip(i + 1));
            },
            None => {
                assert(p@.skip(0) =~= p@);
            },
        }
    }
    assert(name@ == base_name(path@));
    if name.len() == 2 && name[0] == '.' && name[1] == '.' {
        assert(name@ =~= ".."@) by {
            reveal_strlit("..");
        }
        return None;
    }
    assert(name@ != ".."@) by {
        reveal_strlit("..");
        if name@ == ".."@ {
            assert(name@[0] == '.' && name@[1] == '.');
        }
    }
    match last_index(&name, '.') {
        Some(i) => {
            if i > 0 {
                let ext = chars_from(&name, i + 1);
                Some(string_from_chars(ext.as_slice()))
            } else {
                None
            }
        },
        None => None,
    }
}

/// `str::to_lowercase` (Unicode lower case mapping).
pub uninterp spec fn lowercase(s: Seq<char>) -> Seq<char>;

/// Every character is ASCII.
pub open spec fn all_ascii(s: Seq<char>) -> bool {
    forall|i: int| 0 <= i < s.len() ==> (s[i] as u32) < 128
}

/// A text with `A`..`Z` lowered (see `ascii_lower`).
pub open spec fn ascii_lowered(s: Seq<char>) -> Seq<char> {
    s.map_values(|c: char| ascii_lower(c))
}

/// Calls `str::to_lowercase`. Its result is named; for ASCII text it is the
/// ASCII lower case (the Unicode lower-case mapping, which std documents,
/// maps `A`..`Z` to `a`..`z` and leaves the other ASCII characters alone).
#[verifier::external_body]
pub(crate) fn to_lowercase(s: &str) -> (r: String)
    ensures
        r@ == lowercase(s@),
        all_ascii(s@) ==> r@ == ascii_lowered(s@),
{
    s.to_lowercase()
}

/// Are two strings equal?
pub fn str_eq(a: &str, b: &str) -> (r: bool)
    ensures
        r == (a@ == b@),
{
    let x = str_chars(a);
    let y = str_chars(b);
    if x.len() != y.len() {
        return false;
    }
    let mut k: usize = 0;
    while k < x.len()
        invariant
            x@ == a@,
            y@ == b@,
            x@.len() == y@.len(),
            k <= x@.len(),
            forall|i: int| 0 <= i < k ==> x@[i] == y@[i],
        decreases x@.len() - k,
    {
        if x[k] != y[k] {
            return false;
        }
        k = k + 1;
    }
    assert(x@ =~= y@);
    true
}

/// ASCII lower case of one character.
pub open spec fn ascii_lower(c: char) -> char {
    if 'A' <= c && c <= 'Z' { ((c as u32) + 32) as char } else { c }
}

/// Equal ignoring ASCII case (`eq_ignore_ascii_case`).
pub open spec fn eq_ignore_ascii_case(a: Seq<char>, b: Seq<char>) -> bool {
    a.len() == b.len() && forall|i: int| 0 <= i < a.len() ==> ascii_lower(a[i]) == ascii_lower(b[i])
}

pub fn ascii_lower_char(c: char) -> (r: char)
    ensures
        r == ascii_lower(c),
{
    if 'A' <= c && c <= 'Z' {
        ((c as u32) + 32) as u8 as char
    } else {
        c
    }
}

/// `str::eq_ignore_ascii_case`.
pub fn str_eq_ignore_ascii_case(a: &str, b: &str) -> (r: bool)
    ensures
        r == eq_ignore_ascii_case(a@, b@),
{
    let x = str_chars(a);
    let y = str_chars(b);
    if x.len() != y.len() {
        return false;
    }
    let mut k: usize = 0;
    while k < x.len()
        invariant
            x@ == a@,
            y@ == b@,
            x@.len() == y@.len(),
            k <= x@.len(),
            forall|i: int| 0 <= i < k ==> ascii_lower(x@[i]) == ascii_lower(y@[i]),
        decreases x@.len() - k,
    {
        if ascii_lower_char(x[k]) != ascii_lower_char(y[k]) {
            return false;
        }
        k = k + 1;
    }
    true
}

/// ASCII lower case of a text (`to_ascii_lowercase`).
pub open spec fn ascii_lowercase(s: Seq<char>) -> Seq<char> {
    s.map_values(|c: char| ascii_lower(c))
}

pub fn to_ascii_lowercase(s: &str) -> (r: String)
    ensures
        r@ == ascii_lowercase(s@),
{
    let x = str_chars(s);
    let mut out: Vec<char> = Vec::new();
    let mut k: usize = 0;
    while k < x.len()
        invariant
            x@ == s@,
            k <= x@.len(),
            out@ == ascii_lowercase(x@.take(k as int)),
        decreases x@.len() - k,
    {
        out.push(ascii_lower_char(x[k]));
        k = k + 1;
        assert(out@ =~= ascii_lowercase(x@.take(k as int)));
    }
    assert(x@.take(x@.len() as int) =~= x@);
    string_from_chars(out.as_slice())
}

} // verus!

verus! {

/// `p` is a prefix of `s`.
pub open spec fn has_prefix(s: Seq<char>, p: Seq<char>) -> bool {
    p.len() <= s.len() && s.take(p.len() as int) == p
}

/// `p` occurs in `s` at position `i`.
pub open spec fn occurs_at(s: Seq<char>, p: Seq<char>, i: int) -> bool {
    0 <= i && i + p.len() <= s.len() && s.subrange(i, i + p.len()) == p
}

/// `p` occurs somewhere in `s`.
pub open spec fn has_infix(s: Seq<char>, p: Seq<char>) -> bool {
    exists|i: int| #[trigger] occurs_at(s, p, i)
}

/// Does `p` occur in `s` at position `i`?
pub fn matches_at(s: &Vec<char>, p: &Vec<char>, i: usize) -> (b: bool)
    requires
        i <= s@.len(),
    ensures
        b == occurs_at(s@, p@, i as int),
{
    let n = s.len();
    if p.len() > n - i {
        return false;
    }
    let mut k: usize = 0;
    while k < p.len()
        invariant
            k <= p@.len(),
            n == s@.len(),
            i <= s@.len(),
            i + p@.len() <= s@.len(),
            forall|j: int| 0 <= j < k ==> s@[i + j] == p@[j],
        decreases p@.len() - k,
    {
        if s[i + k] != p[k] {
            assert(s@.subrange(i as int, i + p@.len())[k as int] != p@[k as int]);
            return false;
        }
        k = k + 1;
    }
    assert(s@.subrange(i as int, i + p@.len()) =~= p@);
    true
}

/// `str::starts_with` for a string pattern.
pub fn str_starts_with(s: &str, p: &str) -> (b: bool)
    ensures
        b == has_prefix(s@, p@),
{
    let sv = str_chars(s);
    let pv = str_chars(p);
    let b = matches_at(&sv, &pv, 0);
    assert(sv@.subrange(0, pv@.len() as int) =~= sv@.take(pv@.len() as int));
    b
}

/// `str::contains` for a string pattern.
pub fn str_contains(s: &str, p: &str) -> (b: bool)
    ensures
        b == has_infix(s@, p@),
{
    let sv = str_chars(s);
    let pv = str_chars(p);
    if pv.len() == 0 {
        assert(s@.subrange(0, 0) =~= p@);
        assert(occurs_at(s@, p@, 0));
        return true;
    }
    if pv.len() > sv.len() {
        return false;
    }
    let last = sv.len() - pv.len();
    let mut i: usize = 0;
    while i <= last
        invariant
            i <= last + 1,
            last < usize::MAX,
            last + pv@.len() == sv@.len(),
            pv@.len() >= 1,
            sv@ == s@,
            pv@ == p@,
            forall|j: int| 0 <= j < i ==> !occurs_at(s@, p@, j),
        decreases last + 1 - i,
    {
        if matches_at(&sv, &pv, i) {
            return true;
        }
        i = i + 1;
    }
    assert forall|j: int| !(#[trigger] occurs_at(s@, p@, j)) by {
        if 0 <= j < i {
        } else {
        }
    }
    false
}

} // verus!

verus! {

/// The white-space separated words of `s` (`str::split_whitespace`).
pub fn split_words(s: &str) -> (words: Vec<Vec<char>>)
    ensures
        words@.map_values(|w: Vec<char>| w@) == words_from(s@, Seq::empty()),
{
    let sv = str_chars(s);
    let mut words: Vec<Vec<char>> = Vec::new();
    let mut cur: Vec<char> = Vec::new();
    let mut i: usize = 0;
    assert(sv@.skip(0) =~= sv@);
    while i < sv.len()
        invariant
            i <= sv@.len(),
            sv@ == s@,
            words_from(s@, Seq::empty()) == words@.map_values(|w: Vec<char>| w@) + words_from(sv@.skip(i as int), cur@),
        decreases sv@.len() - i,
    {
        let c = sv[i];
        let ghost rest = sv@.skip(i as int);
        let ghost done = words@.map_values(|w: Vec<char>| w@);
        assert(rest.drop_first() =~= sv@.skip(i + 1));
        assert(rest[0] == c);
        if is_whitespace_char(c) {
            if cur.len() > 0 {
                let ghost cv = cur@;
                words.push(cur);
                cur = Vec::new();
                assert(words@.map_values(|w: Vec<char>| w@) =~= done.push(cv));
                assert(done + (seq![cv] + words_from(rest.drop_first(), Seq::empty())) =~= done.push(cv) + words_from(sv@.skip(i + 1), cur@));
            } else {
                assert(cur@ =~= Seq::<char>::empty());
                assert(done + words_from(rest, cur@) =~= done + words_from(sv@.skip(i + 1), Seq::empty()));
            }
        } else {
            assert(words_from(rest, cur@) == words_from(rest.drop_first(), cur@.push(c)));
            cur.push(c);
        }
        i = i + 1;
    }
    assert(sv@.skip(i as int) =~= Seq::<char>::empty());
    let ghost done = words@.map_values(|w: Vec<char>| w@);
    if cur.len() > 0 {
        let ghost cv = cur@;
        words.push(cur);
        assert(words@.map_values(|w: Vec<char>| w@) =~= done.push(cv));
        assert(done + words_from(Seq::empty(), cv) =~= done.push(cv));
    } else {
        assert(done + words_from(Seq::empty(), cur@) =~= done);
    }
    words
}

} // verus!
