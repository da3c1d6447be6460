//! Ordered sets of names: the order in which folder, archive and workbook
//! entries are listed, and lookups of an entry by name.
use vstd::prelude::*;
use crate::text::{views, str_chars, str_to_string};

verus! {

/// Lexicographic order on character sequences (for UTF-8 strings the same
/// order as `String`'s `Ord`, which compares bytes).
pub open spec fn lex_lt(a: Seq<char>, b: Seq<char>) -> bool
    decreases a.len(),
{
    if a.len() == 0 {
        b.len() > 0
    } else if b.len() == 0 {
        false
    } else if a[0] != b[0] {
        a[0] < b[0]
    } else {
        lex_lt(a.drop_first(), b.drop_first())
    }
}

pub proof fn lemma_lex_irreflexive(a: Seq<char>)
    ensures
        !lex_lt(a, a),
    decreases a.len(),
{
    if a.len() > 0 {
        lemma_lex_irreflexive(a.drop_first());
    }
}

pub proof fn lemma_lex_transitive(a: Seq<char>, b: Seq<char>, c: Seq<char>)
    requires
        lex_lt(a, b),
        lex_lt(b, c),
    ensures
        lex_lt(a, c),
    decreases a.len(),
{
    if a.len() > 0 && b.len() > 0 && c.len() > 0 {
        if a[0] == b[0] && b[0] == c[0] {
            lemma_lex_transitive(a.drop_first(), b.drop_first(), c.drop_first());
        }
    }
}

pub proof fn lemma_lex_total(a: Seq<char>, b: Seq<char>)
    ensures
        a == b || lex_lt(a, b) || lex_lt(b, a),
    decreases a.len(),
{
    if a.len() == 0 && b.len() == 0 {
        assert(a =~= b);
    } else if a.len() > 0 && b.len() > 0 && a[0] == b[0] {
        lemma_lex_total(a.drop_first(), b.drop_first());
        if a.drop_first() == b.drop_first() {
            assert(a =~= seq![a[0]] + a.drop_first());
            assert(b =~= seq![b[0]] + b.drop_first());
        }
    }
}

/// Is `a` before `b` in lexicographic order?
pub fn str_lt(a: &str, b: &str) -> (r: bool)
    ensures
        r == lex_lt(a@, b@),
{
    let x = str_chars(a);
    let y = str_chars(b);
    let mut i: usize = 0;
    assert(x@.skip(0) =~= x@);
    assert(y@.skip(0) =~= y@);
    while i < x.len() && i < y.len()
        invariant
            x@ == a@,
            y@ == b@,
            i <= x@.len(),
            i <= y@.len(),
            x@.take(i as int) == y@.take(i as int),
            lex_lt(x@, y@) == lex_lt(x@.skip(i as int), y@.skip(i as int)),
        decreases x@.len() - i,
    {
        let ghost xs = x@.skip(i as int);
        let ghost ys = y@.skip(i as int);
        assert(xs[0] == x@[i as int]);
        assert(ys[0] == y@[i as int]);
        if x[i] != y[i] {
            return x[i] < y[i];
        }
        assert(xs.drop_first() =~= x@.skip(i + 1));
        assert(ys.drop_first() =~= y@.skip(i + 1));
        assert(x@.take(i + 1) =~= x@.take(i as int).push(x@[i as int]));
        assert(y@.take(i + 1) =~= y@.take(i as int).push(y@[i as int]));
        i = i + 1;
    }
    assert(x@.skip(i as int).len() == 0 || y@.skip(i as int).len() == 0);
    i < y.len()
}

/// Strictly increasing in lexicographic order (so no name twice).
pub open spec fn strictly_sorted(s: Seq<Seq<char>>) -> bool {
    forall|i: int, j: int| 0 <= i < j < s.len() ==> lex_lt(#[trigger] s[i], #[trigger] s[j])
}

/// Adds `n` to a strictly sorted list of names, keeping it strictly sorted;
/// nothing changes when it is already there.
pub fn insert_name(names: &mut Vec<String>, n: &str)
    requires
        strictly_sorted(views(old(names)@)),
    ensures
        strictly_sorted(views(final(names)@)),
        forall|x: Seq<char>| views(final(names)@).contains(x) <==> (views(old(names)@).contains(x) || x == n@),
{
    let ghost old_v = views(names@);
    let mut p: usize = 0;
    while p < names.len() && str_lt(names[p].as_str(), n)
        invariant
            p <= names@.len(),
            old_v == views(names@),
            strictly_sorted(old_v),
            forall|k: int| 0 <= k < p ==> lex_lt(#[trigger] old_v[k], n@),
        decreases names@.len() - p,
    {
        p = p + 1;
    }
    if p < names.len() && crate::text::str_eq(names[p].as_str(), n) {
        assert(old_v[p as int] == n@);
        assert(old_v.contains(n@));
        return;
    }
    proof {
        if p < old_v.len() {
            assert(!lex_lt(old_v[p as int], n@));
            assert(old_v[p as int] != n@);
            lemma_lex_total(old_v[p as int], n@);
            assert(lex_lt(n@, old_v[p as int]));
        }
    }
    names.insert(p, str_to_string(n));
    let ghost new_v = views(names@);
    assert(new_v =~= old_v.insert(p as int, n@));
    assert forall|i: int, j: int| 0 <= i < j < new_v.len() implies lex_lt(#[trigger] new_v[i], #[trigger] new_v[j]) by {
        if j < p {
            assert(new_v[i] == old_v[i] && new_v[j] == old_v[j]);
        } else if j == p {
            assert(new_v[i] == old_v[i]);
        } else if i == p {
            assert(new_v[j] == old_v[j - 1]);
            if j - 1 > p {
                assert(lex_lt(old_v[p as int], old_v[j - 1]));
                lemma_lex_transitive(n@, old_v[p as int], old_v[j - 1]);
            }
        } else if i < p {
            assert(new_v[i] == old_v[i] && new_v[j] == old_v[j - 1]);
        } else {
            assert(new_v[i] == old_v[i - 1] && new_v[j] == old_v[j - 1]);
        }
    }
    assert forall|x: Seq<char>| new_v.contains(x) <==> (old_v.contains(x) || x == n@) by {
        if new_v.contains(x) {
            let k = choose|k: int| 0 <= k < new_v.len() && new_v[k] == x;
            if k < p {
                assert(old_v[k] == x);
            } else if k > p {
                assert(old_v[k - 1] == x);
            }
        }
        if old_v.contains(x) {
            let k = choose|k: int| 0 <= k < old_v.len() && old_v[k] == x;
            if k < p {
                assert(new_v[k] == x);
            } else {
                assert(new_v[k + 1] == x);
            }
        }
        if x == n@ {
            assert(new_v[p as int] == x);
        }
    }
}

/// The names of `a` and of `b`, each once, in lexicographic order.
pub fn sorted_union(a: &Vec<String>, b: &Vec<String>) -> (u: Vec<String>)
    ensures
        strictly_sorted(views(u@)),
        forall|x: Seq<char>| views(u@).contains(x) <==> (views(a@).contains(x) || views(b@).contains(x)),
{
    let mut u: Vec<String> = Vec::new();
    assert(views(u@) =~= Seq::<Seq<char>>::empty());
    let mut i: usize = 0;
    while i < a.len()
        invariant
            i <= a@.len(),
            strictly_sorted(views(u@)),
            forall|x: Seq<char>| views(u@).contains(x) <==> views(a@).take(i as int).contains(x),
        decreases a@.len() - i,
    {
        insert_name(&mut u, a[i].as_str());
        proof {
            let t = views(a@).take(i + 1);
            assert(t =~= views(a@).take(i as int).push(a@[i as int]@));
            assert forall|x: Seq<char>| t.contains(x) <==> (views(a@).take(i as int).contains(x) || x == a@[i as int]@) by {
                if t.contains(x) {
                    let k = choose|k: int| 0 <= k < t.len() && t[k] == x;
                    if k < i {
                        assert(views(a@).take(i as int)[k] == x);
                    }
                }
                if views(a@).take(i as int).contains(x) {
                    let k = choose|k: int| 0 <= k < i && views(a@).take(i as int)[k] == x;
                    assert(t[k] == x);
                }
                if x == a@[i as int]@ {
                    assert(t[i as int] == x);
                }
            }
        }
        i = i + 1;
    }
    assert(views(a@).take(a@.len() as int) =~= views(a@));
    let mut j: usize = 0;
    while j < b.len()
        invariant
            j <= b@.len(),
            strictly_sorted(views(u@)),
            forall|x: Seq<char>| views(u@).contains(x) <==> (views(a@).contains(x) || views(b@).take(j as int).contains(x)),
        decreases b@.len() - j,
    {
        insert_name(&mut u, b[j].as_str());
        proof {
            let t = views(b@).take(j + 1);
            assert(t =~= views(b@).take(j as int).push(b@[j as int]@));
            assert forall|x: Seq<char>| t.contains(x) <==> (views(b@).take(j as int).contains(x) || x == b@[j as int]@) by {
                if t.contains(x) {
                    let k = choose|k: int| 0 <= k < t.len() && t[k] == x;
                    if k < j {
                        assert(views(b@).take(j as int)[k] == x);
                    }
                }
                if views(b@).take(j as int).contains(x) {
                    let k = choose|k: int| 0 <= k < j && views(b@).take(j as int)[k] == x;
                    assert(t[k] == x);
                }
                if x == b@[j as int]@ {
                    assert(t[j as int] == x);
                }
            }
        }
        j = j + 1;
    }
    assert(views(b@).take(b@.len() as int) =~= views(b@));
    u
}

/// The index of the first name equal to `n`, if any.
pub open spec fn first_index(names: Seq<Seq<char>>, n: Seq<char>) -> Option<int>
    decreases names.len(),
{
    if names.len() == 0 {
        None
    } else if names[0] == n {
        Some(0)
    } else {
        match first_index(names.drop_first(), n) {
            Some(k) => Some(k + 1),
            None => None,
        }
    }
}

/// The index of the last name equal to `n`, if any.
pub open spec fn last_index(names: Seq<Seq<char>>, n: Seq<char>) -> Option<int>
    decreases names.len(),
{
    if names.len() == 0 {
        None
    } else if names.last() == n {
        Some(names.len() - 1)
    } else {
        last_index(names.drop_last(), n)
    }
}

pub proof fn lemma_first_index(names: Seq<Seq<char>>, n: Seq<char>)
    ensures
        match first_index(names, n) {
            Some(k) => 0 <= k < names.len() && names[k] == n && forall|j: int| 0 <= j < k ==> names[j] != n,
            None => !names.contains(n),
        },
    decreases names.len(),
{
    if names.len() > 0 {
        lemma_first_index(names.drop_first(), n);
        if names[0] != n {
            match first_index(names.drop_first(), n) {
                Some(k) => {
                    assert forall|j: int| 0 <= j < k + 1 implies names[j] != n by {
                        if j > 0 {
                            assert(names[j] == names.drop_first()[j - 1]);
                        }
                    }
                },
                None => {
                    if names.contains(n) {
                        let j = choose|j: int| 0 <= j < names.len() && names[j] == n;
                        assert(names.drop_first()[j - 1] == n);
                    }
                },
            }
        }
    }
}

pub proof fn lemma_last_index(names: Seq<Seq<char>>, n: Seq<char>)
    ensures
        match last_index(names, n) {
            Some(k) => 0 <= k < names.len() && names[k] == n && forall|j: int| k < j < names.len() ==> names[j] != n,
            None => !names.contains(n),
        },
    decreases names.len(),
{
    if names.len() > 0 {
        lemma_last_index(names.drop_last(), n);
        if names.last() != n {
            match last_index(names.drop_last(), n) {
                Some(k) => {
                    assert forall|j: int| k < j < names.len() implies names[j] != n by {
                        if j < names.len() - 1 {
                            assert(names[j] == names.drop_last()[j]);
                        }
                    }
                },
                None => {
                    if names.contains(n) {
                        let j = choose|j: int| 0 <= j < names.len() && names[j] == n;
                        assert(names.drop_last()[j] == n);
                    }
                },
            }
        }
    }
}

/// Finds the first position at which `keys` holds `n`.
pub fn find_first(keys: &Vec<String>, n: &str) -> (r: Option<usize>)
    ensures
        match r {
            Some(k) => first_index(views(keys@), n@) == Some(k as int),
            None => first_index(views(keys@), n@) is None,
        },
{
    let ghost v = views(keys@);
    proof { lemma_first_index(v, n@); }
    let mut i: usize = 0;
    while i < keys.len()
        invariant
            i <= keys@.len(),
            v == views(keys@),
            forall|j: int| 0 <= j < i ==> v[j] != n@,
            match first_index(v, n@) {
                Some(k) => 0 <= k < v.len() && v[k] == n@ && forall|j: int| 0 <= j < k ==> v[j] != n@,
                None => !v.contains(n@),
            },
        decreases keys@.len() - i,
    {
        if crate::text::str_eq(keys[i].as_str(), n) {
            assert(v[i as int] == n@);
            return Some(i);
        }
        i = i + 1;
    }
    proof {
        if first_index(v, n@) is Some {
            let k = first_index(v, n@)->0;
            assert(v[k] == n@);
        }
    }
    None
}

/// Finds the last position at which `keys` holds `n`.
pub fn find_last(keys: &Vec<String>, n: &str) -> (r: Option<usize>)
    ensures
        match r {
            Some(k) => last_index(views(keys@), n@) == Some(k as int),
            None => last_index(views(keys@), n@) is None,
        },
{
    let ghost v = views(keys@);
    proof { lemma_last_index(v, n@); }
    let mut i: usize = keys.len();
    while i > 0
        invariant
            i <= keys@.len(),
            v == views(keys@),
            forall|j: int| i <= j < v.len() ==> v[j] != n@,
            match last_index(v, n@) {
                Some(k) => 0 <= k < v.len() && v[k] == n@ && forall|j: int| k < j < v.len() ==> v[j] != n@,
                None => !v.contains(n@),
            },
        decreases i,
    {
        if crate::text::str_eq(keys[i - 1].as_str(), n) {
            assert(v[i - 1] == n@);
            return Some(i - 1);
        }
        i = i - 1;
    }
    proof {
        if last_index(v, n@) is Some {
            let k = last_index(v, n@)->0;
            assert(v[k] == n@);
        }
    }
    None
}

} // verus!
