//! Decimal and hexadecimal rendering of integers, as `format!` prints them.
use vstd::prelude::*;
use crate::text::push_char;

verus! {

/// The character of a digit value below 16 (upper-case letters above 9).
pub open spec fn digit_char(d: nat) -> char {
    if d < 10 { (48 + d) as char } else { (55 + d) as char }
}

/// The digits of `n` in base `b` (no leading zeros; "0" for zero).
pub open spec fn digits(n: nat, b: nat) -> Seq<char>
    recommends
        2 <= b <= 16,
    decreases n,
{
    if n < b || b < 2 {
        seq![digit_char(n % 16)]
    } else {
        proof {
            assert(n / b < n) by (nonlinear_arith)
                requires
                    n >= b,
                    b >= 2,
            ;
        }
        digits(n / b, b).push(digit_char(n % b))
    }
}

/// `n` in decimal (`{}`).
pub open spec fn dec(n: nat) -> Seq<char> {
    digits(n, 10)
}

/// `n` in upper-case hexadecimal (`{:X}`).
pub open spec fn hex(n: nat) -> Seq<char> {
    digits(n, 16)
}

/// `s` padded on the left with zeros to at least `w` characters (`{:0w}`).
pub open spec fn zero_pad(s: Seq<char>, w: nat) -> Seq<char> {
    if s.len() >= w {
        s
    } else {
        Seq::new((w - s.len()) as nat, |i: int| '0') + s
    }
}

fn digit_of(d: u64) -> (c: char)
    requires
        d < 16,
    ensures
        c == digit_char(d as nat),
{
    if d < 10 {
        ((48 + d) as u8) as char
    } else {
        ((55 + d) as u8) as char
    }
}

/// The digits of `n` in base `b`.
pub fn digits_of(n: u64, b: u64) -> (v: Vec<char>)
    requires
        2 <= b <= 16,
    ensures
        v@ == digits(n as nat, b as nat),
        v@.len() >= 1,
    decreases n,
{
    if n < b {
        vec![digit_of(n)]
    } else {
        assert(n / b < n) by (nonlinear_arith)
            requires
                n >= b,
                b >= 2,
        ;
        let mut v = digits_of(n / b, b);
        v.push(digit_of(n % b));
        v
    }
}

/// Appends `n` in base `b`, zero-padded to `w` characters.
pub fn push_padded(out: &mut String, n: u64, b: u64, w: usize)
    requires
        2 <= b <= 16,
    ensures
        final(out)@ == old(out)@ + zero_pad(digits(n as nat, b as nat), w as nat),
{
    let d = digits_of(n, b);
    let ghost start = out@;
    if d.len() < w {
        let pad = w - d.len();
        let mut k: usize = 0;
        while k < pad
            invariant
                k <= pad,
                out@ == start + Seq::new(k as nat, |i: int| '0'),
            decreases pad - k,
        {
            push_char(out, '0');
            assert(out@ =~= start + Seq::new((k + 1) as nat, |i: int| '0'));
            k = k + 1;
        }
    }
    let ghost mid = out@;
    let mut i: usize = 0;
    while i < d.len()
        invariant
            i <= d@.len(),
            out@ == mid + d@.take(i as int),
        decreases d@.len() - i,
    {
        push_char(out, d[i]);
        assert(out@ =~= mid + d@.take(i + 1));
        i = i + 1;
    }
    assert(d@.take(d@.len() as int) =~= d@);
    assert(out@ =~= start + zero_pad(d@, w as nat));
}

/// Appends `n` in decimal.
pub fn push_dec(out: &mut String, n: u64)
    ensures
        final(out)@ == old(out)@ + dec(n as nat),
{
    push_padded(out, n, 10, 0);
}

/// Appends a signed number in decimal.
pub fn push_i64(out: &mut String, n: i64)
    ensures
        final(out)@ == old(out)@ + (if n < 0 { seq!['-'] + dec((-n) as nat) } else { dec(n as nat) }),
{
    if n < 0 {
        push_char(out, '-');
        let m: u64 = if n == i64::MIN { 9223372036854775808u64 } else { (-n) as u64 };
        push_dec(out, m);
    } else {
        push_dec(out, n as u64);
    }
}

} // verus!

verus! {

/// A number's digits are never empty.
pub proof fn lemma_digits_nonempty(n: nat, b: nat)
    requires
        2 <= b <= 16,
    ensures
        digits(n, b).len() >= 1,
    decreases n,
{
    if n >= b {
        assert(n / b < n) by (nonlinear_arith)
            requires
                n >= b,
                b >= 2,
        ;
        lemma_digits_nonempty(n / b, b);
    }
}

} // verus!
