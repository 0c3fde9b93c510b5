//! String utilities shared by the rest of the crate: conversion between
//! strings and character vectors, lexicographic order, and decimal numbers.
use vstd::prelude::*;

verus! {

/// The character sequences of a vector of strings, in order.
pub open spec fn strings_view(v: Seq<String>) -> Seq<Seq<char>> {
    Seq::new(v.len(), |i: int| v[i]@)
}

/// The characters of `s`, in order.
pub fn chars_of(s: &str) -> (r: Vec<char>)
    ensures
        r@ == s@,
{
    let mut out: Vec<char> = Vec::new();
    for c in it: s.chars()
        invariant
            out@ == it.seq().take(it.index() as int),
            it.seq() == s@,
    {
        out.push(c);
    }
    out
}

/// Appends one character to a string.
///
/// Wraps `String::push`, which appends the given `char` to the end of the
/// string and leaves the rest untouched.
#[verifier::external_body]
pub(crate) fn push_char(s: &mut String, c: char)
    ensures
        final(s)@ == old(s)@.push(c),
{
    s.push(c)
}

/// The string made of the characters of `v`, in order.
pub fn string_of(v: &Vec<char>) -> (r: String)
    ensures
        r@ == v@,
{
    let mut out = String::new();
    let mut i: usize = 0;
    while i < v.len()
        invariant
            i <= v.len(),
            out@ == v@.take(i as int),
        decreases v.len() - i,
    {
        push_char(&mut out, v[i]);
        i += 1;
    }
    out
}

/// Strict lexicographic order on character sequences, by code point.
pub open spec fn lex_lt(a: Seq<char>, b: Seq<char>) -> bool
    decreases a.len(),
{
    if b.len() == 0 {
        false
    } else if a.len() == 0 {
        true
    } else if a[0] != b[0] {
        a[0] < b[0]
    } else {
        lex_lt(a.drop_first(), b.drop_first())
    }
}

/// Non-strict lexicographic order on character sequences.
pub open spec fn lex_le(a: Seq<char>, b: Seq<char>) -> bool {
    !lex_lt(b, a)
}

proof fn lemma_lex_lt_skip(a: Seq<char>, b: Seq<char>, i: int)
    requires
        0 <= i <= a.len(),
        i <= b.len(),
        a.take(i) == b.take(i),
    ensures
        lex_lt(a, b) == lex_lt(a.skip(i), b.skip(i)),
    decreases i,
{
    if i == 0 {
        assert(a.skip(0) =~= a);
        assert(b.skip(0) =~= b);
    } else {
        assert(a.take(i)[0] == a[0]);
        assert(b.take(i)[0] == b[0]);
        assert(a[0] == b[0]);
        assert(a.len() > 0 && b.len() > 0);
        assert(lex_lt(a, b) == lex_lt(a.drop_first(), b.drop_first()));
        assert(a.drop_first().take(i - 1) =~= a.take(i).drop_first());
        assert(b.drop_first().take(i - 1) =~= b.take(i).drop_first());
        lemma_lex_lt_skip(a.drop_first(), b.drop_first(), i - 1);
        assert(a.drop_first().skip(i - 1) =~= a.skip(i));
        assert(b.drop_first().skip(i - 1) =~= b.skip(i));
    }
}

/// Whether `a` comes strictly before `b` in lexicographic order.
pub fn string_lt(a: &str, b: &str) -> (r: bool)
    ensures
        r == lex_lt(a@, b@),
{
    let x = chars_of(a);
    let y = chars_of(b);
    let mut i: usize = 0;
    while i < x.len() && i < y.len()
        invariant
            i <= x.len(),
            i <= y.len(),
            x@.take(i as int) == y@.take(i as int),
            x@ == a@,
            y@ == b@,
        decreases x.len() - i,
    {
        if x[i] != y[i] {
            proof {
                lemma_lex_lt_skip(x@, y@, i as int);
                assert(x@.skip(i as int)[0] == x@[i as int]);
                assert(y@.skip(i as int)[0] == y@[i as int]);
            }
            return x[i] < y[i];
        }
        proof {
            assert(x@.take(i + 1) =~= x@.take(i as int).push(x@[i as int]));
            assert(y@.take(i + 1) =~= y@.take(i as int).push(y@[i as int]));
        }
        i += 1;
    }
    proof {
        lemma_lex_lt_skip(x@, y@, i as int);
    }
    i < y.len()
}

/// The lexicographic order is irreflexive.
pub proof fn lemma_lex_lt_irreflexive(a: Seq<char>)
    ensures
        !lex_lt(a, a),
    decreases a.len(),
{
    if a.len() > 0 {
        lemma_lex_lt_irreflexive(a.drop_first());
    }
}

/// Two sequences neither of which comes before the other are equal.
pub proof fn lemma_lex_total(a: Seq<char>, b: Seq<char>)
    ensures
        lex_lt(a, b) || lex_lt(b, a) || a == b,
    decreases a.len(),
{
    if a.len() == 0 || b.len() == 0 {
        if a.len() == 0 && b.len() == 0 {
            assert(a =~= b);
        }
    } else if a[0] == b[0] {
        lemma_lex_total(a.drop_first(), b.drop_first());
        if a.drop_first() == b.drop_first() {
            assert(a =~= seq![a[0]] + a.drop_first());
            assert(b =~= seq![b[0]] + b.drop_first());
        }
    }
}

/// The lexicographic order is asymmetric.
pub proof fn lemma_lex_asymmetric(a: Seq<char>, b: Seq<char>)
    ensures
        !(lex_lt(a, b) && lex_lt(b, a)),
    decreases a.len(),
{
    if a.len() > 0 && b.len() > 0 && a[0] == b[0] {
        lemma_lex_asymmetric(a.drop_first(), b.drop_first());
    }
}

/// The lexicographic order is transitive.
pub proof fn lemma_lex_transitive(a: Seq<char>, b: Seq<char>, c: Seq<char>)
    requires
        lex_lt(a, b),
        lex_lt(b, c),
    ensures
        lex_lt(a, c),
    decreases a.len(),
{
    if a.len() > 0 && b.len() > 0 && c.len() > 0 {
        if a[0] == b[0] && b[0] == c[0] {
            lemma_lex_transitive(a.drop_first(), b.drop_first(), c.drop_first());
        }
    }
}

/// The character for a decimal digit.
pub open spec fn digit_char(d: nat) -> char {
    ((48 + d) as u8) as char
}

/// Decimal notation of a natural number, without leading zeros.
pub open spec fn nat_to_dec(n: nat) -> Seq<char>
    decreases n,
{
    if n < 10 {
        seq![digit_char(n)]
    } else {
        nat_to_dec(n / 10).push(digit_char(n % 10))
    }
}

/// Decimal notation of an integer, with a leading `-` when negative.
pub open spec fn int_to_dec(i: int) -> Seq<char> {
    if i < 0 {
        seq!['-'] + nat_to_dec((-i) as nat)
    } else {
        nat_to_dec(i as nat)
    }
}

/// Appends the decimal notation of `n` to `s`.
pub fn push_nat(s: &mut String, n: u64)
    ensures
        final(s)@ == old(s)@ + nat_to_dec(n as nat),
    decreases n,
{
    if n >= 10 {
        push_nat(s, n / 10);
    }
    let d: u8 = (n % 10) as u8;
    push_char(s, (48u8 + d) as char);
    proof {
        if n >= 10 {
            assert(final(s)@ =~= old(s)@ + nat_to_dec(n as nat));
        } else {
            assert(final(s)@ =~= old(s)@ + nat_to_dec(n as nat));
        }
    }
}

/// Appends the decimal notation of `i` to `s`.
pub fn push_int(s: &mut String, i: i64)
    ensures
        final(s)@ == old(s)@ + int_to_dec(i as int),
{
    if i < 0 {
        push_char(s, '-');
        let m: i128 = -(i as i128);
        push_nat(s, m as u64);
        proof {
            assert(final(s)@ =~= old(s)@ + int_to_dec(i as int));
        }
    } else {
        push_nat(s, i as u64);
    }
}

/// Decimal notation of `i` as a string.
pub fn int_to_string(i: i64) -> (r: String)
    ensures
        r@ == int_to_dec(i as int),
{
    let mut s = String::new();
    push_int(&mut s, i);
    proof {
        assert(s@ =~= int_to_dec(i as int));
    }
    s
}

/// Decimal notation of `n` as a string.
pub fn nat_to_string(n: usize) -> (r: String)
    ensures
        r@ == nat_to_dec(n as nat),
{
    let mut s = String::new();
    push_nat(&mut s, n as u64);
    proof {
        assert(s@ =~= nat_to_dec(n as nat));
    }
    s
}

} // verus!


verus! {

/// Whether two strings hold the same characters.
pub fn same_text(a: &String, b: &String) -> (r: bool)
    ensures
        r == (a@ == b@),
{
    a.eq(b)
}

/// Whether a string holds exactly the characters of `lit`.
pub fn text_is(a: &String, lit: &str) -> (r: bool)
    ensures
        r == (a@ == lit@),
{
    let other = String::from_str(lit);
    a.eq(&other)
}

} // verus!

verus! {

/// Whether `c` is a decimal digit.
pub open spec fn is_digit(c: char) -> bool {
    '0' <= c && c <= '9'
}

/// The number that a decimal digit stands for.
pub open spec fn digit_value(c: char) -> nat {
    ((c as u32) - 48) as nat
}

/// Whether the positions from `lo` up to `hi` hold at least one character,
/// and only decimal digits.
pub open spec fn digits_in(s: Seq<char>, lo: int, hi: int) -> bool {
    &&& 0 <= lo < hi <= s.len()
    &&& forall|k: int| lo <= k < hi ==> is_digit(#[trigger] s[k])
}

/// The number written in decimal notation at the positions from `lo` up to `hi`.
pub open spec fn value_in(s: Seq<char>, lo: int, hi: int) -> nat
    decreases hi - lo,
{
    if hi <= lo {
        0
    } else {
        value_in(s, lo, hi - 1) * 10 + digit_value(s[hi - 1])
    }
}

/// Whether the positions from `lo` up to `hi` of `s` hold at least one
/// character, and only decimal digits.
pub fn check_digits(s: &Vec<char>, lo: usize, hi: usize) -> (r: bool)
    requires
        hi <= s.len(),
    ensures
        r == digits_in(s@, lo as int, hi as int),
{
    if lo >= hi {
        return false;
    }
    let mut k: usize = lo;
    while k < hi
        invariant
            lo <= k <= hi <= s.len(),
            forall|n: int| lo <= n < k ==> is_digit(#[trigger] s@[n]),
        decreases hi - k,
    {
        let c = s[k];
        if !('0' <= c && c <= '9') {
            return false;
        }
        k += 1;
    }
    true
}

/// The number written at the positions from `lo` up to `hi` of `s`, or
/// `None` when it is larger than `limit`.
pub fn read_digits(s: &Vec<char>, lo: usize, hi: usize, limit: u128) -> (r: Option<u128>)
    requires
        lo <= hi <= s.len(),
        forall|k: int| lo <= k < hi ==> is_digit(#[trigger] s@[k]),
        limit <= 0x0fff_ffff_ffff_ffff_ffff_ffff_ffff_ffff,
    ensures
        r is Some <==> value_in(s@, lo as int, hi as int) <= limit,
        r is Some ==> r->0 == value_in(s@, lo as int, hi as int),
{
    let mut acc: u128 = 0;
    let mut k: usize = lo;
    while k < hi
        invariant
            lo <= k <= hi <= s.len(),
            forall|n: int| lo <= n < hi ==> is_digit(#[trigger] s@[n]),
            acc == value_in(s@, lo as int, k as int),
            acc <= limit,
            limit <= 0x0fff_ffff_ffff_ffff_ffff_ffff_ffff_ffff,
        decreases hi - k,
    {
        let c = s[k];
        assert(is_digit(s@[k as int]));
        let d: u128 = (c as u32 - 48) as u128;
        let next: u128 = acc * 10 + d;
        assert(next == value_in(s@, lo as int, k + 1));
        if next > limit {
            proof {
                lemma_value_in_grows(s@, lo as int, k + 1, hi as int);
            }
            return None;
        }
        acc = next;
        k += 1;
    }
    Some(acc)
}

/// A number written with more digits is no smaller than the one written
/// with the first of them.
pub proof fn lemma_value_in_grows(s: Seq<char>, lo: int, mid: int, hi: int)
    requires
        lo <= mid <= hi,
    ensures
        value_in(s, lo, mid) <= value_in(s, lo, hi),
    decreases hi - mid,
{
    if mid < hi {
        lemma_value_in_grows(s, lo, mid, hi - 1);
    }
}

/// `10` to the power `n`.
pub open spec fn pow10(n: nat) -> nat
    decreases n,
{
    if n == 0 {
        1
    } else {
        10 * pow10((n - 1) as nat)
    }
}

} // verus!
