//! Reading literals: truth values, integers, string literals and entity
//! identifiers, as they are written out.
use vstd::prelude::*;
use crate::ast::{Literal, LiteralV};
use crate::display::{escape, escape_char, quote, show_literal};
use crate::names::{ident_char, ident_end, is_valid_name, name_from, valid_name};
use crate::text::{
    check_digits, chars_of, digit_char, digit_value, digits_in, is_digit, nat_to_dec,
    read_digits, string_of, value_in,
};
use crate::value::{EntityType, EntityTypeV, EntityUid, EntityUidV};

verus! {

/// The character that a backslash and `c` stand for in a string literal.
pub open spec fn unescape_char(c: char) -> Option<char> {
    if c == '\\' {
        Some('\\')
    } else if c == '"' {
        Some('"')
    } else if c == '\'' {
        Some('\'')
    } else if c == 'n' {
        Some('\n')
    } else if c == 'r' {
        Some('\r')
    } else if c == 't' {
        Some('\t')
    } else if c == '0' {
        Some('\0')
    } else {
        None
    }
}

/// Reads the rest of a string literal from position `i` on, after `acc`:
/// the characters up to the closing quote, and the position after it.
pub open spec fn read_string_from(s: Seq<char>, i: int, acc: Seq<char>) -> Option<(Seq<char>, int)>
    decreases s.len() - i,
{
    if i < 0 || i >= s.len() {
        None
    } else if s[i] == '"' {
        Some((acc, i + 1))
    } else if s[i] == '\\' {
        if i + 1 >= s.len() {
            None
        } else {
            match unescape_char(s[i + 1]) {
                Some(c) => read_string_from(s, i + 2, acc.push(c)),
                None => None,
            }
        }
    } else {
        read_string_from(s, i + 1, acc.push(s[i]))
    }
}

fn unescape(c: char) -> (r: Option<char>)
    ensures
        r == unescape_char(c),
{
    if c == '\\' {
        Some('\\')
    } else if c == '"' {
        Some('"')
    } else if c == '\'' {
        Some('\'')
    } else if c == 'n' {
        Some('\n')
    } else if c == 'r' {
        Some('\r')
    } else if c == 't' {
        Some('\t')
    } else if c == '0' {
        Some('\0')
    } else {
        None
    }
}

/// Reads the rest of a string literal from position `start` on: the
/// characters up to the closing quote, and the position after it.
pub fn read_string(s: &Vec<char>, start: usize) -> (r: Option<(Vec<char>, usize)>)
    ensures
        r is Some <==> read_string_from(s@, start as int, Seq::empty()) is Some,
        r matches Some((t, end)) ==> Some((t@, end as int)) == read_string_from(
            s@,
            start as int,
            Seq::empty(),
        ) && start < end <= s.len(),
{
    let mut acc: Vec<char> = Vec::new();
    let mut i: usize = start;
    while i < s.len()
        invariant
            start <= i,
            read_string_from(s@, start as int, Seq::empty()) == read_string_from(
                s@,
                i as int,
                acc@,
            ),
        decreases s.len() - i,
    {
        let c = s[i];
        if c == '"' {
            return Some((acc, i + 1));
        } else if c == '\\' {
            if i + 1 >= s.len() {
                return None;
            }
            match unescape(s[i + 1]) {
                Some(x) => {
                    acc.push(x);
                    i += 2;
                },
                None => {
                    return None;
                },
            }
        } else {
            acc.push(c);
            i += 1;
        }
    }
    None
}

/// What is written for a string starts with what is written for its first
/// character.
pub proof fn lemma_escape_front(t: Seq<char>)
    requires
        t.len() > 0,
    ensures
        escape(t) == escape_char(t[0]) + escape(t.drop_first()),
    decreases t.len(),
{
    if t.len() == 1 {
        assert(t.drop_last() =~= Seq::<char>::empty());
        assert(t.drop_first() =~= Seq::<char>::empty());
        assert(escape(t.drop_last()) =~= Seq::<char>::empty());
        assert(escape(t) =~= escape_char(t[0]) + escape(t.drop_first()));
    } else {
        lemma_escape_front(t.drop_last());
        assert(t.drop_first().drop_last() =~= t.drop_last().drop_first());
        assert(t.drop_first().last() == t.last());
        assert(t.drop_last()[0] == t[0]);
        assert(escape(t) =~= escape_char(t[0]) + escape(t.drop_first()));
    }
}

/// Reading what was written for a string gives the string back: after
/// `before`, the escaped characters of `t` and a closing quote read as `t`.
pub proof fn lemma_read_escaped(before: Seq<char>, t: Seq<char>, rest: Seq<char>, acc: Seq<char>)
    ensures
        read_string_from(
            before + escape(t) + seq!['"'] + rest,
            before.len() as int,
            acc,
        ) == Some((acc + t, (before.len() + escape(t).len() + 1) as int)),
    decreases t.len(),
{
    let s = before + escape(t) + seq!['"'] + rest;
    let i = before.len() as int;
    if t.len() == 0 {
        assert(escape(t) =~= Seq::<char>::empty());
        assert(s[i] == '"');
        assert(acc + t =~= acc);
    } else {
        lemma_escape_front(t);
        let c = t[0];
        let e = escape_char(c);
        let t2 = t.drop_first();
        let before2 = before + e;
        let s2 = before2 + escape(t2) + seq!['"'] + rest;
        assert(s =~= s2);
        lemma_read_escaped(before2, t2, rest, acc.push(c));
        assert(acc.push(c) + t2 =~= acc + t);
        assert(s[i] == e[0]);
        if e.len() == 2 {
            assert(s[i + 1] == e[1]);
        }
    }
}

/// The position of the first `"` at or after `i`, or the length of `s`.
pub open spec fn first_quote(s: Seq<char>, i: int) -> int
    decreases s.len() - i,
{
    if i < 0 || i >= s.len() {
        s.len() as int
    } else if s[i] == '"' {
        i
    } else {
        first_quote(s, i + 1)
    }
}

/// The string that `s` denotes as a string literal.
pub open spec fn parse_string(s: Seq<char>) -> Option<Seq<char>> {
    if s.len() > 0 && s[0] == '"' {
        match read_string_from(s, 1, Seq::empty()) {
            Some((t, end)) => if end == s.len() {
                Some(t)
            } else {
                None
            },
            None => None,
        }
    } else {
        None
    }
}

/// The integer that `s` denotes: an optional `-` and digits, within 64 bits.
pub open spec fn parse_long(s: Seq<char>) -> Option<i64> {
    let start: int = if s.len() > 0 && s[0] == '-' {
        1
    } else {
        0
    };
    if !digits_in(s, start, s.len() as int) {
        None
    } else {
        let magnitude = value_in(s, start, s.len() as int);
        let v: int = if start == 1 {
            -magnitude
        } else {
            magnitude as int
        };
        if i64::MIN <= v <= i64::MAX {
            Some(v as i64)
        } else {
            None
        }
    }
}

/// The entity that `s` denotes: the name of its type, `::`, and its id as
/// a string literal.
pub open spec fn parse_uid(s: Seq<char>) -> Option<EntityUidV> {
    let q = first_quote(s, 0);
    if q < 2 || q >= s.len() || s[q - 2] != ':' || s[q - 1] != ':' || !valid_name(
        s.subrange(0, q - 2),
    ) {
        None
    } else {
        match read_string_from(s, q + 1, Seq::empty()) {
            Some((eid, end)) => if end == s.len() {
                Some(EntityUidV { ty: EntityTypeV::Specified(s.subrange(0, q - 2)), eid })
            } else {
                None
            },
            None => None,
        }
    }
}

/// The literal that `s` denotes: `true`, `false`, an integer, a string
/// literal or an entity identifier.
pub open spec fn parse_literal(s: Seq<char>) -> Option<LiteralV> {
    if s == "true"@ {
        Some(LiteralV::Bool(true))
    } else if s == "false"@ {
        Some(LiteralV::Bool(false))
    } else if s.len() > 0 && s[0] == '"' {
        match parse_string(s) {
            Some(t) => Some(LiteralV::String(t)),
            None => None,
        }
    } else if s.len() > 0 && (s[0] == '-' || is_digit(s[0])) {
        match parse_long(s) {
            Some(i) => Some(LiteralV::Long(i)),
            None => None,
        }
    } else {
        match parse_uid(s) {
            Some(u) => Some(LiteralV::EntityUid(u)),
            None => None,
        }
    }
}

/// The integer that the characters of `s` denote.
pub fn read_long(s: &Vec<char>) -> (r: Option<i64>)
    ensures
        r == parse_long(s@),
{
    let n = s.len();
    let negative = n > 0 && s[0] == '-';
    let start: usize = if negative {
        1
    } else {
        0
    };
    if !check_digits(s, start, n) {
        return None;
    }
    match read_digits(s, start, n, 9223372036854775808) {
        None => None,
        Some(m) => {
            if negative {
                let v: i128 = -(m as i128);
                Some(v as i64)
            } else if m > 9223372036854775807 {
                None
            } else {
                Some(m as i64)
            }
        },
    }
}

/// The entity that the characters of `s` denote.
pub fn read_uid(s: &Vec<char>) -> (r: Option<EntityUid>)
    ensures
        r is Some <==> parse_uid(s@) is Some,
        r is Some ==> r->0@ == parse_uid(s@)->0,
{
    let n = s.len();
    let mut q: usize = 0;
    while q < n && s[q] != '"'
        invariant
            q <= n,
            n == s.len(),
            first_quote(s@, 0) == first_quote(s@, q as int),
        decreases n - q,
    {
        q += 1;
    }
    if q < 2 || q >= n || s[q - 2] != ':' || s[q - 1] != ':' {
        return None;
    }
    let mut name: Vec<char> = Vec::new();
    let mut k: usize = 0;
    while k < q - 2
        invariant
            k <= q - 2,
            q <= n,
            n == s.len(),
            name@ == s@.subrange(0, k as int),
        decreases q - 2 - k,
    {
        name.push(s[k]);
        assert(name@ =~= s@.subrange(0, k + 1));
        k += 1;
    }
    let ty = string_of(&name);
    if !is_valid_name(ty.as_str()) {
        return None;
    }
    match read_string(s, q + 1) {
        Some((eid, end)) => {
            if end == n {
                Some(EntityUid { ty: EntityType::Specified(ty), eid: string_of(&eid) })
            } else {
                None
            }
        },
        None => None,
    }
}

impl Literal {
    /// The literal that `s` denotes, if it denotes one.
    pub fn parse(s: &str) -> (r: Option<Literal>)
        ensures
            r is Some <==> parse_literal(s@) is Some,
            r is Some ==> r->0@ == parse_literal(s@)->0,
    {
        let cs = chars_of(s);
        let text = String::from_str(s);
        if crate::text::text_is(&text, "true") {
            Some(Literal::Bool(true))
        } else if crate::text::text_is(&text, "false") {
            Some(Literal::Bool(false))
        } else if cs.len() > 0 && cs[0] == '"' {
            match read_string(&cs, 1) {
                Some((t, end)) => {
                    if end == cs.len() {
                        Some(Literal::String(string_of(&t)))
                    } else {
                        None
                    }
                },
                None => None,
            }
        } else if cs.len() > 0 && (cs[0] == '-' || ('0' <= cs[0] && cs[0] <= '9')) {
            match read_long(&cs) {
                Some(i) => Some(Literal::Long(i)),
                None => None,
            }
        } else {
            match read_uid(&cs) {
                Some(u) => Some(Literal::EntityUid(u)),
                None => None,
            }
        }
    }
}

/// The number written at some positions depends on the characters at
/// these positions only.
pub proof fn lemma_value_in_same(s1: Seq<char>, lo1: int, s2: Seq<char>, lo2: int, n: int)
    requires
        0 <= n,
        0 <= lo1,
        0 <= lo2,
        lo1 + n <= s1.len(),
        lo2 + n <= s2.len(),
        forall|k: int| lo1 <= k < lo1 + n ==> #[trigger] s1[k] == s2[k - lo1 + lo2],
    ensures
        value_in(s1, lo1, lo1 + n) == value_in(s2, lo2, lo2 + n),
    decreases n,
{
    if n > 0 {
        lemma_value_in_same(s1, lo1, s2, lo2, n - 1);
        assert(s1[lo1 + n - 1] == s2[lo1 + n - 1 - lo1 + lo2]);
    }
}

/// The decimal notation of a number is made of digits, and denotes the number.
pub proof fn lemma_nat_to_dec(n: nat)
    ensures
        nat_to_dec(n).len() > 0,
        forall|k: int| 0 <= k < nat_to_dec(n).len() ==> is_digit(#[trigger] nat_to_dec(n)[k]),
        value_in(nat_to_dec(n), 0, nat_to_dec(n).len() as int) == n,
    decreases n,
{
    let s = nat_to_dec(n);
    if n < 10 {
        assert(s =~= seq![digit_char(n)]);
        assert(is_digit(digit_char(n)));
        assert(digit_value(digit_char(n)) == n);
        assert(value_in(s, 0, 0) == 0);
        assert(value_in(s, 0, 1) == value_in(s, 0, 0) * 10 + digit_value(s[0]));
    } else {
        let t = nat_to_dec(n / 10);
        let d = digit_char(n % 10);
        lemma_nat_to_dec(n / 10);
        assert(s =~= t.push(d));
        assert(is_digit(d));
        assert(digit_value(d) == n % 10);
        assert forall|k: int| 0 <= k < s.len() implies is_digit(#[trigger] s[k]) by {
            if k < t.len() {
                assert(s[k] == t[k]);
            }
        }
        assert forall|k: int| 0 <= k < t.len() implies #[trigger] s[k] == t[k - 0 + 0] by {}
        lemma_value_in_same(s, 0, t, 0, t.len() as int);
        assert(value_in(s, 0, s.len() as int) == value_in(s, 0, s.len() - 1) * 10 + digit_value(
            s[s.len() - 1],
        ));
    }
}

/// A name holds no double quote, from any position on from which it is a name.
pub proof fn lemma_name_has_no_quote(s: Seq<char>, i: int)
    requires
        name_from(s, i),
    ensures
        forall|k: int| i <= k < s.len() ==> s[k] != '"',
    decreases s.len() - i,
{
    let j = ident_end(s, i);
    lemma_ident_run(s, i);
    if j < s.len() {
        lemma_name_has_no_quote(s, j + 2);
    }
}

/// The positions up to the end of an identifier hold identifier characters.
pub proof fn lemma_ident_run(s: Seq<char>, i: int)
    requires
        0 <= i <= s.len(),
    ensures
        i <= ident_end(s, i) <= s.len(),
        forall|k: int| i <= k < ident_end(s, i) ==> ident_char(#[trigger] s[k]),
    decreases s.len() - i,
{
    if i < s.len() && ident_char(s[i]) {
        lemma_ident_run(s, i + 1);
    }
}

/// The first quote is where the first quote is.
pub proof fn lemma_first_quote(s: Seq<char>, i: int, q: int)
    requires
        0 <= i <= q < s.len(),
        forall|k: int| i <= k < q ==> s[k] != '"',
        s[q] == '"',
    ensures
        first_quote(s, i) == q,
    decreases q - i,
{
    if i < q {
        lemma_first_quote(s, i + 1, q);
    }
}

/// Whether a literal can be written so that it is read back: the type of
/// an entity is the name of an entity type.
pub open spec fn is_writable(l: LiteralV) -> bool {
    match l {
        LiteralV::EntityUid(u) => u.ty matches EntityTypeV::Specified(n) && valid_name(n),
        _ => true,
    }
}

/// A literal that is written out and read back is the literal: truth
/// values, integers, strings, and entities whose type is a valid name.
pub proof fn law_literal_round_trip(l: LiteralV)
    requires
        is_writable(l),
    ensures
        parse_literal(show_literal(l)) == Some(l),
{
    reveal_strlit("true");
    reveal_strlit("false");
    reveal_strlit("::");
    let s = show_literal(l);
    match l {
        LiteralV::Bool(b) => {
            assert("true"@ != "false"@) by {
                assert("true"@.len() == 4);
                assert("false"@.len() == 5);
            }
        },
        LiteralV::Long(i) => {
            if i >= 0 {
                lemma_nat_to_dec(i as nat);
                assert(is_digit(s[0]));
                assert(s != "true"@) by {
                    assert("true"@[0] == 't');
                }
                assert(s != "false"@) by {
                    assert("false"@[0] == 'f');
                }
            } else {
                let m = (-i) as nat;
                let t = nat_to_dec(m);
                lemma_nat_to_dec(m);
                assert(s =~= seq!['-'] + t);
                assert(s[0] == '-');
                assert(s != "true"@) by {
                    assert("true"@[0] == 't');
                }
                assert(s != "false"@) by {
                    assert("false"@[0] == 'f');
                }
                assert forall|k: int| 1 <= k < s.len() implies is_digit(#[trigger] s[k]) by {
                    assert(s[k] == t[k - 1]);
                }
                assert forall|k: int| 1 <= k < 1 + t.len() implies #[trigger] s[k] == t[k - 1 + 0] by {}
                lemma_value_in_same(s, 1, t, 0, t.len() as int);
            }
        },
        LiteralV::String(t) => {
            lemma_read_escaped(seq!['"'], t, Seq::empty(), Seq::empty());
            assert(s =~= seq!['"'] + escape(t) + seq!['"'] + Seq::<char>::empty());
            assert(Seq::<char>::empty() + t =~= t);
            assert(s[0] == '"');
            assert(s != "true"@) by {
                assert("true"@[0] == 't');
            }
            assert(s != "false"@) by {
                assert("false"@[0] == 'f');
            }
        },
        LiteralV::EntityUid(u) => {
            let ty = u.ty->Specified_0;
            let before = ty + "::"@ + seq!['"'];
            let q = ty.len() + 2;
            lemma_read_escaped(before, u.eid, Seq::empty(), Seq::empty());
            assert(s =~= before + escape(u.eid) + seq!['"'] + Seq::<char>::empty());
            assert(Seq::<char>::empty() + u.eid =~= u.eid);
            lemma_name_has_no_quote(ty, 0);
            lemma_ident_run(ty, 0);
            assert(s[q as int] == '"');
            assert forall|k: int| 0 <= k < q implies s[k] != '"' by {
                if k < ty.len() {
                    assert(s[k] == ty[k]);
                } else {
                    assert(s[k] == "::"@[k - ty.len()]);
                }
            }
            lemma_first_quote(s, 0, q as int);
            assert(s[q - 2] == "::"@[0]);
            assert(s[q - 1] == "::"@[1]);
            assert(s.subrange(0, q - 2) =~= ty);
            assert(s[0] == ty[0]);
            assert(s != "true"@) by {
                if s.len() == 4 {
                    assert(s[q as int] == '"');
                }
            }
            assert(s != "false"@) by {
                if s.len() == 5 {
                    assert(s[q as int] == '"');
                }
            }
        },
    }
}

} // verus!
