//! Names of entity types: identifiers separated by `::`.
use vstd::prelude::*;
use crate::text::{chars_of, string_of, text_is};

verus! {

/// Whether `c` can start an identifier.
pub open spec fn ident_start(c: char) -> bool {
    ('a' <= c && c <= 'z') || ('A' <= c && c <= 'Z') || c == '_'
}

/// Whether `c` can stand in an identifier.
pub open spec fn ident_char(c: char) -> bool {
    ident_start(c) || ('0' <= c && c <= '9')
}

/// Whether `w` is a word that the policy language keeps for itself.
pub open spec fn is_reserved(w: Seq<char>) -> bool {
    w == "true"@ || w == "false"@ || w == "if"@ || w == "then"@ || w == "else"@ || w == "in"@ || w
        == "is"@ || w == "like"@ || w == "has"@
}

/// The first position at or after `i` that holds no identifier character,
/// or the length of `s`.
pub open spec fn ident_end(s: Seq<char>, i: int) -> int
    decreases s.len() - i,
{
    if i < 0 || i >= s.len() {
        s.len() as int
    } else if !ident_char(s[i]) {
        i
    } else {
        ident_end(s, i + 1)
    }
}

/// Whether the positions from `lo` up to `hi` hold an identifier that is
/// not reserved.
pub open spec fn ident_at(s: Seq<char>, lo: int, hi: int) -> bool {
    &&& 0 <= lo < hi <= s.len()
    &&& ident_start(s[lo])
    &&& !is_reserved(s.subrange(lo, hi))
}

/// Whether `s` from position `i` on is one or more identifiers, separated
/// by `::`.
pub open spec fn name_from(s: Seq<char>, i: int) -> bool
    decreases s.len() - i,
{
    if i < 0 || i >= s.len() {
        false
    } else {
        let j = ident_end(s, i);
        if j <= i {
            false
        } else {
            ident_at(s, i, j) && (j == s.len() || (j + 1 < s.len() && s[j] == ':' && s[j + 1] == ':'
                && name_from(s, j + 2)))
        }
    }
}

/// Whether `s` is the name of an entity type: one or more identifiers that
/// are not reserved words, separated by `::`.
pub open spec fn valid_name(s: Seq<char>) -> bool {
    name_from(s, 0)
}

fn is_ident_start(c: char) -> (r: bool)
    ensures
        r == ident_start(c),
{
    ('a' <= c && c <= 'z') || ('A' <= c && c <= 'Z') || c == '_'
}

fn is_ident_char(c: char) -> (r: bool)
    ensures
        r == ident_char(c),
{
    is_ident_start(c) || ('0' <= c && c <= '9')
}

fn word_is_reserved(w: &String) -> (r: bool)
    ensures
        r == is_reserved(w@),
{
    text_is(w, "true") || text_is(w, "false") || text_is(w, "if") || text_is(w, "then") || text_is(
        w,
        "else",
    ) || text_is(w, "in") || text_is(w, "is") || text_is(w, "like") || text_is(w, "has")
}

/// Whether `s` is the name of an entity type.
pub fn is_valid_name(s: &str) -> (r: bool)
    ensures
        r == valid_name(s@),
{
    let cs = chars_of(s);
    let n = cs.len();
    let mut i: usize = 0;
    loop
        invariant
            i <= n,
            n == cs.len(),
            cs@ == s@,
            valid_name(s@) == name_from(cs@, i as int),
        decreases n - i,
    {
        if i >= n {
            return false;
        }
        let mut j: usize = i;
        while j < n && is_ident_char(cs[j])
            invariant
                i <= j <= n,
                n == cs.len(),
                ident_end(cs@, i as int) == ident_end(cs@, j as int),
            decreases n - j,
        {
            j += 1;
        }
        if j <= i {
            return false;
        }
        if !is_ident_start(cs[i]) {
            return false;
        }
        let mut word: Vec<char> = Vec::new();
        let mut k: usize = i;
        while k < j
            invariant
                i <= k <= j <= n,
                n == cs.len(),
                word@ == cs@.subrange(i as int, k as int),
            decreases j - k,
        {
            word.push(cs[k]);
            assert(word@ =~= cs@.subrange(i as int, k + 1));
            k += 1;
        }
        let text = string_of(&word);
        if word_is_reserved(&text) {
            return false;
        }
        if j == n {
            return true;
        }
        if !(j + 1 < n && cs[j] == ':' && cs[j + 1] == ':') {
            return false;
        }
        i = j + 2;
    }
}

} // verus!
