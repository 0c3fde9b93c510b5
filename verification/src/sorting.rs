//! Sorting strings in lexicographic order.
use vstd::prelude::*;
use vstd::relations::{sorted_by, total_ordering};
use vstd::seq_lib::{lemma_sorted_unique, to_multiset_build, to_multiset_insert};
use crate::text::{
    lemma_lex_asymmetric, lemma_lex_lt_irreflexive, lemma_lex_total, lemma_lex_transitive, lex_le,
    lex_lt, string_lt, strings_view,
};

verus! {

/// The lexicographic order on character sequences, as a relation.
pub open spec fn lex_order() -> spec_fn(Seq<char>, Seq<char>) -> bool {
    |a: Seq<char>, b: Seq<char>| lex_le(a, b)
}

/// The lexicographic order is a total order.
pub proof fn lemma_lex_order_total()
    ensures
        total_ordering(lex_order()),
{
    let r = lex_order();
    assert forall|x: Seq<char>| #[trigger] r(x, x) by {
        lemma_lex_lt_irreflexive(x);
    }
    assert forall|x: Seq<char>, y: Seq<char>| #[trigger] r(x, y) && #[trigger] r(y, x) implies x
        == y by {
        lemma_lex_total(x, y);
    }
    assert forall|x: Seq<char>, y: Seq<char>, z: Seq<char>| #[trigger]
        r(x, y) && #[trigger] r(y, z) implies r(x, z) by {
        lemma_lex_le_transitive(x, y, z);
    }
    assert forall|x: Seq<char>, y: Seq<char>| #[trigger] r(x, y) || #[trigger] r(y, x) by {
        lemma_lex_asymmetric(x, y);
    }
}

/// The non-strict lexicographic order is transitive.
pub proof fn lemma_lex_le_transitive(x: Seq<char>, y: Seq<char>, z: Seq<char>)
    requires
        lex_le(x, y),
        lex_le(y, z),
    ensures
        lex_le(x, z),
{
    if lex_lt(z, x) {
        lemma_lex_total(x, y);
        if lex_lt(x, y) {
            lemma_lex_transitive(z, x, y);
        }
    }
}

/// The strings of `s` in ascending lexicographic order.
pub open spec fn sorted_strings(s: Seq<Seq<char>>) -> Seq<Seq<char>> {
    s.sort_by(lex_order())
}

/// A sequence in ascending order that holds what `s` holds is `s` sorted.
pub proof fn lemma_is_sorted(s: Seq<Seq<char>>, t: Seq<Seq<char>>)
    requires
        sorted_by(t, lex_order()),
        t.to_multiset() == s.to_multiset(),
    ensures
        t == sorted_strings(s),
{
    lemma_lex_order_total();
    s.lemma_sort_by_ensures(lex_order());
    lemma_sorted_unique(t, s.sort_by(lex_order()), lex_order());
}

/// The strings of `v` in ascending lexicographic order.
pub fn sort_strings(v: &Vec<String>) -> (r: Vec<String>)
    ensures
        strings_view(r@) == sorted_strings(strings_view(v@)),
{
    let ghost sv = strings_view(v@);
    let mut out: Vec<String> = Vec::new();
    let mut i: usize = 0;
    assert(strings_view(out@) =~= Seq::<Seq<char>>::empty());
    assert(sv.take(0) =~= Seq::<Seq<char>>::empty());
    while i < v.len()
        invariant
            i <= v.len(),
            sv == strings_view(v@),
            sorted_by(strings_view(out@), lex_order()),
            strings_view(out@).to_multiset() == sv.take(i as int).to_multiset(),
        decreases v.len() - i,
    {
        let x = v[i].clone();
        let ghost before = strings_view(out@);
        let mut p: usize = out.len();
        while p > 0 && string_lt(x.as_str(), out[p - 1].as_str())
            invariant
                p <= out.len(),
                before == strings_view(out@),
                forall|k: int| p <= k < out.len() ==> lex_lt(x@, #[trigger] before[k]),
            decreases p,
        {
            p -= 1;
        }
        out.insert(p, x);
        proof {
            let after = strings_view(out@);
            assert(after =~= before.insert(p as int, x@));
            to_multiset_insert(before, p as int, x@);
            assert(sv.take(i + 1) =~= sv.take(i as int).push(x@));
            to_multiset_build(sv.take(i as int), x@);
            assert forall|a: int, b: int| 0 <= a < b < after.len() implies #[trigger] lex_order()(
                after[a],
                after[b],
            ) by {
                if b == p {
                    // after[a] is at or before the element that stopped the scan
                    assert(after[a] == before[a]);
                    if a < p - 1 {
                        assert(lex_order()(before[a], before[p - 1]));
                        lemma_lex_le_transitive(before[a], before[p - 1], x@);
                    }
                } else if a == p {
                    assert(after[b] == before[b - 1]);
                    assert(lex_lt(x@, before[b - 1]));
                    lemma_lex_asymmetric(x@, before[b - 1]);
                } else {
                    let a0 = if a < p { a } else { a - 1 };
                    let b0 = if b < p { b } else { b - 1 };
                    assert(after[a] == before[a0]);
                    assert(after[b] == before[b0]);
                    assert(lex_order()(before[a0], before[b0]));
                }
            }
        }
        i += 1;
    }
    proof {
        assert(sv.take(i as int) =~= sv);
        lemma_is_sorted(sv, strings_view(out@));
    }
    out
}

} // verus!
