//! The interface for callers that hold requests and answers as plain
//! data: answers with messages in place of errors, and template links
//! given as strings.
use vstd::prelude::*;
use itertools::Itertools;
use crate::ast::SlotId;
use crate::authorizer::{AuthorizationErrorV, Authorizer, Decision, Response, ResponseV, authorize,
    errors_view, ids_view};
use crate::entities::{Entities, EntitiesV, Mode};
use crate::extensions::{ExtOp, Extensions, all_ops};
use crate::hierarchy::{RawEntityV, closure_of};
use crate::json::{JsonV, JsonValue, context_of_json, entities_of_json, members_view, uid_of_json};
use crate::request::{Context, Request, RequestV};
use crate::semantics::EnvV;
use crate::display::cat3;
use crate::messages::{authorization_error_message, join_strings, joined, linking_error_message,
    policy_set_error_message};
use crate::parser::{parse_error_message, policy_set_of_text, static_policy_of_text,
    template_of_text};
use crate::names::{is_valid_name, valid_name};
use crate::policy::{Policy, PolicyId, PolicyV};
use crate::policy_set::{PolicySet, PolicySetV, add_error, add_template_error, link_outcome};
use crate::sorting::{lemma_lex_order_total, lex_order, sort_strings, sorted_strings};
use crate::text::{lemma_lex_lt_irreflexive, lemma_lex_total, lemma_lex_transitive, lex_lt,
    same_text, strings_view, text_is};
use vstd::relations::sorted_by;
use vstd::seq_lib::{to_multiset_build, to_multiset_contains, to_multiset_len};
use crate::value::{EntityTypeV, EntityType, EntityUid, EntityUidV};

verus! {

/// How a decision was reached, with the errors as messages. Each policy
/// and each message is held once.
#[derive(Debug, PartialEq, Eq, Clone)]
pub struct InterfaceDiagnostics {
    /// The policies that decided; none where no policy applied.
    reason: Vec<PolicyId>,
    /// The messages of the errors that occurred.
    errors: Vec<String>,
}

/// The answer to an authorization request, with the errors as messages.
#[derive(Debug, PartialEq, Eq)]
pub struct InterfaceResponse {
    /// Authorization decision
    decision: Decision,
    /// Diagnostics providing more information on how this decision was reached
    diagnostics: InterfaceDiagnostics,
}

/// Mathematical model of [`InterfaceDiagnostics`].
pub struct InterfaceDiagnosticsV {
    pub reason: Set<Seq<char>>,
    pub errors: Set<Seq<char>>,
}

/// Mathematical model of an [`InterfaceResponse`].
pub struct InterfaceResponseV {
    pub decision: Decision,
    pub reason: Set<Seq<char>>,
    pub errors: Set<Seq<char>>,
}

impl View for InterfaceDiagnostics {
    type V = InterfaceDiagnosticsV;

    closed spec fn view(&self) -> InterfaceDiagnosticsV {
        InterfaceDiagnosticsV {
            reason: ids_view(self.reason@).to_set(),
            errors: strings_view(self.errors@).to_set(),
        }
    }
}

impl View for InterfaceResponse {
    type V = InterfaceResponseV;

    closed spec fn view(&self) -> InterfaceResponseV {
        InterfaceResponseV {
            decision: self.decision,
            reason: self.diagnostics@.reason,
            errors: self.diagnostics@.errors,
        }
    }
}

/// A sequence with one more element holds what it held, and that element.
pub proof fn lemma_push_contains<A>(s: Seq<A>, y: A, x: A)
    ensures
        s.push(y).contains(x) <==> s.contains(x) || x == y,
{
    if s.push(y).contains(x) {
        let i = choose|i: int| 0 <= i < s.push(y).len() && s.push(y)[i] == x;
        if i < s.len() {
            assert(s[i] == x);
        }
    }
    if s.contains(x) {
        let i = choose|i: int| 0 <= i < s.len() && s[i] == x;
        assert(s.push(y)[i] == x);
    }
    if x == y {
        assert(s.push(y)[s.len() as int] == x);
    }
}

/// The strings of `v`, each once, in the order of their first occurrence.
pub fn distinct_strings(v: Vec<String>) -> (r: Vec<String>)
    ensures
        strings_view(r@).no_duplicates(),
        strings_view(r@).to_set() == strings_view(v@).to_set(),
{
    let ghost sv = strings_view(v@);
    let mut out: Vec<String> = Vec::new();
    let mut i: usize = 0;
    while i < v.len()
        invariant
            i <= v.len(),
            sv == strings_view(v@),
            strings_view(out@).no_duplicates(),
            forall|x: Seq<char>| strings_view(out@).contains(x) <==> sv.take(i as int).contains(x),
        decreases v.len() - i,
    {
        let ghost before = strings_view(out@);
        let mut found = false;
        let mut k: usize = 0;
        while k < out.len() && !found
            invariant
                k <= out.len(),
                i < v.len(),
                before == strings_view(out@),
                found ==> before.contains(v[i as int]@),
                !found ==> forall|m: int| 0 <= m < k ==> before[m] != v[i as int]@,
            decreases out.len() - k + if found { 0int } else { 1int },
        {
            if same_text(&out[k], &v[i]) {
                assert(before[k as int] == v[i as int]@);
                found = true;
            } else {
                k += 1;
            }
        }
        if !found {
            out.push(v[i].clone());
            assert(strings_view(out@) =~= before.push(v[i as int]@));
        }
        proof {
            let y = v[i as int]@;
            assert(sv.take(i + 1) =~= sv.take(i as int).push(y));
            assert forall|x: Seq<char>| strings_view(out@).contains(x) <==> sv.take(i + 1).contains(
                x,
            ) by {
                lemma_push_contains(sv.take(i as int), y, x);
                lemma_push_contains(before, y, x);
            }
        }
        i += 1;
    }
    proof {
        assert(sv.take(i as int) =~= sv);
        assert(strings_view(out@).to_set() =~= sv.to_set());
    }
    out
}

/// The identifiers of `v`, each once, in the order of their first occurrence.
pub fn distinct_ids(v: Vec<PolicyId>) -> (r: Vec<PolicyId>)
    ensures
        ids_view(r@).no_duplicates(),
        ids_view(r@).to_set() == ids_view(v@).to_set(),
{
    let ghost sv = ids_view(v@);
    let mut out: Vec<PolicyId> = Vec::new();
    let mut i: usize = 0;
    while i < v.len()
        invariant
            i <= v.len(),
            sv == ids_view(v@),
            ids_view(out@).no_duplicates(),
            forall|x: Seq<char>| ids_view(out@).contains(x) <==> sv.take(i as int).contains(x),
        decreases v.len() - i,
    {
        let ghost before = ids_view(out@);
        let mut found = false;
        let mut k: usize = 0;
        while k < out.len() && !found
            invariant
                k <= out.len(),
                i < v.len(),
                before == ids_view(out@),
                found ==> before.contains(v[i as int]@),
                !found ==> forall|m: int| 0 <= m < k ==> before[m] != v[i as int]@,
            decreases out.len() - k + if found { 0int } else { 1int },
        {
            if same_text(&out[k].0, &v[i].0) {
                assert(before[k as int] == v[i as int]@);
                found = true;
            } else {
                k += 1;
            }
        }
        if !found {
            out.push(v[i].clone());
            assert(ids_view(out@) =~= before.push(v[i as int]@));
        }
        proof {
            let y = v[i as int]@;
            assert(sv.take(i + 1) =~= sv.take(i as int).push(y));
            assert forall|x: Seq<char>| ids_view(out@).contains(x) <==> sv.take(i + 1).contains(
                x,
            ) by {
                lemma_push_contains(sv.take(i as int), y, x);
                lemma_push_contains(before, y, x);
            }
        }
        i += 1;
    }
    proof {
        assert(sv.take(i as int) =~= sv);
        assert(ids_view(out@).to_set() =~= sv.to_set());
    }
    out
}

impl InterfaceResponse {
    /// Construct an `InterfaceResponse`: the decision, the set of the
    /// given policies and the set of the given messages.
    pub fn new(decision: Decision, reason: Vec<PolicyId>, errors: Vec<String>) -> (r: Self)
        ensures
            r@ == (InterfaceResponseV {
                decision,
                reason: ids_view(reason@).to_set(),
                errors: strings_view(errors@).to_set(),
            }),
    {
        Self {
            decision,
            diagnostics: InterfaceDiagnostics {
                reason: distinct_ids(reason),
                errors: distinct_strings(errors),
            },
        }
    }

    /// Get the authorization decision
    pub fn decision(&self) -> (r: Decision)
        ensures
            r == self@.decision,
    {
        self.decision
    }

    /// Get the authorization diagnostics
    pub fn diagnostics(&self) -> (r: &InterfaceDiagnostics)
        ensures
            r@.reason == self@.reason,
            r@.errors == self@.errors,
    {
        &self.diagnostics
    }

    /// The answer with each error as its message.
    pub fn from_response(response: &Response) -> (r: Self)
        ensures
            r@ == (InterfaceResponseV {
                decision: response@.decision,
                reason: response@.reason.to_set(),
                errors: error_messages(response@.errors).to_set(),
            }),
    {
        let ids = response.reason();
        let mut reason: Vec<PolicyId> = Vec::new();
        let mut i: usize = 0;
        while i < ids.len()
            invariant
                i <= ids.len(),
                reason.len() == i,
                forall|k: int| 0 <= k < i ==> reason[k]@ == ids[k]@,
            decreases ids.len() - i,
        {
            reason.push(ids[i].clone());
            i += 1;
        }
        assert(ids_view(reason@) =~= ids_view(ids@));
        let errs = response.errors();
        let ghost ev = errors_view(errs@);
        let mut errors: Vec<String> = Vec::new();
        let mut j: usize = 0;
        while j < errs.len()
            invariant
                j <= errs.len(),
                ev == errors_view(errs@),
                errors.len() == j,
                forall|k: int| 0 <= k < j ==> errors[k]@ == authorization_error_message(ev[k]),
            decreases errs.len() - j,
        {
            errors.push(errs[j].message());
            j += 1;
        }
        assert(strings_view(errors@) =~= error_messages(ev));
        Self::new(response.decision(), reason, errors)
    }
}

/// The messages of the given errors, in order.
pub open spec fn error_messages(errors: Seq<AuthorizationErrorV>) -> Seq<Seq<char>> {
    Seq::new(errors.len(), |i: int| authorization_error_message(errors[i]))
}

impl InterfaceDiagnostics {
    /// Get the policies that contributed to the decision
    pub fn reason(&self) -> (r: &Vec<PolicyId>)
        ensures
            ids_view(r@).to_set() == self@.reason,
    {
        &self.reason
    }

    /// Get the errors
    pub fn errors(&self) -> (r: &Vec<String>)
        ensures
            strings_view(r@).to_set() == self@.errors,
    {
        &self.errors
    }
}

/// Error returned for duplicate link ids in a template instantiation
#[derive(Debug, Clone, PartialEq, Eq)]
pub enum DuplicateLinkError {
    /// Duplicate instantiations for the same slot
    Duplicates(Vec<String>),
}

/// Each of the names between backquotes, in order.
pub open spec fn backquoted(names: Seq<Seq<char>>) -> Seq<Seq<char>> {
    Seq::new(names.len(), |i: int| "`"@ + names[i] + "`"@)
}

/// The message for slots that were given a value more than once.
pub open spec fn duplicate_link_message(slots: Seq<Seq<char>>) -> Seq<char> {
    "duplicate instantiations of the slot(s): "@ + joined(backquoted(slots), ", "@)
}

impl DuplicateLinkError {
    /// The slots that were given a value more than once.
    pub open spec fn slots(&self) -> Seq<Seq<char>> {
        match self {
            DuplicateLinkError::Duplicates(d) => strings_view(d@),
        }
    }

    /// The message of this error.
    pub fn message(&self) -> (r: String)
        ensures
            r@ == duplicate_link_message(self.slots()),
    {
        match self {
            DuplicateLinkError::Duplicates(d) => {
                let mut names: Vec<String> = Vec::new();
                let mut i: usize = 0;
                while i < d.len()
                    invariant
                        i <= d.len(),
                        names.len() == i,
                        forall|k: int| 0 <= k < i ==> names[k]@ == "`"@ + d[k]@ + "`"@,
                    decreases d.len() - i,
                {
                    names.push(cat3("`", d[i].as_str(), "`"));
                    i += 1;
                }
                assert(strings_view(names@) =~= backquoted(strings_view(d@)));
                let list = join_strings(&names, ", ");
                let mut out = String::from_str("duplicate instantiations of the slot(s): ");
                out.append(list.as_str());
                out
            },
        }
    }
}

/// Entity UID as strings.
#[derive(Debug, Clone, PartialEq, Eq)]
pub struct EntityUIDStrings {
    pub ty: String,
    pub eid: String,
}

/// The value for one slot of a template.
#[derive(Debug, Clone, PartialEq, Eq)]
pub struct Link {
    pub slot: String,
    pub value: EntityUIDStrings,
}

/// Mathematical model of a [`Link`].
pub struct LinkV {
    pub slot: Seq<char>,
    pub ty: Seq<char>,
    pub eid: Seq<char>,
}

impl View for Link {
    type V = LinkV;

    open spec fn view(&self) -> LinkV {
        LinkV { slot: self.slot@, ty: self.value.ty@, eid: self.value.eid@ }
    }
}

/// The models of a vector of links, in order.
pub open spec fn links_view(links: Seq<Link>) -> Seq<LinkV> {
    Seq::new(links.len(), |i: int| links[i]@)
}

/// The slots that the links speak of, in order.
pub open spec fn link_slots(links: Seq<LinkV>) -> Seq<Seq<char>> {
    Seq::new(links.len(), |i: int| links[i].slot)
}

/// The values for the slots of a template. No slot is given two values.
#[derive(Debug, Clone, PartialEq, Eq)]
pub struct Links(Vec<Link>);

impl View for Links {
    type V = Seq<LinkV>;

    closed spec fn view(&self) -> Seq<LinkV> {
        links_view(self.0@)
    }
}

/// The runs of equal neighbours in `s`: each with its length and its element.
pub open spec fn runs(s: Seq<Seq<char>>) -> Seq<(nat, Seq<char>)>
    decreases s.len(),
{
    if s.len() == 0 {
        Seq::empty()
    } else {
        let before = runs(s.drop_last());
        if before.len() > 0 && before.last().1 == s.last() {
            before.drop_last().push(((before.last().0 + 1) as nat, s.last()))
        } else {
            before.push((1nat, s.last()))
        }
    }
}

/// The elements of the runs that are longer than one, in order.
pub open spec fn repeated(rs: Seq<(nat, Seq<char>)>) -> Seq<Seq<char>>
    decreases rs.len(),
{
    if rs.len() == 0 {
        Seq::empty()
    } else if rs.last().0 == 1 {
        repeated(rs.drop_last())
    } else {
        repeated(rs.drop_last()).push(rs.last().1)
    }
}

/// The strings that occur more than once in `s`, each once, in ascending order.
pub open spec fn duplicates(s: Seq<Seq<char>>) -> Seq<Seq<char>> {
    repeated(runs(sorted_strings(s)))
}

/// How often `x` occurs in `s`.
pub open spec fn occurrences(s: Seq<Seq<char>>, x: Seq<char>) -> nat {
    s.to_multiset().count(x)
}

/// Whether the elements of the runs ascend strictly.
pub open spec fn runs_ascend(rs: Seq<(nat, Seq<char>)>) -> bool {
    forall|k: int, l: int| #![trigger rs[k], rs[l]] 0 <= k < l < rs.len() ==> lex_lt(rs[k].1, rs[l].1)
}

/// How often a string occurs in a sequence with one more element.
pub proof fn lemma_occurrences_push(b: Seq<Seq<char>>, x: Seq<char>, y: Seq<char>)
    ensures
        occurrences(b.push(x), y) == occurrences(b, y) + (if y == x {
            1nat
        } else {
            0nat
        }),
{
    to_multiset_build(b, x);
}

/// The runs of an ascending sequence: their elements ascend strictly,
/// each run is as long as its element is frequent, and every element of
/// the sequence has its run.
pub proof fn lemma_runs(t: Seq<Seq<char>>)
    requires
        sorted_by(t, lex_order()),
    ensures
        t.len() == 0 ==> runs(t).len() == 0,
        t.len() > 0 ==> runs(t).len() > 0 && runs(t).last().1 == t.last(),
        runs_ascend(runs(t)),
        forall|k: int|
            0 <= k < runs(t).len() ==> (#[trigger] runs(t)[k]).0 == occurrences(t, runs(t)[k].1)
                && runs(t)[k].0 >= 1,
        forall|x: Seq<char>|
            occurrences(t, x) > 0 ==> exists|k: int|
                0 <= k < runs(t).len() && (#[trigger] runs(t)[k]).1 == x,
    decreases t.len(),
{
    let r = runs(t);
    if t.len() == 0 {
        assert(t.to_multiset().len() == 0) by {
            to_multiset_len(t);
        }
        assert forall|x: Seq<char>| occurrences(t, x) > 0 implies exists|k: int|
            0 <= k < r.len() && (#[trigger] r[k]).1 == x by {
            to_multiset_contains(t, x);
        }
    } else {
        let b = t.drop_last();
        let rb = runs(b);
        let x = t.last();
        assert(t =~= b.push(x));
        assert(sorted_by(b, lex_order())) by {
            assert forall|i: int, j: int| 0 <= i < j < b.len() implies #[trigger] lex_order()(
                b[i],
                b[j],
            ) by {
                assert(lex_order()(t[i], t[j]));
            }
        }
        lemma_runs(b);
        lemma_lex_lt_irreflexive(x);
        assert forall|y: Seq<char>| occurrences(t, y) == occurrences(b, y) + (if y == x {
            1nat
        } else {
            0nat
        }) by {
            lemma_occurrences_push(b, x, y);
        }
        if rb.len() > 0 && rb.last().1 == x {
            let n = rb.len() - 1;
            assert(r.len() == rb.len());
            assert forall|k: int| 0 <= k < r.len() implies (#[trigger] r[k]).1 == rb[k].1 by {}
            assert forall|k: int, l: int|
                #![trigger r[k], r[l]]
                0 <= k < l < r.len() implies lex_lt(r[k].1, r[l].1) by {
                assert(lex_lt(rb[k].1, rb[l].1));
            }
            assert forall|k: int| 0 <= k < r.len() implies (#[trigger] r[k]).0 == occurrences(
                t,
                r[k].1,
            ) && r[k].0 >= 1 by {
                if k < n {
                    assert(lex_lt(rb[k].1, rb[n].1));
                    assert(r[k] == rb[k]);
                } else {
                    assert(rb[n].0 == occurrences(b, x));
                }
            }
            assert forall|y: Seq<char>| occurrences(t, y) > 0 implies exists|k: int|
                0 <= k < r.len() && (#[trigger] r[k]).1 == y by {
                if y == x {
                    assert(r[n].1 == y);
                } else {
                    let k = choose|k: int| 0 <= k < rb.len() && (#[trigger] rb[k]).1 == y;
                    assert(r[k].1 == y);
                }
            }
        } else {
            let n = rb.len() as int;
            assert(r == rb.push((1nat, x)));
            assert forall|k: int| 0 <= k < n implies lex_lt((#[trigger] rb[k]).1, x) by {
                assert(b.len() > 0);
                assert(lex_order()(t[b.len() - 1], t[t.len() - 1]));
                assert(b.last() == t[b.len() - 1]);
                lemma_lex_total(b.last(), x);
                assert(lex_lt(b.last(), x));
                if k < n - 1 {
                    assert(lex_lt(rb[k].1, rb[n - 1].1));
                    lemma_lex_transitive(rb[k].1, b.last(), x);
                }
            }
            assert forall|k: int, l: int|
                #![trigger r[k], r[l]]
                0 <= k < l < r.len() implies lex_lt(r[k].1, r[l].1) by {
                if l < n {
                    assert(lex_lt(rb[k].1, rb[l].1));
                } else {
                    assert(lex_lt(rb[k].1, x));
                }
            }
            if occurrences(b, x) > 0 {
                let k = choose|k: int| 0 <= k < rb.len() && (#[trigger] rb[k]).1 == x;
                assert(lex_lt(rb[k].1, x));
            }
            assert forall|k: int| 0 <= k < r.len() implies (#[trigger] r[k]).0 == occurrences(
                t,
                r[k].1,
            ) && r[k].0 >= 1 by {
                if k < n {
                    assert(lex_lt(rb[k].1, x));
                    assert(r[k] == rb[k]);
                }
            }
            assert forall|y: Seq<char>| occurrences(t, y) > 0 implies exists|k: int|
                0 <= k < r.len() && (#[trigger] r[k]).1 == y by {
                if y == x {
                    assert(r[n].1 == y);
                } else {
                    let k = choose|k: int| 0 <= k < rb.len() && (#[trigger] rb[k]).1 == y;
                    assert(r[k].1 == y);
                }
            }
        }
    }
}

/// The elements of the longer runs: each is the element of a run that is
/// longer than one, each such run gives one, and they ascend strictly
/// where the runs do.
pub proof fn lemma_repeated(rs: Seq<(nat, Seq<char>)>)
    requires
        runs_ascend(rs),
    ensures
        forall|i: int|
            0 <= i < repeated(rs).len() ==> exists|k: int|
                0 <= k < rs.len() && (#[trigger] rs[k]).0 != 1 && rs[k].1 == #[trigger] repeated(
                    rs,
                )[i],
        forall|k: int|
            0 <= k < rs.len() && (#[trigger] rs[k]).0 != 1 ==> repeated(rs).contains(rs[k].1),
        forall|i: int, j: int|
            #![trigger repeated(rs)[i], repeated(rs)[j]]
            0 <= i < j < repeated(rs).len() ==> lex_lt(repeated(rs)[i], repeated(rs)[j]),
    decreases rs.len(),
{
    let d = repeated(rs);
    if rs.len() > 0 {
        let before = rs.drop_last();
        let db = repeated(before);
        let n = rs.len() - 1;
        assert forall|k: int, l: int|
            #![trigger before[k], before[l]]
            0 <= k < l < before.len() implies lex_lt(before[k].1, before[l].1) by {
            assert(lex_lt(rs[k].1, rs[l].1));
        }
        lemma_repeated(before);
        assert forall|i: int| 0 <= i < d.len() implies exists|k: int|
            0 <= k < rs.len() && (#[trigger] rs[k]).0 != 1 && rs[k].1 == #[trigger] d[i] by {
            if i < db.len() {
                let k = choose|k: int|
                    0 <= k < before.len() && (#[trigger] before[k]).0 != 1 && before[k].1 == db[i];
                assert(rs[k] == before[k]);
            } else {
                assert(rs[n].1 == d[i]);
            }
        }
        assert forall|k: int| 0 <= k < rs.len() && (#[trigger] rs[k]).0 != 1 implies d.contains(
            rs[k].1,
        ) by {
            if k < n {
                assert(before[k] == rs[k]);
                assert(db.contains(rs[k].1));
                let i = choose|i: int| 0 <= i < db.len() && db[i] == rs[k].1;
                assert(d[i] == rs[k].1);
            } else {
                assert(d[d.len() - 1] == rs[k].1);
            }
        }
        assert forall|i: int, j: int|
            #![trigger d[i], d[j]]
            0 <= i < j < d.len() implies lex_lt(d[i], d[j]) by {
            if j < db.len() {
                assert(lex_lt(db[i], db[j]));
            } else {
                let k = choose|k: int|
                    0 <= k < before.len() && (#[trigger] before[k]).0 != 1 && before[k].1 == db[i];
                assert(lex_lt(rs[k].1, rs[n].1));
            }
        }
    }
}

/// The strings that are listed as occurring more than once are those that
/// occur twice or more, in strictly ascending order; there is none if and
/// only if no string occurs twice.
pub proof fn law_duplicates(s: Seq<Seq<char>>)
    ensures
        forall|x: Seq<char>| #[trigger] duplicates(s).contains(x) <==> occurrences(s, x) >= 2,
        forall|i: int, j: int|
            #![trigger duplicates(s)[i], duplicates(s)[j]]
            0 <= i < j < duplicates(s).len() ==> lex_lt(duplicates(s)[i], duplicates(s)[j]),
        duplicates(s).len() == 0 <==> s.no_duplicates(),
{
    let t = sorted_strings(s);
    let r = runs(t);
    let d = duplicates(s);
    lemma_lex_order_total();
    s.lemma_sort_by_ensures(lex_order());
    assert(t.to_multiset() == s.to_multiset());
    lemma_runs(t);
    lemma_repeated(r);
    assert forall|x: Seq<char>| #[trigger] d.contains(x) <==> occurrences(s, x) >= 2 by {
        if d.contains(x) {
            let i = choose|i: int| 0 <= i < d.len() && d[i] == x;
            let k = choose|k: int| 0 <= k < r.len() && (#[trigger] r[k]).0 != 1 && r[k].1 == d[i];
            assert(r[k].0 == occurrences(t, x));
        }
        if occurrences(s, x) >= 2 {
            let k = choose|k: int| 0 <= k < r.len() && (#[trigger] r[k]).1 == x;
            assert(r[k].0 == occurrences(t, x));
            assert(d.contains(r[k].1));
        }
    }
    if d.len() == 0 {
        assert forall|x: Seq<char>| s.to_multiset().contains(x) implies s.to_multiset().count(x)
            == 1 by {
            assert(!d.contains(x));
            assert(occurrences(s, x) < 2);
        }
        s.lemma_multiset_has_no_duplicates_conv();
    }
    if s.no_duplicates() {
        s.lemma_multiset_has_no_duplicates();
        if d.len() > 0 {
            assert(d.contains(d[0]));
            assert(occurrences(s, d[0]) >= 2);
            assert(s.to_multiset().contains(d[0]));
        }
    }
}

/// The models of counted strings, in order.
pub open spec fn counted_view(r: Seq<(usize, String)>) -> Seq<(nat, Seq<char>)> {
    Seq::new(r.len(), |i: int| (r[i].0 as nat, r[i].1@))
}

/// The runs of equal neighbours in `v`, each with its length and its
/// first element.
///
/// Wraps `Itertools::dedup_with_count`, which removes duplicates from
/// sections of consecutive identical elements and keeps a count of how
/// many repeated elements were present.
#[verifier::external_body]
pub(crate) fn dedup_with_count(v: Vec<String>) -> (r: Vec<(usize, String)>)
    ensures
        counted_view(r@) == runs(strings_view(v@)),
{
    v.into_iter().dedup_with_count().collect()
}

impl Links {
    /// The links, provided that no slot is given two values. Else the
    /// slots that are, each once, in ascending order.
    pub fn try_from(links: Vec<Link>) -> (r: Result<Links, DuplicateLinkError>)
        ensures
            r is Ok <==> link_slots(links_view(links@)).no_duplicates(),
            r is Ok ==> r->Ok_0@ == links_view(links@),
            r is Err ==> r->Err_0.slots() == duplicates(link_slots(links_view(links@))),
    {
        let ghost sv = link_slots(links_view(links@));
        let mut slots: Vec<String> = Vec::new();
        let mut i: usize = 0;
        while i < links.len()
            invariant
                i <= links.len(),
                slots.len() == i,
                forall|k: int| 0 <= k < i ==> slots[k]@ == links[k].slot@,
            decreases links.len() - i,
        {
            slots.push(links[i].slot.clone());
            i += 1;
        }
        assert(strings_view(slots@) =~= sv);
        let sorted = sort_strings(&slots);
        let counted = dedup_with_count(sorted);
        let ghost cv = counted_view(counted@);
        let mut repeats: Vec<String> = Vec::new();
        let mut j: usize = 0;
        assert(strings_view(repeats@) =~= repeated(cv.take(0)));
        while j < counted.len()
            invariant
                j <= counted.len(),
                cv == counted_view(counted@),
                strings_view(repeats@) == repeated(cv.take(j as int)),
            decreases counted.len() - j,
        {
            proof {
                assert(cv.take(j + 1).drop_last() =~= cv.take(j as int));
                assert(cv.take(j + 1).last() == (counted[j as int].0 as nat, counted[j as int].1@));
            }
            if counted[j].0 != 1 {
                let ghost before = strings_view(repeats@);
                repeats.push(counted[j].1.clone());
                assert(strings_view(repeats@) =~= before.push(counted[j as int].1@));
            }
            j += 1;
        }
        assert(cv.take(j as int) =~= cv);
        proof {
            law_duplicates(sv);
        }
        if repeats.len() == 0 {
            Ok(Links(links))
        } else {
            Err(DuplicateLinkError::Duplicates(repeats))
        }
    }

    /// The links, in order.
    pub fn into_vec(self) -> (r: Vec<Link>)
        ensures
            links_view(r@) == self@,
    {
        self.0
    }

    /// The links, in order.
    pub fn as_vec(&self) -> (r: &Vec<Link>)
        ensures
            links_view(r@) == self@,
    {
        &self.0
    }
}

/// What links a template to a policy: the template, the identifier of the
/// policy, and the values for the slots.
#[derive(Debug, Clone, PartialEq, Eq)]
pub struct TemplateLink {
    /// Template ID to fill in
    pub template_id: String,
    /// Policy id for resulting concrete policy instance
    pub result_policy_id: String,
    /// List of strings to fill in all slots in policy template "template_id".
    pub instantiations: Links,
}

/// The message for a slot that is neither `?principal` nor `?resource`.
pub open spec fn bad_slot_message() -> Seq<char> {
    "Slot must by \"?principal\" or \"?resource\""@
}

/// The message for a string that is no name of an entity type.
pub open spec fn bad_type_name_message(ty: Seq<char>) -> Seq<char> {
    "invalid entity type name: `"@ + ty + "`"@
}

/// What a link says: the slot and the entity, or the messages of what is
/// wrong with it. The slot is looked at first.
pub open spec fn instantiation_of(link: LinkV) -> Result<(SlotId, EntityUidV), Seq<Seq<char>>> {
    if link.slot != "?principal"@ && link.slot != "?resource"@ {
        Err(seq![bad_slot_message()])
    } else if !valid_name(link.ty) {
        Err(seq![bad_type_name_message(link.ty)])
    } else {
        Ok(
            (
                if link.slot == "?principal"@ {
                    SlotId::Principal
                } else {
                    SlotId::Resource
                },
                EntityUidV { ty: EntityTypeV::Specified(link.ty), eid: link.eid },
            ),
        )
    }
}

/// What a link says: the slot and the entity, or the messages of what is
/// wrong with it.
pub fn parse_instantiation(v: &Link) -> (r: Result<(SlotId, EntityUid), Vec<String>>)
    ensures
        r is Ok <==> instantiation_of(v@) is Ok,
        r is Ok ==> (r->Ok_0.0, r->Ok_0.1@) == instantiation_of(v@)->Ok_0,
        r is Err ==> strings_view(r->Err_0@) == instantiation_of(v@)->Err_0,
{
    proof {
        reveal_strlit("?principal");
        reveal_strlit("?resource");
    }
    let slot = if text_is(&v.slot, "?principal") {
        SlotId::Principal
    } else if text_is(&v.slot, "?resource") {
        SlotId::Resource
    } else {
        let mut errs: Vec<String> = Vec::new();
        errs.push(String::from_str("Slot must by \"?principal\" or \"?resource\""));
        assert(strings_view(errs@) =~= seq![bad_slot_message()]);
        return Err(errs);
    };
    if is_valid_name(v.value.ty.as_str()) {
        let entity_uid = EntityUid {
            ty: EntityType::Specified(v.value.ty.clone()),
            eid: v.value.eid.clone(),
        };
        Ok((slot, entity_uid))
    } else {
        let mut errs: Vec<String> = Vec::new();
        errs.push(cat3("invalid entity type name: `", v.value.ty.as_str(), "`"));
        assert(strings_view(errs@) =~= seq![bad_type_name_message(v.value.ty@)]);
        Err(errs)
    }
}

/// What the links at or after position `i` say, after `acc`: the slots
/// with their entities, in order, or the messages of the first link that
/// is wrong.
pub open spec fn instantiations_from(
    links: Seq<LinkV>,
    i: int,
    acc: Seq<(SlotId, EntityUidV)>,
) -> Result<Seq<(SlotId, EntityUidV)>, Seq<Seq<char>>>
    decreases links.len() - i,
{
    if i < 0 || i >= links.len() {
        Ok(acc)
    } else {
        match instantiation_of(links[i]) {
            Err(e) => Err(e),
            Ok(v) => instantiations_from(links, i + 1, acc.push(v)),
        }
    }
}

/// Mathematical model of a [`TemplateLink`].
pub struct TemplateLinkV {
    pub template_id: Seq<char>,
    pub result_policy_id: Seq<char>,
    pub instantiations: Seq<LinkV>,
}

impl View for TemplateLink {
    type V = TemplateLinkV;

    open spec fn view(&self) -> TemplateLinkV {
        TemplateLinkV {
            template_id: self.template_id@,
            result_policy_id: self.result_policy_id@,
            instantiations: self.instantiations@,
        }
    }
}

/// What a template link adds to a policy set: the linked policy, or the
/// messages of what is wrong.
pub open spec fn instantiation_outcome(set: PolicySetV, link: TemplateLinkV) -> Result<
    PolicyV,
    Seq<Seq<char>>,
> {
    match instantiations_from(link.instantiations, 0, Seq::empty()) {
        Err(e) => Err(e),
        Ok(values) => match link_outcome(set, link.template_id, link.result_policy_id, values) {
            Ok(p) => Ok(p),
            Err(e) => Err(seq!["Error instantiating template: "@ + linking_error_message(e)]),
        },
    }
}

/// Links a template as the template link says, and adds the linked policy
/// to the set. Where something is wrong the set stays as it is.
pub fn parse_instantiations(policies: &mut PolicySet, instantiation: TemplateLink) -> (r: Result<
    (),
    Vec<String>,
>)
    ensures
        r is Ok <==> instantiation_outcome(old(policies)@, instantiation@) is Ok,
        r is Ok ==> final(policies)@ == (PolicySetV {
            templates: old(policies)@.templates,
            policies: old(policies)@.policies.push(
                instantiation_outcome(old(policies)@, instantiation@)->Ok_0,
            ),
        }),
        r is Err ==> final(policies)@ == old(policies)@ && strings_view(r->Err_0@)
            == instantiation_outcome(old(policies)@, instantiation@)->Err_0,
        old(policies).wf() ==> final(policies).wf(),
{
    let ghost link = instantiation@;
    let template_id = PolicyId(instantiation.template_id);
    let instance_id = PolicyId(instantiation.result_policy_id);
    let links = instantiation.instantiations.into_vec();
    let ghost lv = links_view(links@);
    let mut vals: Vec<(SlotId, EntityUid)> = Vec::new();
    let mut i: usize = 0;
    assert(crate::policy_set::values_view(vals@) =~= Seq::empty());
    while i < links.len()
        invariant
            i <= links.len(),
            lv == links_view(links@),
            lv == link.instantiations,
            link == instantiation@,
            *policies == *old(policies),
            instantiations_from(lv, 0, Seq::empty()) == instantiations_from(
                lv,
                i as int,
                crate::policy_set::values_view(vals@),
            ),
        decreases links.len() - i,
    {
        assert(lv[i as int] == links[i as int]@);
        match parse_instantiation(&links[i]) {
            Err(e) => {
                return Err(e);
            },
            Ok(val) => {
                let ghost before = crate::policy_set::values_view(vals@);
                vals.push(val);
                assert(crate::policy_set::values_view(vals@) =~= before.push((val.0, val.1@)));
            },
        }
        i += 1;
    }
    match policies.link(template_id, instance_id, vals) {
        Ok(()) => Ok(()),
        Err(e) => {
            let m = e.message();
            let mut errs: Vec<String> = Vec::new();
            let mut text = String::from_str("Error instantiating template: ");
            text.append(m.as_str());
            errs.push(text);
            assert(strings_view(errs@) =~= seq![
                "Error instantiating template: "@ + linking_error_message(e@),
            ]);
            Err(errs)
        },
    }
}

/// The default of an option that is on unless it is switched off.
pub fn constant_true() -> (r: bool)
    ensures
        r,
{
    true
}

/// The text of policies: one text that holds them all, or one text for
/// each, with its identifier.
#[derive(Debug, Clone, PartialEq, Eq)]
pub enum PolicySpecification {
    /// One text with many policies, which are numbered.
    Concatenated(String),
    /// Policies, each with its identifier.
    Individual(Vec<(String, String)>),
}

/// The character sequences of pairs of strings, in order.
pub open spec fn pairs_view(ps: Seq<(String, String)>) -> Seq<(Seq<char>, Seq<char>)> {
    Seq::new(ps.len(), |i: int| (ps[i].0@, ps[i].1@))
}

/// Mathematical model of a [`PolicySpecification`].
pub enum PolicySpecificationV {
    Concatenated(Seq<char>),
    Individual(Seq<(Seq<char>, Seq<char>)>),
}

impl View for PolicySpecification {
    type V = PolicySpecificationV;

    open spec fn view(&self) -> PolicySpecificationV {
        match self {
            PolicySpecification::Concatenated(s) => PolicySpecificationV::Concatenated(s@),
            PolicySpecification::Individual(ps) => PolicySpecificationV::Individual(pairs_view(ps@)),
        }
    }
}

/// A policy set, and the messages of what went wrong while it was made.
pub struct Progress {
    pub set: PolicySetV,
    pub errors: Seq<Seq<char>>,
}

/// The set without policies, and no errors.
pub open spec fn no_progress() -> Progress {
    Progress {
        set: PolicySetV { templates: Seq::empty(), policies: Seq::empty() },
        errors: Seq::empty(),
    }
}

/// What adding the static policy with the identifier `id` and the text
/// `src` makes of a policy set: the set with the policy, or the set as it
/// is with a message more.
pub open spec fn add_one_policy(before: Progress, id: Seq<char>, src: Seq<char>) -> Progress {
    match static_policy_of_text(id, src) {
        Ok(p) => match add_error(before.set, p) {
            None => Progress {
                set: PolicySetV {
                    templates: before.set.templates,
                    policies: before.set.policies.push(p),
                },
                errors: before.errors,
            },
            Some(e) => Progress {
                set: before.set,
                errors: before.errors.push(
                    "couldn't add policy to set due to error: "@ + policy_set_error_message(e),
                ),
            },
        },
        Err(e) => Progress {
            set: before.set,
            errors: before.errors.push("couldn't parse policy with id `"@ + id + "`"@).push(
                parse_error_message(e),
            ),
        },
    }
}

/// What adding the template with the identifier `id` and the text `src`
/// makes of a policy set.
pub open spec fn add_one_template(before: Progress, id: Seq<char>, src: Seq<char>) -> Progress {
    match template_of_text(id, src) {
        Ok(p) => match add_template_error(before.set, p) {
            None => Progress {
                set: PolicySetV {
                    templates: before.set.templates.push(p),
                    policies: before.set.policies,
                },
                errors: before.errors,
            },
            Some(e) => Progress {
                set: before.set,
                errors: before.errors.push(
                    "couldn't add policy to set due to error: "@ + policy_set_error_message(e),
                ),
            },
        },
        Err(e) => Progress {
            set: before.set,
            errors: before.errors.push("couldn't parse policy with id `"@ + id + "`"@).push(
                parse_error_message(e),
            ),
        },
    }
}

/// What adding the static policies `ps`, in their order, makes of a policy set.
pub open spec fn add_policies(before: Progress, ps: Seq<(Seq<char>, Seq<char>)>) -> Progress
    decreases ps.len(),
{
    if ps.len() == 0 {
        before
    } else {
        add_one_policy(add_policies(before, ps.drop_last()), ps.last().0, ps.last().1)
    }
}

/// What adding the templates `ts`, in their order, makes of a policy set.
pub open spec fn add_templates(before: Progress, ts: Seq<(Seq<char>, Seq<char>)>) -> Progress
    decreases ts.len(),
{
    if ts.len() == 0 {
        before
    } else {
        add_one_template(add_templates(before, ts.drop_last()), ts.last().0, ts.last().1)
    }
}

/// The templates, if there are any.
pub open spec fn opt_pairs_view(ts: Option<Vec<(String, String)>>) -> Seq<(Seq<char>, Seq<char>)> {
    match ts {
        Some(ts) => pairs_view(ts@),
        None => Seq::empty(),
    }
}

/// The policy set of the static policies `ps` and of the templates `ts`,
/// each given with its identifier: the policies first. Where a text is no
/// policy, or an identifier is used twice, the messages of all that went wrong.
pub open spec fn individual_policies(
    ps: Seq<(Seq<char>, Seq<char>)>,
    ts: Seq<(Seq<char>, Seq<char>)>,
) -> Result<PolicySetV, Seq<Seq<char>>> {
    let end = add_templates(add_policies(no_progress(), ps), ts);
    if end.errors.len() == 0 {
        Ok(end.set)
    } else {
        Err(end.errors)
    }
}

fn add_policy_text(set: &mut PolicySet, errs: &mut Vec<String>, id: &String, src: &String)
    ensures
        (Progress { set: final(set)@, errors: strings_view(final(errs)@) }) == add_one_policy(
            Progress { set: old(set)@, errors: strings_view(old(errs)@) },
            id@,
            src@,
        ),
        old(set).wf() ==> final(set).wf(),
{
    let ghost before = strings_view(errs@);
    match Policy::parse(id.as_str(), src.as_str()) {
        Ok(p) => match set.add(p) {
            Ok(()) => {},
            Err(err) => {
                let m = err.message();
                let mut text = String::from_str("couldn't add policy to set due to error: ");
                text.append(m.as_str());
                errs.push(text);
                assert(strings_view(errs@) =~= before.push(text@));
            },
        },
        Err(pe) => {
            let first = cat3("couldn't parse policy with id `", id.as_str(), "`");
            let second = pe.message();
            errs.push(first);
            errs.push(second);
            assert(strings_view(errs@) =~= before.push(first@).push(second@));
        },
    }
}

fn add_template_text(set: &mut PolicySet, errs: &mut Vec<String>, id: &String, src: &String)
    ensures
        (Progress { set: final(set)@, errors: strings_view(final(errs)@) }) == add_one_template(
            Progress { set: old(set)@, errors: strings_view(old(errs)@) },
            id@,
            src@,
        ),
        old(set).wf() ==> final(set).wf(),
{
    let ghost before = strings_view(errs@);
    match Policy::parse_template(id.as_str(), src.as_str()) {
        Ok(p) => match set.add_template(p) {
            Ok(()) => {},
            Err(err) => {
                let m = err.message();
                let mut text = String::from_str("couldn't add policy to set due to error: ");
                text.append(m.as_str());
                errs.push(text);
                assert(strings_view(errs@) =~= before.push(text@));
            },
        },
        Err(pe) => {
            let first = cat3("couldn't parse policy with id `", id.as_str(), "`");
            let second = pe.message();
            errs.push(first);
            errs.push(second);
            assert(strings_view(errs@) =~= before.push(first@).push(second@));
        },
    }
}

/// The policy set of the static policies and of the templates that are
/// given, each with its identifier, or the messages of all that went wrong.
pub fn parse_policy_set_from_individual_policies(
    policies: &Vec<(String, String)>,
    templates: Option<Vec<(String, String)>>,
) -> (r: Result<PolicySet, Vec<String>>)
    ensures
        r is Ok <==> individual_policies(pairs_view(policies@), opt_pairs_view(templates)) is Ok,
        r is Ok ==> r->Ok_0@ == individual_policies(
            pairs_view(policies@),
            opt_pairs_view(templates),
        )->Ok_0 && r->Ok_0.wf(),
        r is Err ==> strings_view(r->Err_0@) == individual_policies(
            pairs_view(policies@),
            opt_pairs_view(templates),
        )->Err_0,
{
    let ghost pv = pairs_view(policies@);
    let ghost tv = opt_pairs_view(templates);
    let mut policy_set = PolicySet::new();
    let mut errs: Vec<String> = Vec::new();
    assert(strings_view(errs@) =~= Seq::empty());
    let mut i: usize = 0;
    while i < policies.len()
        invariant
            i <= policies.len(),
            pv == pairs_view(policies@),
            policy_set.wf(),
            (Progress { set: policy_set@, errors: strings_view(errs@) }) == add_policies(
                no_progress(),
                pv.take(i as int),
            ),
        decreases policies.len() - i,
    {
        proof {
            assert(pv.take(i + 1).drop_last() =~= pv.take(i as int));
            assert(pv.take(i + 1).last() == (policies[i as int].0@, policies[i as int].1@));
        }
        add_policy_text(&mut policy_set, &mut errs, &policies[i].0, &policies[i].1);
        i += 1;
    }
    assert(pv.take(i as int) =~= pv);
    let ghost middle = add_policies(no_progress(), pv);
    match templates {
        Some(ts) => {
            let mut j: usize = 0;
            while j < ts.len()
                invariant
                    j <= ts.len(),
                    tv == pairs_view(ts@),
                    policy_set.wf(),
                    (Progress { set: policy_set@, errors: strings_view(errs@) }) == add_templates(
                        middle,
                        tv.take(j as int),
                    ),
                decreases ts.len() - j,
            {
                proof {
                    assert(tv.take(j + 1).drop_last() =~= tv.take(j as int));
                    assert(tv.take(j + 1).last() == (ts[j as int].0@, ts[j as int].1@));
                }
                add_template_text(&mut policy_set, &mut errs, &ts[j].0, &ts[j].1);
                j += 1;
            }
            assert(tv.take(j as int) =~= tv);
        },
        None => {},
    }
    if errs.len() == 0 {
        Ok(policy_set)
    } else {
        Err(errs)
    }
}

/// Policies, entities, templates and template links, as they are received.
#[derive(Debug, PartialEq, Eq)]
pub struct RecvdSlice {
    pub policies: PolicySpecification,
    /// JSON value containing the entities data: an array of entities, each
    /// with its identifier, its attributes and its parents.
    pub entities: JsonValue,
    /// Optional template policies.
    pub templates: Option<Vec<(String, String)>>,
    /// Optional template instantiations: the policies to link from templates.
    pub template_instantiations: Option<Vec<TemplateLink>>,
}

/// Mathematical model of a [`RecvdSlice`].
pub struct RecvdSliceV {
    pub policies: PolicySpecificationV,
    pub entities: JsonV,
    pub templates: Seq<(Seq<char>, Seq<char>)>,
    pub template_instantiations: Seq<TemplateLinkV>,
}

/// The models of a vector of template links, in order.
pub open spec fn template_links_view(ls: Seq<TemplateLink>) -> Seq<TemplateLinkV> {
    Seq::new(ls.len(), |i: int| ls[i]@)
}

/// The template links, if there are any.
pub open spec fn opt_links_view(ls: Option<Vec<TemplateLink>>) -> Seq<TemplateLinkV> {
    match ls {
        Some(ls) => template_links_view(ls@),
        None => Seq::empty(),
    }
}

impl View for RecvdSlice {
    type V = RecvdSliceV;

    open spec fn view(&self) -> RecvdSliceV {
        RecvdSliceV {
            policies: self.policies@,
            entities: self.entities@,
            templates: opt_pairs_view(self.templates),
            template_instantiations: opt_links_view(self.template_instantiations),
        }
    }
}

/// The policy set that the text of policies denotes, or the messages of
/// what went wrong. One text with many policies is read as a whole, and
/// the templates that are given beside it are not looked at.
pub open spec fn policy_set_of(policies: PolicySpecificationV, templates: Seq<(Seq<char>, Seq<char>)>)
    -> Result<PolicySetV, Seq<Seq<char>>> {
    match policies {
        PolicySpecificationV::Concatenated(text) => match policy_set_of_text(text) {
            Ok(set) => Ok(set),
            Err(e) => Err(
                seq!["couldn't parse concatenated policies string"@, parse_error_message(e)],
            ),
        },
        PolicySpecificationV::Individual(ps) => individual_policies(ps, templates),
    }
}

/// What a template link makes of a policy set: the set with the linked
/// policy, or the set as it is with the messages of what is wrong.
pub open spec fn instantiate_one(before: Progress, link: TemplateLinkV) -> Progress {
    match instantiation_outcome(before.set, link) {
        Ok(p) => Progress {
            set: PolicySetV {
                templates: before.set.templates,
                policies: before.set.policies.push(p),
            },
            errors: before.errors,
        },
        Err(e) => Progress { set: before.set, errors: before.errors + e },
    }
}

/// What template links, in their order, make of a policy set.
pub open spec fn instantiate_all(before: Progress, links: Seq<TemplateLinkV>) -> Progress
    decreases links.len(),
{
    if links.len() == 0 {
        before
    } else {
        instantiate_one(instantiate_all(before, links.drop_last()), links.last())
    }
}

/// The policy set and the errors before the templates are linked: the
/// policy set of the policies where it and the entities are in order, and
/// else the empty set and the messages of what is wrong with the
/// entities, and after them those of what is wrong with the policies.
pub open spec fn before_linking(
    entities: Result<Seq<RawEntityV>, Seq<char>>,
    policies: Result<PolicySetV, Seq<Seq<char>>>,
) -> Progress {
    match (entities, policies) {
        (Ok(_), Ok(set)) => Progress { set, errors: Seq::empty() },
        (Ok(_), Err(es)) => Progress { set: no_progress().set, errors: es },
        (Err(e), Ok(_)) => Progress { set: no_progress().set, errors: seq![e] },
        (Err(e), Err(es)) => Progress { set: no_progress().set, errors: seq![e] + es },
    }
}

/// What a slice stands for: the policy set with the linked policies, and
/// the entities as they are given; or the messages of all that went wrong.
pub open spec fn slice_outcome(slice: RecvdSliceV, extensions: Seq<ExtOp>) -> Result<
    (PolicySetV, Seq<RawEntityV>),
    Seq<Seq<char>>,
> {
    let entities = entities_of_json(slice.entities, extensions);
    let end = instantiate_all(
        before_linking(entities, policy_set_of(slice.policies, slice.templates)),
        slice.template_instantiations,
    );
    if end.errors.len() == 0 && entities is Ok {
        Ok((end.set, entities->Ok_0))
    } else {
        Err(end.errors)
    }
}

/// Linking adds no error where there is none to add, and takes none away.
pub proof fn lemma_instantiate_keeps_errors(before: Progress, links: Seq<TemplateLinkV>)
    ensures
        instantiate_all(before, links).errors.len() >= before.errors.len(),
    decreases links.len(),
{
    if links.len() > 0 {
        lemma_instantiate_keeps_errors(before, links.drop_last());
    }
}

fn extend_errors(errs: &mut Vec<String>, more: Vec<String>)
    ensures
        strings_view(final(errs)@) == strings_view(old(errs)@) + strings_view(more@),
{
    let ghost start = strings_view(errs@);
    let ghost mv = strings_view(more@);
    let mut i: usize = 0;
    assert(start =~= start + mv.take(0));
    while i < more.len()
        invariant
            i <= more.len(),
            mv == strings_view(more@),
            strings_view(errs@) == start + mv.take(i as int),
        decreases more.len() - i,
    {
        let ghost before = strings_view(errs@);
        errs.push(more[i].clone());
        assert(strings_view(errs@) =~= before.push(more[i as int]@));
        assert(mv.take(i + 1) =~= mv.take(i as int).push(mv[i as int]));
        assert(strings_view(errs@) =~= start + mv.take(i + 1));
        i += 1;
    }
    assert(mv.take(i as int) =~= mv);
}

fn link_one(set: &mut PolicySet, errs: &mut Vec<String>, link: TemplateLink)
    ensures
        (Progress { set: final(set)@, errors: strings_view(final(errs)@) }) == instantiate_one(
            Progress { set: old(set)@, errors: strings_view(old(errs)@) },
            link@,
        ),
        old(set).wf() ==> final(set).wf(),
{
    match parse_instantiations(set, link) {
        Ok(()) => {},
        Err(err) => {
            extend_errors(errs, err);
        },
    }
}

fn clone_link(link: &TemplateLink) -> (r: TemplateLink)
    ensures
        r@ == link@,
{
    let src = link.instantiations.as_vec();
    let mut links: Vec<Link> = Vec::new();
    let mut i: usize = 0;
    while i < src.len()
        invariant
            i <= src.len(),
            links.len() == i,
            forall|k: int| 0 <= k < i ==> links[k]@ == src[k]@,
        decreases src.len() - i,
    {
        links.push(
            Link {
                slot: src[i].slot.clone(),
                value: EntityUIDStrings {
                    ty: src[i].value.ty.clone(),
                    eid: src[i].value.eid.clone(),
                },
            },
        );
        i += 1;
    }
    assert(links_view(links@) =~= links_view(src@));
    TemplateLink {
        template_id: link.template_id.clone(),
        result_policy_id: link.result_policy_id.clone(),
        instantiations: Links(links),
    }
}

impl RecvdSlice {
    /// The policy set and the entities that this slice stands for, or the
    /// messages of all that went wrong. The ancestors of each entity are
    /// all that is above it.
    pub fn try_into(self, extensions: &Extensions) -> (r: Result<(PolicySet, Entities), Vec<String>>)
        ensures
            r is Ok <==> slice_outcome(self@, extensions@) is Ok,
            r matches Ok((policies, entities)) ==> policies@ == slice_outcome(
                self@,
                extensions@,
            )->Ok_0.0 && policies.wf() && closure_of(
                slice_outcome(self@, extensions@)->Ok_0.1,
                entities@.entities,
            ) && entities@.mode == Mode::Concrete,
            r is Err ==> strings_view(r->Err_0@) == slice_outcome(self@, extensions@)->Err_0,
    {
        let ghost slice = self@;
        let Self { policies, entities, templates, template_instantiations } = self;
        let policy_set = match policies {
            PolicySpecification::Concatenated(text) => match PolicySet::from_text(text.as_str()) {
                Ok(ps) => Ok(ps),
                Err(parse_error) => {
                    let mut errs: Vec<String> = Vec::new();
                    errs.push(String::from_str("couldn't parse concatenated policies string"));
                    errs.push(parse_error.message());
                    assert(strings_view(errs@) =~= seq![
                        "couldn't parse concatenated policies string"@,
                        parse_error_message(parse_error),
                    ]);
                    Err(errs)
                },
            },
            PolicySpecification::Individual(ps) => {
                parse_policy_set_from_individual_policies(&ps, templates)
            },
        };
        let mut errs: Vec<String> = Vec::new();
        assert(strings_view(errs@) =~= Seq::empty());
        let ghost raw = entities_of_json(slice.entities, extensions@);
        let (mut policies, entities) = match (Entities::from_json(&entities, extensions), policy_set) {
            (Ok(entities), Ok(policies)) => (policies, entities),
            (Ok(_), Err(policy_parse_errors)) => {
                extend_errors(&mut errs, policy_parse_errors);
                assert(strings_view(errs@) =~= before_linking(
                    raw,
                    policy_set_of(slice.policies, slice.templates),
                ).errors);
                (PolicySet::new(), Entities::empty())
            },
            (Err(e), Ok(_)) => {
                let ghost ev = e@;
                errs.push(e);
                assert(strings_view(errs@) =~= seq![ev]);
                (PolicySet::new(), Entities::empty())
            },
            (Err(e), Err(policy_parse_errors)) => {
                let ghost ev = e@;
                errs.push(e);
                assert(strings_view(errs@) =~= seq![ev]);
                extend_errors(&mut errs, policy_parse_errors);
                (PolicySet::new(), Entities::empty())
            },
        };
        let ghost start = before_linking(raw, policy_set_of(slice.policies, slice.templates));
        assert(start == (Progress { set: policies@, errors: strings_view(errs@) }));
        if let Some(t_inst_list) = template_instantiations {
            let ghost lv = template_links_view(t_inst_list@);
            let mut i: usize = 0;
            while i < t_inst_list.len()
                invariant
                    i <= t_inst_list.len(),
                    lv == template_links_view(t_inst_list@),
                    policies.wf(),
                    (Progress { set: policies@, errors: strings_view(errs@) }) == instantiate_all(
                        start,
                        lv.take(i as int),
                    ),
                decreases t_inst_list.len() - i,
            {
                proof {
                    assert(lv.take(i + 1).drop_last() =~= lv.take(i as int));
                    assert(lv.take(i + 1).last() == t_inst_list[i as int]@);
                }
                link_one(&mut policies, &mut errs, clone_link(&t_inst_list[i]));
                i += 1;
            }
            assert(lv.take(i as int) =~= lv);
        }
        proof {
            lemma_instantiate_keeps_errors(start, slice.template_instantiations);
        }
        if errs.len() == 0 {
            Ok((policies, entities))
        } else {
            Err(errs)
        }
    }
}

/// A request for authorization, as it is received.
#[derive(Debug, PartialEq, Eq)]
pub struct AuthorizationCall {
    pub principal: Option<JsonValue>,
    pub action: JsonValue,
    pub resource: Option<JsonValue>,
    /// The members of the context, in their order.
    pub context: Vec<(String, JsonValue)>,
    /// Optional schema in JSON format. Requests that come with a schema
    /// are refused: validation against a schema is no part of this library.
    pub schema: Option<JsonValue>,
    /// Whether the request is to be validated against the schema.
    pub enable_request_validation: bool,
    pub slice: RecvdSlice,
}

/// Mathematical model of an [`AuthorizationCall`].
pub struct AuthorizationCallV {
    pub principal: Option<JsonV>,
    pub action: JsonV,
    pub resource: Option<JsonV>,
    pub context: Seq<(Seq<char>, JsonV)>,
    pub has_schema: bool,
    pub slice: RecvdSliceV,
}

/// The model of an optional JSON value.
pub open spec fn opt_json_view(v: Option<JsonValue>) -> Option<JsonV> {
    match v {
        Some(v) => Some(v@),
        None => None,
    }
}

impl View for AuthorizationCall {
    type V = AuthorizationCallV;

    open spec fn view(&self) -> AuthorizationCallV {
        AuthorizationCallV {
            principal: opt_json_view(self.principal),
            action: self.action@,
            resource: opt_json_view(self.resource),
            context: members_view(self.context@),
            has_schema: self.schema is Some,
            slice: self.slice@,
        }
    }
}

/// The entity that an optional JSON value names, or the message
/// `what` and the message of what is wrong with the value.
pub open spec fn optional_uid(v: Option<JsonV>, what: Seq<char>) -> Result<
    Option<EntityUidV>,
    Seq<Seq<char>>,
> {
    match v {
        None => Ok(None),
        Some(v) => match uid_of_json(v) {
            Ok(u) => Ok(Some(u)),
            Err(e) => Err(seq![what, e]),
        },
    }
}

/// The request that a call stands for, or the messages of the first
/// thing that is wrong with it: a schema, the principal, the action, the
/// resource, the context.
pub open spec fn request_of(call: AuthorizationCallV, extensions: Seq<ExtOp>) -> Result<
    RequestV,
    Seq<Seq<char>>,
> {
    if call.has_schema {
        Err(seq!["validation against a schema is not supported"@])
    } else {
        match optional_uid(call.principal, "Failed to parse principal"@) {
            Err(e) => Err(e),
            Ok(principal) => match optional_uid(Some(call.action), "Failed to parse action"@) {
                Err(e) => Err(e),
                Ok(action) => match optional_uid(call.resource, "Failed to parse resource"@) {
                    Err(e) => Err(e),
                    Ok(resource) => match context_of_json(call.context, extensions) {
                        Err(e) => Err(seq![e]),
                        Ok(context) => Ok(RequestV { principal, action, resource, context }),
                    },
                },
            },
        }
    }
}

/// What a call stands for: the request, the policy set and the entities
/// as they are given; or the messages of what went wrong, with the
/// request first.
pub open spec fn components_of(call: AuthorizationCallV, extensions: Seq<ExtOp>) -> Result<
    (RequestV, PolicySetV, Seq<RawEntityV>),
    Seq<Seq<char>>,
> {
    match request_of(call, extensions) {
        Err(e) => Err(e),
        Ok(q) => match slice_outcome(call.slice, extensions) {
            Err(e) => Err(e),
            Ok((policies, entities)) => Ok((q, policies, entities)),
        },
    }
}

fn read_optional_uid(v: &Option<JsonValue>, what: &str) -> (r: Result<
    Option<EntityUid>,
    Vec<String>,
>)
    ensures
        r is Ok <==> optional_uid(opt_json_view(*v), what@) is Ok,
        r is Ok ==> crate::request::opt_uid_view(r->Ok_0) == optional_uid(
            opt_json_view(*v),
            what@,
        )->Ok_0,
        r is Err ==> strings_view(r->Err_0@) == optional_uid(opt_json_view(*v), what@)->Err_0,
{
    match v {
        None => Ok(None),
        Some(v) => match EntityUid::from_json(v) {
            Ok(u) => Ok(Some(u)),
            Err(e) => {
                let mut errs: Vec<String> = Vec::new();
                let first = String::from_str(what);
                let ghost ev = e@;
                errs.push(first);
                errs.push(e);
                assert(strings_view(errs@) =~= seq![what@, ev]);
                Err(errs)
            },
        },
    }
}

impl AuthorizationCall {
    /// The request that this call stands for.
    pub fn request(&self, extensions: &Extensions) -> (r: Result<Request, Vec<String>>)
        ensures
            r is Ok <==> request_of(self@, extensions@) is Ok,
            r is Ok ==> r->Ok_0@ == request_of(self@, extensions@)->Ok_0,
            r is Err ==> strings_view(r->Err_0@) == request_of(self@, extensions@)->Err_0,
    {
        if self.schema.is_some() {
            let mut errs: Vec<String> = Vec::new();
            errs.push(String::from_str("validation against a schema is not supported"));
            assert(strings_view(errs@) =~= seq![
                "validation against a schema is not supported"@,
            ]);
            return Err(errs);
        }
        let principal = match read_optional_uid(&self.principal, "Failed to parse principal") {
            Err(e) => {
                return Err(e);
            },
            Ok(p) => p,
        };
        let action = match EntityUid::from_json(&self.action) {
            Ok(u) => u,
            Err(e) => {
                let mut errs: Vec<String> = Vec::new();
                let ghost ev = e@;
                errs.push(String::from_str("Failed to parse action"));
                errs.push(e);
                assert(strings_view(errs@) =~= seq!["Failed to parse action"@, ev]);
                return Err(errs);
            },
        };
        let resource = match read_optional_uid(&self.resource, "Failed to parse resource") {
            Err(e) => {
                return Err(e);
            },
            Ok(p) => p,
        };
        let context = match Context::from_json(&self.context, extensions) {
            Ok(c) => c,
            Err(e) => {
                let mut errs: Vec<String> = Vec::new();
                let ghost ev = e@;
                errs.push(e);
                assert(strings_view(errs@) =~= seq![ev]);
                return Err(errs);
            },
        };
        Ok(Request::new(principal, Some(action), resource, context))
    }

    /// The request, the policy set and the entities that this call stands
    /// for, or the messages of what went wrong.
    pub fn get_components(self, extensions: &Extensions) -> (r: Result<
        (Request, PolicySet, Entities),
        Vec<String>,
    >)
        ensures
            r is Ok <==> components_of(self@, extensions@) is Ok,
            r matches Ok((q, policies, entities)) ==> q@ == components_of(
                self@,
                extensions@,
            )->Ok_0.0 && policies@ == components_of(self@, extensions@)->Ok_0.1 && policies.wf()
                && closure_of(components_of(self@, extensions@)->Ok_0.2, entities@.entities)
                && entities@.mode == Mode::Concrete,
            r is Err ==> strings_view(r->Err_0@) == components_of(self@, extensions@)->Err_0,
    {
        let q = match self.request(extensions) {
            Err(e) => {
                return Err(e);
            },
            Ok(q) => q,
        };
        match self.slice.try_into(extensions) {
            Err(e) => Err(e),
            Ok((policies, entities)) => Ok((q, policies, entities)),
        }
    }
}

/// The answer to a call: the response of the authorizer, or the messages
/// of what is wrong with the call.
#[derive(Debug, PartialEq, Eq)]
pub enum AuthorizationAnswer {
    ParseFailed { errors: Vec<String> },
    Success { response: InterfaceResponse },
}

/// Mathematical model of an [`AuthorizationAnswer`].
pub enum AuthorizationAnswerV {
    ParseFailed { errors: Seq<Seq<char>> },
    Success { response: InterfaceResponseV },
}

impl View for AuthorizationAnswer {
    type V = AuthorizationAnswerV;

    open spec fn view(&self) -> AuthorizationAnswerV {
        match self {
            AuthorizationAnswer::ParseFailed { errors } => AuthorizationAnswerV::ParseFailed {
                errors: strings_view(errors@),
            },
            AuthorizationAnswer::Success { response } => AuthorizationAnswerV::Success {
                response: response@,
            },
        }
    }
}

/// The response with the errors as messages, each held once.
pub open spec fn interface_response(response: ResponseV) -> InterfaceResponseV {
    InterfaceResponseV {
        decision: response.decision,
        reason: response.reason.to_set(),
        errors: error_messages(response.errors).to_set(),
    }
}

/// Whether `answer` is an answer to `call`: the messages of what is
/// wrong with the call, or else the response of the authorizer, with all
/// extension functions, for the request, the policy set and a complete
/// store of the entities of the call, each with all that is above it as
/// its ancestors.
pub open spec fn answers(call: AuthorizationCallV, answer: AuthorizationAnswerV) -> bool {
    match components_of(call, all_ops()) {
        Err(errors) => answer == (AuthorizationAnswerV::ParseFailed { errors }),
        Ok((request, policies, raw)) => exists|store: EntitiesV|
            closure_of(raw, store.entities) && store.mode == Mode::Concrete && answer == (
            AuthorizationAnswerV::Success {
                response: interface_response(
                    #[trigger] authorize(
                        policies.policies,
                        EnvV { request, entities: store, extensions: all_ops() },
                    ),
                ),
            }),
    }
}

/// Construct and ask the authorizer the request.
pub fn is_authorized(call: AuthorizationCall) -> (r: AuthorizationAnswer)
    ensures
        answers(call@, r@),
{
    let authorizer = Authorizer::new();
    let extensions = Extensions::all_available();
    match call.get_components(&extensions) {
        Ok((request, policies, entities)) => {
            let response = authorizer.is_authorized(&request, &policies, &entities);
            AuthorizationAnswer::Success { response: InterfaceResponse::from_response(&response) }
        },
        Err(errors) => AuthorizationAnswer::ParseFailed { errors },
    }
}

} // verus!
