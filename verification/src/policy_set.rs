//! Policy sets: static policies, templates, and the policies linked from
//! templates, all under distinct identifiers.
use vstd::prelude::*;
use crate::ast::SlotId;
use crate::authorizer::{distinct_ids, policies_view};
use crate::policy::{EntityRef, EntityRefV, Policy, PolicyId, PolicyV, ScopeConstraint,
    ScopeConstraintV};
use crate::text::same_text;
use crate::value::{EntityUid, EntityUidV};

verus! {

/// Why a policy or a template could not be added to a policy set.
#[derive(Debug, PartialEq, Eq)]
pub enum PolicySetError {
    /// The set holds a policy or a template with this identifier already.
    AlreadyDefined { id: PolicyId },
    /// A policy was expected, and this one has a slot.
    ExpectedStatic { id: PolicyId },
    /// A template was expected, and this one has no slot.
    ExpectedTemplate { id: PolicyId },
}

/// Mathematical model of a [`PolicySetError`].
pub enum PolicySetErrorV {
    AlreadyDefined { id: Seq<char> },
    ExpectedStatic { id: Seq<char> },
    ExpectedTemplate { id: Seq<char> },
}

impl View for PolicySetError {
    type V = PolicySetErrorV;

    open spec fn view(&self) -> PolicySetErrorV {
        match self {
            PolicySetError::AlreadyDefined { id } => PolicySetErrorV::AlreadyDefined { id: id@ },
            PolicySetError::ExpectedStatic { id } => PolicySetErrorV::ExpectedStatic { id: id@ },
            PolicySetError::ExpectedTemplate { id } => PolicySetErrorV::ExpectedTemplate {
                id: id@,
            },
        }
    }
}

/// Why a template could not be linked.
#[derive(Debug, PartialEq, Eq)]
pub enum LinkingError {
    /// The set holds no template with this identifier.
    NoSuchTemplate { id: PolicyId },
    /// Slots of the template were given no value, or values were given for
    /// slots that the template does not have.
    ArityError { unbound_values: Vec<SlotId>, extra_values: Vec<SlotId> },
    /// The set holds a policy or a template with the new identifier already.
    PolicyIdConflict { id: PolicyId },
}

/// Mathematical model of a [`LinkingError`].
pub enum LinkingErrorV {
    NoSuchTemplate { id: Seq<char> },
    ArityError { unbound_values: Seq<SlotId>, extra_values: Seq<SlotId> },
    PolicyIdConflict { id: Seq<char> },
}

impl View for LinkingError {
    type V = LinkingErrorV;

    open spec fn view(&self) -> LinkingErrorV {
        match self {
            LinkingError::NoSuchTemplate { id } => LinkingErrorV::NoSuchTemplate { id: id@ },
            LinkingError::ArityError { unbound_values, extra_values } => LinkingErrorV::ArityError {
                unbound_values: unbound_values@,
                extra_values: extra_values@,
            },
            LinkingError::PolicyIdConflict { id } => LinkingErrorV::PolicyIdConflict { id: id@ },
        }
    }
}

/// Whether a policy among `ps` has the identifier `id`.
pub open spec fn has_id(ps: Seq<PolicyV>, id: Seq<char>) -> bool {
    exists|i: int| 0 <= i < ps.len() && (#[trigger] ps[i]).id == id
}

/// The first policy with identifier `id` at or after position `i`.
pub open spec fn policy_from(ps: Seq<PolicyV>, id: Seq<char>, i: int) -> Option<PolicyV>
    decreases ps.len() - i,
{
    if i < 0 || i >= ps.len() {
        None
    } else if ps[i].id == id {
        Some(ps[i])
    } else {
        policy_from(ps, id, i + 1)
    }
}

/// Whether a scope constraint names the slot.
pub open spec fn names_slot(c: ScopeConstraintV) -> bool {
    match c {
        ScopeConstraintV::Eq(r) => r is Slot,
        ScopeConstraintV::In(r) => r is Slot,
        ScopeConstraintV::IsIn(_, r) => r is Slot,
        _ => false,
    }
}

/// Whether a policy has the given slot.
pub open spec fn has_slot(p: PolicyV, slot: SlotId) -> bool {
    match slot {
        SlotId::Principal => names_slot(p.principal),
        SlotId::Resource => names_slot(p.resource),
    }
}

/// Whether a policy is a template: whether it has a slot.
pub open spec fn is_template(p: PolicyV) -> bool {
    has_slot(p, SlotId::Principal) || has_slot(p, SlotId::Resource)
}

/// The value that the first `n` of `values` give to `slot`: that of the
/// last of them that speaks of the slot.
pub open spec fn slot_value(values: Seq<(SlotId, EntityUidV)>, slot: SlotId, n: int) -> Option<
    EntityUidV,
>
    decreases n,
{
    if n <= 0 || n > values.len() {
        None
    } else if values[n - 1].0 == slot {
        Some(values[n - 1].1)
    } else {
        slot_value(values, slot, n - 1)
    }
}

/// A reference with the slot filled by `u`.
pub open spec fn fill_ref(r: EntityRefV, u: Option<EntityUidV>) -> EntityRefV {
    match (r, u) {
        (EntityRefV::Slot, Some(u)) => EntityRefV::Uid(u),
        _ => r,
    }
}

/// A scope constraint with the slot filled by `u`.
pub open spec fn fill(c: ScopeConstraintV, u: Option<EntityUidV>) -> ScopeConstraintV {
    match c {
        ScopeConstraintV::Eq(r) => ScopeConstraintV::Eq(fill_ref(r, u)),
        ScopeConstraintV::In(r) => ScopeConstraintV::In(fill_ref(r, u)),
        ScopeConstraintV::IsIn(t, r) => ScopeConstraintV::IsIn(t, fill_ref(r, u)),
        _ => c,
    }
}

/// The policy that linking the template `t` under the identifier `id` with
/// the given values makes.
pub open spec fn linked(t: PolicyV, id: Seq<char>, values: Seq<(SlotId, EntityUidV)>) -> PolicyV {
    PolicyV {
        id,
        effect: t.effect,
        principal: fill(t.principal, slot_value(values, SlotId::Principal, values.len() as int)),
        action: t.action,
        resource: fill(t.resource, slot_value(values, SlotId::Resource, values.len() as int)),
        condition: t.condition,
    }
}

/// The slots among `slots` that the template has and that are given no value.
pub open spec fn unbound_slots(t: PolicyV, values: Seq<(SlotId, EntityUidV)>) -> Seq<SlotId> {
    let p = has_slot(t, SlotId::Principal) && slot_value(
        values,
        SlotId::Principal,
        values.len() as int,
    ) is None;
    let r = has_slot(t, SlotId::Resource) && slot_value(
        values,
        SlotId::Resource,
        values.len() as int,
    ) is None;
    (if p {
        seq![SlotId::Principal]
    } else {
        Seq::empty()
    }) + (if r {
        seq![SlotId::Resource]
    } else {
        Seq::empty()
    })
}

/// The slots that are given a value and that the template does not have.
pub open spec fn extra_slots(t: PolicyV, values: Seq<(SlotId, EntityUidV)>) -> Seq<SlotId> {
    let p = !has_slot(t, SlotId::Principal) && slot_value(
        values,
        SlotId::Principal,
        values.len() as int,
    ) is Some;
    let r = !has_slot(t, SlotId::Resource) && slot_value(
        values,
        SlotId::Resource,
        values.len() as int,
    ) is Some;
    (if p {
        seq![SlotId::Principal]
    } else {
        Seq::empty()
    }) + (if r {
        seq![SlotId::Resource]
    } else {
        Seq::empty()
    })
}

/// Mathematical model of a [`PolicySet`].
pub struct PolicySetV {
    /// The templates, in the order in which they were added.
    pub templates: Seq<PolicyV>,
    /// The static and the linked policies, in the order in which they were added.
    pub policies: Seq<PolicyV>,
}

/// Why the policy `p` cannot be added to the set, if it cannot.
pub open spec fn add_error(set: PolicySetV, p: PolicyV) -> Option<PolicySetErrorV> {
    if is_template(p) {
        Some(PolicySetErrorV::ExpectedStatic { id: p.id })
    } else if has_id(set.templates, p.id) || has_id(set.policies, p.id) {
        Some(PolicySetErrorV::AlreadyDefined { id: p.id })
    } else {
        None
    }
}

/// Why the template `t` cannot be added to the set, if it cannot.
pub open spec fn add_template_error(set: PolicySetV, t: PolicyV) -> Option<PolicySetErrorV> {
    if !is_template(t) {
        Some(PolicySetErrorV::ExpectedTemplate { id: t.id })
    } else if has_id(set.templates, t.id) || has_id(set.policies, t.id) {
        Some(PolicySetErrorV::AlreadyDefined { id: t.id })
    } else {
        None
    }
}

/// What linking the template `template_id` under the identifier `new_id`
/// yields: the linked policy, or why there is none.
pub open spec fn link_outcome(
    set: PolicySetV,
    template_id: Seq<char>,
    new_id: Seq<char>,
    values: Seq<(SlotId, EntityUidV)>,
) -> Result<PolicyV, LinkingErrorV> {
    match policy_from(set.templates, template_id, 0) {
        None => Err(LinkingErrorV::NoSuchTemplate { id: template_id }),
        Some(t) => if unbound_slots(t, values).len() > 0 || extra_slots(t, values).len() > 0 {
            Err(
                LinkingErrorV::ArityError {
                    unbound_values: unbound_slots(t, values),
                    extra_values: extra_slots(t, values),
                },
            )
        } else if has_id(set.templates, new_id) || has_id(set.policies, new_id) {
            Err(LinkingErrorV::PolicyIdConflict { id: new_id })
        } else {
            Ok(linked(t, new_id, values))
        },
    }
}

/// A set of policies and templates. No two of them have the same identifier.
#[derive(Debug, PartialEq, Eq)]
pub struct PolicySet {
    templates: Vec<Policy>,
    policies: Vec<Policy>,
}

impl View for PolicySet {
    type V = PolicySetV;

    closed spec fn view(&self) -> PolicySetV {
        PolicySetV {
            templates: policies_view(self.templates@),
            policies: policies_view(self.policies@),
        }
    }
}

/// The models of the values given to slots, in order.
pub open spec fn values_view(values: Seq<(SlotId, EntityUid)>) -> Seq<(SlotId, EntityUidV)> {
    Seq::new(values.len(), |i: int| (values[i].0, values[i].1@))
}

fn contains_id(ps: &Vec<Policy>, id: &PolicyId) -> (r: bool)
    ensures
        r == has_id(policies_view(ps@), id@),
{
    let ghost pv = policies_view(ps@);
    let mut i: usize = 0;
    while i < ps.len()
        invariant
            i <= ps.len(),
            pv == policies_view(ps@),
            forall|k: int| 0 <= k < i ==> (#[trigger] pv[k]).id != id@,
        decreases ps.len() - i,
    {
        if same_text(&ps[i].id.0, &id.0) {
            assert(pv[i as int].id == id@);
            return true;
        }
        i += 1;
    }
    false
}

fn find_policy<'a>(ps: &'a Vec<Policy>, id: &PolicyId) -> (r: Option<&'a Policy>)
    ensures
        r is Some <==> policy_from(policies_view(ps@), id@, 0) is Some,
        r is Some ==> r->0@ == policy_from(policies_view(ps@), id@, 0)->0,
{
    let ghost pv = policies_view(ps@);
    let mut i: usize = 0;
    while i < ps.len()
        invariant
            i <= ps.len(),
            pv == policies_view(ps@),
            policy_from(pv, id@, 0) == policy_from(pv, id@, i as int),
        decreases ps.len() - i,
    {
        assert(pv[i as int] == ps[i as int]@);
        if same_text(&ps[i].id.0, &id.0) {
            return Some(&ps[i]);
        }
        i += 1;
    }
    None
}

fn constraint_names_slot(c: &ScopeConstraint) -> (r: bool)
    ensures
        r == names_slot(c@),
{
    match c {
        ScopeConstraint::Eq(EntityRef::Slot) => true,
        ScopeConstraint::In(EntityRef::Slot) => true,
        ScopeConstraint::IsIn(_, EntityRef::Slot) => true,
        _ => false,
    }
}

fn value_of_slot<'a>(values: &'a Vec<(SlotId, EntityUid)>, slot: SlotId) -> (r: Option<
    &'a EntityUid,
>)
    ensures
        r is Some <==> slot_value(values_view(values@), slot, values.len() as int) is Some,
        r is Some ==> r->0@ == slot_value(values_view(values@), slot, values.len() as int)->0,
{
    let ghost vv = values_view(values@);
    let mut n: usize = values.len();
    while n > 0
        invariant
            n <= values.len(),
            vv == values_view(values@),
            slot_value(vv, slot, values.len() as int) == slot_value(vv, slot, n as int),
        decreases n,
    {
        assert(vv[n - 1] == (values[n - 1].0, values[n - 1].1@));
        if values[n - 1].0 == slot {
            return Some(&values[n - 1].1);
        }
        n -= 1;
    }
    None
}

fn fill_reference(r: &EntityRef, u: Option<&EntityUid>) -> (out: EntityRef)
    ensures
        out@ == fill_ref(
            r@,
            match u {
                Some(u) => Some(u@),
                None => None,
            },
        ),
{
    match (r, u) {
        (EntityRef::Slot, Some(u)) => EntityRef::Uid(u.clone()),
        _ => r.clone(),
    }
}

fn fill_constraint(c: &ScopeConstraint, u: Option<&EntityUid>) -> (out: ScopeConstraint)
    ensures
        out@ == fill(
            c@,
            match u {
                Some(u) => Some(u@),
                None => None,
            },
        ),
{
    match c {
        ScopeConstraint::Eq(r) => ScopeConstraint::Eq(fill_reference(r, u)),
        ScopeConstraint::In(r) => ScopeConstraint::In(fill_reference(r, u)),
        ScopeConstraint::IsIn(t, r) => ScopeConstraint::IsIn(t.clone(), fill_reference(r, u)),
        _ => c.clone(),
    }
}

impl Policy {
    /// Whether this policy is a template: whether it has a slot.
    pub fn is_template(&self) -> (r: bool)
        ensures
            r == is_template(self@),
    {
        constraint_names_slot(&self.principal) || constraint_names_slot(&self.resource)
    }

    /// The policy that linking this template under the identifier `id`
    /// with the given values makes, or the slots that are given no value
    /// and those that are given one and are not there.
    pub fn link(&self, id: PolicyId, values: &Vec<(SlotId, EntityUid)>) -> (r: Result<
        Policy,
        LinkingError,
    >)
        ensures
            r is Ok <==> unbound_slots(self@, values_view(values@)).len() == 0 && extra_slots(
                self@,
                values_view(values@),
            ).len() == 0,
            r is Ok ==> r->Ok_0@ == linked(self@, id@, values_view(values@)),
            r is Err ==> r->Err_0@ == (LinkingErrorV::ArityError {
                unbound_values: unbound_slots(self@, values_view(values@)),
                extra_values: extra_slots(self@, values_view(values@)),
            }),
    {
        let p = value_of_slot(values, SlotId::Principal);
        let r = value_of_slot(values, SlotId::Resource);
        let has_p = constraint_names_slot(&self.principal);
        let has_r = constraint_names_slot(&self.resource);
        let mut unbound: Vec<SlotId> = Vec::new();
        let mut extra: Vec<SlotId> = Vec::new();
        if has_p && p.is_none() {
            unbound.push(SlotId::Principal);
        }
        if has_r && r.is_none() {
            unbound.push(SlotId::Resource);
        }
        if !has_p && p.is_some() {
            extra.push(SlotId::Principal);
        }
        if !has_r && r.is_some() {
            extra.push(SlotId::Resource);
        }
        assert(unbound@ =~= unbound_slots(self@, values_view(values@)));
        assert(extra@ =~= extra_slots(self@, values_view(values@)));
        if unbound.len() > 0 || extra.len() > 0 {
            Err(LinkingError::ArityError { unbound_values: unbound, extra_values: extra })
        } else {
            Ok(
                Policy {
                    id,
                    effect: self.effect,
                    principal: fill_constraint(&self.principal, p),
                    action: self.action.clone(),
                    resource: fill_constraint(&self.resource, r),
                    condition: self.condition.clone(),
                },
            )
        }
    }
}

impl PolicySet {
    /// Whether no two policies or templates of the set have the same
    /// identifier. This holds of the empty set, and adding keeps it.
    pub closed spec fn wf(&self) -> bool {
        distinct_ids(policies_view(self.templates@) + policies_view(self.policies@))
    }

    /// The set without policies and templates.
    pub fn new() -> (r: PolicySet)
        ensures
            r@ == (PolicySetV { templates: Seq::empty(), policies: Seq::empty() }),
            r.wf(),
    {
        let r = PolicySet { templates: Vec::new(), policies: Vec::new() };
        assert(r@.templates =~= Seq::empty());
        assert(r@.policies =~= Seq::empty());
        r
    }

    /// Whether the set holds neither a policy nor a template.
    pub fn is_empty(&self) -> (r: bool)
        ensures
            r == (self@.templates.len() == 0 && self@.policies.len() == 0),
    {
        self.templates.len() == 0 && self.policies.len() == 0
    }

    /// The static and the linked policies of the set. No two of them have
    /// the same identifier.
    pub fn policies(&self) -> (r: &Vec<Policy>)
        ensures
            policies_view(r@) == self@.policies,
            self.wf() ==> distinct_ids(self@.policies),
    {
        proof {
            let t = policies_view(self.templates@);
            let p = policies_view(self.policies@);
            assert forall|i: int, j: int|
                #![trigger p[i], p[j]]
                self.wf() && 0 <= i < j < p.len() implies p[i].id != p[j].id by {
                assert((t + p)[t.len() + i] == p[i]);
                assert((t + p)[t.len() + j] == p[j]);
            }
        }
        &self.policies
    }

    /// The templates of the set.
    pub fn templates(&self) -> (r: &Vec<Policy>)
        ensures
            policies_view(r@) == self@.templates,
    {
        &self.templates
    }

    /// Adds a static policy. Fails, and leaves the set as it is, when the
    /// policy has a slot or when its identifier is in the set already.
    pub fn add(&mut self, p: Policy) -> (r: Result<(), PolicySetError>)
        ensures
            r is Ok <==> add_error(old(self)@, p@) is None,
            r is Ok ==> final(self)@ == (PolicySetV {
                templates: old(self)@.templates,
                policies: old(self)@.policies.push(p@),
            }),
            r is Err ==> final(self)@ == old(self)@ && Some(r->Err_0@) == add_error(old(self)@, p@),
            old(self).wf() ==> final(self).wf(),
    {
        if p.is_template() {
            return Err(PolicySetError::ExpectedStatic { id: p.id.clone() });
        }
        if contains_id(&self.templates, &p.id) || contains_id(&self.policies, &p.id) {
            return Err(PolicySetError::AlreadyDefined { id: p.id.clone() });
        }
        let ghost t = policies_view(self.templates@);
        let ghost before = policies_view(self.policies@);
        self.policies.push(p);
        proof {
            let after = policies_view(self.policies@);
            assert(after =~= before.push(p@));
            assert(t + after =~= (t + before).push(p@));
            if old(self).wf() {
                lemma_no_id_in_both(t, before, p@.id);
                lemma_push_keeps_distinct(t + before, p@);
            }
        }
        Ok(())
    }

    /// Adds a template. Fails, and leaves the set as it is, when it has no
    /// slot or when its identifier is in the set already.
    pub fn add_template(&mut self, t: Policy) -> (r: Result<(), PolicySetError>)
        ensures
            r is Ok <==> add_template_error(old(self)@, t@) is None,
            r is Ok ==> final(self)@ == (PolicySetV {
                templates: old(self)@.templates.push(t@),
                policies: old(self)@.policies,
            }),
            r is Err ==> final(self)@ == old(self)@ && Some(r->Err_0@) == add_template_error(
                old(self)@,
                t@,
            ),
            old(self).wf() ==> final(self).wf(),
    {
        if !t.is_template() {
            return Err(PolicySetError::ExpectedTemplate { id: t.id.clone() });
        }
        if contains_id(&self.templates, &t.id) || contains_id(&self.policies, &t.id) {
            return Err(PolicySetError::AlreadyDefined { id: t.id.clone() });
        }
        let ghost before = policies_view(self.templates@);
        let ghost ps = policies_view(self.policies@);
        self.templates.push(t);
        proof {
            let after = policies_view(self.templates@);
            assert(after =~= before.push(t@));
            if old(self).wf() {
                lemma_insert_keeps_distinct(before, ps, t@);
            }
        }
        Ok(())
    }

    /// Links the template `template_id` under the identifier `new_id`,
    /// with the given values for its slots, and adds the linked policy.
    /// Fails, and leaves the set as it is, when there is no such template,
    /// when the values do not fit its slots, or when the new identifier is
    /// in the set already.
    pub fn link(
        &mut self,
        template_id: PolicyId,
        new_id: PolicyId,
        values: Vec<(SlotId, EntityUid)>,
    ) -> (r: Result<(), LinkingError>)
        ensures
            r is Ok <==> link_outcome(old(self)@, template_id@, new_id@, values_view(values@))
                is Ok,
            r is Ok ==> final(self)@ == (PolicySetV {
                templates: old(self)@.templates,
                policies: old(self)@.policies.push(
                    link_outcome(old(self)@, template_id@, new_id@, values_view(values@))->Ok_0,
                ),
            }),
            r is Err ==> final(self)@ == old(self)@ && r->Err_0@ == link_outcome(
                old(self)@,
                template_id@,
                new_id@,
                values_view(values@),
            )->Err_0,
            old(self).wf() ==> final(self).wf(),
    {
        let linked = match find_policy(&self.templates, &template_id) {
            None => {
                return Err(LinkingError::NoSuchTemplate { id: template_id });
            },
            Some(t) => match t.link(new_id, &values) {
                Err(e) => {
                    return Err(e);
                },
                Ok(p) => p,
            },
        };
        if contains_id(&self.templates, &linked.id) || contains_id(&self.policies, &linked.id) {
            return Err(LinkingError::PolicyIdConflict { id: linked.id });
        }
        let ghost t = policies_view(self.templates@);
        let ghost before = policies_view(self.policies@);
        self.policies.push(linked);
        proof {
            let after = policies_view(self.policies@);
            assert(after =~= before.push(linked@));
            assert(t + after =~= (t + before).push(linked@));
            if old(self).wf() {
                lemma_no_id_in_both(t, before, linked@.id);
                lemma_push_keeps_distinct(t + before, linked@);
            }
        }
        Ok(())
    }
}

/// An identifier that neither of two sequences holds is not in both together.
pub proof fn lemma_no_id_in_both(ts: Seq<PolicyV>, ps: Seq<PolicyV>, id: Seq<char>)
    requires
        !has_id(ts, id),
        !has_id(ps, id),
    ensures
        !has_id(ts + ps, id),
{
    let all = ts + ps;
    assert forall|i: int| 0 <= i < all.len() implies (#[trigger] all[i]).id != id by {
        if i < ts.len() {
            assert(ts[i].id != id);
        } else {
            assert(ps[i - ts.len()].id != id);
        }
    }
}

/// Appending a policy under a new identifier keeps the identifiers distinct.
pub proof fn lemma_push_keeps_distinct(ps: Seq<PolicyV>, p: PolicyV)
    requires
        distinct_ids(ps),
        !has_id(ps, p.id),
    ensures
        distinct_ids(ps.push(p)),
{
    let qs = ps.push(p);
    assert forall|i: int, j: int| #![trigger qs[i], qs[j]] 0 <= i < j < qs.len() implies qs[i].id
        != qs[j].id by {
        if j < ps.len() {
            assert(ps[i].id != ps[j].id);
        } else {
            assert(ps[i].id != p.id);
        }
    }
}

/// Adding a template under a new identifier keeps the identifiers distinct.
pub proof fn lemma_insert_keeps_distinct(ts: Seq<PolicyV>, ps: Seq<PolicyV>, t: PolicyV)
    requires
        distinct_ids(ts + ps),
        !has_id(ts, t.id),
        !has_id(ps, t.id),
    ensures
        distinct_ids(ts.push(t) + ps),
{
    let old_all = ts + ps;
    let qs = ts.push(t) + ps;
    assert forall|i: int, j: int| #![trigger qs[i], qs[j]] 0 <= i < j < qs.len() implies qs[i].id
        != qs[j].id by {
        let n = ts.len() as int;
        if i < n && j < n {
            assert(old_all[i] == qs[i] && old_all[j] == qs[j]);
        } else if i < n && j == n {
            assert(ts[i].id != t.id);
        } else if i < n {
            assert(old_all[i] == qs[i] && old_all[j - 1] == qs[j]);
        } else if i == n {
            assert(ps[j - n - 1].id != t.id);
        } else {
            assert(old_all[i - 1] == qs[i] && old_all[j - 1] == qs[j]);
        }
    }
}

} // verus!
