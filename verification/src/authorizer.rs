//! The authorizer: evaluates every policy and combines what they yield.
//! A satisfied `forbid` denies; otherwise a satisfied `permit` allows;
//! otherwise the request is denied. A policy whose evaluation fails
//! contributes to neither and is reported.
use vstd::prelude::*;
use crate::entities::Entities;
use crate::err::{EvaluationError, EvaluationErrorV};
use crate::evaluator::Evaluator;
use crate::extensions::Extensions;
use crate::policy::{Effect, Policy, PolicyId, PolicyOutcome, PolicyOutcomeV, PolicyV,
    policy_outcome};
use crate::policy_set::PolicySet;
use crate::request::Request;
use crate::semantics::EnvV;

verus! {

/// The decision of the authorizer.
#[derive(Clone, Copy, Debug, PartialEq, Eq, Structural)]
pub enum Decision {
    Allow,
    Deny,
}

/// A policy whose evaluation failed, with the error.
#[derive(Debug, PartialEq, Eq)]
pub struct AuthorizationError {
    pub id: PolicyId,
    pub error: EvaluationError,
}

/// Mathematical model of an [`AuthorizationError`].
pub struct AuthorizationErrorV {
    pub id: Seq<char>,
    pub error: EvaluationErrorV,
}

impl View for AuthorizationError {
    type V = AuthorizationErrorV;

    open spec fn view(&self) -> AuthorizationErrorV {
        AuthorizationErrorV { id: self.id@, error: self.error@ }
    }
}

/// How a decision was reached.
#[derive(Debug, PartialEq, Eq)]
pub struct Diagnostics {
    reason: Vec<PolicyId>,
    errors: Vec<AuthorizationError>,
}

/// The answer to an authorization request.
#[derive(Debug, PartialEq, Eq)]
pub struct Response {
    decision: Decision,
    diagnostics: Diagnostics,
}

/// Mathematical model of a [`Response`].
pub struct ResponseV {
    pub decision: Decision,
    /// The policies that determined the decision, in the order of the policy set.
    pub reason: Seq<Seq<char>>,
    /// The policies whose evaluation failed, in the order of the policy set.
    pub errors: Seq<AuthorizationErrorV>,
}

/// The identifiers of a vector of policy identifiers, in order.
pub open spec fn ids_view(ids: Seq<PolicyId>) -> Seq<Seq<char>> {
    Seq::new(ids.len(), |i: int| ids[i]@)
}

/// The models of a vector of authorization errors, in order.
pub open spec fn errors_view(es: Seq<AuthorizationError>) -> Seq<AuthorizationErrorV> {
    Seq::new(es.len(), |i: int| es[i]@)
}

impl View for Response {
    type V = ResponseV;

    closed spec fn view(&self) -> ResponseV {
        ResponseV {
            decision: self.decision,
            reason: ids_view(self.diagnostics.reason@),
            errors: errors_view(self.diagnostics.errors@),
        }
    }
}

/// Mathematical model of [`Diagnostics`].
pub struct DiagnosticsV {
    pub reason: Seq<Seq<char>>,
    pub errors: Seq<AuthorizationErrorV>,
}

impl View for Diagnostics {
    type V = DiagnosticsV;

    closed spec fn view(&self) -> DiagnosticsV {
        DiagnosticsV { reason: ids_view(self.reason@), errors: errors_view(self.errors@) }
    }
}

impl Diagnostics {
    /// The policies that determined the decision.
    pub fn reason(&self) -> (r: &Vec<PolicyId>)
        ensures
            ids_view(r@) == self@.reason,
    {
        &self.reason
    }

    /// The policies whose evaluation failed, each with its error.
    pub fn errors(&self) -> (r: &Vec<AuthorizationError>)
        ensures
            errors_view(r@) == self@.errors,
    {
        &self.errors
    }
}

impl Response {
    /// The decision.
    pub fn decision(&self) -> (r: Decision)
        ensures
            r == self@.decision,
    {
        self.decision
    }

    /// How the decision was reached.
    pub fn diagnostics(&self) -> (r: &Diagnostics)
        ensures
            r@.reason == self@.reason,
            r@.errors == self@.errors,
    {
        &self.diagnostics
    }

    /// The policies that determined the decision.
    pub fn reason(&self) -> (r: &Vec<PolicyId>)
        ensures
            ids_view(r@) == self@.reason,
    {
        &self.diagnostics.reason
    }

    /// The policies whose evaluation failed, each with its error.
    pub fn errors(&self) -> (r: &Vec<AuthorizationError>)
        ensures
            errors_view(r@) == self@.errors,
    {
        &self.diagnostics.errors
    }
}

/// The identifiers of the policies with the given effect that are
/// satisfied, in the order of the policies.
pub open spec fn satisfied_ids(ps: Seq<PolicyV>, env: EnvV, effect: Effect) -> Seq<Seq<char>>
    decreases ps.len(),
{
    if ps.len() == 0 {
        Seq::empty()
    } else {
        let rest = satisfied_ids(ps.drop_last(), env, effect);
        if ps.last().effect == effect && policy_outcome(ps.last(), env) is Satisfied {
            rest.push(ps.last().id)
        } else {
            rest
        }
    }
}

/// The policies whose evaluation fails, each with its error, in the order
/// of the policies.
pub open spec fn policy_errors(ps: Seq<PolicyV>, env: EnvV) -> Seq<AuthorizationErrorV>
    decreases ps.len(),
{
    if ps.len() == 0 {
        Seq::empty()
    } else {
        let rest = policy_errors(ps.drop_last(), env);
        match policy_outcome(ps.last(), env) {
            PolicyOutcomeV::Error(e) => rest.push(
                AuthorizationErrorV { id: ps.last().id, error: e },
            ),
            _ => rest,
        }
    }
}

/// The answer to a request: `Deny` with the satisfied `forbid` policies if
/// there is one; else `Allow` with the satisfied `permit` policies if there
/// is one; else `Deny` without a reason. The errors are reported in each case.
pub open spec fn authorize(ps: Seq<PolicyV>, env: EnvV) -> ResponseV {
    let forbids = satisfied_ids(ps, env, Effect::Forbid);
    let permits = satisfied_ids(ps, env, Effect::Permit);
    let errors = policy_errors(ps, env);
    if forbids.len() > 0 {
        ResponseV { decision: Decision::Deny, reason: forbids, errors }
    } else if permits.len() > 0 {
        ResponseV { decision: Decision::Allow, reason: permits, errors }
    } else {
        ResponseV { decision: Decision::Deny, reason: Seq::empty(), errors }
    }
}

/// The models of a vector of policies, in order.
pub open spec fn policies_view(ps: Seq<Policy>) -> Seq<PolicyV> {
    Seq::new(ps.len(), |i: int| ps[i]@)
}

/// Answers a request against the policies `ps`.
pub fn authorize_policies(ps: &Vec<Policy>, evaluator: &Evaluator) -> (r: Response)
    ensures
        r@ == authorize(policies_view(ps@), evaluator@),
{
    let ghost pv = policies_view(ps@);
    let ghost env = evaluator@;
    let mut permits: Vec<PolicyId> = Vec::new();
    let mut forbids: Vec<PolicyId> = Vec::new();
    let mut errors: Vec<AuthorizationError> = Vec::new();
    let mut i: usize = 0;
    assert(ids_view(permits@) =~= Seq::empty());
    assert(ids_view(forbids@) =~= Seq::empty());
    assert(errors_view(errors@) =~= Seq::empty());
    while i < ps.len()
        invariant
            i <= ps.len(),
            pv == policies_view(ps@),
            env == evaluator@,
            ids_view(permits@) == satisfied_ids(pv.take(i as int), env, Effect::Permit),
            ids_view(forbids@) == satisfied_ids(pv.take(i as int), env, Effect::Forbid),
            errors_view(errors@) == policy_errors(pv.take(i as int), env),
        decreases ps.len() - i,
    {
        proof {
            assert(pv.take(i + 1).drop_last() =~= pv.take(i as int));
            assert(pv.take(i + 1).last() == ps[i as int]@);
        }
        let p = &ps[i];
        match p.evaluate(evaluator) {
            PolicyOutcome::Satisfied => {
                match p.effect {
                    Effect::Permit => {
                        let ghost before = ids_view(permits@);
                        permits.push(p.id.clone());
                        assert(ids_view(permits@) =~= before.push(p.id@));
                    },
                    Effect::Forbid => {
                        let ghost before = ids_view(forbids@);
                        forbids.push(p.id.clone());
                        assert(ids_view(forbids@) =~= before.push(p.id@));
                    },
                }
            },
            PolicyOutcome::NotSatisfied => {},
            PolicyOutcome::Error(e) => {
                let ghost before = errors_view(errors@);
                let err = AuthorizationError { id: p.id.clone(), error: e };
                errors.push(err);
                assert(errors_view(errors@) =~= before.push(err@));
            },
        }
        i += 1;
    }
    assert(pv.take(i as int) =~= pv);
    if forbids.len() > 0 {
        Response { decision: Decision::Deny, diagnostics: Diagnostics { reason: forbids, errors } }
    } else if permits.len() > 0 {
        Response { decision: Decision::Allow, diagnostics: Diagnostics { reason: permits, errors } }
    } else {
        let none: Vec<PolicyId> = Vec::new();
        assert(ids_view(none@) =~= Seq::empty());
        Response { decision: Decision::Deny, diagnostics: Diagnostics { reason: none, errors } }
    }
}

/// Whether no two policies have the same identifier.
pub open spec fn distinct_ids(ps: Seq<PolicyV>) -> bool {
    forall|i: int, j: int| #![trigger ps[i], ps[j]] 0 <= i < j < ps.len() ==> ps[i].id != ps[j].id
}

/// Every identifier among the satisfied ones is that of a policy with the
/// given effect that is satisfied.
pub proof fn lemma_satisfied_ids_sound(ps: Seq<PolicyV>, env: EnvV, effect: Effect, id: Seq<char>)
    requires
        satisfied_ids(ps, env, effect).contains(id),
    ensures
        exists|j: int|
            0 <= j < ps.len() && (#[trigger] ps[j]).id == id && ps[j].effect == effect
                && policy_outcome(ps[j], env) is Satisfied,
    decreases ps.len(),
{
    if ps.len() > 0 {
        let rest = satisfied_ids(ps.drop_last(), env, effect);
        let last = ps.last();
        if last.effect == effect && policy_outcome(last, env) is Satisfied && last.id == id {
            assert(ps[ps.len() - 1].id == id);
        } else {
            if last.effect == effect && policy_outcome(last, env) is Satisfied {
                let k = choose|k: int| 0 <= k < rest.push(last.id).len() && rest.push(last.id)[k] == id;
                assert(k < rest.len());
                assert(rest[k] == id);
            }
            assert(rest.contains(id));
            lemma_satisfied_ids_sound(ps.drop_last(), env, effect, id);
            let j = choose|j: int|
                0 <= j < ps.drop_last().len() && (#[trigger] ps.drop_last()[j]).id == id
                    && ps.drop_last()[j].effect == effect && policy_outcome(ps.drop_last()[j], env)
                    is Satisfied;
            assert(ps[j] == ps.drop_last()[j]);
        }
    }
}

/// A policy whose evaluation fails never appears in the reason of the
/// decision, provided that no two policies have the same identifier.
pub proof fn law_errored_policy_not_in_reason(ps: Seq<PolicyV>, env: EnvV, i: int)
    requires
        distinct_ids(ps),
        0 <= i < ps.len(),
        policy_outcome(ps[i], env) is Error,
    ensures
        !authorize(ps, env).reason.contains(ps[i].id),
{
    let id = ps[i].id;
    if satisfied_ids(ps, env, Effect::Forbid).contains(id) {
        lemma_satisfied_ids_sound(ps, env, Effect::Forbid, id);
        let j = choose|j: int|
            0 <= j < ps.len() && (#[trigger] ps[j]).id == id && ps[j].effect == Effect::Forbid
                && policy_outcome(ps[j], env) is Satisfied;
        assert(j != i);
        if i < j {
            assert(ps[i].id != ps[j].id);
        } else {
            assert(ps[j].id != ps[i].id);
        }
    }
    if satisfied_ids(ps, env, Effect::Permit).contains(id) {
        lemma_satisfied_ids_sound(ps, env, Effect::Permit, id);
        let j = choose|j: int|
            0 <= j < ps.len() && (#[trigger] ps[j]).id == id && ps[j].effect == Effect::Permit
                && policy_outcome(ps[j], env) is Satisfied;
        assert(j != i);
        if i < j {
            assert(ps[i].id != ps[j].id);
        } else {
            assert(ps[j].id != ps[i].id);
        }
    }
}

/// Adding a policy whose evaluation fails changes neither the decision nor
/// its reason: it only adds the policy and its error to the errors.
pub proof fn law_erroring_policy_only_extends_errors(ps: Seq<PolicyV>, env: EnvV, p: PolicyV)
    requires
        policy_outcome(p, env) is Error,
    ensures
        authorize(ps.push(p), env).decision == authorize(ps, env).decision,
        authorize(ps.push(p), env).reason == authorize(ps, env).reason,
        authorize(ps.push(p), env).errors == authorize(ps, env).errors.push(
            AuthorizationErrorV { id: p.id, error: policy_outcome(p, env)->Error_0 },
        ),
{
    assert(ps.push(p).drop_last() =~= ps);
    assert(ps.push(p).last() == p);
}

/// Adding a satisfied `forbid` policy makes the decision `Deny`.
pub proof fn law_satisfied_forbid_denies(ps: Seq<PolicyV>, env: EnvV, p: PolicyV)
    requires
        p.effect == Effect::Forbid,
        policy_outcome(p, env) is Satisfied,
    ensures
        authorize(ps.push(p), env).decision == Decision::Deny,
        authorize(ps.push(p), env).reason.contains(p.id),
{
    assert(ps.push(p).drop_last() =~= ps);
    assert(ps.push(p).last() == p);
    let rest = satisfied_ids(ps, env, Effect::Forbid);
    assert(rest.push(p.id)[rest.len() as int] == p.id);
}

/// The policies of `ps` that are no `permit` policies, in order.
pub open spec fn without_permits(ps: Seq<PolicyV>) -> Seq<PolicyV>
    decreases ps.len(),
{
    if ps.len() == 0 {
        Seq::empty()
    } else if ps.last().effect == Effect::Permit {
        without_permits(ps.drop_last())
    } else {
        without_permits(ps.drop_last()).push(ps.last())
    }
}

/// Among policies without a `permit`, no `permit` is satisfied, and the
/// satisfied `forbid` policies are those of the whole.
pub proof fn lemma_without_permits(ps: Seq<PolicyV>, env: EnvV)
    ensures
        satisfied_ids(without_permits(ps), env, Effect::Permit) == Seq::<Seq<char>>::empty(),
        satisfied_ids(without_permits(ps), env, Effect::Forbid) == satisfied_ids(
            ps,
            env,
            Effect::Forbid,
        ),
    decreases ps.len(),
{
    if ps.len() > 0 {
        lemma_without_permits(ps.drop_last(), env);
        if ps.last().effect != Effect::Permit {
            let w = without_permits(ps.drop_last());
            assert(w.push(ps.last()).drop_last() =~= w);
            assert(w.push(ps.last()).last() == ps.last());
        }
    }
}

/// Removing all `permit` policies makes the decision `Deny`. Its reason is
/// made of the satisfied `forbid` policies, so it is empty when none is satisfied.
pub proof fn law_without_permits_denies(ps: Seq<PolicyV>, env: EnvV)
    ensures
        authorize(without_permits(ps), env).decision == Decision::Deny,
        authorize(without_permits(ps), env).reason == satisfied_ids(ps, env, Effect::Forbid),
{
    lemma_without_permits(ps, env);
}

/// The authorizer. Its extension functions are fixed when it is made.
#[derive(Debug, PartialEq, Eq, Clone)]
pub struct Authorizer {
    extensions: Extensions,
}

impl Authorizer {
    /// The extension functions of this authorizer.
    pub closed spec fn extensions(&self) -> Seq<crate::extensions::ExtOp> {
        self.extensions@
    }

    /// The authorizer with all extension functions that this library offers.
    pub fn new() -> (r: Authorizer)
        ensures
            r.extensions() == crate::extensions::all_ops(),
    {
        Authorizer { extensions: Extensions::all_available() }
    }

    /// The authorizer with the given extension functions.
    pub fn with_extensions(extensions: Extensions) -> (r: Authorizer)
        ensures
            r.extensions() == extensions@,
    {
        Authorizer { extensions }
    }

    /// Answers the request `q` against the policies of `policies` and the
    /// entities `entities`. Every policy is evaluated; templates are not.
    /// The answer is that of [`authorize`].
    pub fn is_authorized(&self, q: &Request, policies: &PolicySet, entities: &Entities) -> (r:
        Response)
        ensures
            r@ == authorize(
                policies@.policies,
                EnvV { request: q@, entities: entities@, extensions: self.extensions() },
            ),
    {
        self.is_authorized_by(q, policies.policies(), entities)
    }

    /// Answers the request `q` against the policies `ps` and the entities
    /// `entities`. Every policy is evaluated; the answer is that of
    /// [`authorize`].
    pub fn is_authorized_by(&self, q: &Request, ps: &Vec<Policy>, entities: &Entities) -> (r:
        Response)
        ensures
            r@ == authorize(
                policies_view(ps@),
                EnvV { request: q@, entities: entities@, extensions: self.extensions() },
            ),
    {
        let evaluator = Evaluator::new(q, entities, &self.extensions);
        authorize_policies(ps, &evaluator)
    }
}

} // verus!

