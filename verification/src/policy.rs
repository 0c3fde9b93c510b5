//! Policies: an effect, a scope that constrains principal, action and
//! resource, and a condition; and what a policy yields for a request.
use vstd::prelude::*;
use crate::ast::{BinaryOp, Expr, ExprV, LiteralV, SlotId, Var, exprs_view};
use crate::err::{EvaluationError, EvaluationErrorV, type_error};
use crate::evaluator::Evaluator;
use crate::semantics::{EnvV, interpret};
use crate::value::{EntityUid, EntityUidV, Type, TypeV, Value, ValueV, type_of};
use crate::entities::uids_view;

verus! {

/// Whether a policy permits or forbids.
#[derive(Clone, Copy, Debug, PartialEq, Eq, Structural)]
pub enum Effect {
    Permit,
    Forbid,
}

/// The identifier of a policy.
#[derive(Debug, PartialEq, Eq, Hash)]
pub struct PolicyId(pub String);

impl View for PolicyId {
    type V = Seq<char>;

    open spec fn view(&self) -> Seq<char> {
        self.0@
    }
}

impl Clone for PolicyId {
    fn clone(&self) -> (r: Self)
        ensures
            r@ == self@,
    {
        PolicyId(self.0.clone())
    }
}

impl PolicyId {
    /// The identifier written `id`.
    pub fn new(id: &str) -> (r: PolicyId)
        ensures
            r@ == id@,
    {
        PolicyId(String::from_str(id))
    }
}

/// What a scope constraint names: an entity, or the slot of a template.
#[derive(Debug, PartialEq, Eq)]
pub enum EntityRef {
    Uid(EntityUid),
    Slot,
}

/// Mathematical model of an [`EntityRef`].
pub enum EntityRefV {
    Uid(EntityUidV),
    Slot,
}

impl View for EntityRef {
    type V = EntityRefV;

    open spec fn view(&self) -> EntityRefV {
        match self {
            EntityRef::Uid(u) => EntityRefV::Uid(u@),
            EntityRef::Slot => EntityRefV::Slot,
        }
    }
}

impl Clone for EntityRef {
    fn clone(&self) -> (r: Self)
        ensures
            r@ == self@,
    {
        match self {
            EntityRef::Uid(u) => EntityRef::Uid(u.clone()),
            EntityRef::Slot => EntityRef::Slot,
        }
    }
}

/// The constraint of a scope on the principal or on the resource.
#[derive(Debug, PartialEq, Eq)]
pub enum ScopeConstraint {
    /// Any entity.
    Any,
    /// `== entity`
    Eq(EntityRef),
    /// `in entity`
    In(EntityRef),
    /// `is Type`
    Is(String),
    /// `is Type in entity`
    IsIn(String, EntityRef),
}

/// Mathematical model of a [`ScopeConstraint`].
pub enum ScopeConstraintV {
    Any,
    Eq(EntityRefV),
    In(EntityRefV),
    Is(Seq<char>),
    IsIn(Seq<char>, EntityRefV),
}

impl View for ScopeConstraint {
    type V = ScopeConstraintV;

    open spec fn view(&self) -> ScopeConstraintV {
        match self {
            ScopeConstraint::Any => ScopeConstraintV::Any,
            ScopeConstraint::Eq(r) => ScopeConstraintV::Eq(r@),
            ScopeConstraint::In(r) => ScopeConstraintV::In(r@),
            ScopeConstraint::Is(t) => ScopeConstraintV::Is(t@),
            ScopeConstraint::IsIn(t, r) => ScopeConstraintV::IsIn(t@, r@),
        }
    }
}

impl Clone for ScopeConstraint {
    fn clone(&self) -> (r: Self)
        ensures
            r@ == self@,
    {
        match self {
            ScopeConstraint::Any => ScopeConstraint::Any,
            ScopeConstraint::Eq(r) => ScopeConstraint::Eq(r.clone()),
            ScopeConstraint::In(r) => ScopeConstraint::In(r.clone()),
            ScopeConstraint::Is(t) => ScopeConstraint::Is(t.clone()),
            ScopeConstraint::IsIn(t, r) => ScopeConstraint::IsIn(t.clone(), r.clone()),
        }
    }
}

/// The constraint of a scope on the action.
#[derive(Debug, PartialEq, Eq)]
pub enum ActionConstraint {
    /// Any action.
    Any,
    /// `== action`
    Eq(EntityUid),
    /// `in [action, ..]`
    In(Vec<EntityUid>),
}

/// Mathematical model of an [`ActionConstraint`].
pub enum ActionConstraintV {
    Any,
    Eq(EntityUidV),
    In(Seq<EntityUidV>),
}

impl View for ActionConstraint {
    type V = ActionConstraintV;

    open spec fn view(&self) -> ActionConstraintV {
        match self {
            ActionConstraint::Any => ActionConstraintV::Any,
            ActionConstraint::Eq(u) => ActionConstraintV::Eq(u@),
            ActionConstraint::In(us) => ActionConstraintV::In(uids_view(us@)),
        }
    }
}

/// A copy of a vector of entity identifiers.
pub fn clone_uids(us: &Vec<EntityUid>) -> (r: Vec<EntityUid>)
    ensures
        uids_view(r@) == uids_view(us@),
{
    let mut out: Vec<EntityUid> = Vec::new();
    let mut i: usize = 0;
    while i < us.len()
        invariant
            i <= us.len(),
            out.len() == i,
            forall|k: int| 0 <= k < i ==> out[k]@ == us[k]@,
        decreases us.len() - i,
    {
        out.push(us[i].clone());
        i += 1;
    }
    assert(uids_view(out@) =~= uids_view(us@));
    out
}

impl Clone for ActionConstraint {
    fn clone(&self) -> (r: Self)
        ensures
            r@ == self@,
    {
        match self {
            ActionConstraint::Any => ActionConstraint::Any,
            ActionConstraint::Eq(u) => ActionConstraint::Eq(u.clone()),
            ActionConstraint::In(us) => ActionConstraint::In(clone_uids(us)),
        }
    }
}

/// A policy, or a template when its scope names a slot.
#[derive(Debug, PartialEq, Eq)]
pub struct Policy {
    pub id: PolicyId,
    pub effect: Effect,
    pub principal: ScopeConstraint,
    pub action: ActionConstraint,
    pub resource: ScopeConstraint,
    pub condition: Expr,
}

/// Mathematical model of a [`Policy`].
pub struct PolicyV {
    pub id: Seq<char>,
    pub effect: Effect,
    pub principal: ScopeConstraintV,
    pub action: ActionConstraintV,
    pub resource: ScopeConstraintV,
    pub condition: ExprV,
}

impl View for Policy {
    type V = PolicyV;

    open spec fn view(&self) -> PolicyV {
        PolicyV {
            id: self.id@,
            effect: self.effect,
            principal: self.principal@,
            action: self.action@,
            resource: self.resource@,
            condition: self.condition@,
        }
    }
}

impl Clone for Policy {
    fn clone(&self) -> (r: Self)
        ensures
            r@ == self@,
    {
        Policy {
            id: self.id.clone(),
            effect: self.effect,
            principal: self.principal.clone(),
            action: self.action.clone(),
            resource: self.resource.clone(),
            condition: self.condition.clone(),
        }
    }
}

/// The expression for what a scope constraint names.
pub open spec fn ref_expr(r: EntityRefV, slot: SlotId) -> ExprV {
    match r {
        EntityRefV::Uid(u) => ExprV::Lit(LiteralV::EntityUid(u)),
        EntityRefV::Slot => ExprV::Slot(slot),
    }
}

/// The expression that a constraint on the principal or the resource stands for.
pub open spec fn scope_expr(c: ScopeConstraintV, var: Var, slot: SlotId) -> ExprV {
    match c {
        ScopeConstraintV::Any => ExprV::Lit(LiteralV::Bool(true)),
        ScopeConstraintV::Eq(r) => ExprV::Binary(
            BinaryOp::Eq,
            Box::new(ExprV::Var(var)),
            Box::new(ref_expr(r, slot)),
        ),
        ScopeConstraintV::In(r) => ExprV::Binary(
            BinaryOp::In,
            Box::new(ExprV::Var(var)),
            Box::new(ref_expr(r, slot)),
        ),
        ScopeConstraintV::Is(t) => ExprV::Is(Box::new(ExprV::Var(var)), t),
        ScopeConstraintV::IsIn(t, r) => ExprV::And(
            Box::new(ExprV::Is(Box::new(ExprV::Var(var)), t)),
            Box::new(
                ExprV::Binary(BinaryOp::In, Box::new(ExprV::Var(var)), Box::new(ref_expr(r, slot))),
            ),
        ),
    }
}

/// The literals of the given entities, in order.
pub open spec fn uid_literals(us: Seq<EntityUidV>) -> Seq<ExprV> {
    Seq::new(us.len(), |i: int| ExprV::Lit(LiteralV::EntityUid(us[i])))
}

/// The expression that a constraint on the action stands for.
pub open spec fn action_expr(c: ActionConstraintV) -> ExprV {
    match c {
        ActionConstraintV::Any => ExprV::Lit(LiteralV::Bool(true)),
        ActionConstraintV::Eq(u) => ExprV::Binary(
            BinaryOp::Eq,
            Box::new(ExprV::Var(Var::Action)),
            Box::new(ExprV::Lit(LiteralV::EntityUid(u))),
        ),
        ActionConstraintV::In(us) => ExprV::Binary(
            BinaryOp::In,
            Box::new(ExprV::Var(Var::Action)),
            Box::new(ExprV::SetOf(uid_literals(us))),
        ),
    }
}

/// The expression that a policy stands for: its three scope constraints
/// and its condition, joined by `&&` in this order.
pub open spec fn policy_expr(p: PolicyV) -> ExprV {
    ExprV::And(
        Box::new(
            ExprV::And(
                Box::new(
                    ExprV::And(
                        Box::new(scope_expr(p.principal, Var::Principal, SlotId::Principal)),
                        Box::new(action_expr(p.action)),
                    ),
                ),
                Box::new(scope_expr(p.resource, Var::Resource, SlotId::Resource)),
            ),
        ),
        Box::new(p.condition),
    )
}

/// What a policy yields for a request.
#[derive(Debug, PartialEq, Eq)]
pub enum PolicyOutcome {
    /// The scope matches the request and the condition is true.
    Satisfied,
    /// The scope does not match the request, or the condition is false.
    NotSatisfied,
    /// The evaluation failed.
    Error(EvaluationError),
}

/// Mathematical model of a [`PolicyOutcome`].
pub enum PolicyOutcomeV {
    Satisfied,
    NotSatisfied,
    Error(EvaluationErrorV),
}

impl View for PolicyOutcome {
    type V = PolicyOutcomeV;

    open spec fn view(&self) -> PolicyOutcomeV {
        match self {
            PolicyOutcome::Satisfied => PolicyOutcomeV::Satisfied,
            PolicyOutcome::NotSatisfied => PolicyOutcomeV::NotSatisfied,
            PolicyOutcome::Error(e) => PolicyOutcomeV::Error(e@),
        }
    }
}

/// What the value of a policy's expression says of the policy.
pub open spec fn outcome_of(r: Result<ValueV, EvaluationErrorV>) -> PolicyOutcomeV {
    match r {
        Ok(ValueV::Bool(b)) => if b {
            PolicyOutcomeV::Satisfied
        } else {
            PolicyOutcomeV::NotSatisfied
        },
        Ok(v) => PolicyOutcomeV::Error(type_error(seq![TypeV::Bool], type_of(v))),
        Err(e) => PolicyOutcomeV::Error(e),
    }
}

/// What the policy `p` yields in the environment `env`.
pub open spec fn policy_outcome(p: PolicyV, env: EnvV) -> PolicyOutcomeV {
    outcome_of(interpret(policy_expr(p), env))
}

fn entity_ref_expr(r: &EntityRef, slot: SlotId) -> (e: Expr)
    ensures
        e@ == ref_expr(r@, slot),
{
    match r {
        EntityRef::Uid(u) => Expr::uid(u.clone()),
        EntityRef::Slot => Expr::Slot(slot),
    }
}

fn scope_to_expr(c: &ScopeConstraint, var: Var, slot: SlotId) -> (e: Expr)
    ensures
        e@ == scope_expr(c@, var, slot),
{
    match c {
        ScopeConstraint::Any => Expr::bool(true),
        ScopeConstraint::Eq(r) => Expr::binary(
            BinaryOp::Eq,
            Expr::var(var),
            entity_ref_expr(r, slot),
        ),
        ScopeConstraint::In(r) => Expr::binary(
            BinaryOp::In,
            Expr::var(var),
            entity_ref_expr(r, slot),
        ),
        ScopeConstraint::Is(t) => Expr::is_type(Expr::var(var), t.as_str()),
        ScopeConstraint::IsIn(t, r) => Expr::and(
            Expr::is_type(Expr::var(var), t.as_str()),
            Expr::binary(BinaryOp::In, Expr::var(var), entity_ref_expr(r, slot)),
        ),
    }
}

fn action_to_expr(c: &ActionConstraint) -> (e: Expr)
    ensures
        e@ == action_expr(c@),
{
    match c {
        ActionConstraint::Any => Expr::bool(true),
        ActionConstraint::Eq(u) => Expr::binary(
            BinaryOp::Eq,
            Expr::var(Var::Action),
            Expr::uid(u.clone()),
        ),
        ActionConstraint::In(us) => {
            let mut lits: Vec<Expr> = Vec::new();
            let mut i: usize = 0;
            while i < us.len()
                invariant
                    i <= us.len(),
                    lits.len() == i,
                    forall|k: int|
                        0 <= k < i ==> lits[k]@ == ExprV::Lit(LiteralV::EntityUid(us[k]@)),
                decreases us.len() - i,
            {
                lits.push(Expr::uid(us[i].clone()));
                i += 1;
            }
            assert(exprs_view(lits@) =~= uid_literals(uids_view(us@)));
            Expr::binary(BinaryOp::In, Expr::var(Var::Action), Expr::set(lits))
        },
    }
}

impl Policy {
    /// The expression that this policy stands for.
    pub fn to_expr(&self) -> (e: Expr)
        ensures
            e@ == policy_expr(self@),
    {
        let p = scope_to_expr(&self.principal, Var::Principal, SlotId::Principal);
        let a = action_to_expr(&self.action);
        let r = scope_to_expr(&self.resource, Var::Resource, SlotId::Resource);
        let c = self.condition.clone();
        Expr::and(Expr::and(Expr::and(p, a), r), c)
    }

    /// What this policy yields for the request and the entities of an evaluator.
    pub fn evaluate(&self, evaluator: &Evaluator) -> (r: PolicyOutcome)
        ensures
            r@ == policy_outcome(self@, evaluator@),
    {
        let e = self.to_expr();
        match evaluator.interpret(&e) {
            Ok(Value::Bool(b)) => {
                if b {
                    PolicyOutcome::Satisfied
                } else {
                    PolicyOutcome::NotSatisfied
                }
            },
            Ok(v) => PolicyOutcome::Error(
                EvaluationError::type_error_single(Type::Bool, v.type_of()),
            ),
            Err(err) => PolicyOutcome::Error(err),
        }
    }
}

} // verus!
