//! Stores that agree: they hold the same entities with the same attributes
//! and the same ancestors, in whatever order the ancestors are listed.
//! Evaluation and authorization do not tell such stores apart.
use vstd::prelude::*;
use crate::ast::{BinaryOp, ExprV};
use crate::authorizer::{authorize, policy_errors, satisfied_ids};
use crate::entities::{EntitiesV, EntityV, Mode, entity_from};
use crate::frontend::{AuthorizationAnswerV, AuthorizationCallV, answers, components_of};
use crate::extensions::all_ops;
use crate::hierarchy::{RawEntityV, closure_of, entity_closes};
use crate::policy::{Effect, PolicyV};
use crate::semantics::{
    EnvV, MAX_DEPTH, PartialValueV, apply_binary_values, eval, eval_all, eval_fields, in_any_from,
};
use crate::value::{EntityUidV, ValueV};

verus! {

/// Whether two entities have the same identifier, the same attributes and
/// the same ancestors.
pub open spec fn entities_agree(e1: EntityV, e2: EntityV) -> bool {
    &&& e1.uid == e2.uid
    &&& e1.attrs == e2.attrs
    &&& forall|a: EntityUidV| e1.ancestors.contains(a) <==> e2.ancestors.contains(a)
}

/// Whether two stores hold, in the same order, entities that agree, and
/// say the same of the entities that they do not hold.
pub open spec fn agree(s1: EntitiesV, s2: EntitiesV) -> bool {
    &&& s1.mode == s2.mode
    &&& s1.entities.len() == s2.entities.len()
    &&& forall|i: int|
        #![trigger s1.entities[i]]
        0 <= i < s1.entities.len() ==> entities_agree(s1.entities[i], s2.entities[i])
}

/// Whether two optional entities are both absent, or agree.
pub open spec fn found_agree(e1: Option<EntityV>, e2: Option<EntityV>) -> bool {
    match (e1, e2) {
        (None, None) => true,
        (Some(a), Some(b)) => entities_agree(a, b),
        _ => false,
    }
}

/// Stores that agree find entities that agree.
pub proof fn lemma_agree_from(s1: EntitiesV, s2: EntitiesV, u: EntityUidV, i: int)
    requires
        agree(s1, s2),
        0 <= i <= s1.entities.len(),
    ensures
        found_agree(entity_from(s1.entities, u, i), entity_from(s2.entities, u, i)),
    decreases s1.entities.len() - i,
{
    if i < s1.entities.len() {
        assert(entities_agree(s1.entities[i], s2.entities[i]));
        if s1.entities[i].uid != u {
            lemma_agree_from(s1, s2, u, i + 1);
        }
    }
}

/// Stores that agree say the same of each entity.
pub proof fn lemma_agree_entity(s1: EntitiesV, s2: EntitiesV, u: EntityUidV)
    requires
        agree(s1, s2),
    ensures
        found_agree(s1.get(u), s2.get(u)),
        s1.is_residual(u) == s2.is_residual(u),
        forall|name: Seq<char>| s1.attr(u, name) == s2.attr(u, name),
        forall|name: Seq<char>, strict: bool|
            s1.has_attr(u, name, strict) == s2.has_attr(u, name, strict),
        forall|a: EntityUidV| s1.is_ancestor_of(a, u) == s2.is_ancestor_of(a, u),
{
    lemma_agree_from(s1, s2, u, 0);
}

/// Stores that agree say the same of whether an entity is in one of the
/// entities of a sequence.
pub proof fn lemma_agree_in_any(s1: EntitiesV, s2: EntitiesV, u: EntityUidV, vs: Seq<ValueV>, i: int)
    requires
        agree(s1, s2),
    ensures
        in_any_from(s1, u, vs, i) == in_any_from(s2, u, vs, i),
    decreases vs.len() - i,
{
    lemma_agree_entity(s1, s2, u);
    if 0 <= i < vs.len() {
        lemma_agree_in_any(s1, s2, u, vs, i + 1);
    }
}

/// Binary operators yield the same against stores that agree.
pub proof fn lemma_agree_binary(op: BinaryOp, a: ValueV, b: ValueV, s1: EntitiesV, s2: EntitiesV)
    requires
        agree(s1, s2),
    ensures
        apply_binary_values(op, a, b, s1) == apply_binary_values(op, a, b, s2),
{
    if op == BinaryOp::In {
        match (a, b) {
            (ValueV::EntityUid(u), ValueV::EntityUid(_)) => {
                lemma_agree_entity(s1, s2, u);
            },
            (ValueV::EntityUid(u), ValueV::SetOf(vs)) => {
                lemma_agree_entity(s1, s2, u);
                lemma_agree_in_any(s1, s2, u, vs, 0);
            },
            _ => {},
        }
    }
}

/// Whether two environments have the same request and the same extension
/// functions, and stores that agree.
pub open spec fn envs_agree(env1: EnvV, env2: EnvV) -> bool {
    &&& env1.request == env2.request
    &&& env1.extensions == env2.extensions
    &&& agree(env1.entities, env2.entities)
}

/// An expression evaluates to the same against stores that agree.
pub proof fn law_evaluation_agrees(e: ExprV, env1: EnvV, env2: EnvV, partial: bool, level: nat)
    requires
        envs_agree(env1, env2),
    ensures
        eval(e, env1, partial, level) == eval(e, env2, partial, level),
    decreases e, 0nat,
{
    if level <= MAX_DEPTH {
        match e {
            ExprV::If(c, t, f) => {
                law_evaluation_agrees(*c, env1, env2, partial, level + 1);
                law_evaluation_agrees(*t, env1, env2, partial, level + 1);
                law_evaluation_agrees(*f, env1, env2, partial, level + 1);
            },
            ExprV::And(a, b) => {
                law_evaluation_agrees(*a, env1, env2, partial, level + 1);
                law_evaluation_agrees(*b, env1, env2, partial, level + 1);
            },
            ExprV::Or(a, b) => {
                law_evaluation_agrees(*a, env1, env2, partial, level + 1);
                law_evaluation_agrees(*b, env1, env2, partial, level + 1);
            },
            ExprV::Unary(_, a) => {
                law_evaluation_agrees(*a, env1, env2, partial, level + 1);
            },
            ExprV::Binary(op, a, b) => {
                law_evaluation_agrees(*a, env1, env2, partial, level + 1);
                law_evaluation_agrees(*b, env1, env2, partial, level + 1);
                match (eval(*a, env1, partial, level + 1), eval(*b, env1, partial, level + 1)) {
                    (Ok(PartialValueV::Value(x)), Ok(PartialValueV::Value(y))) => {
                        lemma_agree_binary(op, x, y, env1.entities, env2.entities);
                    },
                    _ => {},
                }
            },
            ExprV::MulByConst(a, _) => {
                law_evaluation_agrees(*a, env1, env2, partial, level + 1);
            },
            ExprV::Call(_, args) => {
                lemma_evaluation_of_all_agrees(args, env1, env2, partial, level + 1);
            },
            ExprV::GetAttr(a, attr) => {
                law_evaluation_agrees(*a, env1, env2, partial, level + 1);
                match eval(*a, env1, partial, level + 1) {
                    Ok(PartialValueV::Value(ValueV::EntityUid(u))) => {
                        lemma_agree_entity(env1.entities, env2.entities, u);
                    },
                    _ => {},
                }
            },
            ExprV::HasAttr(a, attr) => {
                law_evaluation_agrees(*a, env1, env2, partial, level + 1);
                match eval(*a, env1, partial, level + 1) {
                    Ok(PartialValueV::Value(ValueV::EntityUid(u))) => {
                        lemma_agree_entity(env1.entities, env2.entities, u);
                    },
                    _ => {},
                }
            },
            ExprV::Like(a, _) => {
                law_evaluation_agrees(*a, env1, env2, partial, level + 1);
            },
            ExprV::Is(a, _) => {
                law_evaluation_agrees(*a, env1, env2, partial, level + 1);
            },
            ExprV::SetOf(es) => {
                lemma_evaluation_of_all_agrees(es, env1, env2, partial, level + 1);
            },
            ExprV::Record(fs) => {
                lemma_evaluation_of_fields_agrees(fs, env1, env2, partial, level + 1);
            },
            _ => {},
        }
    }
}

/// Expressions evaluate to the same against stores that agree.
pub proof fn lemma_evaluation_of_all_agrees(
    es: Seq<ExprV>,
    env1: EnvV,
    env2: EnvV,
    partial: bool,
    level: nat,
)
    requires
        envs_agree(env1, env2),
    ensures
        eval_all(es, env1, partial, level) == eval_all(es, env2, partial, level),
    decreases es, 1nat,
{
    if es.len() > 0 {
        lemma_evaluation_of_all_agrees(es.drop_last(), env1, env2, partial, level);
        law_evaluation_agrees(es.last(), env1, env2, partial, level);
    }
}

/// The fields of a record literal evaluate to the same against stores
/// that agree.
pub proof fn lemma_evaluation_of_fields_agrees(
    fs: Seq<(Seq<char>, ExprV)>,
    env1: EnvV,
    env2: EnvV,
    partial: bool,
    level: nat,
)
    requires
        envs_agree(env1, env2),
    ensures
        eval_fields(fs, env1, partial, level) == eval_fields(fs, env2, partial, level),
    decreases fs, 1nat,
{
    if fs.len() > 0 {
        lemma_evaluation_of_fields_agrees(fs.drop_last(), env1, env2, partial, level);
        law_evaluation_agrees(fs.last().1, env1, env2, partial, level);
    }
}

/// The satisfied policies and the errors are the same against stores that
/// agree.
pub proof fn lemma_outcomes_agree(ps: Seq<PolicyV>, env1: EnvV, env2: EnvV, effect: Effect)
    requires
        envs_agree(env1, env2),
    ensures
        satisfied_ids(ps, env1, effect) == satisfied_ids(ps, env2, effect),
        policy_errors(ps, env1) == policy_errors(ps, env2),
    decreases ps.len(),
{
    if ps.len() > 0 {
        lemma_outcomes_agree(ps.drop_last(), env1, env2, effect);
        law_evaluation_agrees(crate::policy::policy_expr(ps.last()), env1, env2, false, 1);
    }
}

/// The answer to a request is the same against stores that agree.
pub proof fn law_authorization_agrees(ps: Seq<PolicyV>, env1: EnvV, env2: EnvV)
    requires
        envs_agree(env1, env2),
    ensures
        authorize(ps, env1) == authorize(ps, env2),
{
    lemma_outcomes_agree(ps, env1, env2, Effect::Forbid);
    lemma_outcomes_agree(ps, env1, env2, Effect::Permit);
}

/// Two stores of the same entities, each with all that is above it as its
/// ancestors, agree.
pub proof fn lemma_closures_agree(raw: Seq<RawEntityV>, s1: EntitiesV, s2: EntitiesV)
    requires
        closure_of(raw, s1.entities),
        closure_of(raw, s2.entities),
        s1.mode == s2.mode,
    ensures
        agree(s1, s2),
{
    assert forall|i: int|
        #![trigger s1.entities[i]]
        0 <= i < s1.entities.len() implies entities_agree(s1.entities[i], s2.entities[i]) by {
        assert(entity_closes(raw, i, s1.entities[i]));
        assert(entity_closes(raw, i, s2.entities[i]));
    }
}

/// A call has one answer.
pub proof fn law_answer_is_unique(
    call: AuthorizationCallV,
    a1: AuthorizationAnswerV,
    a2: AuthorizationAnswerV,
)
    requires
        answers(call, a1),
        answers(call, a2),
    ensures
        a1 == a2,
{
    match components_of(call, all_ops()) {
        Ok((request, policies, raw)) => {
            let s1 = choose|store: EntitiesV|
                closure_of(raw, store.entities) && store.mode == Mode::Concrete && a1 == (
                AuthorizationAnswerV::Success {
                    response: crate::frontend::interface_response(
                        #[trigger] authorize(
                            policies.policies,
                            EnvV { request, entities: store, extensions: all_ops() },
                        ),
                    ),
                });
            let s2 = choose|store: EntitiesV|
                closure_of(raw, store.entities) && store.mode == Mode::Concrete && a2 == (
                AuthorizationAnswerV::Success {
                    response: crate::frontend::interface_response(
                        #[trigger] authorize(
                            policies.policies,
                            EnvV { request, entities: store, extensions: all_ops() },
                        ),
                    ),
                });
            lemma_closures_agree(raw, s1, s2);
            law_authorization_agrees(
                policies.policies,
                EnvV { request, entities: s1, extensions: all_ops() },
                EnvV { request, entities: s2, extensions: all_ops() },
            );
        },
        Err(_) => {},
    }
}

} // verus!
