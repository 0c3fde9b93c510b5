//! Laws of the evaluator and of the entity store, each proved from the
//! semantics.
use vstd::prelude::*;
use crate::ast::{BinaryOp, ExprV, LiteralV, UnaryOp};
use crate::entities::{EntitiesV, Mode};
use crate::err::{EvaluationErrorKindV, EvaluationErrorV, IntegerOverflowErrorV, plain_error};
use crate::semantics::{
    EnvV, MAX_DEPTH, PartialValueV, any_held, apply_binary_values, apply_get_attr,
    apply_has_attr, apply_unary, eval, interpret, ok_bool, overflow_error,
};
use crate::value::{
    EntityUidV, ValueV, all_held, lemma_all_in_is_all_held, value_eq,
};

verus! {

/// Evaluation is a function of its inputs: equal expressions evaluated
/// against equal requests, entities and extension functions yield equal results.
pub proof fn law_interpret_deterministic(e1: ExprV, env1: EnvV, e2: ExprV, env2: EnvV)
    requires
        e1 == e2,
        env1 == env2,
    ensures
        interpret(e1, env1) == interpret(e2, env2),
{
}

/// Addition never wraps: where the sum of two integers does not fit in 64
/// bits, the evaluation is an overflow error that names both operands.
pub proof fn law_add_overflow(x: ExprV, y: ExprV, a: i64, b: i64, env: EnvV, partial: bool, level: nat)
    requires
        level <= MAX_DEPTH,
        eval(x, env, partial, level + 1) == Ok::<PartialValueV, EvaluationErrorV>(
            PartialValueV::Value(ValueV::Long(a)),
        ),
        eval(y, env, partial, level + 1) == Ok::<PartialValueV, EvaluationErrorV>(
            PartialValueV::Value(ValueV::Long(b)),
        ),
        a + b < i64::MIN || a + b > i64::MAX,
    ensures
        eval(ExprV::Binary(BinaryOp::Add, Box::new(x), Box::new(y)), env, partial, level) == Err::<
            PartialValueV,
            EvaluationErrorV,
        >(
            overflow_error(
                IntegerOverflowErrorV::BinaryOp {
                    op: BinaryOp::Add,
                    arg1: ValueV::Long(a),
                    arg2: ValueV::Long(b),
                },
            ),
        ),
{
}

/// Subtraction never wraps.
pub proof fn law_sub_overflow(x: ExprV, y: ExprV, a: i64, b: i64, env: EnvV, partial: bool, level: nat)
    requires
        level <= MAX_DEPTH,
        eval(x, env, partial, level + 1) == Ok::<PartialValueV, EvaluationErrorV>(
            PartialValueV::Value(ValueV::Long(a)),
        ),
        eval(y, env, partial, level + 1) == Ok::<PartialValueV, EvaluationErrorV>(
            PartialValueV::Value(ValueV::Long(b)),
        ),
        a - b < i64::MIN || a - b > i64::MAX,
    ensures
        eval(ExprV::Binary(BinaryOp::Sub, Box::new(x), Box::new(y)), env, partial, level) == Err::<
            PartialValueV,
            EvaluationErrorV,
        >(
            overflow_error(
                IntegerOverflowErrorV::BinaryOp {
                    op: BinaryOp::Sub,
                    arg1: ValueV::Long(a),
                    arg2: ValueV::Long(b),
                },
            ),
        ),
{
}

/// Multiplication never wraps, and its error names the constant.
pub proof fn law_mul_overflow(x: ExprV, a: i64, c: i64, env: EnvV, partial: bool, level: nat)
    requires
        level <= MAX_DEPTH,
        eval(x, env, partial, level + 1) == Ok::<PartialValueV, EvaluationErrorV>(
            PartialValueV::Value(ValueV::Long(a)),
        ),
        a * c < i64::MIN || a * c > i64::MAX,
    ensures
        eval(ExprV::MulByConst(Box::new(x), c), env, partial, level) == Err::<
            PartialValueV,
            EvaluationErrorV,
        >(
            overflow_error(
                IntegerOverflowErrorV::Multiplication { arg: ValueV::Long(a), constant: c },
            ),
        ),
{
}

/// The negation of the smallest integer is an overflow error.
pub proof fn law_neg_min_overflows()
    ensures
        apply_unary(UnaryOp::Neg, PartialValueV::Value(ValueV::Long(i64::MIN))) == Err::<
            PartialValueV,
            EvaluationErrorV,
        >(
            overflow_error(
                IntegerOverflowErrorV::UnaryOp { op: UnaryOp::Neg, arg: ValueV::Long(i64::MIN) },
            ),
        ),
{
}

/// `a && e` is `false` when `a` is `false`, whatever `e` is: an error or a
/// residual of `e` does not show.
pub proof fn law_and_short_circuits(a: ExprV, e: ExprV, env: EnvV, partial: bool, level: nat)
    requires
        level <= MAX_DEPTH,
        eval(a, env, partial, level + 1) == ok_bool(false),
    ensures
        eval(ExprV::And(Box::new(a), Box::new(e)), env, partial, level) == ok_bool(false),
{
}

/// `a || e` is `true` when `a` is `true`, whatever `e` is.
pub proof fn law_or_short_circuits(a: ExprV, e: ExprV, env: EnvV, partial: bool, level: nat)
    requires
        level <= MAX_DEPTH,
        eval(a, env, partial, level + 1) == ok_bool(true),
    ensures
        eval(ExprV::Or(Box::new(a), Box::new(e)), env, partial, level) == ok_bool(true),
{
}

/// `if c then t else e` is what the branch that `c` selects is, whatever
/// the other branch is.
pub proof fn law_if_takes_one_branch(c: ExprV, t: ExprV, e: ExprV, env: EnvV, partial: bool, level: nat)
    requires
        level <= MAX_DEPTH,
    ensures
        eval(c, env, partial, level + 1) == ok_bool(true) ==> eval(
            ExprV::If(Box::new(c), Box::new(t), Box::new(e)),
            env,
            partial,
            level,
        ) == eval(t, env, partial, level + 1),
        eval(c, env, partial, level + 1) == ok_bool(false) ==> eval(
            ExprV::If(Box::new(c), Box::new(t), Box::new(e)),
            env,
            partial,
            level,
        ) == eval(e, env, partial, level + 1),
{
}

/// `false && e`, `true || e` and `if true then 1 else e` do not show an
/// error of `e`.
pub proof fn law_literal_short_circuits(e: ExprV, env: EnvV, partial: bool)
    ensures
        eval(
            ExprV::And(Box::new(ExprV::Lit(LiteralV::Bool(false))), Box::new(e)),
            env,
            partial,
            1,
        ) == ok_bool(false),
        eval(ExprV::Or(Box::new(ExprV::Lit(LiteralV::Bool(true))), Box::new(e)), env, partial, 1)
            == ok_bool(true),
        eval(
            ExprV::If(
                Box::new(ExprV::Lit(LiteralV::Bool(true))),
                Box::new(ExprV::Lit(LiteralV::Long(1))),
                Box::new(e),
            ),
            env,
            partial,
            1,
        ) == Ok::<PartialValueV, EvaluationErrorV>(PartialValueV::Value(ValueV::Long(1))),
{
    reveal_with_fuel(eval, 2);
}

/// Equality is total: for any two values, of any kinds, `==` yields a truth value.
pub proof fn law_equality_total(v1: ValueV, v2: ValueV, env: EnvV, partial: bool, level: nat)
    requires
        level < MAX_DEPTH,
    ensures
        apply_binary_values(BinaryOp::Eq, v1, v2, env.entities) == ok_bool(value_eq(v1, v2)),
        apply_binary_values(BinaryOp::NotEq, v1, v2, env.entities) == ok_bool(!value_eq(v1, v2)),
        eval(
            ExprV::Binary(BinaryOp::Eq, Box::new(ExprV::Val(v1)), Box::new(ExprV::Val(v2))),
            env,
            partial,
            level,
        ) == ok_bool(value_eq(v1, v2)),
{
    reveal_with_fuel(eval, 2);
}

/// `contains(s, x)` is `containsAny(s, [x])`.
pub proof fn law_contains_is_contains_any(s: ValueV, x: ValueV, entities: EntitiesV)
    ensures
        apply_binary_values(BinaryOp::Contains, s, x, entities) == apply_binary_values(
            BinaryOp::ContainsAny,
            s,
            ValueV::SetOf(seq![x]),
            entities,
        ),
{
    match s {
        ValueV::SetOf(xs) => {
            let one = seq![x];
            assert(one.last() == x);
            assert(one.drop_last() =~= Seq::<ValueV>::empty());
            reveal_with_fuel(any_held, 2);
        },
        _ => {},
    }
}

/// Two sets each of which contains all elements of the other are equal,
/// and equal sets contain all elements of each other.
pub proof fn law_contains_all_both_ways_is_equality(s: Seq<ValueV>, t: Seq<ValueV>)
    ensures
        (all_held(s, t) && all_held(t, s)) <==> value_eq(ValueV::SetOf(s), ValueV::SetOf(t)),
{
    lemma_all_in_is_all_held(s, t);
}

/// Whether `a` is listed among the ancestors of `d`.
pub open spec fn listed_ancestor(store: EntitiesV, d: EntityUidV, a: EntityUidV) -> bool {
    store.is_ancestor_of(a, d)
}

/// Whether `a` is reached from `d` in `n` steps, each from an entity to one
/// of its listed ancestors.
pub open spec fn reaches(store: EntitiesV, d: EntityUidV, a: EntityUidV, n: nat) -> bool
    decreases n,
{
    if n == 0 {
        false
    } else if n == 1 {
        listed_ancestor(store, d, a)
    } else {
        exists|m: EntityUidV| #[trigger]
            listed_ancestor(store, d, m) && reaches(store, m, a, (n - 1) as nat)
    }
}

/// Whether the listed ancestors of every entity hold the listed ancestors
/// of each of them.
pub open spec fn transitively_closed(store: EntitiesV) -> bool {
    forall|d: EntityUidV, m: EntityUidV, a: EntityUidV|
        #![trigger listed_ancestor(store, d, m), listed_ancestor(store, m, a)]
        listed_ancestor(store, d, m) && listed_ancestor(store, m, a) ==> listed_ancestor(
            store,
            d,
            a,
        )
}

/// The descendants of `a`: the entities from which `a` is reached in one or
/// more steps.
pub open spec fn descendants_of(store: EntitiesV, a: EntityUidV) -> Set<EntityUidV> {
    Set::new(|d: EntityUidV| exists|n: nat| #[trigger] reaches(store, d, a, n))
}

/// In a transitively closed store, what is reached in steps is listed.
pub proof fn lemma_reaches_is_listed(store: EntitiesV, d: EntityUidV, a: EntityUidV, n: nat)
    requires
        transitively_closed(store),
        reaches(store, d, a, n),
    ensures
        listed_ancestor(store, d, a),
    decreases n,
{
    if n > 1 {
        let m = choose|m: EntityUidV| #[trigger]
            listed_ancestor(store, d, m) && reaches(store, m, a, (n - 1) as nat);
        lemma_reaches_is_listed(store, m, a, (n - 1) as nat);
    }
}

/// In a store whose ancestors are transitively closed, `a` is an ancestor
/// of `d` exactly when `d` is among the descendants of `a`.
pub proof fn law_ancestor_iff_descendant(store: EntitiesV, a: EntityUidV, d: EntityUidV)
    requires
        transitively_closed(store),
    ensures
        store.is_ancestor_of(a, d) <==> descendants_of(store, a).contains(d),
{
    if store.is_ancestor_of(a, d) {
        assert(reaches(store, d, a, 1));
    }
    if descendants_of(store, a).contains(d) {
        let n = choose|n: nat| #[trigger] reaches(store, d, a, n);
        lemma_reaches_is_listed(store, d, a, n);
    }
}

/// `has` on an entity that a complete store does not hold is `false`, not
/// an error.
pub proof fn law_has_on_missing_entity(store: EntitiesV, u: EntityUidV, attr: Seq<char>)
    requires
        store.mode == Mode::Concrete,
        store.get(u) is None,
    ensures
        apply_has_attr(PartialValueV::Value(ValueV::EntityUid(u)), attr, store) == ok_bool(false),
{
}

/// Reading an attribute of an unspecified entity is an error that names
/// the attribute.
pub proof fn law_attr_of_unspecified(store: EntitiesV, u: EntityUidV, attr: Seq<char>)
    requires
        u.ty is Unspecified,
    ensures
        apply_get_attr(PartialValueV::Value(ValueV::EntityUid(u)), attr, store) == Err::<
            PartialValueV,
            EvaluationErrorV,
        >(plain_error(EvaluationErrorKindV::UnspecifiedEntityAccess(attr))),
{
}

/// `n` negations around `true`.
pub open spec fn negations(n: nat) -> ExprV
    decreases n,
{
    if n == 0 {
        ExprV::Lit(LiteralV::Bool(true))
    } else {
        ExprV::Unary(UnaryOp::Not, Box::new(negations((n - 1) as nat)))
    }
}

/// What `n` negations around `true`, nested `level` deep, evaluate to: a
/// truth value when the innermost expression is at most `MAX_DEPTH` deep,
/// and a recursion-limit error otherwise.
pub proof fn lemma_negations(n: nat, env: EnvV, partial: bool, level: nat)
    ensures
        level + n <= MAX_DEPTH ==> eval(negations(n), env, partial, level) == ok_bool(n % 2 == 0),
        level + n > MAX_DEPTH ==> eval(negations(n), env, partial, level) == Err::<
            PartialValueV,
            EvaluationErrorV,
        >(plain_error(EvaluationErrorKindV::RecursionLimit)),
    decreases n,
{
    if n > 0 {
        lemma_negations((n - 1) as nat, env, partial, level + 1);
    }
}

/// An expression nested exactly `MAX_DEPTH` deep is evaluated; one nested
/// one level deeper is a recursion-limit error.
pub proof fn law_recursion_bound(env: EnvV, partial: bool)
    ensures
        eval(negations((MAX_DEPTH - 1) as nat), env, partial, 1) is Ok,
        eval(negations(MAX_DEPTH as nat), env, partial, 1) == Err::<
            PartialValueV,
            EvaluationErrorV,
        >(plain_error(EvaluationErrorKindV::RecursionLimit)),
{
    lemma_negations((MAX_DEPTH - 1) as nat, env, partial, 1);
    lemma_negations(MAX_DEPTH as nat, env, partial, 1);
}

} // verus!
