//! What expressions mean: the value, residual or error that the evaluation
//! of an expression yields, as a mathematical function of the expression,
//! the request, the entity store and the registry of extension functions.
use vstd::prelude::*;
use crate::ast::{BinaryOp, ExprV, PatternElem, UnaryOp, Var, literal_value};
use crate::entities::EntitiesV;
use crate::err::{
    EvaluationErrorKindV, EvaluationErrorV, ExtensionFunctionLookupErrorV, IntegerOverflowErrorV,
    non_value_error, plain_error, type_error,
};
use crate::extensions::{ExtOp, ext_apply, lookup_op, op_arity};
use crate::pattern::wildcard_match;
use crate::request::RequestV;
use crate::sorting::sorted_strings;
use crate::value::{
    EntityTypeV, EntityUidV, TypeV, ValueV, all_held, any_entity_type, attr_names, attr_of,
    seq_has, type_of, value_eq,
};

verus! {

/// The deepest nesting of expressions that is evaluated.
pub const MAX_DEPTH: usize = 200;

/// What an expression is evaluated against.
pub struct EnvV {
    pub request: RequestV,
    pub entities: EntitiesV,
    pub extensions: Seq<ExtOp>,
}

/// Mathematical model of the result of a partial evaluation.
pub enum PartialValueV {
    /// The expression has this value.
    Value(ValueV),
    /// What is left of the expression, with its unknowns.
    Residual(ExprV),
}

/// What the evaluation of an expression yields.
pub type Outcome = Result<PartialValueV, EvaluationErrorV>;

/// The outcome that is the truth value `b`.
pub open spec fn ok_bool(b: bool) -> Outcome {
    Ok(PartialValueV::Value(ValueV::Bool(b)))
}

/// The error for an integer overflow.
pub open spec fn overflow_error(e: IntegerOverflowErrorV) -> EvaluationErrorV {
    plain_error(EvaluationErrorKindV::IntegerOverflow(e))
}

/// The expression that stands for a partial result.
pub open spec fn to_expr(pv: PartialValueV) -> ExprV {
    match pv {
        PartialValueV::Value(v) => ExprV::Val(v),
        PartialValueV::Residual(r) => r,
    }
}

/// The unspecified entity that stands for an absent request component.
pub open spec fn unspecified_uid(name: Seq<char>) -> EntityUidV {
    EntityUidV { ty: EntityTypeV::Unspecified, eid: name }
}

/// What a request component evaluates to: the entity that the request
/// names; for an absent one an unknown when evaluating partially, and the
/// unspecified entity otherwise.
pub open spec fn request_entity(u: Option<EntityUidV>, name: Seq<char>, partial: bool)
    -> PartialValueV {
    match u {
        Some(u) => PartialValueV::Value(ValueV::EntityUid(u)),
        None => if partial {
            PartialValueV::Residual(ExprV::Unknown(name))
        } else {
            PartialValueV::Value(ValueV::EntityUid(unspecified_uid(name)))
        },
    }
}

/// What a variable evaluates to.
pub open spec fn eval_var(v: Var, request: RequestV, partial: bool) -> PartialValueV {
    match v {
        Var::Principal => request_entity(request.principal, "principal"@, partial),
        Var::Action => request_entity(request.action, "action"@, partial),
        Var::Resource => request_entity(request.resource, "resource"@, partial),
        Var::Context => PartialValueV::Value(ValueV::Record(request.context)),
    }
}

/// What a unary operator yields for an evaluated argument.
pub open spec fn apply_unary(op: UnaryOp, arg: PartialValueV) -> Outcome {
    match arg {
        PartialValueV::Residual(r) => Ok(PartialValueV::Residual(ExprV::Unary(op, Box::new(r)))),
        PartialValueV::Value(v) => match op {
            UnaryOp::Not => match v {
                ValueV::Bool(b) => ok_bool(!b),
                _ => Err(type_error(seq![TypeV::Bool], type_of(v))),
            },
            UnaryOp::Neg => match v {
                ValueV::Long(i) => if i == i64::MIN {
                    Err(overflow_error(IntegerOverflowErrorV::UnaryOp { op, arg: v }))
                } else {
                    Ok(PartialValueV::Value(ValueV::Long((-i) as i64)))
                },
                _ => Err(type_error(seq![TypeV::Long], type_of(v))),
            },
        },
    }
}

/// What multiplication by a constant yields for an evaluated argument.
pub open spec fn apply_mul(arg: PartialValueV, constant: i64) -> Outcome {
    match arg {
        PartialValueV::Residual(r) => Ok(
            PartialValueV::Residual(ExprV::MulByConst(Box::new(r), constant)),
        ),
        PartialValueV::Value(v) => match v {
            ValueV::Long(i) => if i64::MIN <= i * constant <= i64::MAX {
                Ok(PartialValueV::Value(ValueV::Long((i * constant) as i64)))
            } else {
                Err(overflow_error(IntegerOverflowErrorV::Multiplication { arg: v, constant }))
            },
            _ => Err(type_error(seq![TypeV::Long], type_of(v))),
        },
    }
}

/// Whether the entity `u` is `target` or one of its descendants.
pub open spec fn entity_in(entities: EntitiesV, u: EntityUidV, target: EntityUidV) -> bool {
    u == target || entities.is_ancestor_of(target, u)
}

/// The first value at or after position `i` that is no entity.
pub open spec fn first_non_entity(vs: Seq<ValueV>, i: int) -> Option<ValueV>
    decreases vs.len() - i,
{
    if i < 0 || i >= vs.len() {
        None
    } else if !(vs[i] is EntityUid) {
        Some(vs[i])
    } else {
        first_non_entity(vs, i + 1)
    }
}

/// Whether the entity `u` is one of the entities at or after position `i`,
/// or a descendant of one of them.
pub open spec fn in_any_from(entities: EntitiesV, u: EntityUidV, vs: Seq<ValueV>, i: int) -> bool
    decreases vs.len() - i,
{
    if i < 0 || i >= vs.len() {
        false
    } else {
        (vs[i] is EntityUid && entity_in(entities, u, vs[i]->EntityUid_0)) || in_any_from(
            entities,
            u,
            vs,
            i + 1,
        )
    }
}

/// Whether some element of `ys` has an equal among `xs`.
pub open spec fn any_held(xs: Seq<ValueV>, ys: Seq<ValueV>) -> bool
    decreases ys.len(),
{
    if ys.len() == 0 {
        false
    } else {
        seq_has(xs, ys.last()) || any_held(xs, ys.drop_last())
    }
}

/// What `in` yields for two values.
pub open spec fn apply_in(a: ValueV, b: ValueV, entities: EntitiesV) -> Outcome {
    match a {
        ValueV::EntityUid(u) => match b {
            ValueV::EntityUid(target) => if entities.is_residual(u) {
                Ok(
                    PartialValueV::Residual(
                        ExprV::Binary(
                            BinaryOp::In,
                            Box::new(ExprV::Val(a)),
                            Box::new(ExprV::Val(b)),
                        ),
                    ),
                )
            } else {
                ok_bool(entity_in(entities, u, target))
            },
            ValueV::SetOf(vs) => match first_non_entity(vs, 0) {
                Some(v) => Err(type_error(seq![any_entity_type()], type_of(v))),
                None => if entities.is_residual(u) {
                    Ok(
                        PartialValueV::Residual(
                            ExprV::Binary(
                                BinaryOp::In,
                                Box::new(ExprV::Val(a)),
                                Box::new(ExprV::Val(b)),
                            ),
                        ),
                    )
                } else {
                    ok_bool(in_any_from(entities, u, vs, 0))
                },
            },
            _ => Err(type_error(seq![TypeV::SetOf, any_entity_type()], type_of(b))),
        },
        _ => Err(type_error(seq![any_entity_type()], type_of(a))),
    }
}

/// What a comparison or an arithmetic operator yields for two values.
pub open spec fn apply_long_op(op: BinaryOp, a: ValueV, b: ValueV) -> Outcome {
    match (a, b) {
        (ValueV::Long(x), ValueV::Long(y)) => match op {
            BinaryOp::Less => ok_bool(x < y),
            BinaryOp::LessEq => ok_bool(x <= y),
            BinaryOp::Greater => ok_bool(x > y),
            BinaryOp::GreaterEq => ok_bool(x >= y),
            BinaryOp::Add => if i64::MIN <= x + y <= i64::MAX {
                Ok(PartialValueV::Value(ValueV::Long((x + y) as i64)))
            } else {
                Err(overflow_error(IntegerOverflowErrorV::BinaryOp { op, arg1: a, arg2: b }))
            },
            _ => if i64::MIN <= x - y <= i64::MAX {
                Ok(PartialValueV::Value(ValueV::Long((x - y) as i64)))
            } else {
                Err(overflow_error(IntegerOverflowErrorV::BinaryOp { op, arg1: a, arg2: b }))
            },
        },
        (ValueV::Long(_), _) => Err(type_error(seq![TypeV::Long], type_of(b))),
        _ => Err(type_error(seq![TypeV::Long], type_of(a))),
    }
}

/// What a binary operator yields for two values.
pub open spec fn apply_binary_values(op: BinaryOp, a: ValueV, b: ValueV, entities: EntitiesV)
    -> Outcome {
    match op {
        BinaryOp::Eq => ok_bool(value_eq(a, b)),
        BinaryOp::NotEq => ok_bool(!value_eq(a, b)),
        BinaryOp::In => apply_in(a, b, entities),
        BinaryOp::Contains => match a {
            ValueV::SetOf(xs) => ok_bool(seq_has(xs, b)),
            _ => Err(type_error(seq![TypeV::SetOf], type_of(a))),
        },
        BinaryOp::ContainsAll => match (a, b) {
            (ValueV::SetOf(xs), ValueV::SetOf(ys)) => ok_bool(all_held(xs, ys)),
            (ValueV::SetOf(_), _) => Err(type_error(seq![TypeV::SetOf], type_of(b))),
            _ => Err(type_error(seq![TypeV::SetOf], type_of(a))),
        },
        BinaryOp::ContainsAny => match (a, b) {
            (ValueV::SetOf(xs), ValueV::SetOf(ys)) => ok_bool(any_held(xs, ys)),
            (ValueV::SetOf(_), _) => Err(type_error(seq![TypeV::SetOf], type_of(b))),
            _ => Err(type_error(seq![TypeV::SetOf], type_of(a))),
        },
        _ => apply_long_op(op, a, b),
    }
}

/// What a binary operator yields for two evaluated arguments: a residual
/// when one of them is a residual.
pub open spec fn apply_binary(op: BinaryOp, a: PartialValueV, b: PartialValueV, entities: EntitiesV)
    -> Outcome {
    match (a, b) {
        (PartialValueV::Value(x), PartialValueV::Value(y)) => apply_binary_values(
            op,
            x,
            y,
            entities,
        ),
        _ => Ok(
            PartialValueV::Residual(ExprV::Binary(op, Box::new(to_expr(a)), Box::new(to_expr(b)))),
        ),
    }
}

/// The names of the attributes of a record, in ascending order.
pub open spec fn sorted_names(fs: Seq<(Seq<char>, ValueV)>) -> Seq<Seq<char>> {
    sorted_strings(attr_names(fs))
}

/// What reading the attribute `attr` yields for an evaluated argument.
pub open spec fn apply_get_attr(arg: PartialValueV, attr: Seq<char>, entities: EntitiesV)
    -> Outcome {
    match arg {
        PartialValueV::Residual(r) => Ok(PartialValueV::Residual(ExprV::GetAttr(Box::new(r), attr))),
        PartialValueV::Value(v) => match v {
            ValueV::Record(fs) => match attr_of(fs, attr) {
                Some(x) => Ok(PartialValueV::Value(x)),
                None => Err(
                    plain_error(
                        EvaluationErrorKindV::RecordAttrDoesNotExist(attr, sorted_names(fs)),
                    ),
                ),
            },
            ValueV::EntityUid(u) => if !(u.ty is Unspecified) && entities.is_residual(u) {
                Ok(PartialValueV::Residual(ExprV::GetAttr(Box::new(ExprV::Val(v)), attr)))
            } else {
                match entities.attr(u, attr) {
                    Ok(x) => Ok(PartialValueV::Value(x)),
                    Err(e) => Err(e),
                }
            },
            _ => Err(type_error(seq![TypeV::Record, any_entity_type()], type_of(v))),
        },
    }
}

/// What `has attr` yields for an evaluated argument.
pub open spec fn apply_has_attr(arg: PartialValueV, attr: Seq<char>, entities: EntitiesV)
    -> Outcome {
    match arg {
        PartialValueV::Residual(r) => Ok(PartialValueV::Residual(ExprV::HasAttr(Box::new(r), attr))),
        PartialValueV::Value(v) => match v {
            ValueV::Record(fs) => ok_bool(attr_of(fs, attr) is Some),
            ValueV::EntityUid(u) => if u.ty is Unspecified {
                ok_bool(false)
            } else if entities.is_residual(u) {
                Ok(PartialValueV::Residual(ExprV::HasAttr(Box::new(ExprV::Val(v)), attr)))
            } else {
                match entities.get(u) {
                    Some(e) => ok_bool(attr_of(e.attrs, attr) is Some),
                    None => ok_bool(false),
                }
            },
            _ => Err(type_error(seq![TypeV::Record, any_entity_type()], type_of(v))),
        },
    }
}

/// What `like pattern` yields for an evaluated argument.
pub open spec fn apply_like(arg: PartialValueV, pattern: Seq<PatternElem>) -> Outcome {
    match arg {
        PartialValueV::Residual(r) => Ok(PartialValueV::Residual(ExprV::Like(Box::new(r), pattern))),
        PartialValueV::Value(v) => match v {
            ValueV::String(s) => ok_bool(wildcard_match(s, pattern)),
            _ => Err(type_error(seq![TypeV::String], type_of(v))),
        },
    }
}

/// What `is ty` yields for an evaluated argument.
pub open spec fn apply_is(arg: PartialValueV, ty: Seq<char>) -> Outcome {
    match arg {
        PartialValueV::Residual(r) => Ok(PartialValueV::Residual(ExprV::Is(Box::new(r), ty))),
        PartialValueV::Value(v) => match v {
            ValueV::EntityUid(u) => ok_bool(u.ty == EntityTypeV::Specified(ty)),
            _ => Err(type_error(seq![any_entity_type()], type_of(v))),
        },
    }
}

/// Whether none of the partial results at or after position `i` is a residual.
pub open spec fn all_values_from(pvs: Seq<PartialValueV>, i: int) -> bool
    decreases pvs.len() - i,
{
    if i < 0 || i >= pvs.len() {
        true
    } else {
        pvs[i] is Value && all_values_from(pvs, i + 1)
    }
}

/// The values of partial results of which none is a residual.
pub open spec fn values_of(pvs: Seq<PartialValueV>) -> Seq<ValueV> {
    Seq::new(pvs.len(), |i: int| pvs[i]->Value_0)
}

/// The expressions that stand for partial results.
pub open spec fn exprs_of(pvs: Seq<PartialValueV>) -> Seq<ExprV> {
    Seq::new(pvs.len(), |i: int| to_expr(pvs[i]))
}

/// The values of `vs` without those that equal an earlier one.
pub open spec fn dedup(vs: Seq<ValueV>) -> Seq<ValueV>
    decreases vs.len(),
{
    if vs.len() == 0 {
        Seq::empty()
    } else {
        let earlier = dedup(vs.drop_last());
        if seq_has(earlier, vs.last()) {
            earlier
        } else {
            earlier.push(vs.last())
        }
    }
}

/// What a set literal yields for its evaluated elements.
pub open spec fn make_set(pvs: Seq<PartialValueV>) -> PartialValueV {
    if all_values_from(pvs, 0) {
        PartialValueV::Value(ValueV::SetOf(dedup(values_of(pvs))))
    } else {
        PartialValueV::Residual(ExprV::SetOf(exprs_of(pvs)))
    }
}

/// Whether none of the evaluated fields at or after position `i` is a residual.
pub open spec fn all_field_values_from(pfs: Seq<(Seq<char>, PartialValueV)>, i: int) -> bool
    decreases pfs.len() - i,
{
    if i < 0 || i >= pfs.len() {
        true
    } else {
        pfs[i].1 is Value && all_field_values_from(pfs, i + 1)
    }
}

/// What a record literal yields for its evaluated fields.
pub open spec fn make_record(pfs: Seq<(Seq<char>, PartialValueV)>) -> PartialValueV {
    if all_field_values_from(pfs, 0) {
        PartialValueV::Value(
            ValueV::Record(Seq::new(pfs.len(), |i: int| (pfs[i].0, pfs[i].1->Value_0))),
        )
    } else {
        PartialValueV::Residual(
            ExprV::Record(Seq::new(pfs.len(), |i: int| (pfs[i].0, to_expr(pfs[i].1)))),
        )
    }
}

/// What a call of the extension function `op` under the name `name` yields
/// for its evaluated arguments.
pub open spec fn apply_call(name: Seq<char>, op: ExtOp, pvs: Seq<PartialValueV>) -> Outcome {
    if all_values_from(pvs, 0) {
        match ext_apply(op, values_of(pvs)) {
            Ok(v) => Ok(PartialValueV::Value(v)),
            Err(msg) => Err(
                plain_error(
                    EvaluationErrorKindV::FailedExtensionFunctionApplication {
                        extension_name: name,
                        msg,
                    },
                ),
            ),
        }
    } else {
        Ok(PartialValueV::Residual(ExprV::Call(name, exprs_of(pvs))))
    }
}

/// What the expression `e`, nested `level` deep, evaluates to. Operands are
/// evaluated from left to right and the first error ends the evaluation;
/// `&&`, `||` and `if` do not evaluate what the value of their first operand
/// makes irrelevant.
pub open spec fn eval(e: ExprV, env: EnvV, partial: bool, level: nat) -> Outcome
    decreases e, 0nat,
{
    if level > MAX_DEPTH {
        Err(plain_error(EvaluationErrorKindV::RecursionLimit))
    } else {
        match e {
            ExprV::Lit(l) => Ok(PartialValueV::Value(literal_value(l))),
            ExprV::Val(v) => Ok(PartialValueV::Value(v)),
            ExprV::Var(v) => Ok(eval_var(v, env.request, partial)),
            ExprV::Slot(s) => Err(plain_error(EvaluationErrorKindV::UnlinkedSlot(s))),
            ExprV::Unknown(n) => if partial {
                Ok(PartialValueV::Residual(ExprV::Unknown(n)))
            } else {
                Err(non_value_error(ExprV::Unknown(n)))
            },
            ExprV::If(c, t, f) => match eval(*c, env, partial, level + 1) {
                Err(err) => Err(err),
                Ok(PartialValueV::Residual(r)) => Ok(
                    PartialValueV::Residual(ExprV::If(Box::new(r), t, f)),
                ),
                Ok(PartialValueV::Value(ValueV::Bool(b))) => if b {
                    eval(*t, env, partial, level + 1)
                } else {
                    eval(*f, env, partial, level + 1)
                },
                Ok(PartialValueV::Value(v)) => Err(type_error(seq![TypeV::Bool], type_of(v))),
            },
            ExprV::And(a, b) => match eval(*a, env, partial, level + 1) {
                Err(err) => Err(err),
                Ok(PartialValueV::Residual(r)) => Ok(PartialValueV::Residual(ExprV::And(Box::new(r), b))),
                Ok(PartialValueV::Value(ValueV::Bool(x))) => if !x {
                    ok_bool(false)
                } else {
                    second_operand(eval(*b, env, partial, level + 1), true)
                },
                Ok(PartialValueV::Value(v)) => Err(type_error(seq![TypeV::Bool], type_of(v))),
            },
            ExprV::Or(a, b) => match eval(*a, env, partial, level + 1) {
                Err(err) => Err(err),
                Ok(PartialValueV::Residual(r)) => Ok(PartialValueV::Residual(ExprV::Or(Box::new(r), b))),
                Ok(PartialValueV::Value(ValueV::Bool(x))) => if x {
                    ok_bool(true)
                } else {
                    second_operand(eval(*b, env, partial, level + 1), false)
                },
                Ok(PartialValueV::Value(v)) => Err(type_error(seq![TypeV::Bool], type_of(v))),
            },
            ExprV::Unary(op, a) => match eval(*a, env, partial, level + 1) {
                Err(err) => Err(err),
                Ok(x) => apply_unary(op, x),
            },
            ExprV::Binary(op, a, b) => match eval(*a, env, partial, level + 1) {
                Err(err) => Err(err),
                Ok(x) => match eval(*b, env, partial, level + 1) {
                    Err(err) => Err(err),
                    Ok(y) => apply_binary(op, x, y, env.entities),
                },
            },
            ExprV::MulByConst(a, c) => match eval(*a, env, partial, level + 1) {
                Err(err) => Err(err),
                Ok(x) => apply_mul(x, c),
            },
            ExprV::Call(name, args) => match lookup_op(env.extensions, name) {
                None => Err(
                    plain_error(
                        EvaluationErrorKindV::FailedExtensionFunctionLookup(
                            ExtensionFunctionLookupErrorV::FuncDoesNotExist { name },
                        ),
                    ),
                ),
                Some(op) => if args.len() != op_arity(op) {
                    Err(
                        plain_error(
                            EvaluationErrorKindV::WrongNumArguments {
                                function_name: name,
                                expected: op_arity(op) as usize,
                                actual: args.len() as usize,
                            },
                        ),
                    )
                } else {
                    match eval_all(args, env, partial, level + 1) {
                        Err(err) => Err(err),
                        Ok(pvs) => apply_call(name, op, pvs),
                    }
                },
            },
            ExprV::GetAttr(a, attr) => match eval(*a, env, partial, level + 1) {
                Err(err) => Err(err),
                Ok(x) => apply_get_attr(x, attr, env.entities),
            },
            ExprV::HasAttr(a, attr) => match eval(*a, env, partial, level + 1) {
                Err(err) => Err(err),
                Ok(x) => apply_has_attr(x, attr, env.entities),
            },
            ExprV::Like(a, pattern) => match eval(*a, env, partial, level + 1) {
                Err(err) => Err(err),
                Ok(x) => apply_like(x, pattern),
            },
            ExprV::Is(a, ty) => match eval(*a, env, partial, level + 1) {
                Err(err) => Err(err),
                Ok(x) => apply_is(x, ty),
            },
            ExprV::SetOf(es) => match eval_all(es, env, partial, level + 1) {
                Err(err) => Err(err),
                Ok(pvs) => Ok(make_set(pvs)),
            },
            ExprV::Record(fs) => match eval_fields(fs, env, partial, level + 1) {
                Err(err) => Err(err),
                Ok(pfs) => Ok(make_record(pfs)),
            },
        }
    }
}

/// What `&&` or `||` yields once its first operand was `first` and did not
/// decide: the second operand, which must be a truth value.
pub open spec fn second_operand(second: Outcome, first: bool) -> Outcome {
    match second {
        Err(err) => Err(err),
        Ok(PartialValueV::Residual(r)) => Ok(
            PartialValueV::Residual(
                if first {
                    ExprV::And(Box::new(ExprV::Val(ValueV::Bool(true))), Box::new(r))
                } else {
                    ExprV::Or(Box::new(ExprV::Val(ValueV::Bool(false))), Box::new(r))
                },
            ),
        ),
        Ok(PartialValueV::Value(ValueV::Bool(y))) => ok_bool(y),
        Ok(PartialValueV::Value(v)) => Err(type_error(seq![TypeV::Bool], type_of(v))),
    }
}

/// What the expressions `es` evaluate to, from left to right: the first
/// error, or all their results.
pub open spec fn eval_all(es: Seq<ExprV>, env: EnvV, partial: bool, level: nat) -> Result<
    Seq<PartialValueV>,
    EvaluationErrorV,
>
    decreases es, 1nat,
{
    if es.len() == 0 {
        Ok(Seq::empty())
    } else {
        match eval_all(es.drop_last(), env, partial, level) {
            Err(err) => Err(err),
            Ok(pvs) => match eval(es.last(), env, partial, level) {
                Err(err) => Err(err),
                Ok(pv) => Ok(pvs.push(pv)),
            },
        }
    }
}

/// What the fields `fs` of a record literal evaluate to, from left to
/// right: the first error, or all their results.
pub open spec fn eval_fields(fs: Seq<(Seq<char>, ExprV)>, env: EnvV, partial: bool, level: nat)
    -> Result<Seq<(Seq<char>, PartialValueV)>, EvaluationErrorV>
    decreases fs, 1nat,
{
    if fs.len() == 0 {
        Ok(Seq::empty())
    } else {
        match eval_fields(fs.drop_last(), env, partial, level) {
            Err(err) => Err(err),
            Ok(pfs) => match eval(fs.last().1, env, partial, level) {
                Err(err) => Err(err),
                Ok(pv) => Ok(pfs.push((fs.last().0, pv))),
            },
        }
    }
}

/// What the evaluation of `e` yields when a value is asked for: a residual
/// is an error.
pub open spec fn interpret(e: ExprV, env: EnvV) -> Result<ValueV, EvaluationErrorV> {
    match eval(e, env, false, 1) {
        Err(err) => Err(err),
        Ok(PartialValueV::Value(v)) => Ok(v),
        Ok(PartialValueV::Residual(r)) => Err(non_value_error(r)),
    }
}

/// What the partial evaluation of `e` yields.
pub open spec fn partial_interpret(e: ExprV, env: EnvV) -> Outcome {
    eval(e, env, true, 1)
}

} // verus!
