//! The evaluator: computes what the semantics says an expression yields.
use vstd::prelude::*;
use crate::ast::{BinaryOp, Expr, PatternElem, UnaryOp, Var, clone_pattern, expr_view, exprs_view,
    expr_fields_view, lemma_call_view, lemma_record_expr_view, lemma_set_expr_view};
use crate::entities::Entities;
use crate::err::{EvaluationError, EvaluationErrorV, ExtensionFunctionLookupError,
    IntegerOverflowError};
use crate::extensions::{ExtOp, Extensions, apply, arity_of};
use crate::pattern::like;
use crate::request::Request;
use crate::semantics::{
    EnvV, MAX_DEPTH, Outcome, PartialValueV, all_field_values_from, all_values_from, any_held,
    apply_binary, apply_binary_values, apply_call, apply_get_attr, apply_has_attr, apply_in,
    apply_is, apply_like, apply_long_op, apply_mul, apply_unary, dedup, entity_in, eval, eval_all,
    eval_fields, eval_var, exprs_of, first_non_entity, in_any_from, make_record,
    make_set, request_entity, second_operand, to_expr, values_of,
};
use crate::sorting::sort_strings;
use crate::text::strings_view;
use crate::value::{
    EntityType, EntityUid, Type, Value, attr_names, each_held, fields_view,
    find_attr, holds, lemma_record_view, lemma_set_view, type_of, values_view,
};

verus! {

/// The result of a partial evaluation.
#[derive(Debug, PartialEq, Eq)]
pub enum PartialValue {
    /// The expression has this value.
    Value(Value),
    /// What is left of the expression, with its unknowns.
    Residual(Expr),
}

impl View for PartialValue {
    type V = PartialValueV;

    open spec fn view(&self) -> PartialValueV {
        match self {
            PartialValue::Value(v) => PartialValueV::Value(v@),
            PartialValue::Residual(r) => PartialValueV::Residual(r@),
        }
    }
}

impl PartialValue {
    /// The expression that stands for this partial result.
    pub fn to_expr(&self) -> (r: Expr)
        ensures
            r@ == to_expr(self@),
    {
        match self {
            PartialValue::Value(v) => Expr::Val(v.clone()),
            PartialValue::Residual(r) => r.clone(),
        }
    }
}

/// The model of the outcome of an evaluation.
pub open spec fn outcome_view(r: Result<PartialValue, EvaluationError>) -> Outcome {
    match r {
        Ok(pv) => Ok(pv@),
        Err(e) => Err(e@),
    }
}

/// The models of a vector of partial results, in order.
pub open spec fn partials_view(s: Seq<PartialValue>) -> Seq<PartialValueV> {
    Seq::new(s.len(), |i: int| s[i]@)
}

/// The models of a vector of evaluated fields, in order.
pub open spec fn partial_fields_view(s: Seq<(String, PartialValue)>) -> Seq<
    (Seq<char>, PartialValueV),
> {
    Seq::new(s.len(), |i: int| (s[i].0@, s[i].1@))
}

fn type_error_one(expected: Type, v: &Value) -> (r: EvaluationError)
    ensures
        r@ == crate::err::type_error(seq![expected@], type_of(v@)),
{
    EvaluationError::type_error_single(expected, v.type_of())
}

fn ok_bool(b: bool) -> (r: Result<PartialValue, EvaluationError>)
    ensures
        outcome_view(r) == crate::semantics::ok_bool(b),
{
    Ok(PartialValue::Value(Value::Bool(b)))
}

/// What a unary operator yields for an evaluated argument.
pub fn unary(op: UnaryOp, arg: PartialValue) -> (r: Result<PartialValue, EvaluationError>)
    ensures
        outcome_view(r) == apply_unary(op, arg@),
{
    match arg {
        PartialValue::Residual(r) => Ok(PartialValue::Residual(Expr::Unary(op, Box::new(r)))),
        PartialValue::Value(v) => match op {
            UnaryOp::Not => match v {
                Value::Bool(b) => ok_bool(!b),
                _ => Err(type_error_one(Type::Bool, &v)),
            },
            UnaryOp::Neg => match v {
                Value::Long(i) => {
                    if i == i64::MIN {
                        Err(
                            EvaluationError::from_overflow(
                                IntegerOverflowError::UnaryOp { op, arg: Value::Long(i) },
                            ),
                        )
                    } else {
                        Ok(PartialValue::Value(Value::Long(-i)))
                    }
                },
                _ => Err(type_error_one(Type::Long, &v)),
            },
        },
    }
}

/// What multiplication by a constant yields for an evaluated argument.
pub fn mul_by_const(arg: PartialValue, constant: i64) -> (r: Result<PartialValue, EvaluationError>)
    ensures
        outcome_view(r) == apply_mul(arg@, constant),
{
    match arg {
        PartialValue::Residual(r) => Ok(
            PartialValue::Residual(Expr::MulByConst(Box::new(r), constant)),
        ),
        PartialValue::Value(v) => match v {
            Value::Long(i) => {
                assert(-0x4000_0000_0000_0000_0000_0000_0000_0000 <= i * constant
                    <= 0x4000_0000_0000_0000_0000_0000_0000_0000) by (nonlinear_arith)
                    requires
                        -0x8000_0000_0000_0000 <= i <= 0x8000_0000_0000_0000,
                        -0x8000_0000_0000_0000 <= constant <= 0x8000_0000_0000_0000,
                ;
                let wide: i128 = (i as i128) * (constant as i128);
                if wide < -9223372036854775808 || wide > 9223372036854775807 {
                    Err(
                        EvaluationError::from_overflow(
                            IntegerOverflowError::Multiplication { arg: Value::Long(i), constant },
                        ),
                    )
                } else {
                    Ok(PartialValue::Value(Value::Long(wide as i64)))
                }
            },
            _ => Err(type_error_one(Type::Long, &v)),
        },
    }
}

fn long_op(op: BinaryOp, a: Value, b: Value) -> (r: Result<PartialValue, EvaluationError>)
    requires
        op == BinaryOp::Less || op == BinaryOp::LessEq || op == BinaryOp::Greater || op
            == BinaryOp::GreaterEq || op == BinaryOp::Add || op == BinaryOp::Sub,
    ensures
        outcome_view(r) == apply_long_op(op, a@, b@),
{
    match (&a, &b) {
        (Value::Long(x), Value::Long(y)) => {
            let x: i64 = *x;
            let y: i64 = *y;
            match op {
                BinaryOp::Less => ok_bool(x < y),
                BinaryOp::LessEq => ok_bool(x <= y),
                BinaryOp::Greater => ok_bool(x > y),
                BinaryOp::GreaterEq => ok_bool(x >= y),
                BinaryOp::Add => {
                    let wide: i128 = (x as i128) + (y as i128);
                    if wide < -9223372036854775808 || wide > 9223372036854775807 {
                        Err(
                            EvaluationError::from_overflow(
                                IntegerOverflowError::BinaryOp { op, arg1: a, arg2: b },
                            ),
                        )
                    } else {
                        Ok(PartialValue::Value(Value::Long(wide as i64)))
                    }
                },
                _ => {
                    let wide: i128 = (x as i128) - (y as i128);
                    if wide < -9223372036854775808 || wide > 9223372036854775807 {
                        Err(
                            EvaluationError::from_overflow(
                                IntegerOverflowError::BinaryOp { op, arg1: a, arg2: b },
                            ),
                        )
                    } else {
                        Ok(PartialValue::Value(Value::Long(wide as i64)))
                    }
                },
            }
        },
        (Value::Long(_), _) => Err(type_error_one(Type::Long, &b)),
        _ => Err(type_error_one(Type::Long, &a)),
    }
}

fn find_non_entity(vs: &Vec<Value>) -> (r: Option<&Value>)
    ensures
        r is Some <==> first_non_entity(values_view(vs@), 0) is Some,
        r is Some ==> r->0@ == first_non_entity(values_view(vs@), 0)->0,
{
    let ghost vv = values_view(vs@);
    let mut i: usize = 0;
    while i < vs.len()
        invariant
            i <= vs.len(),
            vv == values_view(vs@),
            first_non_entity(vv, 0) == first_non_entity(vv, i as int),
        decreases vs.len() - i,
    {
        assert(vv[i as int] == vs[i as int]@);
        match &vs[i] {
            Value::EntityUid(_) => {},
            _ => {
                return Some(&vs[i]);
            },
        }
        i += 1;
    }
    None
}

fn is_in_entity(entities: &Entities, u: &EntityUid, target: &EntityUid) -> (r: bool)
    ensures
        r == entity_in(entities@, u@, target@),
{
    u.same_as(target) || entities.is_ancestor_of(target, u)
}

fn is_in_any(entities: &Entities, u: &EntityUid, vs: &Vec<Value>) -> (r: bool)
    ensures
        r == in_any_from(entities@, u@, values_view(vs@), 0),
{
    let ghost vv = values_view(vs@);
    let mut i: usize = 0;
    while i < vs.len()
        invariant
            i <= vs.len(),
            vv == values_view(vs@),
            in_any_from(entities@, u@, vv, 0) == in_any_from(entities@, u@, vv, i as int),
        decreases vs.len() - i,
    {
        assert(vv[i as int] == vs[i as int]@);
        match &vs[i] {
            Value::EntityUid(target) => {
                if is_in_entity(entities, u, target) {
                    return true;
                }
            },
            _ => {},
        }
        i += 1;
    }
    false
}

fn residual_in(a: Value, b: Value) -> (r: Result<PartialValue, EvaluationError>)
    ensures
        outcome_view(r) == Ok::<PartialValueV, EvaluationErrorV>(
            PartialValueV::Residual(
                crate::ast::ExprV::Binary(
                    BinaryOp::In,
                    Box::new(crate::ast::ExprV::Val(a@)),
                    Box::new(crate::ast::ExprV::Val(b@)),
                ),
            ),
        ),
{
    proof {
        reveal_with_fuel(expr_view, 2);
    }
    Ok(
        PartialValue::Residual(
            Expr::Binary(BinaryOp::In, Box::new(Expr::Val(a)), Box::new(Expr::Val(b))),
        ),
    )
}

fn op_in(a: Value, b: Value, entities: &Entities) -> (r: Result<PartialValue, EvaluationError>)
    ensures
        outcome_view(r) == apply_in(a@, b@, entities@),
{
    match &a {
        Value::EntityUid(u) => match &b {
            Value::EntityUid(target) => {
                if entities.is_residual(u) {
                    residual_in(a, b)
                } else {
                    ok_bool(is_in_entity(entities, u, target))
                }
            },
            Value::SetOf(vs) => {
                proof {
                    lemma_set_view(*vs);
                }
                match find_non_entity(vs) {
                    Some(v) => Err(type_error_one(Type::any_entity(), v)),
                    None => {
                        if entities.is_residual(u) {
                            residual_in(a, b)
                        } else {
                            ok_bool(is_in_any(entities, u, vs))
                        }
                    },
                }
            },
            _ => Err(
                EvaluationError::type_error_pair(Type::SetOf, Type::any_entity(), b.type_of()),
            ),
        },
        _ => Err(type_error_one(Type::any_entity(), &a)),
    }
}

fn contains_any(xs: &Vec<Value>, ys: &Vec<Value>) -> (r: bool)
    ensures
        r == any_held(values_view(xs@), values_view(ys@)),
{
    let ghost xv = values_view(xs@);
    let ghost yv = values_view(ys@);
    let mut j: usize = ys.len();
    assert(yv.take(j as int) =~= yv);
    while j > 0
        invariant
            j <= ys.len(),
            xv == values_view(xs@),
            yv == values_view(ys@),
            any_held(xv, yv) == any_held(xv, yv.take(j as int)),
        decreases j,
    {
        proof {
            assert(yv.take(j as int).drop_last() =~= yv.take(j - 1));
            assert(yv.take(j as int).last() == ys[j - 1]@);
        }
        if holds(xs, &ys[j - 1]) {
            return true;
        }
        j -= 1;
    }
    false
}

/// What a binary operator yields for two values.
pub fn binary_values(op: BinaryOp, a: Value, b: Value, entities: &Entities) -> (r: Result<
    PartialValue,
    EvaluationError,
>)
    ensures
        outcome_view(r) == apply_binary_values(op, a@, b@, entities@),
{
    match op {
        BinaryOp::Eq => ok_bool(a.equals(&b)),
        BinaryOp::NotEq => ok_bool(!a.equals(&b)),
        BinaryOp::In => op_in(a, b, entities),
        BinaryOp::Contains => match &a {
            Value::SetOf(xs) => {
                proof {
                    lemma_set_view(*xs);
                }
                ok_bool(holds(xs, &b))
            },
            _ => Err(type_error_one(Type::SetOf, &a)),
        },
        BinaryOp::ContainsAll => match (&a, &b) {
            (Value::SetOf(xs), Value::SetOf(ys)) => {
                proof {
                    lemma_set_view(*xs);
                    lemma_set_view(*ys);
                }
                ok_bool(each_held(xs, ys))
            },
            (Value::SetOf(_), _) => Err(type_error_one(Type::SetOf, &b)),
            _ => Err(type_error_one(Type::SetOf, &a)),
        },
        BinaryOp::ContainsAny => match (&a, &b) {
            (Value::SetOf(xs), Value::SetOf(ys)) => {
                proof {
                    lemma_set_view(*xs);
                    lemma_set_view(*ys);
                }
                ok_bool(contains_any(xs, ys))
            },
            (Value::SetOf(_), _) => Err(type_error_one(Type::SetOf, &b)),
            _ => Err(type_error_one(Type::SetOf, &a)),
        },
        _ => long_op(op, a, b),
    }
}

/// What a binary operator yields for two evaluated arguments.
pub fn binary(op: BinaryOp, a: PartialValue, b: PartialValue, entities: &Entities) -> (r: Result<
    PartialValue,
    EvaluationError,
>)
    ensures
        outcome_view(r) == apply_binary(op, a@, b@, entities@),
{
    match (a, b) {
        (PartialValue::Value(x), PartialValue::Value(y)) => binary_values(op, x, y, entities),
        (a, b) => {
            let left = a.to_expr();
            let right = b.to_expr();
            Ok(PartialValue::Residual(Expr::Binary(op, Box::new(left), Box::new(right))))
        },
    }
}

fn attr_name_list(fs: &Vec<(String, Value)>) -> (r: Vec<String>)
    ensures
        strings_view(r@) == attr_names(fields_view(fs@)),
{
    let mut out: Vec<String> = Vec::new();
    let mut i: usize = 0;
    while i < fs.len()
        invariant
            i <= fs.len(),
            out.len() == i,
            forall|k: int| 0 <= k < i ==> out[k]@ == fs[k].0@,
        decreases fs.len() - i,
    {
        out.push(fs[i].0.clone());
        i += 1;
    }
    assert(strings_view(out@) =~= attr_names(fields_view(fs@)));
    out
}

/// What reading the attribute `attr` yields for an evaluated argument.
pub fn get_attr(arg: PartialValue, attr: &String, entities: &Entities) -> (r: Result<
    PartialValue,
    EvaluationError,
>)
    ensures
        outcome_view(r) == apply_get_attr(arg@, attr@, entities@),
{
    proof {
        reveal_with_fuel(expr_view, 2);
    }
    match arg {
        PartialValue::Residual(r) => Ok(
            PartialValue::Residual(Expr::GetAttr(Box::new(r), attr.clone())),
        ),
        PartialValue::Value(v) => match &v {
            Value::Record(fs) => {
                proof {
                    lemma_record_view(*fs);
                }
                match find_attr(fs, attr) {
                    Some(x) => Ok(PartialValue::Value(x.clone())),
                    None => {
                        let names = attr_name_list(fs);
                        Err(
                            EvaluationError::record_attr_does_not_exist(
                                attr.clone(),
                                sort_strings(&names),
                            ),
                        )
                    },
                }
            },
            Value::EntityUid(u) => {
                if !u.is_unspecified() && entities.is_residual(u) {
                    Ok(
                        PartialValue::Residual(
                            Expr::GetAttr(Box::new(Expr::Val(v.clone())), attr.clone()),
                        ),
                    )
                } else {
                    match entities.attr(u, attr) {
                        Ok(x) => Ok(PartialValue::Value(x.clone())),
                        Err(e) => Err(e),
                    }
                }
            },
            _ => Err(EvaluationError::type_error_pair(Type::Record, Type::any_entity(), v.type_of())),
        },
    }
}

/// What `has attr` yields for an evaluated argument.
pub fn has_attr(arg: PartialValue, attr: &String, entities: &Entities) -> (r: Result<
    PartialValue,
    EvaluationError,
>)
    ensures
        outcome_view(r) == apply_has_attr(arg@, attr@, entities@),
{
    proof {
        reveal_with_fuel(expr_view, 2);
    }
    match arg {
        PartialValue::Residual(r) => Ok(
            PartialValue::Residual(Expr::HasAttr(Box::new(r), attr.clone())),
        ),
        PartialValue::Value(v) => match &v {
            Value::Record(fs) => {
                proof {
                    lemma_record_view(*fs);
                }
                ok_bool(find_attr(fs, attr).is_some())
            },
            Value::EntityUid(u) => {
                if u.is_unspecified() {
                    ok_bool(false)
                } else if entities.is_residual(u) {
                    Ok(
                        PartialValue::Residual(
                            Expr::HasAttr(Box::new(Expr::Val(v.clone())), attr.clone()),
                        ),
                    )
                } else {
                    match entities.get(u) {
                        Some(e) => ok_bool(e.get(attr).is_some()),
                        None => ok_bool(false),
                    }
                }
            },
            _ => Err(EvaluationError::type_error_pair(Type::Record, Type::any_entity(), v.type_of())),
        },
    }
}

/// What `like pattern` yields for an evaluated argument.
pub fn like_pattern(arg: PartialValue, pattern: &Vec<PatternElem>) -> (r: Result<
    PartialValue,
    EvaluationError,
>)
    ensures
        outcome_view(r) == apply_like(arg@, pattern@),
{
    match arg {
        PartialValue::Residual(r) => Ok(
            PartialValue::Residual(Expr::Like(Box::new(r), clone_pattern(pattern))),
        ),
        PartialValue::Value(v) => match &v {
            Value::String(s) => ok_bool(like(s.as_str(), pattern)),
            _ => Err(type_error_one(Type::String, &v)),
        },
    }
}

/// What `is ty` yields for an evaluated argument.
pub fn is_type(arg: PartialValue, ty: &String) -> (r: Result<PartialValue, EvaluationError>)
    ensures
        outcome_view(r) == apply_is(arg@, ty@),
{
    match arg {
        PartialValue::Residual(r) => Ok(PartialValue::Residual(Expr::Is(Box::new(r), ty.clone()))),
        PartialValue::Value(v) => match &v {
            Value::EntityUid(u) => match &u.ty {
                EntityType::Specified(n) => ok_bool(crate::text::same_text(n, ty)),
                EntityType::Unspecified => ok_bool(false),
            },
            _ => Err(type_error_one(Type::any_entity(), &v)),
        },
    }
}

fn all_values(pvs: &Vec<PartialValue>) -> (r: bool)
    ensures
        r == all_values_from(partials_view(pvs@), 0),
{
    let ghost pv = partials_view(pvs@);
    let mut i: usize = 0;
    while i < pvs.len()
        invariant
            i <= pvs.len(),
            pv == partials_view(pvs@),
            all_values_from(pv, 0) == all_values_from(pv, i as int),
        decreases pvs.len() - i,
    {
        assert(pv[i as int] == pvs[i as int]@);
        match &pvs[i] {
            PartialValue::Residual(_) => {
                return false;
            },
            _ => {},
        }
        i += 1;
    }
    true
}

/// Where no result from position `i` on is a residual, the one at `k` is a value.
pub proof fn lemma_all_values(pvs: Seq<PartialValueV>, i: int, k: int)
    requires
        0 <= i <= k < pvs.len(),
        all_values_from(pvs, i),
    ensures
        pvs[k] is Value,
    decreases k - i,
{
    if i < k {
        lemma_all_values(pvs, i + 1, k);
    }
}

fn values_from(pvs: &Vec<PartialValue>) -> (r: Vec<Value>)
    requires
        all_values_from(partials_view(pvs@), 0),
    ensures
        values_view(r@) == values_of(partials_view(pvs@)),
{
    let ghost pv = partials_view(pvs@);
    let mut out: Vec<Value> = Vec::new();
    let mut i: usize = 0;
    while i < pvs.len()
        invariant
            i <= pvs.len(),
            pv == partials_view(pvs@),
            all_values_from(pv, 0),
            out.len() == i,
            forall|k: int| 0 <= k < i ==> out[k]@ == pv[k]->Value_0,
        decreases pvs.len() - i,
    {
        proof {
            lemma_all_values(pv, 0, i as int);
            assert(pv[i as int] == pvs[i as int]@);
        }
        match &pvs[i] {
            PartialValue::Value(v) => {
                out.push(v.clone());
            },
            PartialValue::Residual(_) => {
                assert(false);
            },
        }
        i += 1;
    }
    assert(values_view(out@) =~= values_of(pv));
    out
}

fn exprs_from(pvs: &Vec<PartialValue>) -> (r: Vec<Expr>)
    ensures
        exprs_view(r@) == exprs_of(partials_view(pvs@)),
{
    let ghost pv = partials_view(pvs@);
    let mut out: Vec<Expr> = Vec::new();
    let mut i: usize = 0;
    while i < pvs.len()
        invariant
            i <= pvs.len(),
            pv == partials_view(pvs@),
            out.len() == i,
            forall|k: int| 0 <= k < i ==> out[k]@ == to_expr(pv[k]),
        decreases pvs.len() - i,
    {
        assert(pv[i as int] == pvs[i as int]@);
        out.push(pvs[i].to_expr());
        i += 1;
    }
    assert(exprs_view(out@) =~= exprs_of(pv));
    out
}

/// The values of `vs` without those that equal an earlier one.
pub fn dedup_values(vs: &Vec<Value>) -> (r: Vec<Value>)
    ensures
        values_view(r@) == dedup(values_view(vs@)),
{
    let ghost vv = values_view(vs@);
    let mut out: Vec<Value> = Vec::new();
    let mut i: usize = 0;
    assert(values_view(out@) =~= dedup(vv.take(0)));
    while i < vs.len()
        invariant
            i <= vs.len(),
            vv == values_view(vs@),
            values_view(out@) == dedup(vv.take(i as int)),
        decreases vs.len() - i,
    {
        proof {
            assert(vv.take(i + 1).drop_last() =~= vv.take(i as int));
            assert(vv.take(i + 1).last() == vs[i as int]@);
        }
        if !holds(&out, &vs[i]) {
            let ghost before = values_view(out@);
            out.push(vs[i].clone());
            assert(values_view(out@) =~= before.push(vs[i as int]@));
        }
        i += 1;
    }
    assert(vv.take(i as int) =~= vv);
    out
}

/// What a set literal yields for its evaluated elements.
pub fn set_of(pvs: &Vec<PartialValue>) -> (r: PartialValue)
    ensures
        r@ == make_set(partials_view(pvs@)),
{
    if all_values(pvs) {
        let vs = values_from(pvs);
        let out = dedup_values(&vs);
        proof {
            lemma_set_view(out);
        }
        PartialValue::Value(Value::SetOf(out))
    } else {
        let es = exprs_from(pvs);
        proof {
            lemma_set_expr_view(es);
        }
        PartialValue::Residual(Expr::SetOf(es))
    }
}

fn all_field_values(pfs: &Vec<(String, PartialValue)>) -> (r: bool)
    ensures
        r == all_field_values_from(partial_fields_view(pfs@), 0),
{
    let ghost pv = partial_fields_view(pfs@);
    let mut i: usize = 0;
    while i < pfs.len()
        invariant
            i <= pfs.len(),
            pv == partial_fields_view(pfs@),
            all_field_values_from(pv, 0) == all_field_values_from(pv, i as int),
        decreases pfs.len() - i,
    {
        assert(pv[i as int] == (pfs[i as int].0@, pfs[i as int].1@));
        match &pfs[i].1 {
            PartialValue::Residual(_) => {
                return false;
            },
            _ => {},
        }
        i += 1;
    }
    true
}

/// Where no field from position `i` on is a residual, the one at `k` is a value.
pub proof fn lemma_all_field_values(pfs: Seq<(Seq<char>, PartialValueV)>, i: int, k: int)
    requires
        0 <= i <= k < pfs.len(),
        all_field_values_from(pfs, i),
    ensures
        pfs[k].1 is Value,
    decreases k - i,
{
    if i < k {
        lemma_all_field_values(pfs, i + 1, k);
    }
}

/// What a record literal yields for its evaluated fields.
pub fn record_of(pfs: &Vec<(String, PartialValue)>) -> (r: PartialValue)
    ensures
        r@ == make_record(partial_fields_view(pfs@)),
{
    let ghost pv = partial_fields_view(pfs@);
    if all_field_values(pfs) {
        let mut out: Vec<(String, Value)> = Vec::new();
        let mut i: usize = 0;
        while i < pfs.len()
            invariant
                i <= pfs.len(),
                pv == partial_fields_view(pfs@),
                all_field_values_from(pv, 0),
                out.len() == i,
                forall|k: int| 0 <= k < i ==> out[k].0@ == pv[k].0 && out[k].1@ == pv[k].1->Value_0,
            decreases pfs.len() - i,
        {
            proof {
                lemma_all_field_values(pv, 0, i as int);
                assert(pv[i as int] == (pfs[i as int].0@, pfs[i as int].1@));
            }
            match &pfs[i].1 {
                PartialValue::Value(v) => {
                    out.push((pfs[i].0.clone(), v.clone()));
                },
                PartialValue::Residual(_) => {
                    assert(false);
                },
            }
            i += 1;
        }
        proof {
            lemma_record_view(out);
            assert(fields_view(out@) =~= Seq::new(pv.len(), |i: int| (pv[i].0, pv[i].1->Value_0)));
        }
        PartialValue::Value(Value::Record(out))
    } else {
        let mut out: Vec<(String, Expr)> = Vec::new();
        let mut i: usize = 0;
        while i < pfs.len()
            invariant
                i <= pfs.len(),
                pv == partial_fields_view(pfs@),
                out.len() == i,
                forall|k: int| 0 <= k < i ==> out[k].0@ == pv[k].0 && out[k].1@ == to_expr(pv[k].1),
            decreases pfs.len() - i,
        {
            assert(pv[i as int] == (pfs[i as int].0@, pfs[i as int].1@));
            out.push((pfs[i].0.clone(), pfs[i].1.to_expr()));
            i += 1;
        }
        proof {
            lemma_record_expr_view(out);
            assert(expr_fields_view(out@) =~= Seq::new(
                pv.len(),
                |i: int| (pv[i].0, to_expr(pv[i].1)),
            ));
        }
        PartialValue::Residual(Expr::Record(out))
    }
}

/// What a call of the extension function `op` under the name `name` yields
/// for its evaluated arguments.
pub fn call(name: &String, op: ExtOp, pvs: &Vec<PartialValue>) -> (r: Result<
    PartialValue,
    EvaluationError,
>)
    ensures
        outcome_view(r) == apply_call(name@, op, partials_view(pvs@)),
{
    if all_values(pvs) {
        let args = values_from(pvs);
        match apply(op, &args) {
            Ok(v) => Ok(PartialValue::Value(v)),
            Err(msg) => Err(
                EvaluationError::failed_extension_function_application(name.clone(), msg),
            ),
        }
    } else {
        let es = exprs_from(pvs);
        let n = name.clone();
        proof {
            lemma_call_view(n, es);
        }
        Ok(PartialValue::Residual(Expr::Call(n, es)))
    }
}

/// Once a prefix of the expressions has failed, the whole has failed alike.
pub proof fn lemma_eval_all_prefix_err(
    es: Seq<crate::ast::ExprV>,
    n: int,
    env: EnvV,
    partial: bool,
    level: nat,
)
    requires
        0 <= n <= es.len(),
        eval_all(es.take(n), env, partial, level) is Err,
    ensures
        eval_all(es, env, partial, level) == eval_all(es.take(n), env, partial, level),
    decreases es.len() - n,
{
    if n < es.len() {
        assert(es.take(n + 1).drop_last() =~= es.take(n));
        lemma_eval_all_prefix_err(es, n + 1, env, partial, level);
    } else {
        assert(es.take(n) =~= es);
    }
}

/// Once a prefix of the fields has failed, the whole has failed alike.
pub proof fn lemma_eval_fields_prefix_err(
    fs: Seq<(Seq<char>, crate::ast::ExprV)>,
    n: int,
    env: EnvV,
    partial: bool,
    level: nat,
)
    requires
        0 <= n <= fs.len(),
        eval_fields(fs.take(n), env, partial, level) is Err,
    ensures
        eval_fields(fs, env, partial, level) == eval_fields(fs.take(n), env, partial, level),
    decreases fs.len() - n,
{
    if n < fs.len() {
        assert(fs.take(n + 1).drop_last() =~= fs.take(n));
        lemma_eval_fields_prefix_err(fs, n + 1, env, partial, level);
    } else {
        assert(fs.take(n) =~= fs);
    }
}

/// Evaluates expressions against a request, an entity store and a registry
/// of extension functions.
pub struct Evaluator<'a> {
    request: &'a Request,
    entities: &'a Entities,
    extensions: &'a Extensions,
}

impl<'a> View for Evaluator<'a> {
    type V = EnvV;

    closed spec fn view(&self) -> EnvV {
        EnvV {
            request: self.request@,
            entities: self.entities@,
            extensions: self.extensions@,
        }
    }
}

fn request_component(u: &Option<EntityUid>, name: &str, partial: bool) -> (r: PartialValue)
    ensures
        r@ == request_entity(crate::request::opt_uid_view(*u), name@, partial),
{
    match u {
        Some(u) => PartialValue::Value(Value::EntityUid(u.clone())),
        None => {
            if partial {
                PartialValue::Residual(Expr::Unknown(String::from_str(name)))
            } else {
                PartialValue::Value(Value::EntityUid(EntityUid::unspecified(name)))
            }
        },
    }
}

impl<'a> Evaluator<'a> {
    /// The evaluator for the given request, entity store and extension functions.
    pub fn new(request: &'a Request, entities: &'a Entities, extensions: &'a Extensions) -> (r:
        Self)
        ensures
            r@ == (EnvV { request: request@, entities: entities@, extensions: extensions@ }),
    {
        Evaluator { request, entities, extensions }
    }

    fn var(&self, v: Var, partial: bool) -> (r: PartialValue)
        ensures
            r@ == eval_var(v, self@.request, partial),
    {
        match v {
            Var::Principal => request_component(self.request.principal(), "principal", partial),
            Var::Action => request_component(self.request.action(), "action", partial),
            Var::Resource => request_component(self.request.resource(), "resource", partial),
            Var::Context => PartialValue::Value(self.request.context().to_value()),
        }
    }

    fn eval(&self, e: &Expr, partial: bool, level: usize) -> (r: Result<
        PartialValue,
        EvaluationError,
    >)
        ensures
            outcome_view(r) == eval(e@, self@, partial, level as nat),
        decreases e, 0nat,
    {
        if level > MAX_DEPTH {
            return Err(EvaluationError::recursion_limit());
        }
        match e {
            Expr::Lit(l) => Ok(PartialValue::Value(l.to_value())),
            Expr::Val(v) => Ok(PartialValue::Value(v.clone())),
            Expr::Var(v) => Ok(self.var(*v, partial)),
            Expr::Slot(s) => Err(EvaluationError::unlinked_slot(*s)),
            Expr::Unknown(n) => {
                if partial {
                    Ok(PartialValue::Residual(Expr::Unknown(n.clone())))
                } else {
                    Err(EvaluationError::non_value(Expr::Unknown(n.clone())))
                }
            },
            Expr::If(c, t, f) => match self.eval(&**c, partial, level + 1) {
                Err(err) => Err(err),
                Ok(PartialValue::Residual(r)) => Ok(
                    PartialValue::Residual(
                        Expr::If(Box::new(r), Box::new((**t).clone()), Box::new((**f).clone())),
                    ),
                ),
                Ok(PartialValue::Value(Value::Bool(b))) => {
                    if b {
                        self.eval(&**t, partial, level + 1)
                    } else {
                        self.eval(&**f, partial, level + 1)
                    }
                },
                Ok(PartialValue::Value(v)) => Err(type_error_one(Type::Bool, &v)),
            },
            Expr::And(a, b) => match self.eval(&**a, partial, level + 1) {
                Err(err) => Err(err),
                Ok(PartialValue::Residual(r)) => Ok(
                    PartialValue::Residual(Expr::And(Box::new(r), Box::new((**b).clone()))),
                ),
                Ok(PartialValue::Value(Value::Bool(x))) => {
                    if !x {
                        ok_bool(false)
                    } else {
                        let second = self.eval(&**b, partial, level + 1);
                        second_of(second, true)
                    }
                },
                Ok(PartialValue::Value(v)) => Err(type_error_one(Type::Bool, &v)),
            },
            Expr::Or(a, b) => match self.eval(&**a, partial, level + 1) {
                Err(err) => Err(err),
                Ok(PartialValue::Residual(r)) => Ok(
                    PartialValue::Residual(Expr::Or(Box::new(r), Box::new((**b).clone()))),
                ),
                Ok(PartialValue::Value(Value::Bool(x))) => {
                    if x {
                        ok_bool(true)
                    } else {
                        let second = self.eval(&**b, partial, level + 1);
                        second_of(second, false)
                    }
                },
                Ok(PartialValue::Value(v)) => Err(type_error_one(Type::Bool, &v)),
            },
            Expr::Unary(op, a) => match self.eval(&**a, partial, level + 1) {
                Err(err) => Err(err),
                Ok(x) => unary(*op, x),
            },
            Expr::Binary(op, a, b) => match self.eval(&**a, partial, level + 1) {
                Err(err) => Err(err),
                Ok(x) => match self.eval(&**b, partial, level + 1) {
                    Err(err) => Err(err),
                    Ok(y) => binary(*op, x, y, self.entities),
                },
            },
            Expr::MulByConst(a, c) => match self.eval(&**a, partial, level + 1) {
                Err(err) => Err(err),
                Ok(x) => mul_by_const(x, *c),
            },
            Expr::Call(name, args) => {
                proof {
                    lemma_call_view(*name, *args);
                }
                match self.extensions.lookup(name) {
                    None => Err(
                        EvaluationError::from_lookup_error(
                            ExtensionFunctionLookupError::FuncDoesNotExist { name: name.clone() },
                        ),
                    ),
                    Some(op) => {
                        if args.len() != arity_of(op) {
                            Err(
                                EvaluationError::wrong_num_arguments(
                                    name.clone(),
                                    arity_of(op),
                                    args.len(),
                                ),
                            )
                        } else {
                            match self.eval_all(args, partial, level + 1) {
                                Err(err) => Err(err),
                                Ok(pvs) => call(name, op, &pvs),
                            }
                        }
                    },
                }
            },
            Expr::GetAttr(a, attr) => match self.eval(&**a, partial, level + 1) {
                Err(err) => Err(err),
                Ok(x) => get_attr(x, attr, self.entities),
            },
            Expr::HasAttr(a, attr) => match self.eval(&**a, partial, level + 1) {
                Err(err) => Err(err),
                Ok(x) => has_attr(x, attr, self.entities),
            },
            Expr::Like(a, pattern) => match self.eval(&**a, partial, level + 1) {
                Err(err) => Err(err),
                Ok(x) => like_pattern(x, pattern),
            },
            Expr::Is(a, ty) => match self.eval(&**a, partial, level + 1) {
                Err(err) => Err(err),
                Ok(x) => is_type(x, ty),
            },
            Expr::SetOf(es) => {
                proof {
                    lemma_set_expr_view(*es);
                }
                match self.eval_all(es, partial, level + 1) {
                    Err(err) => Err(err),
                    Ok(pvs) => Ok(set_of(&pvs)),
                }
            },
            Expr::Record(fs) => {
                proof {
                    lemma_record_expr_view(*fs);
                }
                match self.eval_fields(fs, partial, level + 1) {
                    Err(err) => Err(err),
                    Ok(pfs) => Ok(record_of(&pfs)),
                }
            },
        }
    }

    fn eval_all(&self, es: &Vec<Expr>, partial: bool, level: usize) -> (r: Result<
        Vec<PartialValue>,
        EvaluationError,
    >)
        ensures
            r is Ok ==> eval_all(exprs_view(es@), self@, partial, level as nat) == Ok::<
                Seq<PartialValueV>,
                EvaluationErrorV,
            >(partials_view(r->Ok_0@)),
            r is Err ==> eval_all(exprs_view(es@), self@, partial, level as nat) == Err::<
                Seq<PartialValueV>,
                EvaluationErrorV,
            >(r->Err_0@),
        decreases es, 1nat,
    {
        let ghost ev = exprs_view(es@);
        let mut out: Vec<PartialValue> = Vec::new();
        let mut i: usize = 0;
        assert(partials_view(out@) =~= Seq::empty());
        while i < es.len()
            invariant
                i <= es.len(),
                ev == exprs_view(es@),
                eval_all(ev.take(i as int), self@, partial, level as nat) == Ok::<
                    Seq<PartialValueV>,
                    EvaluationErrorV,
                >(partials_view(out@)),
            decreases es.len() - i,
        {
            proof {
                assert(ev.take(i + 1).drop_last() =~= ev.take(i as int));
                assert(ev.take(i + 1).last() == es[i as int]@);
            }
            match self.eval(&es[i], partial, level) {
                Err(err) => {
                    proof {
                        lemma_eval_all_prefix_err(ev, i + 1, self@, partial, level as nat);
                    }
                    return Err(err);
                },
                Ok(pv) => {
                    let ghost before = partials_view(out@);
                    out.push(pv);
                    assert(partials_view(out@) =~= before.push(pv@));
                },
            }
            i += 1;
        }
        assert(ev.take(i as int) =~= ev);
        Ok(out)
    }

    fn eval_fields(&self, fs: &Vec<(String, Expr)>, partial: bool, level: usize) -> (r: Result<
        Vec<(String, PartialValue)>,
        EvaluationError,
    >)
        ensures
            r is Ok ==> eval_fields(expr_fields_view(fs@), self@, partial, level as nat) == Ok::<
                Seq<(Seq<char>, PartialValueV)>,
                EvaluationErrorV,
            >(partial_fields_view(r->Ok_0@)),
            r is Err ==> eval_fields(expr_fields_view(fs@), self@, partial, level as nat) == Err::<
                Seq<(Seq<char>, PartialValueV)>,
                EvaluationErrorV,
            >(r->Err_0@),
        decreases fs, 1nat,
    {
        let ghost fv = expr_fields_view(fs@);
        let mut out: Vec<(String, PartialValue)> = Vec::new();
        let mut i: usize = 0;
        assert(partial_fields_view(out@) =~= Seq::empty());
        while i < fs.len()
            invariant
                i <= fs.len(),
                fv == expr_fields_view(fs@),
                eval_fields(fv.take(i as int), self@, partial, level as nat) == Ok::<
                    Seq<(Seq<char>, PartialValueV)>,
                    EvaluationErrorV,
                >(partial_fields_view(out@)),
            decreases fs.len() - i,
        {
            proof {
                assert(fv.take(i + 1).drop_last() =~= fv.take(i as int));
                assert(fv.take(i + 1).last() == (fs[i as int].0@, fs[i as int].1@));
            }
            match self.eval(&fs[i].1, partial, level) {
                Err(err) => {
                    proof {
                        lemma_eval_fields_prefix_err(fv, i + 1, self@, partial, level as nat);
                    }
                    return Err(err);
                },
                Ok(pv) => {
                    let ghost before = partial_fields_view(out@);
                    let name = fs[i].0.clone();
                    out.push((name, pv));
                    assert(partial_fields_view(out@) =~= before.push((fs[i as int].0@, pv@)));
                },
            }
            i += 1;
        }
        assert(fv.take(i as int) =~= fv);
        Ok(out)
    }

    /// The value of `e`. An expression that cannot be reduced to a value,
    /// because it holds an unknown, is an error.
    pub fn interpret(&self, e: &Expr) -> (r: Result<Value, EvaluationError>)
        ensures
            r is Ok <==> crate::semantics::interpret(e@, self@) is Ok,
            r is Ok ==> r->Ok_0@ == crate::semantics::interpret(e@, self@)->Ok_0,
            r is Err ==> r->Err_0@ == crate::semantics::interpret(e@, self@)->Err_0,
    {
        match self.eval(e, false, 1) {
            Err(err) => Err(err),
            Ok(PartialValue::Value(v)) => Ok(v),
            Ok(PartialValue::Residual(r)) => Err(EvaluationError::non_value(r)),
        }
    }

    /// The value of `e`, or what is left of it where it holds unknowns.
    pub fn partial_interpret(&self, e: &Expr) -> (r: Result<PartialValue, EvaluationError>)
        ensures
            outcome_view(r) == crate::semantics::partial_interpret(e@, self@),
    {
        self.eval(e, true, 1)
    }
}

fn second_of(second: Result<PartialValue, EvaluationError>, first: bool) -> (r: Result<
    PartialValue,
    EvaluationError,
>)
    ensures
        outcome_view(r) == second_operand(outcome_view(second), first),
{
    proof {
        reveal_with_fuel(expr_view, 2);
    }
    match second {
        Err(err) => Err(err),
        Ok(PartialValue::Residual(r)) => {
            if first {
                Ok(
                    PartialValue::Residual(
                        Expr::And(Box::new(Expr::Val(Value::Bool(true))), Box::new(r)),
                    ),
                )
            } else {
                Ok(
                    PartialValue::Residual(
                        Expr::Or(Box::new(Expr::Val(Value::Bool(false))), Box::new(r)),
                    ),
                )
            }
        },
        Ok(PartialValue::Value(Value::Bool(y))) => ok_bool(y),
        Ok(PartialValue::Value(v)) => Err(type_error_one(Type::Bool, &v)),
    }
}

/// The value of `expr` for the given request and entities, with all
/// extension functions available.
pub fn interpret(expr: &Expr, request: &Request, entities: &Entities) -> (r: Result<
    Value,
    EvaluationError,
>)
    ensures
        r is Ok <==> crate::semantics::interpret(expr@, env_of(request, entities)) is Ok,
        r is Ok ==> r->Ok_0@ == crate::semantics::interpret(expr@, env_of(request, entities))->Ok_0,
        r is Err ==> r->Err_0@ == crate::semantics::interpret(
            expr@,
            env_of(request, entities),
        )->Err_0,
{
    let extensions = Extensions::all_available();
    let evaluator = Evaluator::new(request, entities, &extensions);
    evaluator.interpret(expr)
}

/// The value of `expr` for the given request and entities, or what is left
/// of it where it holds unknowns, with all extension functions available.
pub fn partial_interpret(expr: &Expr, request: &Request, entities: &Entities) -> (r: Result<
    PartialValue,
    EvaluationError,
>)
    ensures
        outcome_view(r) == crate::semantics::partial_interpret(expr@, env_of(request, entities)),
{
    let extensions = Extensions::all_available();
    let evaluator = Evaluator::new(request, entities, &extensions);
    evaluator.partial_interpret(expr)
}

/// What an expression is evaluated against when all extension functions
/// are available.
pub open spec fn env_of(request: &Request, entities: &Entities) -> EnvV {
    EnvV {
        request: request@,
        entities: entities@,
        extensions: crate::extensions::all_ops(),
    }
}

} // verus!
