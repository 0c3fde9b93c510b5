//! Restricted expressions: literals, set and record literals, and calls of
//! extension functions, and nothing else. They are what entity attributes
//! and the context of a request are written in.
use vstd::prelude::*;
use crate::ast::{Expr, ExprV, expr_fields_view, exprs_view, lemma_call_view,
    lemma_record_expr_view, lemma_set_expr_view};
use crate::entities::{Entities, EntitiesV, Mode};
use crate::err::{EvaluationError, EvaluationErrorKindV, EvaluationErrorV, RestrictedExprError,
    RestrictedExprErrorV, plain_error};
use crate::evaluator::Evaluator;
use crate::extensions::{ExtOp, Extensions};
use crate::request::{Context, Request, RequestV};
use crate::semantics::{EnvV, interpret};
use crate::value::{Value, ValueV};

verus! {

/// What kind of construct an expression is that restricted expressions may
/// not hold, in words.
pub open spec fn feature_name(e: ExprV) -> Seq<char> {
    match e {
        ExprV::Var(_) => "variables"@,
        ExprV::Slot(_) => "template slots"@,
        ExprV::Unknown(_) => "unknowns"@,
        ExprV::If(_, _, _) => "if-then-else"@,
        ExprV::And(_, _) => "&&"@,
        ExprV::Or(_, _) => "||"@,
        ExprV::Unary(_, _) => "unary operators"@,
        ExprV::Binary(_, _, _) => "binary operators"@,
        ExprV::MulByConst(_, _) => "multiplication"@,
        ExprV::GetAttr(_, _) => "attribute accesses"@,
        ExprV::HasAttr(_, _) => "'has'"@,
        ExprV::Like(_, _) => "'like'"@,
        ExprV::Is(_, _) => "'is'"@,
        _ => ""@,
    }
}

/// Whether an expression is a literal, a value, a set or record literal, or
/// a call: the only constructs that a restricted expression is made of.
pub open spec fn is_plain(e: ExprV) -> bool {
    e is Lit || e is Val || e is Call || e is SetOf || e is Record
}

/// The first part of `e`, from the outside in and from left to right, that
/// a restricted expression may not hold.
pub open spec fn offender(e: ExprV) -> Option<ExprV>
    decreases e, 0nat,
{
    match e {
        ExprV::Lit(_) => None,
        ExprV::Val(_) => None,
        ExprV::Call(_, args) => offender_among(args),
        ExprV::SetOf(es) => offender_among(es),
        ExprV::Record(fs) => offender_among_fields(fs),
        _ => Some(e),
    }
}

/// The first offender in a sequence of expressions.
pub open spec fn offender_among(es: Seq<ExprV>) -> Option<ExprV>
    decreases es, 1nat,
{
    if es.len() == 0 {
        None
    } else {
        match offender_among(es.drop_last()) {
            Some(x) => Some(x),
            None => offender(es.last()),
        }
    }
}

/// The first offender in the fields of a record literal.
pub open spec fn offender_among_fields(fs: Seq<(Seq<char>, ExprV)>) -> Option<ExprV>
    decreases fs, 1nat,
{
    if fs.len() == 0 {
        None
    } else {
        match offender_among_fields(fs.drop_last()) {
            Some(x) => Some(x),
            None => offender(fs.last().1),
        }
    }
}

/// Whether `e` is a restricted expression.
pub open spec fn is_restricted(e: ExprV) -> bool {
    offender(e) is None
}

/// The error for an expression that holds the offender `x`.
pub open spec fn restricted_error(x: ExprV) -> EvaluationErrorV {
    plain_error(
        EvaluationErrorKindV::InvalidRestrictedExpression(
            RestrictedExprErrorV::InvalidRestrictedExpression {
                feature: feature_name(x),
                expr: x,
            },
        ),
    )
}

/// The request without principal, action and resource, and with an empty context.
pub open spec fn empty_request() -> RequestV {
    RequestV { principal: None, action: None, resource: None, context: Seq::empty() }
}

/// The complete store without entities.
pub open spec fn no_entities() -> EntitiesV {
    EntitiesV { entities: Seq::empty(), mode: Mode::Concrete }
}

/// What the restricted evaluation of `e` yields: an error for the first
/// offender if there is one, and else the value of `e`.
pub open spec fn restricted_interpret(e: ExprV, extensions: Seq<ExtOp>) -> Result<
    ValueV,
    EvaluationErrorV,
> {
    match offender(e) {
        Some(x) => Err(restricted_error(x)),
        None => interpret(
            e,
            EnvV { request: empty_request(), entities: no_entities(), extensions },
        ),
    }
}

fn feature_of(e: &Expr) -> (r: String)
    ensures
        r@ == feature_name(e@),
{
    match e {
        Expr::Var(_) => String::from_str("variables"),
        Expr::Slot(_) => String::from_str("template slots"),
        Expr::Unknown(_) => String::from_str("unknowns"),
        Expr::If(_, _, _) => String::from_str("if-then-else"),
        Expr::And(_, _) => String::from_str("&&"),
        Expr::Or(_, _) => String::from_str("||"),
        Expr::Unary(_, _) => String::from_str("unary operators"),
        Expr::Binary(_, _, _) => String::from_str("binary operators"),
        Expr::MulByConst(_, _) => String::from_str("multiplication"),
        Expr::GetAttr(_, _) => String::from_str("attribute accesses"),
        Expr::HasAttr(_, _) => String::from_str("'has'"),
        Expr::Like(_, _) => String::from_str("'like'"),
        Expr::Is(_, _) => String::from_str("'is'"),
        _ => String::from_str(""),
    }
}

/// Once a prefix holds an offender, it is the first offender of the whole.
pub proof fn lemma_offender_among_prefix(es: Seq<ExprV>, n: int)
    requires
        0 <= n <= es.len(),
        offender_among(es.take(n)) is Some,
    ensures
        offender_among(es) == offender_among(es.take(n)),
    decreases es.len() - n,
{
    if n < es.len() {
        assert(es.take(n + 1).drop_last() =~= es.take(n));
        lemma_offender_among_prefix(es, n + 1);
    } else {
        assert(es.take(n) =~= es);
    }
}

/// Once a prefix of the fields holds an offender, it is the first offender
/// of the whole.
pub proof fn lemma_offender_among_fields_prefix(fs: Seq<(Seq<char>, ExprV)>, n: int)
    requires
        0 <= n <= fs.len(),
        offender_among_fields(fs.take(n)) is Some,
    ensures
        offender_among_fields(fs) == offender_among_fields(fs.take(n)),
    decreases fs.len() - n,
{
    if n < fs.len() {
        assert(fs.take(n + 1).drop_last() =~= fs.take(n));
        lemma_offender_among_fields_prefix(fs, n + 1);
    } else {
        assert(fs.take(n) =~= fs);
    }
}

/// The first part of `e` that a restricted expression may not hold.
pub fn find_offender(e: &Expr) -> (r: Option<&Expr>)
    ensures
        r is Some <==> offender(e@) is Some,
        r is Some ==> r->0@ == offender(e@)->0,
    decreases e, 0nat,
{
    match e {
        Expr::Lit(_) => None,
        Expr::Val(_) => None,
        Expr::Call(name, args) => {
            proof {
                lemma_call_view(*name, *args);
            }
            find_offender_among(args)
        },
        Expr::SetOf(es) => {
            proof {
                lemma_set_expr_view(*es);
            }
            find_offender_among(es)
        },
        Expr::Record(fs) => {
            proof {
                lemma_record_expr_view(*fs);
            }
            find_offender_among_fields(fs)
        },
        _ => Some(e),
    }
}

fn find_offender_among(es: &Vec<Expr>) -> (r: Option<&Expr>)
    ensures
        r is Some <==> offender_among(exprs_view(es@)) is Some,
        r is Some ==> r->0@ == offender_among(exprs_view(es@))->0,
    decreases es, 1nat,
{
    let ghost ev = exprs_view(es@);
    let mut i: usize = 0;
    while i < es.len()
        invariant
            i <= es.len(),
            ev == exprs_view(es@),
            offender_among(ev.take(i as int)) is None,
        decreases es.len() - i,
    {
        proof {
            assert(ev.take(i + 1).drop_last() =~= ev.take(i as int));
            assert(ev.take(i + 1).last() == es[i as int]@);
        }
        match find_offender(&es[i]) {
            Some(x) => {
                proof {
                    lemma_offender_among_prefix(ev, i + 1);
                }
                return Some(x);
            },
            None => {},
        }
        i += 1;
    }
    assert(ev.take(i as int) =~= ev);
    None
}

fn find_offender_among_fields(fs: &Vec<(String, Expr)>) -> (r: Option<&Expr>)
    ensures
        r is Some <==> offender_among_fields(expr_fields_view(fs@)) is Some,
        r is Some ==> r->0@ == offender_among_fields(expr_fields_view(fs@))->0,
    decreases fs, 1nat,
{
    let ghost fv = expr_fields_view(fs@);
    let mut i: usize = 0;
    while i < fs.len()
        invariant
            i <= fs.len(),
            fv == expr_fields_view(fs@),
            offender_among_fields(fv.take(i as int)) is None,
        decreases fs.len() - i,
    {
        proof {
            assert(fv.take(i + 1).drop_last() =~= fv.take(i as int));
            assert(fv.take(i + 1).last() == (fs[i as int].0@, fs[i as int].1@));
        }
        match find_offender(&fs[i].1) {
            Some(x) => {
                proof {
                    lemma_offender_among_fields_prefix(fv, i + 1);
                }
                return Some(x);
            },
            None => {},
        }
        i += 1;
    }
    assert(fv.take(i as int) =~= fv);
    None
}

/// Evaluates restricted expressions: any other expression is rejected
/// before anything is evaluated, and no request or entity is consulted.
pub struct RestrictedEvaluator<'a> {
    extensions: &'a Extensions,
}

impl<'a> RestrictedEvaluator<'a> {
    /// The extension functions of this evaluator.
    pub closed spec fn extensions(&self) -> Seq<ExtOp> {
        self.extensions@
    }

    /// The restricted evaluator with the given extension functions.
    pub fn new(extensions: &'a Extensions) -> (r: Self)
        ensures
            r.extensions() == extensions@,
    {
        RestrictedEvaluator { extensions }
    }

    /// The value of the restricted expression `e`. An expression that is
    /// not restricted is an `InvalidRestrictedExpression` error that names
    /// its first offending part.
    pub fn interpret(&self, e: &Expr) -> (r: Result<Value, EvaluationError>)
        ensures
            r is Ok <==> restricted_interpret(e@, self.extensions()) is Ok,
            r is Ok ==> r->Ok_0@ == restricted_interpret(e@, self.extensions())->Ok_0,
            r is Err ==> r->Err_0@ == restricted_interpret(e@, self.extensions())->Err_0,
    {
        match find_offender(e) {
            Some(x) => Err(
                EvaluationError::from_restricted(
                    RestrictedExprError::InvalidRestrictedExpression {
                        feature: feature_of(x),
                        expr: x.clone(),
                    },
                ),
            ),
            None => {
                let request = Request::new(None, None, None, Context::empty());
                let entities = Entities::empty();
                let evaluator = Evaluator::new(&request, &entities, self.extensions);
                evaluator.interpret(e)
            },
        }
    }
}

/// Whether `s` is `e` or a part of `e`.
pub open spec fn occurs_in(s: ExprV, e: ExprV) -> bool
    decreases e, 0nat,
{
    s == e || match e {
        ExprV::If(c, t, f) => occurs_in(s, *c) || occurs_in(s, *t) || occurs_in(s, *f),
        ExprV::And(a, b) => occurs_in(s, *a) || occurs_in(s, *b),
        ExprV::Or(a, b) => occurs_in(s, *a) || occurs_in(s, *b),
        ExprV::Unary(_, a) => occurs_in(s, *a),
        ExprV::Binary(_, a, b) => occurs_in(s, *a) || occurs_in(s, *b),
        ExprV::MulByConst(a, _) => occurs_in(s, *a),
        ExprV::Call(_, args) => occurs_among(s, args),
        ExprV::GetAttr(a, _) => occurs_in(s, *a),
        ExprV::HasAttr(a, _) => occurs_in(s, *a),
        ExprV::Like(a, _) => occurs_in(s, *a),
        ExprV::Is(a, _) => occurs_in(s, *a),
        ExprV::SetOf(es) => occurs_among(s, es),
        ExprV::Record(fs) => occurs_among_fields(s, fs),
        _ => false,
    }
}

/// Whether `s` occurs in one of the expressions `es`.
pub open spec fn occurs_among(s: ExprV, es: Seq<ExprV>) -> bool
    decreases es, 1nat,
{
    if es.len() == 0 {
        false
    } else {
        occurs_among(s, es.drop_last()) || occurs_in(s, es.last())
    }
}

/// Whether `s` occurs in one of the fields `fs`.
pub open spec fn occurs_among_fields(s: ExprV, fs: Seq<(Seq<char>, ExprV)>) -> bool
    decreases fs, 1nat,
{
    if fs.len() == 0 {
        false
    } else {
        occurs_among_fields(s, fs.drop_last()) || occurs_in(s, fs.last().1)
    }
}

/// An expression in which something occurs that is no literal, value, set
/// or record literal or call has an offender.
pub proof fn lemma_occurrence_offends(s: ExprV, e: ExprV)
    requires
        occurs_in(s, e),
        !is_plain(s),
    ensures
        offender(e) is Some,
    decreases e, 0nat,
{
    match e {
        ExprV::Call(_, args) => {
            lemma_occurrence_offends_among(s, args);
        },
        ExprV::SetOf(es) => {
            lemma_occurrence_offends_among(s, es);
        },
        ExprV::Record(fs) => {
            lemma_occurrence_offends_among_fields(s, fs);
        },
        _ => {},
    }
}

/// The same for a sequence of expressions.
pub proof fn lemma_occurrence_offends_among(s: ExprV, es: Seq<ExprV>)
    requires
        occurs_among(s, es),
        !is_plain(s),
    ensures
        offender_among(es) is Some,
    decreases es, 1nat,
{
    if es.len() > 0 {
        if occurs_among(s, es.drop_last()) {
            lemma_occurrence_offends_among(s, es.drop_last());
        } else {
            lemma_occurrence_offends(s, es.last());
        }
    }
}

/// The same for the fields of a record literal.
pub proof fn lemma_occurrence_offends_among_fields(s: ExprV, fs: Seq<(Seq<char>, ExprV)>)
    requires
        occurs_among_fields(s, fs),
        !is_plain(s),
    ensures
        offender_among_fields(fs) is Some,
    decreases fs, 1nat,
{
    if fs.len() > 0 {
        if occurs_among_fields(s, fs.drop_last()) {
            lemma_occurrence_offends_among_fields(s, fs.drop_last());
        } else {
            lemma_occurrence_offends(s, fs.last().1);
        }
    }
}

/// The restricted evaluator rejects every expression in which a variable,
/// an attribute access, a comparison, a conditional or any other construct
/// occurs that is no literal, set or record literal or call: the result is
/// an `InvalidRestrictedExpression` error.
pub proof fn law_restricted_rejects(s: ExprV, e: ExprV, extensions: Seq<ExtOp>)
    requires
        occurs_in(s, e),
        !is_plain(s),
    ensures
        restricted_interpret(e, extensions) is Err,
        restricted_interpret(e, extensions)->Err_0.kind is InvalidRestrictedExpression,
{
    lemma_occurrence_offends(s, e);
}

} // verus!
