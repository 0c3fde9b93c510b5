//! The parser of the policy language: reads what the grammar says that
//! tokens denote.
use vstd::prelude::*;
use crate::ast::{BinaryOp, Expr, ExprV, Literal, PatternElem, SlotId, Var,
    expr_fields_view, exprs_view, lemma_call_view, lemma_record_expr_view};
use crate::authorizer::policies_view;
use crate::entities::uids_view;
use crate::grammar::{
    effect_at, numbered_id, p_action, p_conditions, p_entities, p_one_policy, p_policies,
    p_policy, p_ref, p_scope,
    Parsed, advance, attr_at, error_at, has_key, method_call, p_add, p_add_tail, p_and,
    p_and_tail, p_entity, p_expr, p_fields, p_list, p_member, p_member_tail, p_mul, p_mul_tail,
    p_name, p_name_tail, p_or, p_or_tail, p_primary, p_rel, p_rel_rest, p_unary, pattern_from,
    product, relop_at, sym_at, unescaped, unexpected, var_of, word_at,
};
use crate::lexer::{ParseError, ParseErrorKind, Sym, Token, TokenV, tokenize, tokens_of,
    tokens_view};
use crate::policy::{ActionConstraint, ActionConstraintV, Effect, EntityRef, EntityRefV, Policy,
    PolicyId, PolicyV, ScopeConstraint, ScopeConstraintV};
use crate::policy_set::{PolicySet, PolicySetV, is_template};
use crate::literal::{read_string, unescape_char};
use crate::names::is_reserved;
use crate::text::{chars_of, same_text, string_of, text_is};
use crate::value::{EntityType, EntityUid, EntityUidV};

verus! {

/// The model of what was read of an expression.
pub open spec fn parsed_expr(r: Result<(Expr, usize), ParseError>) -> Parsed<ExprV> {
    match r {
        Ok((e, p)) => Ok((e@, p as int)),
        Err(e) => Err(e),
    }
}

/// The model of what was read of a name.
pub open spec fn parsed_name(r: Result<(String, usize), ParseError>) -> Parsed<Seq<char>> {
    match r {
        Ok((n, p)) => Ok((n@, p as int)),
        Err(e) => Err(e),
    }
}

/// The model of what was read of an entity.
pub open spec fn parsed_entity(r: Result<(EntityUid, usize), ParseError>) -> Parsed<EntityUidV> {
    match r {
        Ok((u, p)) => Ok((u@, p as int)),
        Err(e) => Err(e),
    }
}

fn sym_is(ts: &Vec<Token>, pos: usize, sym: Sym) -> (r: bool)
    ensures
        r == sym_at(tokens_view(ts@), pos as int, sym),
        r ==> pos < ts.len(),
{
    if pos < ts.len() {
        assert(tokens_view(ts@)[pos as int] == ts[pos as int]@);
        match &ts[pos] {
            Token::Sym(s) => *s == sym,
            _ => false,
        }
    } else {
        false
    }
}

fn word_is(ts: &Vec<Token>, pos: usize, w: &str) -> (r: bool)
    ensures
        r == word_at(tokens_view(ts@), pos as int, w@),
        r ==> pos < ts.len(),
{
    if pos < ts.len() {
        assert(tokens_view(ts@)[pos as int] == ts[pos as int]@);
        match &ts[pos] {
            Token::Ident(s) => text_is(s, w),
            _ => false,
        }
    } else {
        false
    }
}

fn unexpected_at(ts: &Vec<Token>, pos: usize) -> (r: ParseError)
    ensures
        r == unexpected(tokens_view(ts@), pos as int),
{
    if pos < ts.len() {
        ParseError { kind: ParseErrorKind::UnexpectedToken, position: pos }
    } else {
        ParseError { kind: ParseErrorKind::UnexpectedEnd, position: pos }
    }
}

fn fail(kind: ParseErrorKind, pos: usize) -> (r: ParseError)
    ensures
        r == error_at(kind, pos as int),
{
    ParseError { kind, position: pos }
}

fn word_is_reserved(w: &String) -> (r: bool)
    ensures
        r == is_reserved(w@),
{
    text_is(w, "true") || text_is(w, "false") || text_is(w, "if") || text_is(w, "then") || text_is(
        w,
        "else",
    ) || text_is(w, "in") || text_is(w, "is") || text_is(w, "like") || text_is(w, "has")
}

/// The string that a string literal with the content `raw` denotes.
pub fn unescape_raw(raw: &String) -> (r: Option<String>)
    ensures
        r is Some <==> unescaped(raw@) is Some,
        r is Some ==> r->0@ == unescaped(raw@)->0,
{
    proof {
        reveal(unescaped);
    }
    let mut cs = chars_of(raw.as_str());
    cs.push('"');
    match read_string(&cs, 0) {
        Some((t, end)) => {
            if end == cs.len() {
                Some(string_of(&t))
            } else {
                None
            }
        },
        None => None,
    }
}

fn unescape_one(c: char) -> (r: Option<char>)
    ensures
        r == unescape_char(c),
{
    if c == '\\' {
        Some('\\')
    } else if c == '"' {
        Some('"')
    } else if c == '\'' {
        Some('\'')
    } else if c == 'n' {
        Some('\n')
    } else if c == 'r' {
        Some('\r')
    } else if c == 't' {
        Some('\t')
    } else if c == '0' {
        Some('\0')
    } else {
        None
    }
}

/// The pattern that the content `raw` of a string literal denotes.
pub fn pattern_of(raw: &String) -> (r: Option<Vec<PatternElem>>)
    ensures
        r is Some <==> pattern_from(raw@, 0, Seq::empty()) is Some,
        r is Some ==> r->0@ == pattern_from(raw@, 0, Seq::empty())->0,
{
    proof {
        reveal_with_fuel(pattern_from, 1);
    }
    let cs = chars_of(raw.as_str());
    let mut out: Vec<PatternElem> = Vec::new();
    let mut i: usize = 0;
    while i < cs.len()
        invariant
            cs@ == raw@,
            pattern_from(raw@, 0, Seq::empty()) == pattern_from(cs@, i as int, out@),
        decreases cs.len() - i,
    {
        proof {
            reveal_with_fuel(pattern_from, 1);
        }
        let c = cs[i];
        if c == '*' {
            out.push(PatternElem::Wildcard);
            i += 1;
        } else if c == '\\' {
            if i + 1 >= cs.len() {
                return None;
            }
            if cs[i + 1] == '*' {
                out.push(PatternElem::Char('*'));
            } else {
                match unescape_one(cs[i + 1]) {
                    Some(x) => {
                        out.push(PatternElem::Char(x));
                    },
                    None => {
                        return None;
                    },
                }
            }
            i += 2;
        } else {
            out.push(PatternElem::Char(c));
            i += 1;
        }
    }
    Some(out)
}

/// A name: identifiers that are not reserved, separated by `::`.
pub fn parse_name(ts: &Vec<Token>, pos: usize) -> (r: Result<(String, usize), ParseError>)
    ensures
        parsed_name(r) == p_name(tokens_view(ts@), pos as int),
        r matches Ok((_, p)) ==> pos < p <= ts.len(),
{
    proof {
        reveal(p_name);
        reveal_with_fuel(p_name_tail, 1);
    }
    let ghost tv = tokens_view(ts@);
    if pos >= ts.len() {
        return Err(unexpected_at(ts, pos));
    }
    assert(tv[pos as int] == ts[pos as int]@);
    let mut name = match &ts[pos] {
        Token::Ident(w) => {
            if word_is_reserved(w) {
                return Err(fail(ParseErrorKind::ReservedName, pos));
            }
            w.clone()
        },
        _ => {
            return Err(unexpected_at(ts, pos));
        },
    };
    let mut p: usize = pos + 1;
    loop
        invariant
            pos < p <= ts.len(),
            tv == tokens_view(ts@),
            p_name(tv, pos as int) == p_name_tail(tv, p as int, name@),
        decreases ts.len() - p,
    {
        proof {
            reveal(p_name);
            reveal_with_fuel(p_name_tail, 1);
        }
        if !sym_is(ts, p, Sym::ColonColon) || p + 1 >= ts.len() {
            return Ok((name, p));
        }
        assert(tv[p + 1] == ts[p + 1]@);
        match &ts[p + 1] {
            Token::Ident(w) => {
                if word_is_reserved(w) {
                    return Err(fail(ParseErrorKind::ReservedName, p + 1));
                }
                name.append("::");
                name.append(w.as_str());
                p += 2;
            },
            _ => {
                return Ok((name, p));
            },
        }
    }
}

/// An entity: a name, `::`, and a string literal.
pub fn parse_entity(ts: &Vec<Token>, pos: usize) -> (r: Result<(EntityUid, usize), ParseError>)
    ensures
        parsed_entity(r) == p_entity(tokens_view(ts@), pos as int),
        r matches Ok((_, p)) ==> pos < p <= ts.len(),
{
    proof {
        reveal(p_entity);
    }
    let ghost tv = tokens_view(ts@);
    match parse_name(ts, pos) {
        Err(e) => Err(e),
        Ok((name, p)) => {
            if sym_is(ts, p, Sym::ColonColon) && p + 1 < ts.len() {
                assert(tv[p + 1] == ts[p + 1]@);
                match &ts[p + 1] {
                    Token::Str(raw) => match unescape_raw(raw) {
                        Some(eid) => Ok((EntityUid { ty: EntityType::Specified(name), eid }, p + 2)),
                        None => Err(fail(ParseErrorKind::BadString, p + 1)),
                    },
                    _ => Err(unexpected_at(ts, p)),
                }
            } else {
                Err(unexpected_at(ts, p))
            }
        },
    }
}

fn relop_of(ts: &Vec<Token>, pos: usize) -> (r: Option<BinaryOp>)
    ensures
        r == relop_at(tokens_view(ts@), pos as int),
{
    proof {
        reveal(relop_at);
    }
    if sym_is(ts, pos, Sym::EqEq) {
        Some(BinaryOp::Eq)
    } else if sym_is(ts, pos, Sym::NotEq) {
        Some(BinaryOp::NotEq)
    } else if sym_is(ts, pos, Sym::Less) {
        Some(BinaryOp::Less)
    } else if sym_is(ts, pos, Sym::LessEq) {
        Some(BinaryOp::LessEq)
    } else if sym_is(ts, pos, Sym::Greater) {
        Some(BinaryOp::Greater)
    } else if sym_is(ts, pos, Sym::GreaterEq) {
        Some(BinaryOp::GreaterEq)
    } else if word_is(ts, pos, "in") {
        Some(BinaryOp::In)
    } else {
        None
    }
}

fn attr_of_token(ts: &Vec<Token>, pos: usize) -> (r: Result<String, ParseError>)
    ensures
        r is Ok <==> attr_at(tokens_view(ts@), pos as int) is Ok,
        r is Ok ==> r->Ok_0@ == attr_at(tokens_view(ts@), pos as int)->Ok_0,
        r is Err ==> r->Err_0 == attr_at(tokens_view(ts@), pos as int)->Err_0,
        r is Ok ==> pos < ts.len(),
{
    proof {
        reveal(attr_at);
    }
    if pos < ts.len() {
        assert(tokens_view(ts@)[pos as int] == ts[pos as int]@);
        match &ts[pos] {
            Token::Ident(w) => Ok(w.clone()),
            Token::Str(raw) => match unescape_raw(raw) {
                Some(t) => Ok(t),
                None => Err(fail(ParseErrorKind::BadString, pos)),
            },
            _ => Err(unexpected_at(ts, pos)),
        }
    } else {
        Err(unexpected_at(ts, pos))
    }
}

fn var_named(w: &String) -> (r: Option<Var>)
    ensures
        r == var_of(w@),
{
    proof {
        reveal(var_of);
    }
    if text_is(w, "principal") {
        Some(Var::Principal)
    } else if text_is(w, "action") {
        Some(Var::Action)
    } else if text_is(w, "resource") {
        Some(Var::Resource)
    } else if text_is(w, "context") {
        Some(Var::Context)
    } else {
        None
    }
}

fn make_method_call(receiver: Expr, name: &String, args: Vec<Expr>) -> (r: Expr)
    ensures
        r@ == method_call(receiver@, name@, exprs_view(args@)),
{
    proof {
        reveal(method_call);
    }
    let ghost av = exprs_view(args@);
    let set_op = if args.len() == 1 {
        if text_is(name, "contains") {
            Some(BinaryOp::Contains)
        } else if text_is(name, "containsAll") {
            Some(BinaryOp::ContainsAll)
        } else if text_is(name, "containsAny") {
            Some(BinaryOp::ContainsAny)
        } else {
            None
        }
    } else {
        None
    };
    let mut args = args;
    match set_op {
        Some(op) => {
            assert(av[0] == args[0]@);
            let arg = args.remove(0);
            Expr::binary(op, receiver, arg)
        },
        None => {
            let ghost r = receiver@;
            args.insert(0, receiver);
            assert(exprs_view(args@) =~= seq![r] + av);
            let n = name.clone();
            proof {
                lemma_call_view(n, args);
            }
            Expr::Call(n, args)
        },
    }
}

fn make_product(lhs: Expr, rhs: Expr) -> (r: Option<Expr>)
    ensures
        r is Some <==> product(lhs@, rhs@) is Some,
        r is Some ==> r->0@ == product(lhs@, rhs@)->0,
{
    proof {
        reveal(product);
    }
    match (&lhs, &rhs) {
        (_, Expr::Lit(Literal::Long(c))) => {
            let c: i64 = *c;
            Some(Expr::mul(lhs, c))
        },
        (Expr::Lit(Literal::Long(c)), _) => {
            let c: i64 = *c;
            Some(Expr::mul(rhs, c))
        },
        _ => None,
    }
}

fn key_in(fs: &Vec<(String, Expr)>, k: &String) -> (r: bool)
    ensures
        r == has_key(expr_fields_view(fs@), k@),
{
    let ghost fv = expr_fields_view(fs@);
    let mut i: usize = 0;
    while i < fs.len()
        invariant
            i <= fs.len(),
            fv == expr_fields_view(fs@),
            forall|n: int| 0 <= n < i ==> (#[trigger] fv[n]).0 != k@,
        decreases fs.len() - i,
    {
        if same_text(&fs[i].0, k) {
            assert(fv[i as int].0 == k@);
            return true;
        }
        i += 1;
    }
    false
}

fn no_exprs() -> (r: Vec<Expr>)
    ensures
        exprs_view(r@) == Seq::<ExprV>::empty(),
{
    let r: Vec<Expr> = Vec::new();
    assert(exprs_view(r@) =~= Seq::<ExprV>::empty());
    r
}

fn no_fields() -> (r: Vec<(String, Expr)>)
    ensures
        expr_fields_view(r@) == Seq::<(Seq<char>, ExprV)>::empty(),
{
    let r: Vec<(String, Expr)> = Vec::new();
    assert(expr_fields_view(r@) =~= Seq::<(Seq<char>, ExprV)>::empty());
    r
}

/// An expression.
pub fn parse_expr(ts: &Vec<Token>, pos: usize) -> (r: Result<(Expr, usize), ParseError>)
    ensures
        parsed_expr(r) == p_expr(tokens_view(ts@), pos as int),
        r matches Ok((_, p)) ==> pos < p <= ts.len(),
    decreases ts.len() - pos, 20nat,
{
    if pos >= ts.len() {
        return Err(unexpected_at(ts, pos));
    }
    if word_is(ts, pos, "if") {
        let (c, p1) = match parse_expr(ts, pos + 1) {
            Err(e) => {
                return Err(e);
            },
            Ok(x) => x,
        };
        if !word_is(ts, p1, "then") {
            return Err(unexpected_at(ts, p1));
        }
        let (t, p2) = match parse_expr(ts, p1 + 1) {
            Err(e) => {
                return Err(e);
            },
            Ok(x) => x,
        };
        if !word_is(ts, p2, "else") {
            return Err(unexpected_at(ts, p2));
        }
        let (f, p3) = match parse_expr(ts, p2 + 1) {
            Err(e) => {
                return Err(e);
            },
            Ok(x) => x,
        };
        Ok((Expr::ite(c, t, f), p3))
    } else {
        parse_or(ts, pos)
    }
}

fn parse_or(ts: &Vec<Token>, pos: usize) -> (r: Result<(Expr, usize), ParseError>)
    requires
        pos < ts.len(),
    ensures
        parsed_expr(r) == p_or(tokens_view(ts@), pos as int),
        r matches Ok((_, p)) ==> pos < p <= ts.len(),
    decreases ts.len() - pos, 18nat,
{
    match parse_and(ts, pos) {
        Err(e) => Err(e),
        Ok((lhs, p)) => parse_or_tail(ts, p, lhs),
    }
}

fn parse_or_tail(ts: &Vec<Token>, pos: usize, lhs: Expr) -> (r: Result<(Expr, usize), ParseError>)
    requires
        pos <= ts.len(),
    ensures
        parsed_expr(r) == p_or_tail(tokens_view(ts@), pos as int, lhs@),
        r matches Ok((_, p)) ==> pos <= p <= ts.len(),
    decreases ts.len() - pos, 17nat,
{
    if sym_is(ts, pos, Sym::OrOr) {
        match parse_and(ts, pos + 1) {
            Err(e) => Err(e),
            Ok((rhs, p)) => parse_or_tail(ts, p, Expr::or(lhs, rhs)),
        }
    } else {
        Ok((lhs, pos))
    }
}

fn parse_and(ts: &Vec<Token>, pos: usize) -> (r: Result<(Expr, usize), ParseError>)
    requires
        pos <= ts.len(),
    ensures
        parsed_expr(r) == p_and(tokens_view(ts@), pos as int),
        r matches Ok((_, p)) ==> pos < p <= ts.len(),
    decreases ts.len() - pos, 16nat,
{
    if pos >= ts.len() {
        return Err(unexpected_at(ts, pos));
    }
    match parse_rel(ts, pos) {
        Err(e) => Err(e),
        Ok((lhs, p)) => parse_and_tail(ts, p, lhs),
    }
}

fn parse_and_tail(ts: &Vec<Token>, pos: usize, lhs: Expr) -> (r: Result<(Expr, usize), ParseError>)
    requires
        pos <= ts.len(),
    ensures
        parsed_expr(r) == p_and_tail(tokens_view(ts@), pos as int, lhs@),
        r matches Ok((_, p)) ==> pos <= p <= ts.len(),
    decreases ts.len() - pos, 15nat,
{
    if sym_is(ts, pos, Sym::AndAnd) {
        match parse_rel(ts, pos + 1) {
            Err(e) => Err(e),
            Ok((rhs, p)) => parse_and_tail(ts, p, Expr::and(lhs, rhs)),
        }
    } else {
        Ok((lhs, pos))
    }
}

fn parse_rel(ts: &Vec<Token>, pos: usize) -> (r: Result<(Expr, usize), ParseError>)
    requires
        pos <= ts.len(),
    ensures
        parsed_expr(r) == p_rel(tokens_view(ts@), pos as int),
        r matches Ok((_, p)) ==> pos < p <= ts.len(),
    decreases ts.len() - pos, 14nat,
{
    if pos >= ts.len() {
        return Err(unexpected_at(ts, pos));
    }
    match parse_add(ts, pos) {
        Err(e) => Err(e),
        Ok((lhs, p)) => parse_rel_rest(ts, p, lhs),
    }
}

fn parse_rel_rest(ts: &Vec<Token>, pos: usize, lhs: Expr) -> (r: Result<(Expr, usize), ParseError>)
    requires
        pos <= ts.len(),
    ensures
        parsed_expr(r) == p_rel_rest(tokens_view(ts@), pos as int, lhs@),
        r matches Ok((_, p)) ==> pos <= p <= ts.len(),
    decreases ts.len() - pos, 13nat,
{
    let ghost tv = tokens_view(ts@);
    if pos >= ts.len() {
        return Ok((lhs, pos));
    }
    match relop_of(ts, pos) {
        Some(op) => match parse_add(ts, pos + 1) {
            Err(e) => Err(e),
            Ok((rhs, q)) => Ok((Expr::binary(op, lhs, rhs), q)),
        },
        None => {
            if word_is(ts, pos, "has") {
                match attr_of_token(ts, pos + 1) {
                    Ok(a) => Ok((Expr::HasAttr(Box::new(lhs), a), pos + 2)),
                    Err(e) => Err(e),
                }
            } else if word_is(ts, pos, "like") {
                if pos + 1 < ts.len() {
                    assert(tv[pos + 1] == ts[pos + 1]@);
                    match &ts[pos + 1] {
                        Token::Str(raw) => match pattern_of(raw) {
                            Some(pattern) => Ok((Expr::like(lhs, pattern), pos + 2)),
                            None => Err(fail(ParseErrorKind::BadString, pos + 1)),
                        },
                        _ => Err(unexpected_at(ts, pos + 1)),
                    }
                } else {
                    Err(unexpected_at(ts, pos + 1))
                }
            } else if word_is(ts, pos, "is") {
                match parse_name(ts, pos + 1) {
                    Err(e) => Err(e),
                    Ok((n, q)) => {
                        if word_is(ts, q, "in") {
                            match parse_add(ts, q + 1) {
                                Err(e) => Err(e),
                                Ok((rhs, r)) => {
                                    let again = lhs.clone();
                                    Ok(
                                        (
                                            Expr::and(
                                                Expr::Is(Box::new(lhs), n),
                                                Expr::binary(BinaryOp::In, again, rhs),
                                            ),
                                            r,
                                        ),
                                    )
                                },
                            }
                        } else {
                            Ok((Expr::Is(Box::new(lhs), n), q))
                        }
                    },
                }
            } else {
                Ok((lhs, pos))
            }
        },
    }
}

fn parse_add(ts: &Vec<Token>, pos: usize) -> (r: Result<(Expr, usize), ParseError>)
    requires
        pos <= ts.len(),
    ensures
        parsed_expr(r) == p_add(tokens_view(ts@), pos as int),
        r matches Ok((_, p)) ==> pos < p <= ts.len(),
    decreases ts.len() - pos, 12nat,
{
    if pos >= ts.len() {
        return Err(unexpected_at(ts, pos));
    }
    match parse_mul(ts, pos) {
        Err(e) => Err(e),
        Ok((lhs, p)) => parse_add_tail(ts, p, lhs),
    }
}

fn parse_add_tail(ts: &Vec<Token>, pos: usize, lhs: Expr) -> (r: Result<(Expr, usize), ParseError>)
    requires
        pos <= ts.len(),
    ensures
        parsed_expr(r) == p_add_tail(tokens_view(ts@), pos as int, lhs@),
        r matches Ok((_, p)) ==> pos <= p <= ts.len(),
    decreases ts.len() - pos, 11nat,
{
    let plus = sym_is(ts, pos, Sym::Plus);
    if plus || sym_is(ts, pos, Sym::Minus) {
        match parse_mul(ts, pos + 1) {
            Err(e) => Err(e),
            Ok((rhs, p)) => {
                let op = if plus {
                    BinaryOp::Add
                } else {
                    BinaryOp::Sub
                };
                parse_add_tail(ts, p, Expr::binary(op, lhs, rhs))
            },
        }
    } else {
        Ok((lhs, pos))
    }
}

fn parse_mul(ts: &Vec<Token>, pos: usize) -> (r: Result<(Expr, usize), ParseError>)
    requires
        pos <= ts.len(),
    ensures
        parsed_expr(r) == p_mul(tokens_view(ts@), pos as int),
        r matches Ok((_, p)) ==> pos < p <= ts.len(),
    decreases ts.len() - pos, 10nat,
{
    if pos >= ts.len() {
        return Err(unexpected_at(ts, pos));
    }
    match parse_unary(ts, pos) {
        Err(e) => Err(e),
        Ok((lhs, p)) => parse_mul_tail(ts, p, lhs),
    }
}

fn parse_mul_tail(ts: &Vec<Token>, pos: usize, lhs: Expr) -> (r: Result<(Expr, usize), ParseError>)
    requires
        pos <= ts.len(),
    ensures
        parsed_expr(r) == p_mul_tail(tokens_view(ts@), pos as int, lhs@),
        r matches Ok((_, p)) ==> pos <= p <= ts.len(),
    decreases ts.len() - pos, 9nat,
{
    if sym_is(ts, pos, Sym::Star) {
        match parse_unary(ts, pos + 1) {
            Err(e) => Err(e),
            Ok((rhs, p)) => match make_product(lhs, rhs) {
                Some(e) => parse_mul_tail(ts, p, e),
                None => Err(fail(ParseErrorKind::NonConstantMultiplication, pos)),
            },
        }
    } else {
        Ok((lhs, pos))
    }
}

fn parse_unary(ts: &Vec<Token>, pos: usize) -> (r: Result<(Expr, usize), ParseError>)
    requires
        pos <= ts.len(),
    ensures
        parsed_expr(r) == p_unary(tokens_view(ts@), pos as int),
        r matches Ok((_, p)) ==> pos < p <= ts.len(),
    decreases ts.len() - pos, 8nat,
{
    let ghost tv = tokens_view(ts@);
    if pos >= ts.len() {
        return Err(unexpected_at(ts, pos));
    }
    if sym_is(ts, pos, Sym::Bang) {
        match parse_unary(ts, pos + 1) {
            Err(e) => Err(e),
            Ok((e, p)) => Ok((Expr::not(e), p)),
        }
    } else if sym_is(ts, pos, Sym::Minus) {
        let literal = if pos + 1 < ts.len() {
            assert(tv[pos + 1] == ts[pos + 1]@);
            match &ts[pos + 1] {
                Token::Int(m) => Some(*m),
                _ => None,
            }
        } else {
            None
        };
        match literal {
            Some(m) => {
                let v: i128 = -(m as i128);
                if v < -9223372036854775808 {
                    // the lexer yields no larger number
                    parse_member_tail(ts, pos + 2, Expr::long(#[verifier::truncate] (v as i64)))
                } else {
                    parse_member_tail(ts, pos + 2, Expr::long(v as i64))
                }
            },
            None => match parse_unary(ts, pos + 1) {
                Err(e) => Err(e),
                Ok((e, p)) => Ok((Expr::neg(e), p)),
            },
        }
    } else {
        parse_member(ts, pos)
    }
}

fn parse_member(ts: &Vec<Token>, pos: usize) -> (r: Result<(Expr, usize), ParseError>)
    requires
        pos < ts.len(),
    ensures
        parsed_expr(r) == p_member(tokens_view(ts@), pos as int),
        r matches Ok((_, p)) ==> pos < p <= ts.len(),
    decreases ts.len() - pos, 6nat,
{
    match parse_primary(ts, pos) {
        Err(e) => Err(e),
        Ok((e, p)) => parse_member_tail(ts, p, e),
    }
}

fn parse_member_tail(ts: &Vec<Token>, pos: usize, e: Expr) -> (r: Result<
    (Expr, usize),
    ParseError,
>)
    requires
        pos <= ts.len(),
    ensures
        parsed_expr(r) == p_member_tail(tokens_view(ts@), pos as int, e@),
        r matches Ok((_, p)) ==> pos <= p <= ts.len(),
    decreases ts.len() - pos, 5nat,
{
    let ghost tv = tokens_view(ts@);
    if pos >= ts.len() {
        return Ok((e, pos));
    }
    if sym_is(ts, pos, Sym::Dot) {
        if pos + 1 < ts.len() {
            assert(tv[pos + 1] == ts[pos + 1]@);
            match &ts[pos + 1] {
                Token::Ident(name) => {
                    if sym_is(ts, pos + 2, Sym::LParen) {
                        match parse_list(ts, pos + 3, Sym::RParen, no_exprs()) {
                            Err(err) => Err(err),
                            Ok((args, p)) => parse_member_tail(
                                ts,
                                p,
                                make_method_call(e, name, args),
                            ),
                        }
                    } else {
                        parse_member_tail(ts, pos + 2, Expr::GetAttr(Box::new(e), name.clone()))
                    }
                },
                _ => Err(unexpected_at(ts, pos + 1)),
            }
        } else {
            Err(unexpected_at(ts, pos + 1))
        }
    } else if sym_is(ts, pos, Sym::LBracket) {
        if pos + 1 < ts.len() && sym_is(ts, pos + 2, Sym::RBracket) {
            assert(tv[pos + 1] == ts[pos + 1]@);
            match &ts[pos + 1] {
                Token::Str(raw) => match unescape_raw(raw) {
                    Some(a) => parse_member_tail(ts, pos + 3, Expr::GetAttr(Box::new(e), a)),
                    None => Err(fail(ParseErrorKind::BadString, pos + 1)),
                },
                _ => Err(unexpected_at(ts, pos + 1)),
            }
        } else {
            Err(unexpected_at(ts, pos + 1))
        }
    } else {
        Ok((e, pos))
    }
}

fn parse_primary(ts: &Vec<Token>, pos: usize) -> (r: Result<(Expr, usize), ParseError>)
    requires
        pos < ts.len(),
    ensures
        parsed_expr(r) == p_primary(tokens_view(ts@), pos as int),
        r matches Ok((_, p)) ==> pos < p <= ts.len(),
    decreases ts.len() - pos, 4nat,
{
    let ghost tv = tokens_view(ts@);
    assert(tv[pos as int] == ts[pos as int]@);
    match &ts[pos] {
        Token::Int(m) => {
            if *m <= 9223372036854775807 {
                Ok((Expr::long(*m as i64), pos + 1))
            } else {
                Err(fail(ParseErrorKind::IntegerTooLarge, pos))
            }
        },
        Token::Str(raw) => match unescape_raw(raw) {
            Some(t) => Ok((Expr::Lit(Literal::String(t)), pos + 1)),
            None => Err(fail(ParseErrorKind::BadString, pos)),
        },
        Token::Sym(sym) => {
            match sym {
                Sym::SlotPrincipal => Ok((Expr::Slot(SlotId::Principal), pos + 1)),
                Sym::SlotResource => Ok((Expr::Slot(SlotId::Resource), pos + 1)),
                Sym::LParen => match parse_expr(ts, pos + 1) {
                    Err(e) => Err(e),
                    Ok((e, p)) => {
                        if sym_is(ts, p, Sym::RParen) {
                            Ok((e, p + 1))
                        } else {
                            Err(unexpected_at(ts, p))
                        }
                    },
                },
                Sym::LBracket => match parse_list(ts, pos + 1, Sym::RBracket, no_exprs()) {
                    Err(e) => Err(e),
                    Ok((es, p)) => Ok((Expr::set(es), p)),
                },
                Sym::LBrace => match parse_fields(ts, pos + 1, no_fields()) {
                    Err(e) => Err(e),
                    Ok((fs, p)) => {
                        proof {
                            lemma_record_expr_view(fs);
                        }
                        Ok((Expr::Record(fs), p))
                    },
                },
                _ => Err(unexpected_at(ts, pos)),
            }
        },
        Token::Ident(w) => {
            if text_is(w, "true") {
                Ok((Expr::bool(true), pos + 1))
            } else if text_is(w, "false") {
                Ok((Expr::bool(false), pos + 1))
            } else {
                let var = var_named(w);
                if var.is_some() && !sym_is(ts, pos + 1, Sym::ColonColon) {
                    match var {
                        Some(v) => Ok((Expr::var(v), pos + 1)),
                        None => Err(unexpected_at(ts, pos)),
                    }
                } else {
                    match parse_name(ts, pos) {
                        Err(e) => Err(e),
                        Ok((name, p)) => {
                            if sym_is(ts, p, Sym::ColonColon) {
                                if p + 1 < ts.len() {
                                    assert(tv[p + 1] == ts[p + 1]@);
                                    match &ts[p + 1] {
                                        Token::Str(raw) => match unescape_raw(raw) {
                                            Some(eid) => Ok(
                                                (
                                                    Expr::uid(
                                                        EntityUid {
                                                            ty: EntityType::Specified(name),
                                                            eid,
                                                        },
                                                    ),
                                                    p + 2,
                                                ),
                                            ),
                                            None => Err(fail(ParseErrorKind::BadString, p + 1)),
                                        },
                                        _ => Err(unexpected_at(ts, p + 1)),
                                    }
                                } else {
                                    Err(unexpected_at(ts, p + 1))
                                }
                            } else if sym_is(ts, p, Sym::LParen) {
                                match parse_list(ts, p + 1, Sym::RParen, no_exprs()) {
                                    Err(e) => Err(e),
                                    Ok((args, q)) => {
                                        proof {
                                            lemma_call_view(name, args);
                                        }
                                        Ok((Expr::Call(name, args), q))
                                    },
                                }
                            } else {
                                Err(unexpected_at(ts, p))
                            }
                        },
                    }
                }
            }
        },
    }
}

fn parse_list(ts: &Vec<Token>, pos: usize, close: Sym, acc: Vec<Expr>) -> (r: Result<
    (Vec<Expr>, usize),
    ParseError,
>)
    requires
        pos <= ts.len(),
    ensures
        r is Ok <==> p_list(tokens_view(ts@), pos as int, close, exprs_view(acc@)) is Ok,
        r matches Ok((es, p)) ==> p_list(tokens_view(ts@), pos as int, close, exprs_view(acc@))
            == Ok::<(Seq<ExprV>, int), ParseError>((exprs_view(es@), p as int)) && pos < p
            <= ts.len(),
        r is Err ==> p_list(tokens_view(ts@), pos as int, close, exprs_view(acc@)) == Err::<
            (Seq<ExprV>, int),
            ParseError,
        >(r->Err_0),
    decreases ts.len() - pos, 22nat,
{
    if pos >= ts.len() {
        return Err(unexpected_at(ts, pos));
    }
    if sym_is(ts, pos, close) {
        return Ok((acc, pos + 1));
    }
    match parse_expr(ts, pos) {
        Err(e) => Err(e),
        Ok((e, p)) => {
            let ghost before = exprs_view(acc@);
            let mut acc = acc;
            acc.push(e);
            assert(exprs_view(acc@) =~= before.push(e@));
            if sym_is(ts, p, Sym::Comma) {
                parse_list(ts, p + 1, close, acc)
            } else if sym_is(ts, p, close) {
                Ok((acc, p + 1))
            } else {
                Err(unexpected_at(ts, p))
            }
        },
    }
}

fn parse_fields(ts: &Vec<Token>, pos: usize, acc: Vec<(String, Expr)>) -> (r: Result<
    (Vec<(String, Expr)>, usize),
    ParseError,
>)
    requires
        pos <= ts.len(),
    ensures
        r is Ok <==> p_fields(tokens_view(ts@), pos as int, expr_fields_view(acc@)) is Ok,
        r matches Ok((fs, p)) ==> p_fields(tokens_view(ts@), pos as int, expr_fields_view(acc@))
            == Ok::<(Seq<(Seq<char>, ExprV)>, int), ParseError>(
            (expr_fields_view(fs@), p as int),
        ) && pos < p <= ts.len(),
        r is Err ==> p_fields(tokens_view(ts@), pos as int, expr_fields_view(acc@)) == Err::<
            (Seq<(Seq<char>, ExprV)>, int),
            ParseError,
        >(r->Err_0),
    decreases ts.len() - pos, 22nat,
{
    if pos >= ts.len() {
        return Err(unexpected_at(ts, pos));
    }
    if sym_is(ts, pos, Sym::RBrace) {
        return Ok((acc, pos + 1));
    }
    match attr_of_token(ts, pos) {
        Err(e) => Err(e),
        Ok(k) => {
            if key_in(&acc, &k) {
                return Err(fail(ParseErrorKind::DuplicateKey, pos));
            }
            if !sym_is(ts, pos + 1, Sym::Colon) {
                return Err(unexpected_at(ts, pos + 1));
            }
            match parse_expr(ts, pos + 2) {
                Err(e) => Err(e),
                Ok((e, p)) => {
                    let ghost before = expr_fields_view(acc@);
                    let mut acc = acc;
                    let ghost kv = k@;
                    acc.push((k, e));
                    assert(expr_fields_view(acc@) =~= before.push((kv, e@)));
                    if sym_is(ts, p, Sym::Comma) {
                        parse_fields(ts, p + 1, acc)
                    } else if sym_is(ts, p, Sym::RBrace) {
                        Ok((acc, p + 1))
                    } else {
                        Err(unexpected_at(ts, p))
                    }
                },
            }
        },
    }
}

/// The model of what was read of a reference.
pub open spec fn parsed_ref(r: Result<(EntityRef, usize), ParseError>) -> Parsed<EntityRefV> {
    match r {
        Ok((x, p)) => Ok((x@, p as int)),
        Err(e) => Err(e),
    }
}

/// The model of what was read of a scope constraint.
pub open spec fn parsed_scope(r: Result<(ScopeConstraint, usize), ParseError>) -> Parsed<
    ScopeConstraintV,
> {
    match r {
        Ok((x, p)) => Ok((x@, p as int)),
        Err(e) => Err(e),
    }
}

/// The model of what was read of an action constraint.
pub open spec fn parsed_action(r: Result<(ActionConstraint, usize), ParseError>) -> Parsed<
    ActionConstraintV,
> {
    match r {
        Ok((x, p)) => Ok((x@, p as int)),
        Err(e) => Err(e),
    }
}

/// The model of what was read of a policy.
pub open spec fn parsed_policy(r: Result<(Policy, usize), ParseError>) -> Parsed<PolicyV> {
    match r {
        Ok((x, p)) => Ok((x@, p as int)),
        Err(e) => Err(e),
    }
}

fn parse_ref(ts: &Vec<Token>, pos: usize, slot: Sym) -> (r: Result<(EntityRef, usize), ParseError>)
    ensures
        parsed_ref(r) == p_ref(tokens_view(ts@), pos as int, slot),
        r matches Ok((_, p)) ==> pos < p <= ts.len(),
{
    if sym_is(ts, pos, slot) {
        Ok((EntityRef::Slot, pos + 1))
    } else if sym_is(ts, pos, Sym::SlotPrincipal) || sym_is(ts, pos, Sym::SlotResource) {
        Err(fail(ParseErrorKind::SlotNotAllowed, pos))
    } else {
        match parse_entity(ts, pos) {
            Err(e) => Err(e),
            Ok((u, p)) => Ok((EntityRef::Uid(u), p)),
        }
    }
}

fn parse_scope(ts: &Vec<Token>, pos: usize, var: &str, slot: Sym) -> (r: Result<
    (ScopeConstraint, usize),
    ParseError,
>)
    ensures
        parsed_scope(r) == p_scope(tokens_view(ts@), pos as int, var@, slot),
        r matches Ok((_, p)) ==> pos < p <= ts.len(),
{
    if !word_is(ts, pos, var) {
        return Err(unexpected_at(ts, pos));
    }
    if sym_is(ts, pos + 1, Sym::EqEq) {
        match parse_ref(ts, pos + 2, slot) {
            Err(e) => Err(e),
            Ok((r, p)) => Ok((ScopeConstraint::Eq(r), p)),
        }
    } else if word_is(ts, pos + 1, "in") {
        match parse_ref(ts, pos + 2, slot) {
            Err(e) => Err(e),
            Ok((r, p)) => Ok((ScopeConstraint::In(r), p)),
        }
    } else if word_is(ts, pos + 1, "is") {
        match parse_name(ts, pos + 2) {
            Err(e) => Err(e),
            Ok((n, p)) => {
                if word_is(ts, p, "in") {
                    match parse_ref(ts, p + 1, slot) {
                        Err(e) => Err(e),
                        Ok((r, q)) => Ok((ScopeConstraint::IsIn(n, r), q)),
                    }
                } else {
                    Ok((ScopeConstraint::Is(n), p))
                }
            },
        }
    } else {
        Ok((ScopeConstraint::Any, pos + 1))
    }
}

fn parse_entities(ts: &Vec<Token>, pos: usize) -> (r: Result<(Vec<EntityUid>, usize), ParseError>)
    requires
        pos <= ts.len(),
    ensures
        r is Ok <==> p_entities(tokens_view(ts@), pos as int, Seq::empty()) is Ok,
        r matches Ok((us, p)) ==> p_entities(tokens_view(ts@), pos as int, Seq::empty()) == Ok::<
            (Seq<EntityUidV>, int),
            ParseError,
        >((uids_view(us@), p as int)) && pos < p <= ts.len(),
        r is Err ==> p_entities(tokens_view(ts@), pos as int, Seq::empty()) == Err::<
            (Seq<EntityUidV>, int),
            ParseError,
        >(r->Err_0),
{
    let ghost tv = tokens_view(ts@);
    let mut acc: Vec<EntityUid> = Vec::new();
    let mut i: usize = pos;
    assert(uids_view(acc@) =~= Seq::empty());
    loop
        invariant
            pos <= i <= ts.len(),
            tv == tokens_view(ts@),
            p_entities(tv, pos as int, Seq::empty()) == p_entities(tv, i as int, uids_view(acc@)),
        decreases ts.len() - i,
    {
        if i >= ts.len() {
            return Err(unexpected_at(ts, i));
        }
        if sym_is(ts, i, Sym::RBracket) {
            return Ok((acc, i + 1));
        }
        match parse_entity(ts, i) {
            Err(e) => {
                return Err(e);
            },
            Ok((u, p)) => {
                let ghost before = uids_view(acc@);
                acc.push(u);
                assert(uids_view(acc@) =~= before.push(u@));
                if sym_is(ts, p, Sym::Comma) {
                    i = p + 1;
                } else if sym_is(ts, p, Sym::RBracket) {
                    return Ok((acc, p + 1));
                } else {
                    return Err(unexpected_at(ts, p));
                }
            },
        }
    }
}

fn parse_action(ts: &Vec<Token>, pos: usize) -> (r: Result<(ActionConstraint, usize), ParseError>)
    ensures
        parsed_action(r) == p_action(tokens_view(ts@), pos as int),
        r matches Ok((_, p)) ==> pos < p <= ts.len(),
{
    if !word_is(ts, pos, "action") {
        return Err(unexpected_at(ts, pos));
    }
    if sym_is(ts, pos + 1, Sym::EqEq) {
        match parse_entity(ts, pos + 2) {
            Err(e) => Err(e),
            Ok((u, p)) => Ok((ActionConstraint::Eq(u), p)),
        }
    } else if word_is(ts, pos + 1, "in") {
        if sym_is(ts, pos + 2, Sym::LBracket) {
            match parse_entities(ts, pos + 3) {
                Err(e) => Err(e),
                Ok((us, p)) => Ok((ActionConstraint::In(us), p)),
            }
        } else {
            match parse_entity(ts, pos + 2) {
                Err(e) => Err(e),
                Ok((u, p)) => {
                    let mut us: Vec<EntityUid> = Vec::new();
                    let ghost uv = u@;
                    us.push(u);
                    assert(uids_view(us@) =~= seq![uv]);
                    Ok((ActionConstraint::In(us), p))
                },
            }
        }
    } else {
        Ok((ActionConstraint::Any, pos + 1))
    }
}

/// The model of an optional expression.
pub open spec fn opt_expr_view(e: Option<Expr>) -> Option<ExprV> {
    match e {
        Some(e) => Some(e@),
        None => None,
    }
}

fn parse_conditions(ts: &Vec<Token>, pos: usize) -> (r: Result<(Expr, usize), ParseError>)
    requires
        pos <= ts.len(),
    ensures
        parsed_expr(r) == p_conditions(tokens_view(ts@), pos as int, None),
        r matches Ok((_, p)) ==> pos < p <= ts.len(),
{
    let ghost tv = tokens_view(ts@);
    let mut acc: Option<Expr> = None;
    let mut i: usize = pos;
    loop
        invariant
            pos <= i <= ts.len(),
            tv == tokens_view(ts@),
            p_conditions(tv, pos as int, None) == p_conditions(tv, i as int, opt_expr_view(acc)),
        decreases ts.len() - i,
    {
        if i >= ts.len() {
            return Err(unexpected_at(ts, i));
        }
        let when = word_is(ts, i, "when");
        if when || word_is(ts, i, "unless") {
            if !sym_is(ts, i + 1, Sym::LBrace) {
                return Err(unexpected_at(ts, i + 1));
            }
            match parse_expr(ts, i + 2) {
                Err(e) => {
                    return Err(e);
                },
                Ok((e, p)) => {
                    if !sym_is(ts, p, Sym::RBrace) {
                        return Err(unexpected_at(ts, p));
                    }
                    let clause = if when {
                        e
                    } else {
                        Expr::not(e)
                    };
                    acc = Some(
                        match acc {
                            Some(a) => Expr::and(a, clause),
                            None => clause,
                        },
                    );
                    i = p + 1;
                },
            }
        } else if sym_is(ts, i, Sym::Semicolon) {
            let condition = match acc {
                Some(a) => a,
                None => Expr::bool(true),
            };
            return Ok((condition, i + 1));
        } else {
            return Err(unexpected_at(ts, i));
        }
    }
}

fn effect_of(ts: &Vec<Token>, pos: usize) -> (r: Option<Effect>)
    ensures
        r == effect_at(tokens_view(ts@), pos as int),
        r is Some ==> pos < ts.len(),
{
    if word_is(ts, pos, "permit") {
        Some(Effect::Permit)
    } else if word_is(ts, pos, "forbid") {
        Some(Effect::Forbid)
    } else {
        None
    }
}

/// A policy under the identifier `id`.
pub fn parse_policy_at(ts: &Vec<Token>, pos: usize, id: PolicyId) -> (r: Result<
    (Policy, usize),
    ParseError,
>)
    ensures
        parsed_policy(r) == p_policy(tokens_view(ts@), pos as int, id@),
        r matches Ok((_, p)) ==> pos < p <= ts.len(),
{
    let effect = match effect_of(ts, pos) {
        None => {
            return Err(unexpected_at(ts, pos));
        },
        Some(e) => e,
    };
    if !sym_is(ts, pos + 1, Sym::LParen) {
        return Err(unexpected_at(ts, pos + 1));
    }
    let (principal, p1) = match parse_scope(ts, pos + 2, "principal", Sym::SlotPrincipal) {
        Err(e) => {
            return Err(e);
        },
        Ok(x) => x,
    };
    if !sym_is(ts, p1, Sym::Comma) {
        return Err(unexpected_at(ts, p1));
    }
    let (action, p2) = match parse_action(ts, p1 + 1) {
        Err(e) => {
            return Err(e);
        },
        Ok(x) => x,
    };
    if !sym_is(ts, p2, Sym::Comma) {
        return Err(unexpected_at(ts, p2));
    }
    let (resource, p3) = match parse_scope(ts, p2 + 1, "resource", Sym::SlotResource) {
        Err(e) => {
            return Err(e);
        },
        Ok(x) => x,
    };
    if !sym_is(ts, p3, Sym::RParen) {
        return Err(unexpected_at(ts, p3));
    }
    match parse_conditions(ts, p3 + 1) {
        Err(e) => Err(e),
        Ok((condition, p4)) => Ok(
            (Policy { id, effect, principal, action, resource, condition }, p4),
        ),
    }
}

/// The identifier of the policy at position `n` of a text of policies.
pub fn numbered(n: usize) -> (r: PolicyId)
    ensures
        r@ == numbered_id(n as nat),
{
    let mut s = String::from_str("policy");
    crate::text::push_nat(&mut s, n as u64);
    PolicyId(s)
}

/// The policies that the tokens `ts` denote, each under the identifier
/// `policy` and its position.
pub fn parse_policies(ts: &Vec<Token>) -> (r: Result<Vec<Policy>, ParseError>)
    ensures
        r is Ok <==> p_policies(tokens_view(ts@), 0, Seq::empty()) is Ok,
        r is Ok ==> policies_view(r->Ok_0@) == p_policies(tokens_view(ts@), 0, Seq::empty())->Ok_0,
        r is Err ==> r->Err_0 == p_policies(tokens_view(ts@), 0, Seq::empty())->Err_0,
{
    let ghost tv = tokens_view(ts@);
    let mut out: Vec<Policy> = Vec::new();
    let mut i: usize = 0;
    assert(policies_view(out@) =~= Seq::empty());
    while i < ts.len()
        invariant
            i <= ts.len(),
            tv == tokens_view(ts@),
            p_policies(tv, 0, Seq::empty()) == p_policies(tv, i as int, policies_view(out@)),
        decreases ts.len() - i,
    {
        match parse_policy_at(ts, i, numbered(out.len())) {
            Err(e) => {
                return Err(e);
            },
            Ok((p, q)) => {
                let ghost before = policies_view(out@);
                out.push(p);
                assert(policies_view(out@) =~= before.push(p@));
                i = q;
            },
        }
    }
    Ok(out)
}

/// The expression that `text` denotes as a whole.
pub open spec fn expr_of_text(text: Seq<char>) -> Result<ExprV, ParseError> {
    match tokens_of(text) {
        Err(e) => Err(e),
        Ok(ts) => match p_expr(ts, 0) {
            Err(e) => Err(e),
            Ok((e, p)) => if p == ts.len() {
                Ok(e)
            } else {
                Err(unexpected(ts, p))
            },
        },
    }
}

/// The policy that `text` denotes as a whole, under the identifier `id`.
pub open spec fn policy_of_text(id: Seq<char>, text: Seq<char>) -> Result<PolicyV, ParseError> {
    match tokens_of(text) {
        Err(e) => Err(e),
        Ok(ts) => p_one_policy(ts, id),
    }
}

/// The policies that `text` denotes, each under the identifier `policy`
/// and its position in the text.
pub open spec fn policies_of_text(text: Seq<char>) -> Result<Seq<PolicyV>, ParseError> {
    match tokens_of(text) {
        Err(e) => Err(e),
        Ok(ts) => p_policies(ts, 0, Seq::empty()),
    }
}

/// The expression that `text` denotes as a whole.
pub fn parse_expression(text: &str) -> (r: Result<Expr, ParseError>)
    ensures
        r is Ok <==> expr_of_text(text@) is Ok,
        r is Ok ==> r->Ok_0@ == expr_of_text(text@)->Ok_0,
        r is Err ==> r->Err_0 == expr_of_text(text@)->Err_0,
{
    match tokenize(text) {
        Err(e) => Err(e),
        Ok(ts) => match parse_expr(&ts, 0) {
            Err(e) => Err(e),
            Ok((e, p)) => {
                if p == ts.len() {
                    Ok(e)
                } else {
                    Err(unexpected_at(&ts, p))
                }
            },
        },
    }
}

/// The policy or template that `text` denotes as a whole, under the
/// identifier `id`.
pub fn parse_policy_or_template(id: &str, text: &str) -> (r: Result<Policy, ParseError>)
    ensures
        r is Ok <==> policy_of_text(id@, text@) is Ok,
        r is Ok ==> r->Ok_0@ == policy_of_text(id@, text@)->Ok_0,
        r is Err ==> r->Err_0 == policy_of_text(id@, text@)->Err_0,
{
    match tokenize(text) {
        Err(e) => Err(e),
        Ok(ts) => match parse_policy_at(&ts, 0, PolicyId::new(id)) {
            Err(e) => Err(e),
            Ok((p, q)) => {
                if q == ts.len() {
                    Ok(p)
                } else {
                    Err(fail(ParseErrorKind::ExpectedOnePolicy, q))
                }
            },
        },
    }
}

/// The static policy that `text` denotes under the identifier `id`: what
/// [`policy_of_text`] says, provided that it has no slot.
pub open spec fn static_policy_of_text(id: Seq<char>, text: Seq<char>) -> Result<
    PolicyV,
    ParseError,
> {
    match policy_of_text(id, text) {
        Err(e) => Err(e),
        Ok(p) => if is_template(p) {
            Err(ParseError { kind: ParseErrorKind::ExpectedStaticPolicy, position: 0 })
        } else {
            Ok(p)
        },
    }
}

/// The template that `text` denotes under the identifier `id`: what
/// [`policy_of_text`] says, provided that it has a slot.
pub open spec fn template_of_text(id: Seq<char>, text: Seq<char>) -> Result<PolicyV, ParseError> {
    match policy_of_text(id, text) {
        Err(e) => Err(e),
        Ok(p) => if is_template(p) {
            Ok(p)
        } else {
            Err(ParseError { kind: ParseErrorKind::ExpectedTemplate, position: 0 })
        },
    }
}

impl Policy {
    /// The static policy that `text` denotes, under the identifier `id`.
    pub fn parse(id: &str, text: &str) -> (r: Result<Policy, ParseError>)
        ensures
            r is Ok <==> static_policy_of_text(id@, text@) is Ok,
            r is Ok ==> r->Ok_0@ == static_policy_of_text(id@, text@)->Ok_0,
            r is Err ==> r->Err_0 == static_policy_of_text(id@, text@)->Err_0,
    {
        match parse_policy_or_template(id, text) {
            Err(e) => Err(e),
            Ok(p) => {
                if p.is_template() {
                    Err(ParseError { kind: ParseErrorKind::ExpectedStaticPolicy, position: 0 })
                } else {
                    Ok(p)
                }
            },
        }
    }

    /// The template that `text` denotes, under the identifier `id`.
    pub fn parse_template(id: &str, text: &str) -> (r: Result<Policy, ParseError>)
        ensures
            r is Ok <==> template_of_text(id@, text@) is Ok,
            r is Ok ==> r->Ok_0@ == template_of_text(id@, text@)->Ok_0,
            r is Err ==> r->Err_0 == template_of_text(id@, text@)->Err_0,
    {
        match parse_policy_or_template(id, text) {
            Err(e) => Err(e),
            Ok(p) => {
                if p.is_template() {
                    Ok(p)
                } else {
                    Err(ParseError { kind: ParseErrorKind::ExpectedTemplate, position: 0 })
                }
            },
        }
    }
}

/// What is wrong, in words.
pub open spec fn kind_text(kind: ParseErrorKind) -> Seq<char> {
    match kind {
        ParseErrorKind::UnexpectedCharacter => "unexpected character"@,
        ParseErrorKind::BadString => "invalid string literal"@,
        ParseErrorKind::IntegerTooLarge => "integer literal is too large"@,
        ParseErrorKind::UnexpectedToken => "unexpected token"@,
        ParseErrorKind::UnexpectedEnd => "unexpected end of input"@,
        ParseErrorKind::NonConstantMultiplication => "multiplication must be by a constant"@,
        ParseErrorKind::DuplicateKey => "duplicate key in record literal"@,
        ParseErrorKind::ReservedName => "reserved word used as a name"@,
        ParseErrorKind::SlotNotAllowed => "slot is not allowed here"@,
        ParseErrorKind::ExpectedStaticPolicy => "expected a static policy, got a template"@,
        ParseErrorKind::ExpectedTemplate => "expected a template, got a static policy"@,
        ParseErrorKind::ExpectedOnePolicy => "expected exactly one policy"@,
    }
}

/// The message of a parse error: what is wrong, and where.
pub open spec fn parse_error_message(e: ParseError) -> Seq<char> {
    kind_text(e.kind) + " at position "@ + crate::text::nat_to_dec(e.position as nat)
}

impl ParseError {
    /// The message of this error.
    pub fn message(&self) -> (r: String)
        ensures
            r@ == parse_error_message(*self),
    {
        let mut out = match self.kind {
            ParseErrorKind::UnexpectedCharacter => String::from_str("unexpected character"),
            ParseErrorKind::BadString => String::from_str("invalid string literal"),
            ParseErrorKind::IntegerTooLarge => String::from_str("integer literal is too large"),
            ParseErrorKind::UnexpectedToken => String::from_str("unexpected token"),
            ParseErrorKind::UnexpectedEnd => String::from_str("unexpected end of input"),
            ParseErrorKind::NonConstantMultiplication => String::from_str(
                "multiplication must be by a constant",
            ),
            ParseErrorKind::DuplicateKey => String::from_str("duplicate key in record literal"),
            ParseErrorKind::ReservedName => String::from_str("reserved word used as a name"),
            ParseErrorKind::SlotNotAllowed => String::from_str("slot is not allowed here"),
            ParseErrorKind::ExpectedStaticPolicy => String::from_str(
                "expected a static policy, got a template",
            ),
            ParseErrorKind::ExpectedTemplate => String::from_str(
                "expected a template, got a static policy",
            ),
            ParseErrorKind::ExpectedOnePolicy => String::from_str("expected exactly one policy"),
        };
        out.append(" at position ");
        crate::text::push_nat(&mut out, self.position as u64);
        out
    }
}

/// The policy set that is made of the given policies and templates: the
/// templates are those that have a slot, and both are kept in their order.
pub open spec fn split_policies(ps: Seq<PolicyV>) -> PolicySetV
    decreases ps.len(),
{
    if ps.len() == 0 {
        PolicySetV { templates: Seq::empty(), policies: Seq::empty() }
    } else {
        let before = split_policies(ps.drop_last());
        if is_template(ps.last()) {
            PolicySetV { templates: before.templates.push(ps.last()), policies: before.policies }
        } else {
            PolicySetV { templates: before.templates, policies: before.policies.push(ps.last()) }
        }
    }
}

/// The policy set that `text` denotes. Each policy and template has the
/// identifier `policy` and its position in the text.
pub open spec fn policy_set_of_text(text: Seq<char>) -> Result<PolicySetV, ParseError> {
    match policies_of_text(text) {
        Err(e) => Err(e),
        Ok(ps) => Ok(split_policies(ps)),
    }
}

/// Two positions have two identifiers.
pub proof fn lemma_numbered_distinct(i: nat, j: nat)
    requires
        i != j,
    ensures
        numbered_id(i) != numbered_id(j),
{
    crate::literal::lemma_nat_to_dec(i);
    crate::literal::lemma_nat_to_dec(j);
    let a = crate::text::nat_to_dec(i);
    let b = crate::text::nat_to_dec(j);
    if numbered_id(i) == numbered_id(j) {
        let n = "policy"@.len() as int;
        assert(numbered_id(i).skip(n) =~= a);
        assert(numbered_id(j).skip(n) =~= b);
    }
}

/// Every policy that is read has the identifier of its position.
pub proof fn lemma_policies_are_numbered(ts: Seq<TokenV>, pos: int, acc: Seq<PolicyV>)
    requires
        p_policies(ts, pos, acc) is Ok,
        forall|i: int| 0 <= i < acc.len() ==> (#[trigger] acc[i]).id == numbered_id(i as nat),
    ensures
        forall|i: int|
            0 <= i < p_policies(ts, pos, acc)->Ok_0.len() ==> (#[trigger] p_policies(
                ts,
                pos,
                acc,
            )->Ok_0[i]).id == numbered_id(i as nat),
    decreases ts.len() - pos,
{
    if 0 <= pos < ts.len() {
        let r = advance(p_policy(ts, pos, numbered_id(acc.len())), pos, ts.len());
        let p = r->Ok_0.0;
        let q = r->Ok_0.1;
        let next = acc.push(p);
        assert(p.id == numbered_id(acc.len()));
        assert forall|i: int| 0 <= i < next.len() implies (#[trigger] next[i]).id == numbered_id(
            i as nat,
        ) by {
            if i < acc.len() {
                assert(next[i] == acc[i]);
            }
        }
        lemma_policies_are_numbered(ts, q, next);
    }
}

/// Whether every policy and template of the set has one of the first `k`
/// numbered identifiers.
pub open spec fn numbered_below(set: PolicySetV, k: nat) -> bool {
    &&& forall|i: int|
        0 <= i < set.templates.len() ==> exists|j: nat|
            j < k && (#[trigger] set.templates[i]).id == numbered_id(j)
    &&& forall|i: int|
        0 <= i < set.policies.len() ==> exists|j: nat|
            j < k && (#[trigger] set.policies[i]).id == numbered_id(j)
}

/// A set whose identifiers are among the first `k` does not hold the next.
pub proof fn lemma_next_is_fresh(set: PolicySetV, k: nat)
    requires
        numbered_below(set, k),
    ensures
        !crate::policy_set::has_id(set.templates, numbered_id(k)),
        !crate::policy_set::has_id(set.policies, numbered_id(k)),
{
    assert forall|i: int| 0 <= i < set.templates.len() implies (#[trigger] set.templates[i]).id
        != numbered_id(k) by {
        let j = choose|j: nat| j < k && set.templates[i].id == numbered_id(j);
        lemma_numbered_distinct(j, k);
    }
    assert forall|i: int| 0 <= i < set.policies.len() implies (#[trigger] set.policies[i]).id
        != numbered_id(k) by {
        let j = choose|j: nat| j < k && set.policies[i].id == numbered_id(j);
        lemma_numbered_distinct(j, k);
    }
}

impl PolicySet {
    /// The policy set that `text` denotes: the policies and templates
    /// that are written in it, each under the identifier `policy` and its
    /// position in the text.
    pub fn from_text(text: &str) -> (r: Result<PolicySet, ParseError>)
        ensures
            r is Ok <==> policy_set_of_text(text@) is Ok,
            r is Ok ==> r->Ok_0@ == policy_set_of_text(text@)->Ok_0 && r->Ok_0.wf(),
            r is Err ==> r->Err_0 == policy_set_of_text(text@)->Err_0,
    {
        let ts = match tokenize(text) {
            Err(e) => {
                return Err(e);
            },
            Ok(ts) => ts,
        };
        let ps = match parse_policies(&ts) {
            Err(e) => {
                return Err(e);
            },
            Ok(ps) => ps,
        };
        let ghost pv = policies_view(ps@);
        proof {
            lemma_policies_are_numbered(tokens_view(ts@), 0, Seq::empty());
        }
        let mut set = PolicySet::new();
        let mut k: usize = 0;
        while k < ps.len()
            invariant
                k <= ps.len(),
                pv == policies_view(ps@),
                forall|i: int| 0 <= i < pv.len() ==> (#[trigger] pv[i]).id == numbered_id(i as nat),
                set@ == split_policies(pv.take(k as int)),
                numbered_below(set@, k as nat),
                set.wf(),
            decreases ps.len() - k,
        {
            let p = ps[k].clone();
            proof {
                assert(pv.take(k + 1).drop_last() =~= pv.take(k as int));
                assert(pv.take(k + 1).last() == pv[k as int]);
                assert(p@ == pv[k as int]);
                lemma_next_is_fresh(set@, k as nat);
            }
            let ghost before = set@;
            if p.is_template() {
                match set.add_template(p) {
                    Ok(()) => {},
                    Err(_) => {
                        assert(false);
                    },
                }
            } else {
                match set.add(p) {
                    Ok(()) => {},
                    Err(_) => {
                        assert(false);
                    },
                }
            }
            proof {
                let after = set@;
                assert forall|i: int| 0 <= i < after.templates.len() implies exists|j: nat|
                    j < k + 1 && (#[trigger] after.templates[i]).id == numbered_id(j) by {
                    if i < before.templates.len() {
                        assert(after.templates[i] == before.templates[i]);
                        let j = choose|j: nat| j < k && before.templates[i].id == numbered_id(j);
                        assert(j < k + 1 && after.templates[i].id == numbered_id(j));
                    } else {
                        assert(after.templates[i].id == numbered_id(k as nat));
                    }
                }
                assert forall|i: int| 0 <= i < after.policies.len() implies exists|j: nat|
                    j < k + 1 && (#[trigger] after.policies[i]).id == numbered_id(j) by {
                    if i < before.policies.len() {
                        assert(after.policies[i] == before.policies[i]);
                        let j = choose|j: nat| j < k && before.policies[i].id == numbered_id(j);
                        assert(j < k + 1 && after.policies[i].id == numbered_id(j));
                    } else {
                        assert(after.policies[i].id == numbered_id(k as nat));
                    }
                }
            }
            k += 1;
        }
        assert(pv.take(k as int) =~= pv);
        Ok(set)
    }
}

} // verus!
