//! The grammar of the policy language: what a sequence of tokens denotes.
//!
//! Every function reads from a position in the tokens and yields what it
//! read together with the position after it, or the first error.
use vstd::prelude::*;
use crate::ast::{BinaryOp, ExprV, LiteralV, PatternElem, SlotId, UnaryOp, Var};
use crate::lexer::{ParseError, ParseErrorKind, Sym, TokenV};
use crate::literal::{read_string_from, unescape_char};
use crate::names::is_reserved;
use crate::policy::{ActionConstraintV, Effect, EntityRefV, PolicyV, ScopeConstraintV};
use crate::text::nat_to_dec;
use crate::value::{EntityTypeV, EntityUidV};

verus! {

/// What was read, and the position after it, or the first error.
pub type Parsed<T> = Result<(T, int), ParseError>;

/// The error of the given kind at the position `pos`.
pub open spec fn error_at(kind: ParseErrorKind, pos: int) -> ParseError {
    ParseError { kind, position: pos as usize }
}

/// The error for what stands at the position `pos` and cannot stand there.
pub open spec fn unexpected(ts: Seq<TokenV>, pos: int) -> ParseError {
    if 0 <= pos < ts.len() {
        error_at(ParseErrorKind::UnexpectedToken, pos)
    } else {
        error_at(ParseErrorKind::UnexpectedEnd, pos)
    }
}

/// `r`, provided that it ends after `pos` and within `len` tokens.
pub open spec fn advance<T>(r: Parsed<T>, pos: int, len: nat) -> Parsed<T> {
    match r {
        Ok((_, p)) => if pos < p <= len {
            r
        } else {
            Err(error_at(ParseErrorKind::UnexpectedEnd, pos))
        },
        Err(_) => r,
    }
}

/// Whether the symbol `sym` stands at the position `pos`.
pub open spec fn sym_at(ts: Seq<TokenV>, pos: int, sym: Sym) -> bool {
    0 <= pos < ts.len() && ts[pos] == TokenV::Sym(sym)
}

/// Whether the word `w` stands at the position `pos`.
pub open spec fn word_at(ts: Seq<TokenV>, pos: int, w: Seq<char>) -> bool {
    0 <= pos < ts.len() && ts[pos] == TokenV::Ident(w)
}

/// The string that a string literal with the content `raw` denotes.
#[verifier::opaque]
pub open spec fn unescaped(raw: Seq<char>) -> Option<Seq<char>> {
    match read_string_from(raw.push('"'), 0, Seq::empty()) {
        Some((t, end)) => if end == raw.len() + 1 {
            Some(t)
        } else {
            None
        },
        None => None,
    }
}

/// The pattern that the content `raw` of a string literal denotes, from
/// position `i` on and after the elements `acc`: `*` is a wildcard, `\*`
/// the character `*`, and every other character or escape itself.
#[verifier::opaque]
pub open spec fn pattern_from(raw: Seq<char>, i: int, acc: Seq<PatternElem>) -> Option<
    Seq<PatternElem>,
>
    decreases raw.len() - i,
{
    if i < 0 || i >= raw.len() {
        Some(acc)
    } else if raw[i] == '*' {
        pattern_from(raw, i + 1, acc.push(PatternElem::Wildcard))
    } else if raw[i] == '\\' {
        if i + 1 >= raw.len() {
            None
        } else if raw[i + 1] == '*' {
            pattern_from(raw, i + 2, acc.push(PatternElem::Char('*')))
        } else {
            match unescape_char(raw[i + 1]) {
                Some(c) => pattern_from(raw, i + 2, acc.push(PatternElem::Char(c))),
                None => None,
            }
        }
    } else {
        pattern_from(raw, i + 1, acc.push(PatternElem::Char(raw[i])))
    }
}

/// The rest of a name: each further `::` and identifier, after `acc`.
#[verifier::opaque]
pub open spec fn p_name_tail(ts: Seq<TokenV>, pos: int, acc: Seq<char>) -> Parsed<Seq<char>>
    decreases ts.len() - pos,
{
    if sym_at(ts, pos, Sym::ColonColon) && pos + 1 < ts.len() && ts[pos + 1] is Ident {
        if is_reserved(ts[pos + 1]->Ident_0) {
            Err(error_at(ParseErrorKind::ReservedName, pos + 1))
        } else {
            p_name_tail(ts, pos + 2, acc + "::"@ + ts[pos + 1]->Ident_0)
        }
    } else {
        Ok((acc, pos))
    }
}

/// A name: identifiers that are not reserved, separated by `::`.
#[verifier::opaque]
pub open spec fn p_name(ts: Seq<TokenV>, pos: int) -> Parsed<Seq<char>> {
    if 0 <= pos < ts.len() && ts[pos] is Ident {
        if is_reserved(ts[pos]->Ident_0) {
            Err(error_at(ParseErrorKind::ReservedName, pos))
        } else {
            p_name_tail(ts, pos + 1, ts[pos]->Ident_0)
        }
    } else {
        Err(unexpected(ts, pos))
    }
}

/// An entity: a name, `::`, and a string literal.
#[verifier::opaque]
pub open spec fn p_entity(ts: Seq<TokenV>, pos: int) -> Parsed<EntityUidV> {
    match p_name(ts, pos) {
        Err(e) => Err(e),
        Ok((name, p)) => if sym_at(ts, p, Sym::ColonColon) && p + 1 < ts.len() && ts[p + 1] is Str {
            match unescaped(ts[p + 1]->Str_0) {
                Some(eid) => Ok((EntityUidV { ty: EntityTypeV::Specified(name), eid }, p + 2)),
                None => Err(error_at(ParseErrorKind::BadString, p + 1)),
            }
        } else {
            Err(unexpected(ts, p))
        },
    }
}

/// The binary operator that stands at the position `pos`, among those
/// that relate two sums.
#[verifier::opaque]
pub open spec fn relop_at(ts: Seq<TokenV>, pos: int) -> Option<BinaryOp> {
    if sym_at(ts, pos, Sym::EqEq) {
        Some(BinaryOp::Eq)
    } else if sym_at(ts, pos, Sym::NotEq) {
        Some(BinaryOp::NotEq)
    } else if sym_at(ts, pos, Sym::Less) {
        Some(BinaryOp::Less)
    } else if sym_at(ts, pos, Sym::LessEq) {
        Some(BinaryOp::LessEq)
    } else if sym_at(ts, pos, Sym::Greater) {
        Some(BinaryOp::Greater)
    } else if sym_at(ts, pos, Sym::GreaterEq) {
        Some(BinaryOp::GreaterEq)
    } else if word_at(ts, pos, "in"@) {
        Some(BinaryOp::In)
    } else {
        None
    }
}

/// The name of an attribute at the position `pos`: an identifier or a
/// string literal.
#[verifier::opaque]
pub open spec fn attr_at(ts: Seq<TokenV>, pos: int) -> Result<Seq<char>, ParseError> {
    if 0 <= pos < ts.len() {
        match ts[pos] {
            TokenV::Ident(w) => Ok(w),
            TokenV::Str(raw) => match unescaped(raw) {
                Some(t) => Ok(t),
                None => Err(error_at(ParseErrorKind::BadString, pos)),
            },
            _ => Err(unexpected(ts, pos)),
        }
    } else {
        Err(unexpected(ts, pos))
    }
}

/// The variable that a word names, if it names one.
#[verifier::opaque]
pub open spec fn var_of(w: Seq<char>) -> Option<Var> {
    if w == "principal"@ {
        Some(Var::Principal)
    } else if w == "action"@ {
        Some(Var::Action)
    } else if w == "resource"@ {
        Some(Var::Resource)
    } else if w == "context"@ {
        Some(Var::Context)
    } else {
        None
    }
}

/// What a method call denotes: a set operator, or the call of an
/// extension function with the receiver as its first argument.
#[verifier::opaque]
pub open spec fn method_call(receiver: ExprV, name: Seq<char>, args: Seq<ExprV>) -> ExprV {
    if args.len() == 1 && name == "contains"@ {
        ExprV::Binary(BinaryOp::Contains, Box::new(receiver), Box::new(args[0]))
    } else if args.len() == 1 && name == "containsAll"@ {
        ExprV::Binary(BinaryOp::ContainsAll, Box::new(receiver), Box::new(args[0]))
    } else if args.len() == 1 && name == "containsAny"@ {
        ExprV::Binary(BinaryOp::ContainsAny, Box::new(receiver), Box::new(args[0]))
    } else {
        ExprV::Call(name, seq![receiver] + args)
    }
}

/// What a product denotes: the multiplication of one operand by the
/// other, which must be an integer literal.
#[verifier::opaque]
pub open spec fn product(lhs: ExprV, rhs: ExprV) -> Option<ExprV> {
    match (lhs, rhs) {
        (_, ExprV::Lit(LiteralV::Long(c))) => Some(ExprV::MulByConst(Box::new(lhs), c)),
        (ExprV::Lit(LiteralV::Long(c)), _) => Some(ExprV::MulByConst(Box::new(rhs), c)),
        _ => None,
    }
}

/// Whether a field named `k` is among `fs`.
pub open spec fn has_key(fs: Seq<(Seq<char>, ExprV)>, k: Seq<char>) -> bool {
    exists|i: int| 0 <= i < fs.len() && (#[trigger] fs[i]).0 == k
}

/// What `lhs is name in rhs` denotes.
pub open spec fn is_in(lhs: ExprV, name: Seq<char>, rhs: ExprV) -> ExprV {
    ExprV::And(
        Box::new(ExprV::Is(Box::new(lhs), name)),
        Box::new(ExprV::Binary(BinaryOp::In, Box::new(lhs), Box::new(rhs))),
    )
}

/// The literal for the entity of the type `name` with the id `eid`.
pub open spec fn entity_literal(name: Seq<char>, eid: Seq<char>) -> ExprV {
    ExprV::Lit(LiteralV::EntityUid(EntityUidV { ty: EntityTypeV::Specified(name), eid }))
}

/// What the grammar of expressions is made of.
pub enum Nonterminal {
    /// An expression: a conditional, or a disjunction.
    Expr,
    /// A disjunction: conjunctions separated by `||`.
    Or,
    /// The rest of a disjunction after its first operands.
    OrTail,
    /// A conjunction: relations separated by `&&`.
    And,
    /// The rest of a conjunction after its first operands.
    AndTail,
    /// A relation: a sum, alone or compared with another, or tested with
    /// `has`, `like` or `is`.
    Rel,
    /// What follows the first sum of a relation.
    RelRest,
    /// A sum: products separated by `+` or `-`.
    Add,
    /// The rest of a sum after its first operands.
    AddTail,
    /// A product: unary expressions separated by `*`.
    Mul,
    /// The rest of a product after its first operands.
    MulTail,
    /// A unary expression: `!` or `-` before a unary expression, or a
    /// member expression. A `-` before an integer literal makes a negative
    /// literal.
    Unary,
    /// A member expression: a primary expression and what is read of it.
    Member,
    /// What is read of an expression: attributes after `.` or between
    /// brackets, and method calls.
    MemberTail,
    /// A primary expression: a literal, a variable, a slot, an entity, a
    /// call of a function, an expression between parentheses, a set or a
    /// record.
    Primary,
    /// Expressions separated by `,`, up to the closing symbol.
    List(Sym),
    /// The fields of a record literal up to the closing brace: each a
    /// name, `:` and an expression, separated by `,`.
    Fields,
}

/// What was read before, which what is read now goes on from.
pub enum Before {
    Nothing,
    /// The expression read so far.
    Operand(ExprV),
    /// The expressions of a list read so far.
    Items(Seq<ExprV>),
    /// The fields of a record literal read so far.
    Entries(Seq<(Seq<char>, ExprV)>),
}

/// What was read.
pub enum Read {
    One(ExprV),
    Items(Seq<ExprV>),
    Entries(Seq<(Seq<char>, ExprV)>),
}

/// The order in which nonterminals are tried at one position: each goes on
/// at the same position only with one that comes before it.
pub open spec fn rank(n: Nonterminal) -> nat {
    match n {
        Nonterminal::List(_) => 22,
        Nonterminal::Fields => 22,
        Nonterminal::Expr => 20,
        Nonterminal::Or => 18,
        Nonterminal::OrTail => 17,
        Nonterminal::And => 16,
        Nonterminal::AndTail => 15,
        Nonterminal::Rel => 14,
        Nonterminal::RelRest => 13,
        Nonterminal::Add => 12,
        Nonterminal::AddTail => 11,
        Nonterminal::Mul => 10,
        Nonterminal::MulTail => 9,
        Nonterminal::Unary => 8,
        Nonterminal::Member => 6,
        Nonterminal::MemberTail => 5,
        Nonterminal::Primary => 4,
    }
}

/// The expression that was read, and the position after it.
pub open spec fn one(r: Parsed<Read>) -> Parsed<ExprV> {
    match r {
        Ok((Read::One(e), p)) => Ok((e, p)),
        Ok((_, p)) => Err(error_at(ParseErrorKind::UnexpectedEnd, p)),
        Err(e) => Err(e),
    }
}

/// The expressions that were read, and the position after them.
pub open spec fn items(r: Parsed<Read>) -> Parsed<Seq<ExprV>> {
    match r {
        Ok((Read::Items(es), p)) => Ok((es, p)),
        Ok((_, p)) => Err(error_at(ParseErrorKind::UnexpectedEnd, p)),
        Err(e) => Err(e),
    }
}

/// The fields that were read, and the position after them.
pub open spec fn entries(r: Parsed<Read>) -> Parsed<Seq<(Seq<char>, ExprV)>> {
    match r {
        Ok((Read::Entries(fs), p)) => Ok((fs, p)),
        Ok((_, p)) => Err(error_at(ParseErrorKind::UnexpectedEnd, p)),
        Err(e) => Err(e),
    }
}

/// What the tokens from the position `pos` on denote as the nonterminal
/// `n`, after what was read before.
pub open spec fn parse(n: Nonterminal, ts: Seq<TokenV>, pos: int, before: Before) -> Parsed<Read>
    decreases ts.len() - pos, rank(n),
{
    match n {
        Nonterminal::Expr => {
            if pos < 0 || pos >= ts.len() {
                Err(unexpected(ts, pos))
            } else if word_at(ts, pos, "if"@) {
                match advance(one(parse(Nonterminal::Expr, ts, pos + 1, Before::Nothing)), pos + 1, ts.len()) {
                    Err(e) => Err(e),
                    Ok((c, p1)) => if !word_at(ts, p1, "then"@) {
                        Err(unexpected(ts, p1))
                    } else {
                        match advance(one(parse(Nonterminal::Expr, ts, p1 + 1, Before::Nothing)), p1 + 1, ts.len()) {
                            Err(e) => Err(e),
                            Ok((t, p2)) => if !word_at(ts, p2, "else"@) {
                                Err(unexpected(ts, p2))
                            } else {
                                match advance(
                                    one(parse(Nonterminal::Expr, ts, p2 + 1, Before::Nothing)),
                                    p2 + 1,
                                    ts.len(),
                                ) {
                                    Err(e) => Err(e),
                                    Ok((f, p3)) => Ok(
                                        (
                                            Read::One(
                                                ExprV::If(Box::new(c), Box::new(t), Box::new(f)),
                                            ),
                                            p3,
                                        ),
                                    ),
                                }
                            },
                        }
                    },
                }
            } else {
                parse(Nonterminal::Or, ts, pos, Before::Nothing)
            }
        },
        Nonterminal::Or => {
            if pos < 0 || pos >= ts.len() {
                Err(unexpected(ts, pos))
            } else {
                match advance(one(parse(Nonterminal::And, ts, pos, Before::Nothing)), pos, ts.len()) {
                    Err(e) => Err(e),
                    Ok((lhs, p)) => parse(Nonterminal::OrTail, ts, p, Before::Operand(lhs)),
                }
            }
        },
        Nonterminal::OrTail => {
            let lhs = before->Operand_0;
            if sym_at(ts, pos, Sym::OrOr) {
                match advance(one(parse(Nonterminal::And, ts, pos + 1, Before::Nothing)), pos + 1, ts.len()) {
                    Err(e) => Err(e),
                    Ok((rhs, p)) => parse(
                        Nonterminal::OrTail,
                        ts,
                        p,
                        Before::Operand(ExprV::Or(Box::new(lhs), Box::new(rhs))),
                    ),
                }
            } else {
                Ok((Read::One(lhs), pos))
            }
        },
        Nonterminal::And => {
            if pos < 0 || pos >= ts.len() {
                Err(unexpected(ts, pos))
            } else {
                match advance(one(parse(Nonterminal::Rel, ts, pos, Before::Nothing)), pos, ts.len()) {
                    Err(e) => Err(e),
                    Ok((lhs, p)) => parse(Nonterminal::AndTail, ts, p, Before::Operand(lhs)),
                }
            }
        },
        Nonterminal::AndTail => {
            let lhs = before->Operand_0;
            if sym_at(ts, pos, Sym::AndAnd) {
                match advance(one(parse(Nonterminal::Rel, ts, pos + 1, Before::Nothing)), pos + 1, ts.len()) {
                    Err(e) => Err(e),
                    Ok((rhs, p)) => parse(
                        Nonterminal::AndTail,
                        ts,
                        p,
                        Before::Operand(ExprV::And(Box::new(lhs), Box::new(rhs))),
                    ),
                }
            } else {
                Ok((Read::One(lhs), pos))
            }
        },
        Nonterminal::Rel => {
            if pos < 0 || pos >= ts.len() {
                Err(unexpected(ts, pos))
            } else {
                match advance(one(parse(Nonterminal::Add, ts, pos, Before::Nothing)), pos, ts.len()) {
                    Err(e) => Err(e),
                    Ok((lhs, p)) => parse(Nonterminal::RelRest, ts, p, Before::Operand(lhs)),
                }
            }
        },
        Nonterminal::RelRest => {
            let lhs = before->Operand_0;
            if pos < 0 || pos >= ts.len() {
                Ok((Read::One(lhs), pos))
            } else {
                match relop_at(ts, pos) {
                    Some(op) => match advance(
                        one(parse(Nonterminal::Add, ts, pos + 1, Before::Nothing)),
                        pos + 1,
                        ts.len(),
                    ) {
                        Err(e) => Err(e),
                        Ok((rhs, q)) => Ok(
                            (Read::One(ExprV::Binary(op, Box::new(lhs), Box::new(rhs))), q),
                        ),
                    },
                    None => if word_at(ts, pos, "has"@) {
                        match attr_at(ts, pos + 1) {
                            Ok(a) => Ok((Read::One(ExprV::HasAttr(Box::new(lhs), a)), pos + 2)),
                            Err(e) => Err(e),
                        }
                    } else if word_at(ts, pos, "like"@) {
                        if pos + 1 < ts.len() && ts[pos + 1] is Str {
                            match pattern_from(ts[pos + 1]->Str_0, 0, Seq::empty()) {
                                Some(pattern) => Ok(
                                    (Read::One(ExprV::Like(Box::new(lhs), pattern)), pos + 2),
                                ),
                                None => Err(error_at(ParseErrorKind::BadString, pos + 1)),
                            }
                        } else {
                            Err(unexpected(ts, pos + 1))
                        }
                    } else if word_at(ts, pos, "is"@) {
                        match advance(p_name(ts, pos + 1), pos + 1, ts.len()) {
                            Err(e) => Err(e),
                            Ok((name, q)) => if word_at(ts, q, "in"@) {
                                match advance(
                                    one(parse(Nonterminal::Add, ts, q + 1, Before::Nothing)),
                                    q + 1,
                                    ts.len(),
                                ) {
                                    Err(e) => Err(e),
                                    Ok((rhs, r)) => Ok((Read::One(is_in(lhs, name, rhs)), r)),
                                }
                            } else {
                                Ok((Read::One(ExprV::Is(Box::new(lhs), name)), q))
                            },
                        }
                    } else {
                        Ok((Read::One(lhs), pos))
                    },
                }
            }
        },
        Nonterminal::Add => {
            if pos < 0 || pos >= ts.len() {
                Err(unexpected(ts, pos))
            } else {
                match advance(one(parse(Nonterminal::Mul, ts, pos, Before::Nothing)), pos, ts.len()) {
                    Err(e) => Err(e),
                    Ok((lhs, p)) => parse(Nonterminal::AddTail, ts, p, Before::Operand(lhs)),
                }
            }
        },
        Nonterminal::AddTail => {
            let lhs = before->Operand_0;
            if sym_at(ts, pos, Sym::Plus) || sym_at(ts, pos, Sym::Minus) {
                match advance(one(parse(Nonterminal::Mul, ts, pos + 1, Before::Nothing)), pos + 1, ts.len()) {
                    Err(e) => Err(e),
                    Ok((rhs, p)) => parse(
                        Nonterminal::AddTail,
                        ts,
                        p,
                        Before::Operand(
                            ExprV::Binary(
                                if sym_at(ts, pos, Sym::Plus) {
                                    BinaryOp::Add
                                } else {
                                    BinaryOp::Sub
                                },
                                Box::new(lhs),
                                Box::new(rhs),
                            ),
                        ),
                    ),
                }
            } else {
                Ok((Read::One(lhs), pos))
            }
        },
        Nonterminal::Mul => {
            if pos < 0 || pos >= ts.len() {
                Err(unexpected(ts, pos))
            } else {
                match advance(one(parse(Nonterminal::Unary, ts, pos, Before::Nothing)), pos, ts.len()) {
                    Err(e) => Err(e),
                    Ok((lhs, p)) => parse(Nonterminal::MulTail, ts, p, Before::Operand(lhs)),
                }
            }
        },
        Nonterminal::MulTail => {
            let lhs = before->Operand_0;
            if sym_at(ts, pos, Sym::Star) {
                match advance(one(parse(Nonterminal::Unary, ts, pos + 1, Before::Nothing)), pos + 1, ts.len()) {
                    Err(e) => Err(e),
                    Ok((rhs, p)) => match product(lhs, rhs) {
                        Some(e) => parse(Nonterminal::MulTail, ts, p, Before::Operand(e)),
                        None => Err(error_at(ParseErrorKind::NonConstantMultiplication, pos)),
                    },
                }
            } else {
                Ok((Read::One(lhs), pos))
            }
        },
        Nonterminal::Unary => {
            if pos < 0 || pos >= ts.len() {
                Err(unexpected(ts, pos))
            } else if sym_at(ts, pos, Sym::Bang) {
                match advance(one(parse(Nonterminal::Unary, ts, pos + 1, Before::Nothing)), pos + 1, ts.len()) {
                    Err(e) => Err(e),
                    Ok((e, p)) => Ok((Read::One(ExprV::Unary(UnaryOp::Not, Box::new(e))), p)),
                }
            } else if sym_at(ts, pos, Sym::Minus) {
                if pos + 1 < ts.len() && ts[pos + 1] is Int {
                    parse(
                        Nonterminal::MemberTail,
                        ts,
                        pos + 2,
                        Before::Operand(
                            ExprV::Lit(LiteralV::Long((-(ts[pos + 1]->Int_0 as int)) as i64)),
                        ),
                    )
                } else {
                    match advance(one(parse(Nonterminal::Unary, ts, pos + 1, Before::Nothing)), pos + 1, ts.len()) {
                        Err(e) => Err(e),
                        Ok((e, p)) => Ok((Read::One(ExprV::Unary(UnaryOp::Neg, Box::new(e))), p)),
                    }
                }
            } else {
                parse(Nonterminal::Member, ts, pos, Before::Nothing)
            }
        },
        Nonterminal::Member => {
            if pos < 0 || pos >= ts.len() {
                Err(unexpected(ts, pos))
            } else {
                match advance(one(parse(Nonterminal::Primary, ts, pos, Before::Nothing)), pos, ts.len()) {
                    Err(e) => Err(e),
                    Ok((e, p)) => parse(Nonterminal::MemberTail, ts, p, Before::Operand(e)),
                }
            }
        },
        Nonterminal::MemberTail => {
            let e = before->Operand_0;
            if pos < 0 || pos >= ts.len() {
                Ok((Read::One(e), pos))
            } else if sym_at(ts, pos, Sym::Dot) {
                if pos + 1 < ts.len() && ts[pos + 1] is Ident {
                    if sym_at(ts, pos + 2, Sym::LParen) {
                        match advance(
                            items(
                                parse(
                                    Nonterminal::List(Sym::RParen),
                                    ts,
                                    pos + 3,
                                    Before::Items(Seq::empty()),
                                ),
                            ),
                            pos + 2,
                            ts.len(),
                        ) {
                            Err(err) => Err(err),
                            Ok((args, p)) => parse(
                                Nonterminal::MemberTail,
                                ts,
                                p,
                                Before::Operand(method_call(e, ts[pos + 1]->Ident_0, args)),
                            ),
                        }
                    } else {
                        parse(
                            Nonterminal::MemberTail,
                            ts,
                            pos + 2,
                            Before::Operand(ExprV::GetAttr(Box::new(e), ts[pos + 1]->Ident_0)),
                        )
                    }
                } else {
                    Err(unexpected(ts, pos + 1))
                }
            } else if sym_at(ts, pos, Sym::LBracket) {
                if pos + 1 < ts.len() && ts[pos + 1] is Str && sym_at(ts, pos + 2, Sym::RBracket) {
                    match unescaped(ts[pos + 1]->Str_0) {
                        Some(a) => parse(
                            Nonterminal::MemberTail,
                            ts,
                            pos + 3,
                            Before::Operand(ExprV::GetAttr(Box::new(e), a)),
                        ),
                        None => Err(error_at(ParseErrorKind::BadString, pos + 1)),
                    }
                } else {
                    Err(unexpected(ts, pos + 1))
                }
            } else {
                Ok((Read::One(e), pos))
            }
        },
        Nonterminal::Primary => {
            if pos < 0 || pos >= ts.len() {
                Err(unexpected(ts, pos))
            } else {
                match ts[pos] {
                    TokenV::Int(m) => if m <= i64::MAX {
                        Ok((Read::One(ExprV::Lit(LiteralV::Long(m as i64))), pos + 1))
                    } else {
                        Err(error_at(ParseErrorKind::IntegerTooLarge, pos))
                    },
                    TokenV::Str(raw) => match unescaped(raw) {
                        Some(t) => Ok((Read::One(ExprV::Lit(LiteralV::String(t))), pos + 1)),
                        None => Err(error_at(ParseErrorKind::BadString, pos)),
                    },
                    TokenV::Sym(sym) => if sym == Sym::SlotPrincipal {
                        Ok((Read::One(ExprV::Slot(SlotId::Principal)), pos + 1))
                    } else if sym == Sym::SlotResource {
                        Ok((Read::One(ExprV::Slot(SlotId::Resource)), pos + 1))
                    } else if sym == Sym::LParen {
                        match advance(one(parse(Nonterminal::Expr, ts, pos + 1, Before::Nothing)), pos + 1, ts.len()) {
                            Err(e) => Err(e),
                            Ok((e, p)) => if sym_at(ts, p, Sym::RParen) {
                                Ok((Read::One(e), p + 1))
                            } else {
                                Err(unexpected(ts, p))
                            },
                        }
                    } else if sym == Sym::LBracket {
                        match items(
                            parse(
                                Nonterminal::List(Sym::RBracket),
                                ts,
                                pos + 1,
                                Before::Items(Seq::empty()),
                            ),
                        ) {
                            Err(e) => Err(e),
                            Ok((es, p)) => Ok((Read::One(ExprV::SetOf(es)), p)),
                        }
                    } else if sym == Sym::LBrace {
                        match entries(
                            parse(Nonterminal::Fields, ts, pos + 1, Before::Entries(Seq::empty())),
                        ) {
                            Err(e) => Err(e),
                            Ok((fs, p)) => Ok((Read::One(ExprV::Record(fs)), p)),
                        }
                    } else {
                        Err(unexpected(ts, pos))
                    },
                    TokenV::Ident(w) => if w == "true"@ {
                        Ok((Read::One(ExprV::Lit(LiteralV::Bool(true))), pos + 1))
                    } else if w == "false"@ {
                        Ok((Read::One(ExprV::Lit(LiteralV::Bool(false))), pos + 1))
                    } else if var_of(w) is Some && !sym_at(ts, pos + 1, Sym::ColonColon) {
                        Ok((Read::One(ExprV::Var(var_of(w)->0)), pos + 1))
                    } else {
                        match advance(p_name(ts, pos), pos, ts.len()) {
                            Err(e) => Err(e),
                            Ok((name, p)) => if sym_at(ts, p, Sym::ColonColon) {
                                if p + 1 < ts.len() && ts[p + 1] is Str {
                                    match unescaped(ts[p + 1]->Str_0) {
                                        Some(eid) => Ok(
                                            (Read::One(entity_literal(name, eid)), p + 2),
                                        ),
                                        None => Err(error_at(ParseErrorKind::BadString, p + 1)),
                                    }
                                } else {
                                    Err(unexpected(ts, p + 1))
                                }
                            } else if sym_at(ts, p, Sym::LParen) {
                                match items(
                                    parse(
                                        Nonterminal::List(Sym::RParen),
                                        ts,
                                        p + 1,
                                        Before::Items(Seq::empty()),
                                    ),
                                ) {
                                    Err(e) => Err(e),
                                    Ok((args, q)) => Ok((Read::One(ExprV::Call(name, args)), q)),
                                }
                            } else {
                                Err(unexpected(ts, p))
                            },
                        }
                    },
                }
            }
        },
        Nonterminal::List(close) => {
            let acc = before->Items_0;
            if pos < 0 || pos >= ts.len() {
                Err(unexpected(ts, pos))
            } else if sym_at(ts, pos, close) {
                Ok((Read::Items(acc), pos + 1))
            } else {
                match advance(one(parse(Nonterminal::Expr, ts, pos, Before::Nothing)), pos, ts.len()) {
                    Err(e) => Err(e),
                    Ok((e, p)) => if sym_at(ts, p, Sym::Comma) {
                        parse(Nonterminal::List(close), ts, p + 1, Before::Items(acc.push(e)))
                    } else if sym_at(ts, p, close) {
                        Ok((Read::Items(acc.push(e)), p + 1))
                    } else {
                        Err(unexpected(ts, p))
                    },
                }
            }
        },
        Nonterminal::Fields => {
            let acc = before->Entries_0;
            if pos < 0 || pos >= ts.len() {
                Err(unexpected(ts, pos))
            } else if sym_at(ts, pos, Sym::RBrace) {
                Ok((Read::Entries(acc), pos + 1))
            } else {
                match attr_at(ts, pos) {
                    Err(e) => Err(e),
                    Ok(k) => if has_key(acc, k) {
                        Err(error_at(ParseErrorKind::DuplicateKey, pos))
                    } else if !sym_at(ts, pos + 1, Sym::Colon) {
                        Err(unexpected(ts, pos + 1))
                    } else {
                        match advance(one(parse(Nonterminal::Expr, ts, pos + 2, Before::Nothing)), pos + 2, ts.len()) {
                            Err(e) => Err(e),
                            Ok((e, p)) => if sym_at(ts, p, Sym::Comma) {
                                parse(
                                    Nonterminal::Fields,
                                    ts,
                                    p + 1,
                                    Before::Entries(acc.push((k, e))),
                                )
                            } else if sym_at(ts, p, Sym::RBrace) {
                                Ok((Read::Entries(acc.push((k, e))), p + 1))
                            } else {
                                Err(unexpected(ts, p))
                            },
                        }
                    },
                }
            }
        },
    }
}

/// An expression: a conditional, or a disjunction.
pub open spec fn p_expr(ts: Seq<TokenV>, pos: int) -> Parsed<ExprV> {
    one(parse(Nonterminal::Expr, ts, pos, Before::Nothing))
}

/// A disjunction: conjunctions separated by `||`.
pub open spec fn p_or(ts: Seq<TokenV>, pos: int) -> Parsed<ExprV> {
    one(parse(Nonterminal::Or, ts, pos, Before::Nothing))
}

/// The rest of a disjunction after `lhs`.
pub open spec fn p_or_tail(ts: Seq<TokenV>, pos: int, lhs: ExprV) -> Parsed<ExprV> {
    one(parse(Nonterminal::OrTail, ts, pos, Before::Operand(lhs)))
}

/// A conjunction: relations separated by `&&`.
pub open spec fn p_and(ts: Seq<TokenV>, pos: int) -> Parsed<ExprV> {
    one(parse(Nonterminal::And, ts, pos, Before::Nothing))
}

/// The rest of a conjunction after `lhs`.
pub open spec fn p_and_tail(ts: Seq<TokenV>, pos: int, lhs: ExprV) -> Parsed<ExprV> {
    one(parse(Nonterminal::AndTail, ts, pos, Before::Operand(lhs)))
}

/// A relation: a sum, alone or compared with another, or tested with
/// `has`, `like` or `is`.
pub open spec fn p_rel(ts: Seq<TokenV>, pos: int) -> Parsed<ExprV> {
    one(parse(Nonterminal::Rel, ts, pos, Before::Nothing))
}

/// What follows the first sum `lhs` of a relation.
pub open spec fn p_rel_rest(ts: Seq<TokenV>, pos: int, lhs: ExprV) -> Parsed<ExprV> {
    one(parse(Nonterminal::RelRest, ts, pos, Before::Operand(lhs)))
}

/// A sum: products separated by `+` or `-`.
pub open spec fn p_add(ts: Seq<TokenV>, pos: int) -> Parsed<ExprV> {
    one(parse(Nonterminal::Add, ts, pos, Before::Nothing))
}

/// The rest of a sum after `lhs`.
pub open spec fn p_add_tail(ts: Seq<TokenV>, pos: int, lhs: ExprV) -> Parsed<ExprV> {
    one(parse(Nonterminal::AddTail, ts, pos, Before::Operand(lhs)))
}

/// A product: unary expressions separated by `*`.
pub open spec fn p_mul(ts: Seq<TokenV>, pos: int) -> Parsed<ExprV> {
    one(parse(Nonterminal::Mul, ts, pos, Before::Nothing))
}

/// The rest of a product after `lhs`.
pub open spec fn p_mul_tail(ts: Seq<TokenV>, pos: int, lhs: ExprV) -> Parsed<ExprV> {
    one(parse(Nonterminal::MulTail, ts, pos, Before::Operand(lhs)))
}

/// A unary expression.
pub open spec fn p_unary(ts: Seq<TokenV>, pos: int) -> Parsed<ExprV> {
    one(parse(Nonterminal::Unary, ts, pos, Before::Nothing))
}

/// A member expression.
pub open spec fn p_member(ts: Seq<TokenV>, pos: int) -> Parsed<ExprV> {
    one(parse(Nonterminal::Member, ts, pos, Before::Nothing))
}

/// What is read of the expression `e`.
pub open spec fn p_member_tail(ts: Seq<TokenV>, pos: int, e: ExprV) -> Parsed<ExprV> {
    one(parse(Nonterminal::MemberTail, ts, pos, Before::Operand(e)))
}

/// A primary expression.
pub open spec fn p_primary(ts: Seq<TokenV>, pos: int) -> Parsed<ExprV> {
    one(parse(Nonterminal::Primary, ts, pos, Before::Nothing))
}

/// Expressions separated by `,`, up to the closing symbol `close`, after
/// the expressions `acc`. The position after is that after the closing symbol.
pub open spec fn p_list(ts: Seq<TokenV>, pos: int, close: Sym, acc: Seq<ExprV>) -> Parsed<
    Seq<ExprV>,
> {
    items(parse(Nonterminal::List(close), ts, pos, Before::Items(acc)))
}

/// The fields of a record literal up to the closing brace, after the
/// fields `acc`.
pub open spec fn p_fields(ts: Seq<TokenV>, pos: int, acc: Seq<(Seq<char>, ExprV)>) -> Parsed<
    Seq<(Seq<char>, ExprV)>,
> {
    entries(parse(Nonterminal::Fields, ts, pos, Before::Entries(acc)))
}

/// What a scope constraint names: an entity, or the slot `slot`.
pub open spec fn p_ref(ts: Seq<TokenV>, pos: int, slot: Sym) -> Parsed<EntityRefV> {
    if sym_at(ts, pos, slot) {
        Ok((EntityRefV::Slot, pos + 1))
    } else if sym_at(ts, pos, Sym::SlotPrincipal) || sym_at(ts, pos, Sym::SlotResource) {
        Err(error_at(ParseErrorKind::SlotNotAllowed, pos))
    } else {
        match p_entity(ts, pos) {
            Err(e) => Err(e),
            Ok((u, p)) => Ok((EntityRefV::Uid(u), p)),
        }
    }
}

/// The constraint on the principal or on the resource: the variable
/// `var`, alone or with `==`, `in` or `is`.
pub open spec fn p_scope(ts: Seq<TokenV>, pos: int, var: Seq<char>, slot: Sym) -> Parsed<
    ScopeConstraintV,
> {
    if !word_at(ts, pos, var) {
        Err(unexpected(ts, pos))
    } else if sym_at(ts, pos + 1, Sym::EqEq) {
        match p_ref(ts, pos + 2, slot) {
            Err(e) => Err(e),
            Ok((r, p)) => Ok((ScopeConstraintV::Eq(r), p)),
        }
    } else if word_at(ts, pos + 1, "in"@) {
        match p_ref(ts, pos + 2, slot) {
            Err(e) => Err(e),
            Ok((r, p)) => Ok((ScopeConstraintV::In(r), p)),
        }
    } else if word_at(ts, pos + 1, "is"@) {
        match p_name(ts, pos + 2) {
            Err(e) => Err(e),
            Ok((n, p)) => if word_at(ts, p, "in"@) {
                match p_ref(ts, p + 1, slot) {
                    Err(e) => Err(e),
                    Ok((r, q)) => Ok((ScopeConstraintV::IsIn(n, r), q)),
                }
            } else {
                Ok((ScopeConstraintV::Is(n), p))
            },
        }
    } else {
        Ok((ScopeConstraintV::Any, pos + 1))
    }
}

/// Entities separated by `,`, up to the closing bracket, after `acc`.
pub open spec fn p_entities(ts: Seq<TokenV>, pos: int, acc: Seq<EntityUidV>) -> Parsed<
    Seq<EntityUidV>,
>
    decreases ts.len() - pos,
{
    if pos < 0 || pos >= ts.len() {
        Err(unexpected(ts, pos))
    } else if sym_at(ts, pos, Sym::RBracket) {
        Ok((acc, pos + 1))
    } else {
        match advance(p_entity(ts, pos), pos, ts.len()) {
            Err(e) => Err(e),
            Ok((u, p)) => if sym_at(ts, p, Sym::Comma) {
                p_entities(ts, p + 1, acc.push(u))
            } else if sym_at(ts, p, Sym::RBracket) {
                Ok((acc.push(u), p + 1))
            } else {
                Err(unexpected(ts, p))
            },
        }
    }
}

/// The constraint on the action: `action`, alone or with `==` and an
/// entity or with `in` and an entity or a list of entities.
pub open spec fn p_action(ts: Seq<TokenV>, pos: int) -> Parsed<ActionConstraintV> {
    if !word_at(ts, pos, "action"@) {
        Err(unexpected(ts, pos))
    } else if sym_at(ts, pos + 1, Sym::EqEq) {
        match p_entity(ts, pos + 2) {
            Err(e) => Err(e),
            Ok((u, p)) => Ok((ActionConstraintV::Eq(u), p)),
        }
    } else if word_at(ts, pos + 1, "in"@) {
        if sym_at(ts, pos + 2, Sym::LBracket) {
            match p_entities(ts, pos + 3, Seq::empty()) {
                Err(e) => Err(e),
                Ok((us, p)) => Ok((ActionConstraintV::In(us), p)),
            }
        } else {
            match p_entity(ts, pos + 2) {
                Err(e) => Err(e),
                Ok((u, p)) => Ok((ActionConstraintV::In(seq![u]), p)),
            }
        }
    } else {
        Ok((ActionConstraintV::Any, pos + 1))
    }
}

/// The condition that `when` and `unless` clauses make together, after
/// the condition `acc` of the clauses before: the conjunction of what
/// `when` holds and of the negation of what `unless` holds.
pub open spec fn p_conditions(ts: Seq<TokenV>, pos: int, acc: Option<ExprV>) -> Parsed<ExprV>
    decreases ts.len() - pos,
{
    if pos < 0 || pos >= ts.len() {
        Err(unexpected(ts, pos))
    } else if word_at(ts, pos, "when"@) || word_at(ts, pos, "unless"@) {
        if !sym_at(ts, pos + 1, Sym::LBrace) {
            Err(unexpected(ts, pos + 1))
        } else {
            match advance(p_expr(ts, pos + 2), pos + 2, ts.len()) {
                Err(e) => Err(e),
                Ok((e, p)) => if !sym_at(ts, p, Sym::RBrace) {
                    Err(unexpected(ts, p))
                } else {
                    let clause = if word_at(ts, pos, "when"@) {
                        e
                    } else {
                        ExprV::Unary(UnaryOp::Not, Box::new(e))
                    };
                    p_conditions(
                        ts,
                        p + 1,
                        Some(
                            match acc {
                                Some(a) => ExprV::And(Box::new(a), Box::new(clause)),
                                None => clause,
                            },
                        ),
                    )
                },
            }
        }
    } else if sym_at(ts, pos, Sym::Semicolon) {
        Ok(
            (
                match acc {
                    Some(a) => a,
                    None => ExprV::Lit(LiteralV::Bool(true)),
                },
                pos + 1,
            ),
        )
    } else {
        Err(unexpected(ts, pos))
    }
}

/// The effect that stands at the position `pos`.
pub open spec fn effect_at(ts: Seq<TokenV>, pos: int) -> Option<Effect> {
    if word_at(ts, pos, "permit"@) {
        Some(Effect::Permit)
    } else if word_at(ts, pos, "forbid"@) {
        Some(Effect::Forbid)
    } else {
        None
    }
}

/// A policy under the identifier `id`: its effect, its scope between
/// parentheses, its conditions, and `;`.
pub open spec fn p_policy(ts: Seq<TokenV>, pos: int, id: Seq<char>) -> Parsed<PolicyV> {
    match effect_at(ts, pos) {
        None => Err(unexpected(ts, pos)),
        Some(effect) => if !sym_at(ts, pos + 1, Sym::LParen) {
            Err(unexpected(ts, pos + 1))
        } else {
            match p_scope(ts, pos + 2, "principal"@, Sym::SlotPrincipal) {
                Err(e) => Err(e),
                Ok((principal, p1)) => if !sym_at(ts, p1, Sym::Comma) {
                    Err(unexpected(ts, p1))
                } else {
                    match p_action(ts, p1 + 1) {
                        Err(e) => Err(e),
                        Ok((action, p2)) => if !sym_at(ts, p2, Sym::Comma) {
                            Err(unexpected(ts, p2))
                        } else {
                            match p_scope(ts, p2 + 1, "resource"@, Sym::SlotResource) {
                                Err(e) => Err(e),
                                Ok((resource, p3)) => if !sym_at(ts, p3, Sym::RParen) {
                                    Err(unexpected(ts, p3))
                                } else {
                                    match p_conditions(ts, p3 + 1, None) {
                                        Err(e) => Err(e),
                                        Ok((condition, p4)) => Ok(
                                            (
                                                PolicyV {
                                                    id,
                                                    effect,
                                                    principal,
                                                    action,
                                                    resource,
                                                    condition,
                                                },
                                                p4,
                                            ),
                                        ),
                                    }
                                },
                            }
                        },
                    }
                },
            }
        },
    }
}

/// The identifier of the policy at position `n` of a text of policies.
pub open spec fn numbered_id(n: nat) -> Seq<char> {
    "policy"@ + nat_to_dec(n)
}

/// The policies from the position `pos` up to the end, after the policies
/// `acc`. Each has the identifier `policy` and its position in the text.
pub open spec fn p_policies(ts: Seq<TokenV>, pos: int, acc: Seq<PolicyV>) -> Result<
    Seq<PolicyV>,
    ParseError,
>
    decreases ts.len() - pos,
{
    if pos < 0 || pos >= ts.len() {
        Ok(acc)
    } else {
        match advance(p_policy(ts, pos, numbered_id(acc.len())), pos, ts.len()) {
            Err(e) => Err(e),
            Ok((p, q)) => p_policies(ts, q, acc.push(p)),
        }
    }
}

/// The policy that the tokens `ts` denote as a whole, under the
/// identifier `id`.
pub open spec fn p_one_policy(ts: Seq<TokenV>, id: Seq<char>) -> Result<PolicyV, ParseError> {
    match p_policy(ts, 0, id) {
        Err(e) => Err(e),
        Ok((p, q)) => if q == ts.len() {
            Ok(p)
        } else {
            Err(error_at(ParseErrorKind::ExpectedOnePolicy, q))
        },
    }
}

} // verus!
