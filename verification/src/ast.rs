//! The expression language: literals, variables, operators, patterns and
//! expressions, each with its mathematical model.
use vstd::prelude::*;
use crate::value::{EntityUid, EntityUidV, Value, ValueV};

verus! {

/// A variable of the request.
#[derive(Clone, Copy, Debug, PartialEq, Eq, Structural)]
pub enum Var {
    Principal,
    Action,
    Resource,
    Context,
}

/// A slot of a policy template.
#[derive(Clone, Copy, Debug, PartialEq, Eq, Structural)]
pub enum SlotId {
    Principal,
    Resource,
}

/// A unary operator.
#[derive(Clone, Copy, Debug, PartialEq, Eq, Structural)]
pub enum UnaryOp {
    Not,
    Neg,
}

/// A binary operator. Multiplication is not among them: it takes a constant
/// and has a node of its own.
#[derive(Clone, Copy, Debug, PartialEq, Eq, Structural)]
pub enum BinaryOp {
    Eq,
    NotEq,
    Less,
    LessEq,
    Greater,
    GreaterEq,
    Add,
    Sub,
    In,
    Contains,
    ContainsAll,
    ContainsAny,
}

/// One element of a `like` pattern.
#[derive(Clone, Copy, Debug, PartialEq, Eq, Structural)]
pub enum PatternElem {
    /// A character that matches itself.
    Char(char),
    /// `*`: matches any run of characters, the empty one too.
    Wildcard,
}

/// A scalar literal.
#[derive(Debug, PartialEq, Eq)]
pub enum Literal {
    Bool(bool),
    Long(i64),
    String(String),
    EntityUid(EntityUid),
}

/// Mathematical model of a [`Literal`].
pub enum LiteralV {
    Bool(bool),
    Long(i64),
    String(Seq<char>),
    EntityUid(EntityUidV),
}

impl View for Literal {
    type V = LiteralV;

    open spec fn view(&self) -> LiteralV {
        match self {
            Literal::Bool(b) => LiteralV::Bool(*b),
            Literal::Long(i) => LiteralV::Long(*i),
            Literal::String(s) => LiteralV::String(s@),
            Literal::EntityUid(u) => LiteralV::EntityUid(u@),
        }
    }
}

impl Clone for Literal {
    fn clone(&self) -> (r: Self)
        ensures
            r@ == self@,
    {
        match self {
            Literal::Bool(b) => Literal::Bool(*b),
            Literal::Long(i) => Literal::Long(*i),
            Literal::String(s) => Literal::String(s.clone()),
            Literal::EntityUid(u) => Literal::EntityUid(u.clone()),
        }
    }
}

/// The value that a literal denotes.
pub open spec fn literal_value(l: LiteralV) -> ValueV {
    match l {
        LiteralV::Bool(b) => ValueV::Bool(b),
        LiteralV::Long(i) => ValueV::Long(i),
        LiteralV::String(s) => ValueV::String(s),
        LiteralV::EntityUid(u) => ValueV::EntityUid(u),
    }
}

impl Literal {
    /// The value that this literal denotes.
    pub fn to_value(&self) -> (r: Value)
        ensures
            r@ == literal_value(self@),
    {
        match self {
            Literal::Bool(b) => Value::Bool(*b),
            Literal::Long(i) => Value::Long(*i),
            Literal::String(s) => Value::String(s.clone()),
            Literal::EntityUid(u) => Value::EntityUid(u.clone()),
        }
    }
}

/// An expression.
#[derive(Debug, PartialEq, Eq)]
pub enum Expr {
    /// A scalar literal.
    Lit(Literal),
    /// A value that was computed already.
    Val(Value),
    /// A variable of the request.
    Var(Var),
    /// A template slot that was not filled.
    Slot(SlotId),
    /// A named unknown.
    Unknown(String),
    /// `if .. then .. else ..`
    If(Box<Expr>, Box<Expr>, Box<Expr>),
    /// `.. && ..`
    And(Box<Expr>, Box<Expr>),
    /// `.. || ..`
    Or(Box<Expr>, Box<Expr>),
    /// A unary operator applied to its argument.
    Unary(UnaryOp, Box<Expr>),
    /// A binary operator applied to its arguments.
    Binary(BinaryOp, Box<Expr>, Box<Expr>),
    /// Multiplication by a constant.
    MulByConst(Box<Expr>, i64),
    /// A call of an extension function.
    Call(String, Vec<Expr>),
    /// `.attr`, or `["attr"]`
    GetAttr(Box<Expr>, String),
    /// `.. has attr`
    HasAttr(Box<Expr>, String),
    /// `.. like pattern`
    Like(Box<Expr>, Vec<PatternElem>),
    /// `.. is Type`
    Is(Box<Expr>, String),
    /// A set literal.
    SetOf(Vec<Expr>),
    /// A record literal.
    Record(Vec<(String, Expr)>),
}

/// Mathematical model of an [`Expr`].
pub enum ExprV {
    Lit(LiteralV),
    Val(ValueV),
    Var(Var),
    Slot(SlotId),
    Unknown(Seq<char>),
    If(Box<ExprV>, Box<ExprV>, Box<ExprV>),
    And(Box<ExprV>, Box<ExprV>),
    Or(Box<ExprV>, Box<ExprV>),
    Unary(UnaryOp, Box<ExprV>),
    Binary(BinaryOp, Box<ExprV>, Box<ExprV>),
    MulByConst(Box<ExprV>, i64),
    Call(Seq<char>, Seq<ExprV>),
    GetAttr(Box<ExprV>, Seq<char>),
    HasAttr(Box<ExprV>, Seq<char>),
    Like(Box<ExprV>, Seq<PatternElem>),
    Is(Box<ExprV>, Seq<char>),
    SetOf(Seq<ExprV>),
    Record(Seq<(Seq<char>, ExprV)>),
}

/// The model of an expression.
pub open spec fn expr_view(e: Expr) -> ExprV
    decreases e,
{
    match e {
        Expr::Lit(l) => ExprV::Lit(l@),
        Expr::Val(v) => ExprV::Val(v@),
        Expr::Var(v) => ExprV::Var(v),
        Expr::Slot(s) => ExprV::Slot(s),
        Expr::Unknown(n) => ExprV::Unknown(n@),
        Expr::If(c, t, f) => ExprV::If(
            Box::new(expr_view(*c)),
            Box::new(expr_view(*t)),
            Box::new(expr_view(*f)),
        ),
        Expr::And(a, b) => ExprV::And(Box::new(expr_view(*a)), Box::new(expr_view(*b))),
        Expr::Or(a, b) => ExprV::Or(Box::new(expr_view(*a)), Box::new(expr_view(*b))),
        Expr::Unary(op, a) => ExprV::Unary(op, Box::new(expr_view(*a))),
        Expr::Binary(op, a, b) => ExprV::Binary(
            op,
            Box::new(expr_view(*a)),
            Box::new(expr_view(*b)),
        ),
        Expr::MulByConst(a, c) => ExprV::MulByConst(Box::new(expr_view(*a)), c),
        Expr::Call(name, args) => ExprV::Call(
            name@,
            Seq::new(
                args.len() as nat,
                |i: int|
                    if 0 <= i < args.len() {
                        expr_view(args[i])
                    } else {
                        ExprV::Var(Var::Context)
                    },
            ),
        ),
        Expr::GetAttr(a, attr) => ExprV::GetAttr(Box::new(expr_view(*a)), attr@),
        Expr::HasAttr(a, attr) => ExprV::HasAttr(Box::new(expr_view(*a)), attr@),
        Expr::Like(a, pattern) => ExprV::Like(Box::new(expr_view(*a)), pattern@),
        Expr::Is(a, ty) => ExprV::Is(Box::new(expr_view(*a)), ty@),
        Expr::SetOf(es) => ExprV::SetOf(
            Seq::new(
                es.len() as nat,
                |i: int|
                    if 0 <= i < es.len() {
                        expr_view(es[i])
                    } else {
                        ExprV::Var(Var::Context)
                    },
            ),
        ),
        Expr::Record(fs) => ExprV::Record(
            Seq::new(
                fs.len() as nat,
                |i: int|
                    if 0 <= i < fs.len() {
                        (fs[i].0@, expr_view(fs[i].1))
                    } else {
                        (Seq::empty(), ExprV::Var(Var::Context))
                    },
            ),
        ),
    }
}

impl View for Expr {
    type V = ExprV;

    open spec fn view(&self) -> ExprV {
        expr_view(*self)
    }
}

/// The models of a vector of expressions, in order.
pub open spec fn exprs_view(es: Seq<Expr>) -> Seq<ExprV> {
    Seq::new(es.len(), |i: int| es[i]@)
}

/// The models of the fields of a record literal, in order.
pub open spec fn expr_fields_view(fs: Seq<(String, Expr)>) -> Seq<(Seq<char>, ExprV)> {
    Seq::new(fs.len(), |i: int| (fs[i].0@, fs[i].1@))
}

/// The model of a call is made of the models of its arguments.
pub proof fn lemma_call_view(name: String, args: Vec<Expr>)
    ensures
        Expr::Call(name, args)@ == ExprV::Call(name@, exprs_view(args@)),
{
    assert(Expr::Call(name, args)@->Call_1 =~= exprs_view(args@));
}

/// The model of a set literal is made of the models of its elements.
pub proof fn lemma_set_expr_view(es: Vec<Expr>)
    ensures
        Expr::SetOf(es)@ == ExprV::SetOf(exprs_view(es@)),
{
    assert(Expr::SetOf(es)@->SetOf_0 =~= exprs_view(es@));
}

/// The model of a record literal is made of the models of its fields.
pub proof fn lemma_record_expr_view(fs: Vec<(String, Expr)>)
    ensures
        Expr::Record(fs)@ == ExprV::Record(expr_fields_view(fs@)),
{
    assert(Expr::Record(fs)@->Record_0 =~= expr_fields_view(fs@));
}

/// A copy of a pattern.
pub fn clone_pattern(p: &Vec<PatternElem>) -> (r: Vec<PatternElem>)
    ensures
        r@ == p@,
{
    let mut out: Vec<PatternElem> = Vec::new();
    let mut i: usize = 0;
    while i < p.len()
        invariant
            i <= p.len(),
            out@ == p@.take(i as int),
        decreases p.len() - i,
    {
        out.push(p[i]);
        i += 1;
    }
    out
}

fn clone_exprs(es: &Vec<Expr>) -> (r: Vec<Expr>)
    ensures
        exprs_view(r@) == exprs_view(es@),
    decreases es,
{
    let mut out: Vec<Expr> = Vec::new();
    let mut i: usize = 0;
    while i < es.len()
        invariant
            i <= es.len(),
            out.len() == i,
            forall|k: int| 0 <= k < i ==> out[k]@ == es[k]@,
        decreases es.len() - i,
    {
        out.push(es[i].clone());
        i += 1;
    }
    assert(exprs_view(out@) =~= exprs_view(es@));
    out
}

fn clone_expr_fields(fs: &Vec<(String, Expr)>) -> (r: Vec<(String, Expr)>)
    ensures
        expr_fields_view(r@) == expr_fields_view(fs@),
    decreases fs,
{
    let mut out: Vec<(String, Expr)> = Vec::new();
    let mut i: usize = 0;
    while i < fs.len()
        invariant
            i <= fs.len(),
            out.len() == i,
            forall|k: int| 0 <= k < i ==> out[k].0@ == fs[k].0@ && out[k].1@ == fs[k].1@,
        decreases fs.len() - i,
    {
        out.push((fs[i].0.clone(), fs[i].1.clone()));
        i += 1;
    }
    assert(expr_fields_view(out@) =~= expr_fields_view(fs@));
    out
}

impl Clone for Expr {
    fn clone(&self) -> (r: Self)
        ensures
            r@ == self@,
        decreases self,
    {
        match self {
            Expr::Lit(l) => Expr::Lit(l.clone()),
            Expr::Val(v) => Expr::Val(v.clone()),
            Expr::Var(v) => Expr::Var(*v),
            Expr::Slot(s) => Expr::Slot(*s),
            Expr::Unknown(n) => Expr::Unknown(n.clone()),
            Expr::If(c, t, f) => Expr::If(
                Box::new((**c).clone()),
                Box::new((**t).clone()),
                Box::new((**f).clone()),
            ),
            Expr::And(a, b) => Expr::And(Box::new((**a).clone()), Box::new((**b).clone())),
            Expr::Or(a, b) => Expr::Or(Box::new((**a).clone()), Box::new((**b).clone())),
            Expr::Unary(op, a) => Expr::Unary(*op, Box::new((**a).clone())),
            Expr::Binary(op, a, b) => Expr::Binary(
                *op,
                Box::new((**a).clone()),
                Box::new((**b).clone()),
            ),
            Expr::MulByConst(a, c) => Expr::MulByConst(Box::new((**a).clone()), *c),
            Expr::Call(name, args) => {
                let out = clone_exprs(args);
                let n = name.clone();
                proof {
                    lemma_call_view(n, out);
                    lemma_call_view(*name, *args);
                }
                Expr::Call(n, out)
            },
            Expr::GetAttr(a, attr) => Expr::GetAttr(Box::new((**a).clone()), attr.clone()),
            Expr::HasAttr(a, attr) => Expr::HasAttr(Box::new((**a).clone()), attr.clone()),
            Expr::Like(a, pattern) => Expr::Like(Box::new((**a).clone()), clone_pattern(pattern)),
            Expr::Is(a, ty) => Expr::Is(Box::new((**a).clone()), ty.clone()),
            Expr::SetOf(es) => {
                let out = clone_exprs(es);
                proof {
                    lemma_set_expr_view(out);
                    lemma_set_expr_view(*es);
                }
                Expr::SetOf(out)
            },
            Expr::Record(fs) => {
                let out = clone_expr_fields(fs);
                proof {
                    lemma_record_expr_view(out);
                    lemma_record_expr_view(*fs);
                }
                Expr::Record(out)
            },
        }
    }
}

impl Expr {
    /// The literal `b`.
    pub fn bool(b: bool) -> (e: Expr)
        ensures
            e@ == ExprV::Lit(LiteralV::Bool(b)),
    {
        Expr::Lit(Literal::Bool(b))
    }

    /// The literal `i`.
    pub fn long(i: i64) -> (e: Expr)
        ensures
            e@ == ExprV::Lit(LiteralV::Long(i)),
    {
        Expr::Lit(Literal::Long(i))
    }

    /// The string literal with the characters of `s`.
    pub fn string(s: &str) -> (e: Expr)
        ensures
            e@ == ExprV::Lit(LiteralV::String(s@)),
    {
        Expr::Lit(Literal::String(String::from_str(s)))
    }

    /// The literal that names the entity `u`.
    pub fn uid(u: EntityUid) -> (e: Expr)
        ensures
            e@ == ExprV::Lit(LiteralV::EntityUid(u@)),
    {
        Expr::Lit(Literal::EntityUid(u))
    }

    /// The variable `v`.
    pub fn var(v: Var) -> (e: Expr)
        ensures
            e@ == ExprV::Var(v),
    {
        Expr::Var(v)
    }

    /// The unknown called `name`.
    pub fn unknown(name: &str) -> (e: Expr)
        ensures
            e@ == ExprV::Unknown(name@),
    {
        Expr::Unknown(String::from_str(name))
    }

    /// `if c then t else f`
    pub fn ite(c: Expr, t: Expr, f: Expr) -> (e: Expr)
        ensures
            e@ == ExprV::If(Box::new(c@), Box::new(t@), Box::new(f@)),
    {
        Expr::If(Box::new(c), Box::new(t), Box::new(f))
    }

    /// `a && b`
    pub fn and(a: Expr, b: Expr) -> (e: Expr)
        ensures
            e@ == ExprV::And(Box::new(a@), Box::new(b@)),
    {
        Expr::And(Box::new(a), Box::new(b))
    }

    /// `a || b`
    pub fn or(a: Expr, b: Expr) -> (e: Expr)
        ensures
            e@ == ExprV::Or(Box::new(a@), Box::new(b@)),
    {
        Expr::Or(Box::new(a), Box::new(b))
    }

    /// `!a`
    pub fn not(a: Expr) -> (e: Expr)
        ensures
            e@ == ExprV::Unary(UnaryOp::Not, Box::new(a@)),
    {
        Expr::Unary(UnaryOp::Not, Box::new(a))
    }

    /// `-a`
    pub fn neg(a: Expr) -> (e: Expr)
        ensures
            e@ == ExprV::Unary(UnaryOp::Neg, Box::new(a@)),
    {
        Expr::Unary(UnaryOp::Neg, Box::new(a))
    }

    /// The binary operator `op` applied to `a` and `b`.
    pub fn binary(op: BinaryOp, a: Expr, b: Expr) -> (e: Expr)
        ensures
            e@ == ExprV::Binary(op, Box::new(a@), Box::new(b@)),
    {
        Expr::Binary(op, Box::new(a), Box::new(b))
    }

    /// `a * constant`
    pub fn mul(a: Expr, constant: i64) -> (e: Expr)
        ensures
            e@ == ExprV::MulByConst(Box::new(a@), constant),
    {
        Expr::MulByConst(Box::new(a), constant)
    }

    /// `a.attr`
    pub fn get_attr(a: Expr, attr: &str) -> (e: Expr)
        ensures
            e@ == ExprV::GetAttr(Box::new(a@), attr@),
    {
        Expr::GetAttr(Box::new(a), String::from_str(attr))
    }

    /// `a has attr`
    pub fn has_attr(a: Expr, attr: &str) -> (e: Expr)
        ensures
            e@ == ExprV::HasAttr(Box::new(a@), attr@),
    {
        Expr::HasAttr(Box::new(a), String::from_str(attr))
    }

    /// `a like pattern`
    pub fn like(a: Expr, pattern: Vec<PatternElem>) -> (e: Expr)
        ensures
            e@ == ExprV::Like(Box::new(a@), pattern@),
    {
        Expr::Like(Box::new(a), pattern)
    }

    /// `a is ty`
    pub fn is_type(a: Expr, ty: &str) -> (e: Expr)
        ensures
            e@ == ExprV::Is(Box::new(a@), ty@),
    {
        Expr::Is(Box::new(a), String::from_str(ty))
    }

    /// The call of the extension function `name` with the arguments `args`.
    pub fn call(name: &str, args: Vec<Expr>) -> (e: Expr)
        ensures
            e@ == ExprV::Call(name@, exprs_view(args@)),
    {
        let n = String::from_str(name);
        proof {
            lemma_call_view(n, args);
        }
        Expr::Call(n, args)
    }

    /// The set literal with the elements `es`.
    pub fn set(es: Vec<Expr>) -> (e: Expr)
        ensures
            e@ == ExprV::SetOf(exprs_view(es@)),
    {
        proof {
            lemma_set_expr_view(es);
        }
        Expr::SetOf(es)
    }
}

} // verus!
