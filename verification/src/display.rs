//! How identifiers, types, values and expressions are written out.
use vstd::prelude::*;
use crate::ast::{BinaryOp, Expr, ExprV, LiteralV, PatternElem, SlotId, UnaryOp, Var,
    expr_fields_view, exprs_view, lemma_call_view, lemma_record_expr_view, lemma_set_expr_view};
use crate::text::{chars_of, int_to_dec, nat_to_dec, push_char, push_int, push_nat};
use crate::value::{EntityType, EntityTypeV, EntityUid, EntityUidV, ExtValue, Type, TypeV,
    Value, ValueV, fields_view, lemma_record_view, lemma_set_view, values_view};

verus! {

/// How a character is written inside a string literal: quotes, backslashes
/// and the control characters `\n`, `\r`, `\t` and `\0` are written with a
/// backslash, every other character as it is.
pub open spec fn escape_char(c: char) -> Seq<char> {
    if c == '\\' {
        seq!['\\', '\\']
    } else if c == '"' {
        seq!['\\', '"']
    } else if c == '\n' {
        seq!['\\', 'n']
    } else if c == '\r' {
        seq!['\\', 'r']
    } else if c == '\t' {
        seq!['\\', 't']
    } else if c == '\0' {
        seq!['\\', '0']
    } else {
        seq![c]
    }
}

/// The characters of `s`, each written as inside a string literal.
pub open spec fn escape(s: Seq<char>) -> Seq<char>
    decreases s.len(),
{
    if s.len() == 0 {
        Seq::empty()
    } else {
        escape(s.drop_last()) + escape_char(s.last())
    }
}

/// `s` as a string literal: escaped, between double quotes.
pub open spec fn quote(s: Seq<char>) -> Seq<char> {
    seq!['"'] + escape(s) + seq!['"']
}

/// Appends `c` to `out`, written as inside a string literal.
pub fn write_escaped_char(out: &mut String, c: char)
    ensures
        final(out)@ == old(out)@ + escape_char(c),
{
    if c == '\\' {
        push_char(out, '\\');
        push_char(out, '\\');
    } else if c == '"' {
        push_char(out, '\\');
        push_char(out, '"');
    } else if c == '\n' {
        push_char(out, '\\');
        push_char(out, 'n');
    } else if c == '\r' {
        push_char(out, '\\');
        push_char(out, 'r');
    } else if c == '\t' {
        push_char(out, '\\');
        push_char(out, 't');
    } else if c == '\0' {
        push_char(out, '\\');
        push_char(out, '0');
    } else {
        push_char(out, c);
    }
    assert(out@ =~= old(out)@ + escape_char(c));
}

/// Appends `s` to `out` as a string literal.
pub fn write_quoted(out: &mut String, s: &str)
    ensures
        final(out)@ == old(out)@ + quote(s@),
{
    let ghost start = out@;
    let cs = chars_of(s);
    push_char(out, '"');
    let mut i: usize = 0;
    assert(cs@.take(0) =~= Seq::<char>::empty());
    while i < cs.len()
        invariant
            i <= cs.len(),
            out@ == start + seq!['"'] + escape(cs@.take(i as int)),
        decreases cs.len() - i,
    {
        proof {
            assert(cs@.take(i + 1).drop_last() =~= cs@.take(i as int));
            assert(cs@.take(i + 1).last() == cs@[i as int]);
        }
        let ghost before = out@;
        write_escaped_char(out, cs[i]);
        assert(out@ =~= start + seq!['"'] + escape(cs@.take(i + 1)));
        i += 1;
    }
    assert(cs@.take(i as int) =~= cs@);
    push_char(out, '"');
    assert(out@ =~= start + quote(s@));
}

/// How an entity type is written.
pub open spec fn show_entity_type(t: EntityTypeV) -> Seq<char> {
    match t {
        EntityTypeV::Specified(n) => n,
        EntityTypeV::Unspecified => "<Unspecified>"@,
    }
}

/// How an entity identifier is written: its type, `::`, and its id as a
/// string literal.
pub open spec fn show_uid(u: EntityUidV) -> Seq<char> {
    show_entity_type(u.ty) + "::"@ + quote(u.eid)
}

/// Appends an entity type to `out`.
pub fn write_entity_type(out: &mut String, t: &EntityType)
    ensures
        final(out)@ == old(out)@ + show_entity_type(t@),
{
    match t {
        EntityType::Specified(n) => out.append(n.as_str()),
        EntityType::Unspecified => out.append("<Unspecified>"),
    }
}

/// Appends an entity identifier to `out`.
pub fn write_uid(out: &mut String, u: &EntityUid)
    ensures
        final(out)@ == old(out)@ + show_uid(u@),
{
    write_entity_type(out, &u.ty);
    out.append("::");
    write_quoted(out, u.eid.as_str());
    assert(out@ =~= old(out)@ + show_uid(u@));
}

/// How a type tag is written.
pub open spec fn show_type(t: TypeV) -> Seq<char> {
    match t {
        TypeV::Bool => "bool"@,
        TypeV::Long => "long"@,
        TypeV::String => "string"@,
        TypeV::Entity { ty } => "(entity of type `"@ + show_entity_type(ty) + "`)"@,
        TypeV::SetOf => "set"@,
        TypeV::Record => "record"@,
        TypeV::Extension { name } => name,
    }
}

/// Appends a type tag to `out`.
pub fn write_type(out: &mut String, t: &Type)
    ensures
        final(out)@ == old(out)@ + show_type(t@),
{
    match t {
        Type::Bool => out.append("bool"),
        Type::Long => out.append("long"),
        Type::String => out.append("string"),
        Type::Entity { ty } => {
            out.append("(entity of type `");
            write_entity_type(out, ty);
            out.append("`)");
            assert(out@ =~= old(out)@ + show_type(t@));
        },
        Type::SetOf => out.append("set"),
        Type::Record => out.append("record"),
        Type::Extension { name } => out.append(name.as_str()),
    }
}

/// A natural number below 10000 as four digits.
pub open spec fn four_digits(n: nat) -> Seq<char> {
    seq![
        crate::text::digit_char(n / 1000 % 10),
        crate::text::digit_char(n / 100 % 10),
        crate::text::digit_char(n / 10 % 10),
        crate::text::digit_char(n % 10),
    ]
}

/// How a decimal number, scaled by 10000, is written: a `-` when negative,
/// the whole part, a `.`, and four digits.
pub open spec fn show_decimal(d: i64) -> Seq<char> {
    let magnitude: nat = if d < 0 {
        (-d) as nat
    } else {
        d as nat
    };
    (if d < 0 {
        seq!['-']
    } else {
        Seq::empty()
    }) + nat_to_dec(magnitude / 10000) + seq!['.'] + four_digits(magnitude % 10000)
}

/// How an extension value is written: as the call that makes it.
pub open spec fn show_ext(x: ExtValue) -> Seq<char> {
    match x {
        ExtValue::Decimal(d) => "decimal(\""@ + show_decimal(d) + "\")"@,
        ExtValue::Ip(ip) => "ip(\""@ + crate::ipaddr::show_ip(ip) + "\")"@,
    }
}

/// Appends an extension value to `out`.
pub fn write_ext(out: &mut String, x: &ExtValue)
    ensures
        final(out)@ == old(out)@ + show_ext(*x),
{
    match x {
        ExtValue::Decimal(d) => {
            let d: i64 = *d;
            out.append("decimal(\"");
            let magnitude: u64 = if d < 0 {
                push_char(out, '-');
                (-(d as i128)) as u64
            } else {
                d as u64
            };
            push_nat(out, magnitude / 10000);
            push_char(out, '.');
            let rest: u64 = magnitude % 10000;
            push_char(out, (48u8 + (rest / 1000 % 10) as u8) as char);
            push_char(out, (48u8 + (rest / 100 % 10) as u8) as char);
            push_char(out, (48u8 + (rest / 10 % 10) as u8) as char);
            push_char(out, (48u8 + (rest % 10) as u8) as char);
            out.append("\")");
            assert(out@ =~= old(out)@ + show_ext(*x));
        },
        ExtValue::Ip(ip) => {
            out.append("ip(\"");
            crate::ipaddr::write_ip(out, ip);
            out.append("\")");
            assert(out@ =~= old(out)@ + show_ext(*x));
        },
    }
}

/// How a value is written.
pub open spec fn show_value(v: ValueV) -> Seq<char>
    decreases v, 0nat,
{
    match v {
        ValueV::Bool(b) => if b {
            "true"@
        } else {
            "false"@
        },
        ValueV::Long(i) => int_to_dec(i as int),
        ValueV::String(s) => quote(s),
        ValueV::EntityUid(u) => show_uid(u),
        ValueV::SetOf(vs) => seq!['['] + show_values(vs) + seq![']'],
        ValueV::Record(fs) => seq!['{'] + show_fields(fs) + seq!['}'],
        ValueV::Ext(x) => show_ext(x),
    }
}

/// How the elements of a set are written: separated by `, `.
pub open spec fn show_values(vs: Seq<ValueV>) -> Seq<char>
    decreases vs, 1nat,
{
    if vs.len() == 0 {
        Seq::empty()
    } else if vs.len() == 1 {
        show_value(vs.last())
    } else {
        show_values(vs.drop_last()) + ", "@ + show_value(vs.last())
    }
}

/// How the attributes of a record are written: each as its quoted name,
/// `: ` and its value, separated by `, `.
pub open spec fn show_fields(fs: Seq<(Seq<char>, ValueV)>) -> Seq<char>
    decreases fs, 1nat,
{
    if fs.len() == 0 {
        Seq::empty()
    } else if fs.len() == 1 {
        quote(fs.last().0) + ": "@ + show_value(fs.last().1)
    } else {
        show_fields(fs.drop_last()) + ", "@ + quote(fs.last().0) + ": "@ + show_value(fs.last().1)
    }
}

/// Appends a value to `out`.
pub fn write_value(out: &mut String, v: &Value)
    ensures
        final(out)@ == old(out)@ + show_value(v@),
    decreases v, 0nat,
{
    match v {
        Value::Bool(b) => {
            if *b {
                out.append("true")
            } else {
                out.append("false")
            }
        },
        Value::Long(i) => push_int(out, *i),
        Value::String(s) => write_quoted(out, s.as_str()),
        Value::EntityUid(u) => write_uid(out, u),
        Value::SetOf(vs) => {
            proof {
                lemma_set_view(*vs);
            }
            push_char(out, '[');
            write_values(out, vs);
            push_char(out, ']');
            assert(out@ =~= old(out)@ + show_value(v@));
        },
        Value::Record(fs) => {
            proof {
                lemma_record_view(*fs);
            }
            push_char(out, '{');
            write_fields(out, fs);
            push_char(out, '}');
            assert(out@ =~= old(out)@ + show_value(v@));
        },
        Value::Ext(x) => write_ext(out, x),
    }
}

fn write_values(out: &mut String, vs: &Vec<Value>)
    ensures
        final(out)@ == old(out)@ + show_values(values_view(vs@)),
    decreases vs, 1nat,
{
    let ghost start = out@;
    let ghost vv = values_view(vs@);
    let mut i: usize = 0;
    assert(start =~= start + show_values(vv.take(0)));
    while i < vs.len()
        invariant
            i <= vs.len(),
            vv == values_view(vs@),
            out@ == start + show_values(vv.take(i as int)),
        decreases vs.len() - i,
    {
        proof {
            assert(vv.take(i + 1).drop_last() =~= vv.take(i as int));
            assert(vv.take(i + 1).last() == vs[i as int]@);
        }
        if i > 0 {
            out.append(", ");
        }
        write_value(out, &vs[i]);
        assert(out@ =~= start + show_values(vv.take(i + 1)));
        i += 1;
    }
    assert(vv.take(i as int) =~= vv);
}

fn write_fields(out: &mut String, fs: &Vec<(String, Value)>)
    ensures
        final(out)@ == old(out)@ + show_fields(fields_view(fs@)),
    decreases fs, 1nat,
{
    let ghost start = out@;
    let ghost fv = fields_view(fs@);
    let mut i: usize = 0;
    assert(start =~= start + show_fields(fv.take(0)));
    while i < fs.len()
        invariant
            i <= fs.len(),
            fv == fields_view(fs@),
            out@ == start + show_fields(fv.take(i as int)),
        decreases fs.len() - i,
    {
        proof {
            assert(fv.take(i + 1).drop_last() =~= fv.take(i as int));
            assert(fv.take(i + 1).last() == (fs[i as int].0@, fs[i as int].1@));
        }
        if i > 0 {
            out.append(", ");
        }
        write_quoted(out, fs[i].0.as_str());
        out.append(": ");
        write_value(out, &fs[i].1);
        assert(out@ =~= start + show_fields(fv.take(i + 1)));
        i += 1;
    }
    assert(fv.take(i as int) =~= fv);
}

impl EntityUid {
    /// This identifier written out, as [`show_uid`] says.
    pub fn to_text(&self) -> (r: String)
        ensures
            r@ == show_uid(self@),
    {
        let mut out = String::new();
        write_uid(&mut out, self);
        assert(out@ =~= show_uid(self@));
        out
    }
}

impl Type {
    /// This type tag written out, as [`show_type`] says.
    pub fn to_text(&self) -> (r: String)
        ensures
            r@ == show_type(self@),
    {
        let mut out = String::new();
        write_type(&mut out, self);
        assert(out@ =~= show_type(self@));
        out
    }
}

impl Value {
    /// This value written out, as [`show_value`] says.
    pub fn to_text(&self) -> (r: String)
        ensures
            r@ == show_value(self@),
    {
        let mut out = String::new();
        write_value(&mut out, self);
        assert(out@ =~= show_value(self@));
        out
    }
}

/// How a variable is written.
pub open spec fn show_var(v: Var) -> Seq<char> {
    match v {
        Var::Principal => "principal"@,
        Var::Action => "action"@,
        Var::Resource => "resource"@,
        Var::Context => "context"@,
    }
}

/// How a slot is written.
pub open spec fn show_slot(s: SlotId) -> Seq<char> {
    match s {
        SlotId::Principal => "?principal"@,
        SlotId::Resource => "?resource"@,
    }
}

/// How a binary operator is written between its operands.
pub open spec fn show_binary_op(op: BinaryOp) -> Seq<char> {
    match op {
        BinaryOp::Eq => "=="@,
        BinaryOp::NotEq => "!="@,
        BinaryOp::Less => "<"@,
        BinaryOp::LessEq => "<="@,
        BinaryOp::Greater => ">"@,
        BinaryOp::GreaterEq => ">="@,
        BinaryOp::Add => "+"@,
        BinaryOp::Sub => "-"@,
        BinaryOp::In => "in"@,
        BinaryOp::Contains => "contains"@,
        BinaryOp::ContainsAll => "containsAll"@,
        BinaryOp::ContainsAny => "containsAny"@,
    }
}

/// Whether a binary operator is written as a method call.
pub open spec fn is_method(op: BinaryOp) -> bool {
    op == BinaryOp::Contains || op == BinaryOp::ContainsAll || op == BinaryOp::ContainsAny
}

/// How an element of a pattern is written: a wildcard as `*`, the
/// character `*` as `\*`, any other character as in a string literal.
pub open spec fn show_pattern_elem(p: PatternElem) -> Seq<char> {
    match p {
        PatternElem::Wildcard => seq!['*'],
        PatternElem::Char(c) => if c == '*' {
            seq!['\\', '*']
        } else {
            escape_char(c)
        },
    }
}

/// How the elements of a pattern are written, one after the other.
pub open spec fn show_pattern_elems(p: Seq<PatternElem>) -> Seq<char>
    decreases p.len(),
{
    if p.len() == 0 {
        Seq::empty()
    } else {
        show_pattern_elems(p.drop_last()) + show_pattern_elem(p.last())
    }
}

/// How a pattern is written: its elements between double quotes.
pub open spec fn show_pattern(p: Seq<PatternElem>) -> Seq<char> {
    seq!['"'] + show_pattern_elems(p) + seq!['"']
}

/// How a literal is written.
pub open spec fn show_literal(l: LiteralV) -> Seq<char> {
    show_value(crate::ast::literal_value(l))
}

/// How an expression is written. Operators are written between
/// parentheses, so that no precedence is needed to read them.
pub open spec fn show_expr(e: ExprV) -> Seq<char>
    decreases e, 0nat,
{
    match e {
        ExprV::Lit(l) => show_literal(l),
        ExprV::Val(v) => show_value(v),
        ExprV::Var(v) => show_var(v),
        ExprV::Slot(s) => show_slot(s),
        ExprV::Unknown(n) => "unknown("@ + quote(n) + ")"@,
        ExprV::If(c, t, f) => "(if "@ + show_expr(*c) + " then "@ + show_expr(*t) + " else "@
            + show_expr(*f) + ")"@,
        ExprV::And(a, b) => "("@ + show_expr(*a) + " && "@ + show_expr(*b) + ")"@,
        ExprV::Or(a, b) => "("@ + show_expr(*a) + " || "@ + show_expr(*b) + ")"@,
        ExprV::Unary(op, a) => (match op {
            UnaryOp::Not => "(!"@,
            UnaryOp::Neg => "(-"@,
        }) + show_expr(*a) + ")"@,
        ExprV::Binary(op, a, b) => if is_method(op) {
            show_expr(*a) + "."@ + show_binary_op(op) + "("@ + show_expr(*b) + ")"@
        } else {
            "("@ + show_expr(*a) + " "@ + show_binary_op(op) + " "@ + show_expr(*b) + ")"@
        },
        ExprV::MulByConst(a, c) => "("@ + show_expr(*a) + " * "@ + int_to_dec(c as int) + ")"@,
        ExprV::Call(name, args) => name + "("@ + show_exprs(args) + ")"@,
        ExprV::GetAttr(a, attr) => show_expr(*a) + "["@ + quote(attr) + "]"@,
        ExprV::HasAttr(a, attr) => "("@ + show_expr(*a) + " has "@ + quote(attr) + ")"@,
        ExprV::Like(a, p) => "("@ + show_expr(*a) + " like "@ + show_pattern(p) + ")"@,
        ExprV::Is(a, ty) => "("@ + show_expr(*a) + " is "@ + ty + ")"@,
        ExprV::SetOf(es) => "["@ + show_exprs(es) + "]"@,
        ExprV::Record(fs) => "{"@ + show_expr_fields(fs) + "}"@,
    }
}

/// How a sequence of expressions is written: separated by `, `.
pub open spec fn show_exprs(es: Seq<ExprV>) -> Seq<char>
    decreases es, 1nat,
{
    if es.len() == 0 {
        Seq::empty()
    } else if es.len() == 1 {
        show_expr(es.last())
    } else {
        show_exprs(es.drop_last()) + ", "@ + show_expr(es.last())
    }
}

/// How the fields of a record literal are written.
pub open spec fn show_expr_fields(fs: Seq<(Seq<char>, ExprV)>) -> Seq<char>
    decreases fs, 1nat,
{
    if fs.len() == 0 {
        Seq::empty()
    } else if fs.len() == 1 {
        quote(fs.last().0) + ": "@ + show_expr(fs.last().1)
    } else {
        show_expr_fields(fs.drop_last()) + ", "@ + quote(fs.last().0) + ": "@ + show_expr(
            fs.last().1,
        )
    }
}

/// Appends a variable to `out`.
pub fn write_var(out: &mut String, v: Var)
    ensures
        final(out)@ == old(out)@ + show_var(v),
{
    match v {
        Var::Principal => out.append("principal"),
        Var::Action => out.append("action"),
        Var::Resource => out.append("resource"),
        Var::Context => out.append("context"),
    }
}

/// Appends a slot to `out`.
pub fn write_slot(out: &mut String, s: SlotId)
    ensures
        final(out)@ == old(out)@ + show_slot(s),
{
    match s {
        SlotId::Principal => out.append("?principal"),
        SlotId::Resource => out.append("?resource"),
    }
}

fn write_binary_op(out: &mut String, op: BinaryOp)
    ensures
        final(out)@ == old(out)@ + show_binary_op(op),
{
    match op {
        BinaryOp::Eq => out.append("=="),
        BinaryOp::NotEq => out.append("!="),
        BinaryOp::Less => out.append("<"),
        BinaryOp::LessEq => out.append("<="),
        BinaryOp::Greater => out.append(">"),
        BinaryOp::GreaterEq => out.append(">="),
        BinaryOp::Add => out.append("+"),
        BinaryOp::Sub => out.append("-"),
        BinaryOp::In => out.append("in"),
        BinaryOp::Contains => out.append("contains"),
        BinaryOp::ContainsAll => out.append("containsAll"),
        BinaryOp::ContainsAny => out.append("containsAny"),
    }
}

/// Appends a pattern to `out`.
pub fn write_pattern(out: &mut String, p: &Vec<PatternElem>)
    ensures
        final(out)@ == old(out)@ + show_pattern(p@),
{
    let ghost start = out@;
    push_char(out, '"');
    let mut i: usize = 0;
    assert(p@.take(0) =~= Seq::<PatternElem>::empty());
    while i < p.len()
        invariant
            i <= p.len(),
            out@ == start + seq!['"'] + show_pattern_elems(p@.take(i as int)),
        decreases p.len() - i,
    {
        proof {
            assert(p@.take(i + 1).drop_last() =~= p@.take(i as int));
            assert(p@.take(i + 1).last() == p@[i as int]);
        }
        match p[i] {
            PatternElem::Wildcard => {
                push_char(out, '*');
            },
            PatternElem::Char(c) => {
                if c == '*' {
                    push_char(out, '\\');
                    push_char(out, '*');
                } else {
                    write_escaped_char(out, c);
                }
            },
        }
        assert(out@ =~= start + seq!['"'] + show_pattern_elems(p@.take(i + 1)));
        i += 1;
    }
    assert(p@.take(i as int) =~= p@);
    push_char(out, '"');
    assert(out@ =~= start + show_pattern(p@));
}

/// The concatenation of three strings.
pub fn cat3(a: &str, b: &str, c: &str) -> (r: String)
    ensures
        r@ == a@ + b@ + c@,
{
    let mut out = String::from_str(a);
    out.append(b);
    out.append(c);
    out
}

/// The concatenation of five strings.
pub fn cat5(a: &str, b: &str, c: &str, d: &str, e: &str) -> (r: String)
    ensures
        r@ == a@ + b@ + c@ + d@ + e@,
{
    let mut out = cat3(a, b, c);
    out.append(d);
    out.append(e);
    out
}

/// The concatenation of seven strings.
pub fn cat7(a: &str, b: &str, c: &str, d: &str, e: &str, f: &str, g: &str) -> (r: String)
    ensures
        r@ == a@ + b@ + c@ + d@ + e@ + f@ + g@,
{
    let mut out = cat5(a, b, c, d, e);
    out.append(f);
    out.append(g);
    out
}

fn binary_op_text(op: BinaryOp) -> (r: String)
    ensures
        r@ == show_binary_op(op),
{
    let mut out = String::new();
    write_binary_op(&mut out, op);
    assert(out@ =~= show_binary_op(op));
    out
}

fn quoted(s: &str) -> (r: String)
    ensures
        r@ == quote(s@),
{
    let mut out = String::new();
    write_quoted(&mut out, s);
    assert(out@ =~= quote(s@));
    out
}

fn pattern_text(p: &Vec<PatternElem>) -> (r: String)
    ensures
        r@ == show_pattern(p@),
{
    let mut out = String::new();
    write_pattern(&mut out, p);
    assert(out@ =~= show_pattern(p@));
    out
}

/// An expression written out.
pub fn render_expr(e: &Expr) -> (r: String)
    ensures
        r@ == show_expr(e@),
    decreases e, 0nat,
{
    match e {
        Expr::Lit(l) => {
            let v = l.to_value();
            v.to_text()
        },
        Expr::Val(v) => v.to_text(),
        Expr::Var(v) => {
            let mut out = String::new();
            write_var(&mut out, *v);
            assert(out@ =~= show_var(*v));
            out
        },
        Expr::Slot(s) => {
            let mut out = String::new();
            write_slot(&mut out, *s);
            assert(out@ =~= show_slot(*s));
            out
        },
        Expr::Unknown(n) => {
            let q = quoted(n.as_str());
            cat3("unknown(", q.as_str(), ")")
        },
        Expr::If(c, t, f) => {
            let sc = render_expr(&**c);
            let st = render_expr(&**t);
            let sf = render_expr(&**f);
            cat7("(if ", sc.as_str(), " then ", st.as_str(), " else ", sf.as_str(), ")")
        },
        Expr::And(a, b) => {
            let sa = render_expr(&**a);
            let sb = render_expr(&**b);
            cat5("(", sa.as_str(), " && ", sb.as_str(), ")")
        },
        Expr::Or(a, b) => {
            let sa = render_expr(&**a);
            let sb = render_expr(&**b);
            cat5("(", sa.as_str(), " || ", sb.as_str(), ")")
        },
        Expr::Unary(op, a) => {
            let sa = render_expr(&**a);
            match op {
                UnaryOp::Not => cat3("(!", sa.as_str(), ")"),
                UnaryOp::Neg => cat3("(-", sa.as_str(), ")"),
            }
        },
        Expr::Binary(op, a, b) => {
            let sa = render_expr(&**a);
            let sb = render_expr(&**b);
            let so = binary_op_text(*op);
            match op {
                BinaryOp::Contains | BinaryOp::ContainsAll | BinaryOp::ContainsAny => {
                    let mut out = cat5(sa.as_str(), ".", so.as_str(), "(", sb.as_str());
                    out.append(")");
                    out
                },
                _ => cat7("(", sa.as_str(), " ", so.as_str(), " ", sb.as_str(), ")"),
            }
        },
        Expr::MulByConst(a, c) => {
            let sa = render_expr(&**a);
            let sc = crate::text::int_to_string(*c);
            cat5("(", sa.as_str(), " * ", sc.as_str(), ")")
        },
        Expr::Call(name, args) => {
            proof {
                lemma_call_view(*name, *args);
            }
            let sargs = render_exprs(args);
            let mut out = cat3(name.as_str(), "(", sargs.as_str());
            out.append(")");
            out
        },
        Expr::GetAttr(a, attr) => {
            let sa = render_expr(&**a);
            let q = quoted(attr.as_str());
            let mut out = cat3(sa.as_str(), "[", q.as_str());
            out.append("]");
            out
        },
        Expr::HasAttr(a, attr) => {
            let sa = render_expr(&**a);
            let q = quoted(attr.as_str());
            cat5("(", sa.as_str(), " has ", q.as_str(), ")")
        },
        Expr::Like(a, p) => {
            let sa = render_expr(&**a);
            let sp = pattern_text(p);
            cat5("(", sa.as_str(), " like ", sp.as_str(), ")")
        },
        Expr::Is(a, ty) => {
            let sa = render_expr(&**a);
            cat5("(", sa.as_str(), " is ", ty.as_str(), ")")
        },
        Expr::SetOf(es) => {
            proof {
                lemma_set_expr_view(*es);
            }
            let inner = render_exprs(es);
            cat3("[", inner.as_str(), "]")
        },
        Expr::Record(fs) => {
            proof {
                lemma_record_expr_view(*fs);
            }
            let inner = render_expr_fields(fs);
            cat3("{", inner.as_str(), "}")
        },
    }
}

fn render_exprs(es: &Vec<Expr>) -> (r: String)
    ensures
        r@ == show_exprs(exprs_view(es@)),
    decreases es, 1nat,
{
    let ghost ev = exprs_view(es@);
    let mut out = String::new();
    let mut i: usize = 0;
    assert(out@ =~= show_exprs(ev.take(0)));
    while i < es.len()
        invariant
            i <= es.len(),
            ev == exprs_view(es@),
            out@ == show_exprs(ev.take(i as int)),
        decreases es.len() - i,
    {
        proof {
            assert(ev.take(i + 1).drop_last() =~= ev.take(i as int));
            assert(ev.take(i + 1).last() == es[i as int]@);
        }
        let ghost before = out@;
        if i > 0 {
            out.append(", ");
        }
        let one = render_expr(&es[i]);
        out.append(one.as_str());
        assert(out@ =~= show_exprs(ev.take(i + 1)));
        i += 1;
    }
    assert(ev.take(i as int) =~= ev);
    out
}

fn render_expr_fields(fs: &Vec<(String, Expr)>) -> (r: String)
    ensures
        r@ == show_expr_fields(expr_fields_view(fs@)),
    decreases fs, 1nat,
{
    let ghost fv = expr_fields_view(fs@);
    let mut out = String::new();
    let mut i: usize = 0;
    assert(out@ =~= show_expr_fields(fv.take(0)));
    while i < fs.len()
        invariant
            i <= fs.len(),
            fv == expr_fields_view(fs@),
            out@ == show_expr_fields(fv.take(i as int)),
        decreases fs.len() - i,
    {
        proof {
            assert(fv.take(i + 1).drop_last() =~= fv.take(i as int));
            assert(fv.take(i + 1).last() == (fs[i as int].0@, fs[i as int].1@));
        }
        if i > 0 {
            out.append(", ");
        }
        write_quoted(&mut out, fs[i].0.as_str());
        out.append(": ");
        let one = render_expr(&fs[i].1);
        out.append(one.as_str());
        assert(out@ =~= show_expr_fields(fv.take(i + 1)));
        i += 1;
    }
    assert(fv.take(i as int) =~= fv);
    out
}

impl Expr {
    /// This expression written out, as [`show_expr`] says.
    pub fn to_text(&self) -> (r: String)
        ensures
            r@ == show_expr(self@),
    {
        render_expr(self)
    }
}

} // verus!
