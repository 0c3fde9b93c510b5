//! Extension functions: a registry that finds them by name, and what each of
//! them computes.
use vstd::prelude::*;
use crate::text::{
    chars_of, check_digits, digits_in, is_digit, pow10, read_digits, text_is, value_in,
};
use crate::ipaddr::{in_range, ip_from_str, is_in_range, is_loopback, is_multicast, loopback_range,
    multicast_range, parse_ip};
use crate::value::{ExtValue, IpNet, Type, TypeV, Value, ValueV, type_of, values_view};

verus! {

/// An extension function.
#[derive(Clone, Copy, Debug, PartialEq, Eq, Structural)]
pub enum ExtOp {
    /// `decimal(string)`: the decimal number that the string denotes.
    Decimal,
    /// `a.lessThan(b)` on decimal numbers.
    LessThan,
    /// `a.lessThanOrEqual(b)` on decimal numbers.
    LessThanOrEqual,
    /// `a.greaterThan(b)` on decimal numbers.
    GreaterThan,
    /// `a.greaterThanOrEqual(b)` on decimal numbers.
    GreaterThanOrEqual,
    /// `ip(string)`: the address or range of addresses that the string denotes.
    Ip,
    /// `a.isIpv4()`
    IsIpv4,
    /// `a.isIpv6()`
    IsIpv6,
    /// `a.isLoopback()`
    IsLoopback,
    /// `a.isMulticast()`
    IsMulticast,
    /// `a.isInRange(b)`
    IsInRange,
}

/// The name under which an extension function is called.
pub open spec fn op_name(op: ExtOp) -> Seq<char> {
    match op {
        ExtOp::Decimal => "decimal"@,
        ExtOp::LessThan => "lessThan"@,
        ExtOp::LessThanOrEqual => "lessThanOrEqual"@,
        ExtOp::GreaterThan => "greaterThan"@,
        ExtOp::GreaterThanOrEqual => "greaterThanOrEqual"@,
        ExtOp::Ip => "ip"@,
        ExtOp::IsIpv4 => "isIpv4"@,
        ExtOp::IsIpv6 => "isIpv6"@,
        ExtOp::IsLoopback => "isLoopback"@,
        ExtOp::IsMulticast => "isMulticast"@,
        ExtOp::IsInRange => "isInRange"@,
    }
}

/// The number of arguments that an extension function takes.
pub open spec fn op_arity(op: ExtOp) -> nat {
    match op {
        ExtOp::Decimal => 1,
        ExtOp::Ip => 1,
        ExtOp::IsIpv4 => 1,
        ExtOp::IsIpv6 => 1,
        ExtOp::IsLoopback => 1,
        ExtOp::IsMulticast => 1,
        _ => 2,
    }
}

/// The type of decimal numbers.
pub open spec fn decimal_type() -> TypeV {
    TypeV::Extension { name: "decimal"@ }
}

/// The type of IP addresses and ranges.
pub open spec fn ipaddr_type() -> TypeV {
    TypeV::Extension { name: "ipaddr"@ }
}

/// The types of the arguments that an extension function takes, in order.
pub open spec fn op_arg_types(op: ExtOp) -> Seq<TypeV> {
    match op {
        ExtOp::Decimal => seq![TypeV::String],
        ExtOp::Ip => seq![TypeV::String],
        ExtOp::IsIpv4 => seq![ipaddr_type()],
        ExtOp::IsIpv6 => seq![ipaddr_type()],
        ExtOp::IsLoopback => seq![ipaddr_type()],
        ExtOp::IsMulticast => seq![ipaddr_type()],
        ExtOp::IsInRange => seq![ipaddr_type(), ipaddr_type()],
        _ => seq![decimal_type(), decimal_type()],
    }
}

/// The type of what an extension function yields.
pub open spec fn op_result_type(op: ExtOp) -> TypeV {
    match op {
        ExtOp::Decimal => decimal_type(),
        ExtOp::Ip => ipaddr_type(),
        _ => TypeV::Bool,
    }
}

/// The models of type tags, in order.
pub open spec fn type_tags_view(ts: Seq<Type>) -> Seq<TypeV> {
    Seq::new(ts.len(), |i: int| ts[i]@)
}

/// The type tags of values, in order.
pub open spec fn types_of(args: Seq<ValueV>) -> Seq<TypeV> {
    Seq::new(args.len(), |i: int| type_of(args[i]))
}

/// Why a string does not denote a decimal number.
#[derive(Clone, Copy, Debug, PartialEq, Eq, Structural)]
pub enum DecimalError {
    /// The string is not an optional `-`, digits, a `.` and digits.
    Malformed,
    /// More than four digits follow the `.`.
    TooManyDigits,
    /// The number does not fit in 64 bits when scaled by 10000.
    Overflow,
}

/// The position of the first `.` at or after `i`, or the length of `s` when
/// there is none.
pub open spec fn dot_from(s: Seq<char>, i: int) -> int
    decreases s.len() - i,
{
    if i < 0 || i >= s.len() {
        s.len() as int
    } else if s[i] == '.' {
        i
    } else {
        dot_from(s, i + 1)
    }
}

/// The decimal number that `s` denotes, scaled by 10000: an optional `-`,
/// one or more digits, a `.`, and one to four digits.
pub open spec fn parse_decimal(s: Seq<char>) -> Result<i64, DecimalError> {
    let start: int = if s.len() > 0 && s[0] == '-' {
        1
    } else {
        0
    };
    let dot = dot_from(s, start);
    if dot >= s.len() || !digits_in(s, start, dot) || !digits_in(s, dot + 1, s.len() as int) {
        Err(DecimalError::Malformed)
    } else if s.len() - (dot + 1) > 4 {
        Err(DecimalError::TooManyDigits)
    } else {
        let magnitude = value_in(s, start, dot) * 10000 + value_in(s, dot + 1, s.len() as int)
            * pow10((4 - (s.len() - (dot + 1))) as nat);
        let v: int = if start == 1 {
            -magnitude
        } else {
            magnitude as int
        };
        if i64::MIN <= v <= i64::MAX {
            Ok(v as i64)
        } else {
            Err(DecimalError::Overflow)
        }
    }
}

/// A number written with `n` digits is below `10` to the power `n`.
pub proof fn lemma_value_in_bound(s: Seq<char>, lo: int, hi: int)
    requires
        0 <= lo <= hi <= s.len(),
        forall|k: int| lo <= k < hi ==> is_digit(#[trigger] s[k]),
    ensures
        value_in(s, lo, hi) < pow10((hi - lo) as nat),
    decreases hi - lo,
{
    if lo < hi {
        lemma_value_in_bound(s, lo, hi - 1);
        assert(is_digit(s[hi - 1]));
    }
}

/// The decimal number that `s` denotes, scaled by 10000.
pub fn decimal_from_str(s: &str) -> (r: Result<i64, DecimalError>)
    ensures
        r == parse_decimal(s@),
{
    let cs = chars_of(s);
    let n = cs.len();
    let negative = n > 0 && cs[0] == '-';
    let start: usize = if negative {
        1
    } else {
        0
    };
    let mut dot: usize = start;
    while dot < n && cs[dot] != '.'
        invariant
            start <= dot <= n,
            n == cs.len(),
            dot_from(cs@, start as int) == dot_from(cs@, dot as int),
        decreases n - dot,
    {
        dot += 1;
    }
    if dot >= n {
        return Err(DecimalError::Malformed);
    }
    if !check_digits(&cs, start, dot) || !check_digits(&cs, dot + 1, n) {
        return Err(DecimalError::Malformed);
    }
    let digits: usize = n - (dot + 1);
    if digits > 4 {
        return Err(DecimalError::TooManyDigits);
    }
    let whole = read_digits(&cs, start, dot, 922337203685477);
    let fraction = read_digits(&cs, dot + 1, n, 9999);
    proof {
        lemma_value_in_bound(cs@, dot + 1, n as int);
        reveal_with_fuel(pow10, 5);
    }
    let scale: i128 = if digits == 1 {
        1000
    } else if digits == 2 {
        100
    } else if digits == 3 {
        10
    } else {
        1
    };
    assert(scale == pow10((4 - digits) as nat));
    match (whole, fraction) {
        (Some(w), Some(f)) => {
            assert(f <= 9999);
            assert(f as int * scale <= 9999 * 1000) by (nonlinear_arith)
                requires
                    0 <= f <= 9999,
                    0 <= scale <= 1000,
            ;
            let magnitude: i128 = (w as i128) * 10000 + (f as i128) * scale;
            let v: i128 = if negative {
                -magnitude
            } else {
                magnitude
            };
            if v < -9223372036854775808 || v > 9223372036854775807 {
                Err(DecimalError::Overflow)
            } else {
                Ok(v as i64)
            }
        },
        _ => {
            assert(fraction is Some);
            assert(value_in(cs@, start as int, dot as int) >= 922337203685478);
            Err(DecimalError::Overflow)
        },
    }
}

/// What went wrong when an extension function was applied, in words.
pub open spec fn decimal_error_message(e: DecimalError) -> Seq<char> {
    match e {
        DecimalError::Malformed => "input string is not a well-formed decimal value"@,
        DecimalError::TooManyDigits => "too many digits after the decimal point"@,
        DecimalError::Overflow => "overflow when converting to decimal"@,
    }
}

/// The two decimal numbers that a comparison is applied to.
pub open spec fn decimal_pair(args: Seq<ValueV>) -> Option<(i64, i64)> {
    if args.len() == 2 {
        match (args[0], args[1]) {
            (ValueV::Ext(ExtValue::Decimal(a)), ValueV::Ext(ExtValue::Decimal(b))) => Some((a, b)),
            _ => None,
        }
    } else {
        None
    }
}

/// The address that a function on one address is applied to.
pub open spec fn ip_arg(args: Seq<ValueV>) -> Option<IpNet> {
    if args.len() == 1 {
        match args[0] {
            ValueV::Ext(ExtValue::Ip(a)) => Some(a),
            _ => None,
        }
    } else {
        None
    }
}

/// The two addresses that `isInRange` is applied to.
pub open spec fn ip_pair(args: Seq<ValueV>) -> Option<(IpNet, IpNet)> {
    if args.len() == 2 {
        match (args[0], args[1]) {
            (ValueV::Ext(ExtValue::Ip(a)), ValueV::Ext(ExtValue::Ip(b))) => Some((a, b)),
            _ => None,
        }
    } else {
        None
    }
}

/// What a comparison of decimal numbers yields.
pub open spec fn decimal_compare(op: ExtOp, a: i64, b: i64) -> bool {
    match op {
        ExtOp::LessThan => a < b,
        ExtOp::LessThanOrEqual => a <= b,
        ExtOp::GreaterThan => a > b,
        _ => a >= b,
    }
}

/// What a test of one address yields.
pub open spec fn ip_test(op: ExtOp, a: IpNet) -> bool {
    match op {
        ExtOp::IsIpv4 => a is V4,
        ExtOp::IsIpv6 => a is V6,
        ExtOp::IsLoopback => in_range(a, loopback_range(a)),
        _ => in_range(a, multicast_range(a)),
    }
}

/// What an extension function returns for the given arguments: a value, or
/// the message of its failure.
pub open spec fn ext_apply(op: ExtOp, args: Seq<ValueV>) -> Result<ValueV, Seq<char>> {
    match op {
        ExtOp::Decimal => {
            if args.len() == 1 && args[0] is String {
                match parse_decimal(args[0]->String_0) {
                    Ok(d) => Ok(ValueV::Ext(ExtValue::Decimal(d))),
                    Err(e) => Err(decimal_error_message(e)),
                }
            } else {
                Err("decimal expects one string argument"@)
            }
        },
        ExtOp::Ip => {
            if args.len() == 1 && args[0] is String {
                match parse_ip(args[0]->String_0) {
                    Some(a) => Ok(ValueV::Ext(ExtValue::Ip(a))),
                    None => Err("input string is not a well-formed IP address or range"@),
                }
            } else {
                Err("ip expects one string argument"@)
            }
        },
        ExtOp::IsIpv4 | ExtOp::IsIpv6 | ExtOp::IsLoopback | ExtOp::IsMulticast => match ip_arg(
            args,
        ) {
            Some(a) => Ok(ValueV::Bool(ip_test(op, a))),
            None => Err("expected one IP address argument"@),
        },
        ExtOp::IsInRange => match ip_pair(args) {
            Some((a, b)) => Ok(ValueV::Bool(in_range(a, b))),
            None => Err("isInRange expects two IP address arguments"@),
        },
        _ => match decimal_pair(args) {
            Some((a, b)) => Ok(ValueV::Bool(decimal_compare(op, a, b))),
            None => Err("comparison expects two decimal arguments"@),
        },
    }
}

/// The first function named `name` at or after position `i`.
pub open spec fn op_from(ops: Seq<ExtOp>, name: Seq<char>, i: int) -> Option<ExtOp>
    decreases ops.len() - i,
{
    if i < 0 || i >= ops.len() {
        None
    } else if op_name(ops[i]) == name {
        Some(ops[i])
    } else {
        op_from(ops, name, i + 1)
    }
}

/// The function that a registry holds under `name`.
pub open spec fn lookup_op(ops: Seq<ExtOp>, name: Seq<char>) -> Option<ExtOp> {
    op_from(ops, name, 0)
}

/// All extension functions that this library offers.
pub open spec fn all_ops() -> Seq<ExtOp> {
    seq![
        ExtOp::Decimal,
        ExtOp::LessThan,
        ExtOp::LessThanOrEqual,
        ExtOp::GreaterThan,
        ExtOp::GreaterThanOrEqual,
        ExtOp::Ip,
        ExtOp::IsIpv4,
        ExtOp::IsIpv6,
        ExtOp::IsLoopback,
        ExtOp::IsMulticast,
        ExtOp::IsInRange,
    ]
}

/// The registry of extension functions: fixed when it is made.
#[derive(Debug, PartialEq, Eq, Clone)]
pub struct Extensions {
    ops: Vec<ExtOp>,
}

impl View for Extensions {
    type V = Seq<ExtOp>;

    closed spec fn view(&self) -> Seq<ExtOp> {
        self.ops@
    }
}

/// Whether the function `op` is called `name`.
pub fn op_is_named(op: ExtOp, name: &String) -> (r: bool)
    ensures
        r == (op_name(op) == name@),
{
    match op {
        ExtOp::Decimal => text_is(name, "decimal"),
        ExtOp::LessThan => text_is(name, "lessThan"),
        ExtOp::LessThanOrEqual => text_is(name, "lessThanOrEqual"),
        ExtOp::GreaterThan => text_is(name, "greaterThan"),
        ExtOp::GreaterThanOrEqual => text_is(name, "greaterThanOrEqual"),
        ExtOp::Ip => text_is(name, "ip"),
        ExtOp::IsIpv4 => text_is(name, "isIpv4"),
        ExtOp::IsIpv6 => text_is(name, "isIpv6"),
        ExtOp::IsLoopback => text_is(name, "isLoopback"),
        ExtOp::IsMulticast => text_is(name, "isMulticast"),
        ExtOp::IsInRange => text_is(name, "isInRange"),
    }
}

/// The number of arguments that `op` takes.
pub fn arity_of(op: ExtOp) -> (r: usize)
    ensures
        r == op_arity(op),
{
    match op {
        ExtOp::Decimal => 1,
        ExtOp::Ip => 1,
        ExtOp::IsIpv4 => 1,
        ExtOp::IsIpv6 => 1,
        ExtOp::IsLoopback => 1,
        ExtOp::IsMulticast => 1,
        _ => 2,
    }
}

/// The types of the arguments that `op` takes, in order.
pub fn arg_types_of(op: ExtOp) -> (r: Vec<Type>)
    ensures
        type_tags_view(r@) == op_arg_types(op),
{
    let mut out: Vec<Type> = Vec::new();
    match op {
        ExtOp::Decimal | ExtOp::Ip => {
            out.push(Type::String);
        },
        ExtOp::IsIpv4 | ExtOp::IsIpv6 | ExtOp::IsLoopback | ExtOp::IsMulticast => {
            out.push(Type::Extension { name: String::from_str("ipaddr") });
        },
        ExtOp::IsInRange => {
            out.push(Type::Extension { name: String::from_str("ipaddr") });
            out.push(Type::Extension { name: String::from_str("ipaddr") });
        },
        _ => {
            out.push(Type::Extension { name: String::from_str("decimal") });
            out.push(Type::Extension { name: String::from_str("decimal") });
        },
    }
    assert(type_tags_view(out@) =~= op_arg_types(op));
    out
}

/// The type of what `op` yields.
pub fn result_type_of(op: ExtOp) -> (r: Type)
    ensures
        r@ == op_result_type(op),
{
    match op {
        ExtOp::Decimal => Type::Extension { name: String::from_str("decimal") },
        ExtOp::Ip => Type::Extension { name: String::from_str("ipaddr") },
        _ => Type::Bool,
    }
}

/// An extension function takes as many arguments as it has argument
/// types. Where its application succeeds, the arguments had these types
/// and the result has the result type; on arguments of these types, only
/// the functions that read a string can fail.
pub proof fn law_extension_types(op: ExtOp, args: Seq<ValueV>)
    ensures
        op_arg_types(op).len() == op_arity(op),
        ext_apply(op, args) matches Ok(v) ==> type_of(v) == op_result_type(op) && types_of(args)
            == op_arg_types(op),
        types_of(args) == op_arg_types(op) && op != ExtOp::Decimal && op != ExtOp::Ip
            ==> ext_apply(op, args) is Ok,
{
    if ext_apply(op, args) is Ok {
        assert(types_of(args) =~= op_arg_types(op));
    }
    if types_of(args) == op_arg_types(op) && op != ExtOp::Decimal && op != ExtOp::Ip {
        assert(types_of(args).len() == args.len());
        assert(args.len() == op_arity(op));
        assert(type_of(args[0]) == types_of(args)[0]);
        if args.len() == 2 {
            assert(type_of(args[1]) == types_of(args)[1]);
        }
        assert("ipaddr"@ != "decimal"@) by {
            reveal_strlit("ipaddr");
            reveal_strlit("decimal");
            assert("ipaddr"@.len() == 6);
            assert("decimal"@.len() == 7);
        }
    }
}

impl Extensions {
    /// The registry without functions.
    pub fn none() -> (r: Extensions)
        ensures
            r@ == Seq::<ExtOp>::empty(),
    {
        Extensions { ops: Vec::new() }
    }

    /// The registry of the given functions.
    pub fn with(ops: Vec<ExtOp>) -> (r: Extensions)
        ensures
            r@ == ops@,
    {
        Extensions { ops }
    }

    /// The registry of all functions that this library offers.
    pub fn all_available() -> (r: Extensions)
        ensures
            r@ == all_ops(),
    {
        let mut ops: Vec<ExtOp> = Vec::new();
        ops.push(ExtOp::Decimal);
        ops.push(ExtOp::LessThan);
        ops.push(ExtOp::LessThanOrEqual);
        ops.push(ExtOp::GreaterThan);
        ops.push(ExtOp::GreaterThanOrEqual);
        ops.push(ExtOp::Ip);
        ops.push(ExtOp::IsIpv4);
        ops.push(ExtOp::IsIpv6);
        ops.push(ExtOp::IsLoopback);
        ops.push(ExtOp::IsMulticast);
        ops.push(ExtOp::IsInRange);
        assert(ops@ =~= all_ops());
        Extensions { ops }
    }

    /// The function registered under `name`, if there is one.
    pub fn lookup(&self, name: &String) -> (r: Option<ExtOp>)
        ensures
            r == lookup_op(self@, name@),
    {
        let mut i: usize = 0;
        while i < self.ops.len()
            invariant
                i <= self.ops.len(),
                lookup_op(self@, name@) == op_from(self@, name@, i as int),
            decreases self.ops.len() - i,
        {
            if op_is_named(self.ops[i], name) {
                return Some(self.ops[i]);
            }
            i += 1;
        }
        None
    }
}

fn decimal_error_text(e: DecimalError) -> (r: String)
    ensures
        r@ == decimal_error_message(e),
{
    match e {
        DecimalError::Malformed => String::from_str(
            "input string is not a well-formed decimal value",
        ),
        DecimalError::TooManyDigits => String::from_str("too many digits after the decimal point"),
        DecimalError::Overflow => String::from_str("overflow when converting to decimal"),
    }
}

/// Applies an extension function to its arguments: a value, or the message
/// of its failure.
pub fn apply(op: ExtOp, args: &Vec<Value>) -> (r: Result<Value, String>)
    ensures
        r is Ok <==> ext_apply(op, values_view(args@)) is Ok,
        r is Ok ==> r->Ok_0@ == ext_apply(op, values_view(args@))->Ok_0,
        r is Err ==> r->Err_0@ == ext_apply(op, values_view(args@))->Err_0,
{
    let ghost av = values_view(args@);
    match op {
        ExtOp::Decimal => {
            if args.len() == 1 {
                assert(av[0] == args[0]@);
                match &args[0] {
                    Value::String(s) => match decimal_from_str(s.as_str()) {
                        Ok(d) => Ok(Value::Ext(ExtValue::Decimal(d))),
                        Err(e) => Err(decimal_error_text(e)),
                    },
                    _ => Err(String::from_str("decimal expects one string argument")),
                }
            } else {
                Err(String::from_str("decimal expects one string argument"))
            }
        },
        ExtOp::Ip => {
            if args.len() == 1 {
                assert(av[0] == args[0]@);
                match &args[0] {
                    Value::String(s) => match ip_from_str(s.as_str()) {
                        Some(a) => Ok(Value::Ext(ExtValue::Ip(a))),
                        None => Err(
                            String::from_str(
                                "input string is not a well-formed IP address or range",
                            ),
                        ),
                    },
                    _ => Err(String::from_str("ip expects one string argument")),
                }
            } else {
                Err(String::from_str("ip expects one string argument"))
            }
        },
        ExtOp::IsIpv4 | ExtOp::IsIpv6 | ExtOp::IsLoopback | ExtOp::IsMulticast => {
            if args.len() == 1 {
                assert(av[0] == args[0]@);
                match &args[0] {
                    Value::Ext(ExtValue::Ip(a)) => Ok(
                        Value::Bool(
                            match op {
                                ExtOp::IsIpv4 => match a {
                                    IpNet::V4 { .. } => true,
                                    _ => false,
                                },
                                ExtOp::IsIpv6 => match a {
                                    IpNet::V6 { .. } => true,
                                    _ => false,
                                },
                                ExtOp::IsLoopback => is_loopback(a),
                                _ => is_multicast(a),
                            },
                        ),
                    ),
                    _ => Err(String::from_str("expected one IP address argument")),
                }
            } else {
                Err(String::from_str("expected one IP address argument"))
            }
        },
        ExtOp::IsInRange => {
            if args.len() == 2 {
                assert(av[0] == args[0]@);
                assert(av[1] == args[1]@);
                match (&args[0], &args[1]) {
                    (Value::Ext(ExtValue::Ip(a)), Value::Ext(ExtValue::Ip(b))) => Ok(
                        Value::Bool(is_in_range(a, b)),
                    ),
                    _ => Err(String::from_str("isInRange expects two IP address arguments")),
                }
            } else {
                Err(String::from_str("isInRange expects two IP address arguments"))
            }
        },
        _ => {
            if args.len() == 2 {
                assert(av[0] == args[0]@);
                assert(av[1] == args[1]@);
                match (&args[0], &args[1]) {
                    (Value::Ext(ExtValue::Decimal(a)), Value::Ext(ExtValue::Decimal(b))) => {
                        let a: i64 = *a;
                        let b: i64 = *b;
                        Ok(
                            Value::Bool(
                                match op {
                                    ExtOp::LessThan => a < b,
                                    ExtOp::LessThanOrEqual => a <= b,
                                    ExtOp::GreaterThan => a > b,
                                    _ => a >= b,
                                },
                            ),
                        )
                    },
                    _ => Err(String::from_str("comparison expects two decimal arguments")),
                }
            } else {
                Err(String::from_str("comparison expects two decimal arguments"))
            }
        },
    }
}

} // verus!
