//! The messages of errors, in words.
use vstd::prelude::*;
use itertools::Itertools;
use nonempty::NonEmpty;
use crate::ast::{BinaryOp, SlotId, UnaryOp};
use crate::authorizer::{AuthorizationError, AuthorizationErrorV};
use crate::display::{cat3, cat5, cat7, quote, render_expr, show_expr, show_slot, show_type,
    show_uid, show_value, write_quoted, write_slot};
use crate::err::{EvaluationError, EvaluationErrorKind, EvaluationErrorKindV, EvaluationErrorV,
    ExtensionFunctionLookupError, ExtensionFunctionLookupErrorV, IntegerOverflowError,
    IntegerOverflowErrorV, RestrictedExprError, RestrictedExprErrorV, expected_get, expected_len,
    expected_types};
use crate::policy_set::{LinkingError, LinkingErrorV, PolicySetError, PolicySetErrorV};
use crate::text::{int_to_dec, int_to_string, nat_to_dec, nat_to_string, strings_view};
use crate::value::{Type, TypeV};

verus! {

/// The parts, with the separator between each two of them.
pub open spec fn joined(parts: Seq<Seq<char>>, sep: Seq<char>) -> Seq<char>
    decreases parts.len(),
{
    if parts.len() == 0 {
        Seq::empty()
    } else if parts.len() == 1 {
        parts.last()
    } else {
        joined(parts.drop_last(), sep) + sep + parts.last()
    }
}

/// The strings of `parts`, with `sep` between each two of them.
///
/// Wraps `Itertools::join`, which writes the first element, and then for
/// each further element the separator and the element, each element as its
/// `Display` writes it: a string as it is.
#[verifier::external_body]
pub(crate) fn join_strings(parts: &Vec<String>, sep: &str) -> (r: String)
    ensures
        r@ == joined(strings_view(parts@), sep@),
{
    parts.iter().join(sep)
}

/// How each of the types is written, in order.
pub open spec fn show_types(ts: Seq<TypeV>) -> Seq<Seq<char>> {
    Seq::new(ts.len(), |i: int| show_type(ts[i]))
}

/// The message of a type error.
pub open spec fn type_error_message(expected: Seq<TypeV>, actual: TypeV) -> Seq<char> {
    if expected.len() == 1 {
        "type error: expected "@ + show_type(expected[0]) + ", got "@ + show_type(actual)
    } else {
        "type error: expected one of ["@ + joined(show_types(expected), ", "@) + "], got "@
            + show_type(actual)
    }
}

/// The message of a type error: the one expected type, or the list of the
/// expected types, and the type that was found.
pub fn pretty_type_error(expected: &NonEmpty<Type>, actual: &Type) -> (r: String)
    ensures
        r@ == type_error_message(expected_types(*expected), actual@),
{
    let got = actual.to_text();
    let n = expected_len(expected);
    if n == 1 {
        match expected_get(expected, 0) {
            Some(first) => {
                let want = first.to_text();
                let mut out = cat3("type error: expected ", want.as_str(), ", got ");
                out.append(got.as_str());
                out
            },
            None => String::new(),
        }
    } else {
        let ghost ts = expected_types(*expected);
        let mut names: Vec<String> = Vec::new();
        let mut i: usize = 0;
        while i < n
            invariant
                i <= n,
                n == ts.len(),
                ts == expected_types(*expected),
                names.len() == i,
                forall|k: int| 0 <= k < i ==> names[k]@ == show_type(ts[k]),
            decreases n - i,
        {
            match expected_get(expected, i) {
                Some(t) => {
                    names.push(t.to_text());
                },
                None => {
                    names.push(String::new());
                },
            }
            i += 1;
        }
        assert(strings_view(names@) =~= show_types(ts));
        let list = join_strings(&names, ", ");
        let mut out = cat3("type error: expected one of [", list.as_str(), "], got ");
        out.append(got.as_str());
        out
    }
}

/// The message of a failed lookup of an extension function.
pub open spec fn lookup_error_message(e: ExtensionFunctionLookupErrorV) -> Seq<char> {
    match e {
        ExtensionFunctionLookupErrorV::FuncDoesNotExist { name } => "extension function `"@ + name
            + "` does not exist"@,
        ExtensionFunctionLookupErrorV::FuncMultiplyDefined { name, num_defs } =>
            "extension function `"@ + name + "` is defined "@ + nat_to_dec(num_defs as nat)
                + " times"@,
    }
}

/// In words, what a binary operator attempted.
pub open spec fn binary_verb(op: BinaryOp) -> Seq<char> {
    match op {
        BinaryOp::Add => "add"@,
        BinaryOp::Sub => "subtract"@,
        _ => "perform an operation on"@,
    }
}

/// In words, what a unary operator attempted.
pub open spec fn unary_verb(op: UnaryOp) -> Seq<char> {
    match op {
        UnaryOp::Neg => "negate"@,
        _ => "perform an operation on"@,
    }
}

/// The message of an integer overflow.
pub open spec fn overflow_message(e: IntegerOverflowErrorV) -> Seq<char> {
    match e {
        IntegerOverflowErrorV::BinaryOp { op, arg1, arg2 } =>
            "integer overflow while attempting to "@ + binary_verb(op) + " the values `"@
                + show_value(arg1) + "` and `"@ + show_value(arg2) + "`"@,
        IntegerOverflowErrorV::Multiplication { arg, constant } =>
            "integer overflow while attempting to multiply `"@ + show_value(arg) + "` by `"@
                + int_to_dec(constant as int) + "`"@,
        IntegerOverflowErrorV::UnaryOp { op, arg } => "integer overflow while attempting to "@
            + unary_verb(op) + " the value `"@ + show_value(arg) + "`"@,
    }
}

/// The message for an expression that is not restricted.
pub open spec fn restricted_message(e: RestrictedExprErrorV) -> Seq<char> {
    match e {
        RestrictedExprErrorV::InvalidRestrictedExpression { feature, expr } =>
            "not allowed to use "@ + feature + " in a restricted expression: `"@ + show_expr(expr)
                + "`"@,
    }
}

/// The message of an evaluation error.
pub open spec fn kind_message(k: EvaluationErrorKindV) -> Seq<char> {
    match k {
        EvaluationErrorKindV::EntityDoesNotExist(u) => "entity `"@ + show_uid(u)
            + "` does not exist"@,
        EvaluationErrorKindV::EntityAttrDoesNotExist { entity, attr } => "`"@ + show_uid(entity)
            + "` does not have the attribute `"@ + attr + "`"@,
        EvaluationErrorKindV::UnspecifiedEntityAccess(attr) => "cannot access attribute `"@ + attr
            + "` of unspecified entity"@,
        EvaluationErrorKindV::RecordAttrDoesNotExist(attr, _) =>
            "record does not have the attribute `"@ + attr + "`"@,
        EvaluationErrorKindV::FailedExtensionFunctionLookup(e) => lookup_error_message(e),
        EvaluationErrorKindV::TypeError { expected, actual } => type_error_message(
            expected,
            actual,
        ),
        EvaluationErrorKindV::WrongNumArguments { function_name, expected, actual } =>
            "wrong number of arguments provided to extension function `"@ + function_name
                + "`: expected "@ + nat_to_dec(expected as nat) + ", got "@ + nat_to_dec(
                actual as nat,
            ),
        EvaluationErrorKindV::IntegerOverflow(e) => overflow_message(e),
        EvaluationErrorKindV::InvalidRestrictedExpression(e) => restricted_message(e),
        EvaluationErrorKindV::UnlinkedSlot(s) => "template slot `"@ + show_slot(s)
            + "` was not linked"@,
        EvaluationErrorKindV::FailedExtensionFunctionApplication { extension_name, msg } =>
            "error while evaluating `"@ + extension_name + "` extension function: "@ + msg,
        EvaluationErrorKindV::NonValue(e) => "the expression contains unknown(s): `"@ + show_expr(e)
            + "`"@,
        EvaluationErrorKindV::RecursionLimit => "recursion limit reached"@,
    }
}

/// Each of the strings as a string literal, in order.
pub open spec fn quote_all(names: Seq<Seq<char>>) -> Seq<Seq<char>> {
    Seq::new(names.len(), |i: int| quote(names[i]))
}

/// The help that the kind of an error offers, if it offers any.
pub open spec fn kind_help(k: EvaluationErrorKindV) -> Option<Seq<char>> {
    match k {
        EvaluationErrorKindV::RecordAttrDoesNotExist(_, alternatives) => Some(
            "available attributes: ["@ + joined(quote_all(alternatives), ", "@) + "]"@,
        ),
        _ => None,
    }
}

/// The help of an error: that of its kind, its advice, or both with `; `
/// between them.
pub open spec fn error_help(e: EvaluationErrorV) -> Option<Seq<char>> {
    match (kind_help(e.kind), e.advice) {
        (Some(help), None) => Some(help),
        (None, Some(advice)) => Some(advice),
        (Some(help), Some(advice)) => Some(help + "; "@ + advice),
        (None, None) => None,
    }
}

impl ExtensionFunctionLookupError {
    /// The message of this error.
    pub fn message(&self) -> (r: String)
        ensures
            r@ == lookup_error_message(self@),
    {
        match self {
            ExtensionFunctionLookupError::FuncDoesNotExist { name } => cat3(
                "extension function `",
                name.as_str(),
                "` does not exist",
            ),
            ExtensionFunctionLookupError::FuncMultiplyDefined { name, num_defs } => {
                let n = nat_to_string(*num_defs);
                cat5("extension function `", name.as_str(), "` is defined ", n.as_str(), " times")
            },
        }
    }
}

impl IntegerOverflowError {
    /// The message of this error.
    pub fn message(&self) -> (r: String)
        ensures
            r@ == overflow_message(self@),
    {
        match self {
            IntegerOverflowError::BinaryOp { op, arg1, arg2 } => {
                let verb = match op {
                    BinaryOp::Add => "add",
                    BinaryOp::Sub => "subtract",
                    _ => "perform an operation on",
                };
                let a = arg1.to_text();
                let b = arg2.to_text();
                cat7(
                    "integer overflow while attempting to ",
                    verb,
                    " the values `",
                    a.as_str(),
                    "` and `",
                    b.as_str(),
                    "`",
                )
            },
            IntegerOverflowError::Multiplication { arg, constant } => {
                let a = arg.to_text();
                let c = int_to_string(*constant);
                cat5(
                    "integer overflow while attempting to multiply `",
                    a.as_str(),
                    "` by `",
                    c.as_str(),
                    "`",
                )
            },
            IntegerOverflowError::UnaryOp { op, arg } => {
                let verb = match op {
                    UnaryOp::Neg => "negate",
                    _ => "perform an operation on",
                };
                let a = arg.to_text();
                cat5(
                    "integer overflow while attempting to ",
                    verb,
                    " the value `",
                    a.as_str(),
                    "`",
                )
            },
        }
    }
}

impl RestrictedExprError {
    /// The message of this error.
    pub fn message(&self) -> (r: String)
        ensures
            r@ == restricted_message(self@),
    {
        match self {
            RestrictedExprError::InvalidRestrictedExpression { feature, expr } => {
                let e = render_expr(expr);
                cat5(
                    "not allowed to use ",
                    feature.as_str(),
                    " in a restricted expression: `",
                    e.as_str(),
                    "`",
                )
            },
        }
    }
}

fn slot_text(s: SlotId) -> (r: String)
    ensures
        r@ == show_slot(s),
{
    let mut out = String::new();
    write_slot(&mut out, s);
    assert(out@ =~= show_slot(s));
    out
}

impl EvaluationErrorKind {
    /// The message of this error.
    pub fn message(&self) -> (r: String)
        ensures
            r@ == kind_message(self@),
    {
        match self {
            EvaluationErrorKind::EntityDoesNotExist(u) => {
                let t = u.to_text();
                cat3("entity `", t.as_str(), "` does not exist")
            },
            EvaluationErrorKind::EntityAttrDoesNotExist { entity, attr } => {
                let t = entity.to_text();
                cat5("`", t.as_str(), "` does not have the attribute `", attr.as_str(), "`")
            },
            EvaluationErrorKind::UnspecifiedEntityAccess(attr) => cat3(
                "cannot access attribute `",
                attr.as_str(),
                "` of unspecified entity",
            ),
            EvaluationErrorKind::RecordAttrDoesNotExist(attr, _) => cat3(
                "record does not have the attribute `",
                attr.as_str(),
                "`",
            ),
            EvaluationErrorKind::FailedExtensionFunctionLookup(e) => e.message(),
            EvaluationErrorKind::TypeError { expected, actual } => pretty_type_error(
                expected,
                actual,
            ),
            EvaluationErrorKind::WrongNumArguments { function_name, expected, actual } => {
                let e = nat_to_string(*expected);
                let a = nat_to_string(*actual);
                let mut out = cat5(
                    "wrong number of arguments provided to extension function `",
                    function_name.as_str(),
                    "`: expected ",
                    e.as_str(),
                    ", got ",
                );
                out.append(a.as_str());
                out
            },
            EvaluationErrorKind::IntegerOverflow(e) => e.message(),
            EvaluationErrorKind::InvalidRestrictedExpression(e) => e.message(),
            EvaluationErrorKind::UnlinkedSlot(s) => {
                let t = slot_text(*s);
                cat3("template slot `", t.as_str(), "` was not linked")
            },
            EvaluationErrorKind::FailedExtensionFunctionApplication { extension_name, msg } => {
                let mut out = cat3(
                    "error while evaluating `",
                    extension_name.as_str(),
                    "` extension function: ",
                );
                out.append(msg.as_str());
                out
            },
            EvaluationErrorKind::NonValue(e) => {
                let t = render_expr(e);
                cat3("the expression contains unknown(s): `", t.as_str(), "`")
            },
            EvaluationErrorKind::RecursionLimit => String::from_str("recursion limit reached"),
        }
    }

    /// The help that this kind of error offers, if it offers any.
    pub fn help(&self) -> (r: Option<String>)
        ensures
            r is Some <==> kind_help(self@) is Some,
            r is Some ==> r->0@ == kind_help(self@)->0,
    {
        match self {
            EvaluationErrorKind::RecordAttrDoesNotExist(_, alternatives) => {
                let ghost av = strings_view(alternatives@);
                let mut names: Vec<String> = Vec::new();
                let mut i: usize = 0;
                while i < alternatives.len()
                    invariant
                        i <= alternatives.len(),
                        av == strings_view(alternatives@),
                        names.len() == i,
                        forall|k: int| 0 <= k < i ==> names[k]@ == quote(av[k]),
                    decreases alternatives.len() - i,
                {
                    let mut q = String::new();
                    write_quoted(&mut q, alternatives[i].as_str());
                    assert(q@ =~= quote(av[i as int]));
                    names.push(q);
                    i += 1;
                }
                assert(strings_view(names@) =~= quote_all(av));
                let list = join_strings(&names, ", ");
                Some(cat3("available attributes: [", list.as_str(), "]"))
            },
            _ => None,
        }
    }
}

impl EvaluationError {
    /// The message of this error: that of its kind.
    pub fn message(&self) -> (r: String)
        ensures
            r@ == kind_message(self@.kind),
    {
        self.error_kind().message()
    }

    /// The help of this error: that of its kind, its advice, or both with
    /// `; ` between them.
    pub fn help(&self) -> (r: Option<String>)
        ensures
            r is Some <==> error_help(self@) is Some,
            r is Some ==> r->0@ == error_help(self@)->0,
    {
        match (self.error_kind().help(), self.advice()) {
            (Some(help), None) => Some(help),
            (None, Some(advice)) => Some(advice.clone()),
            (Some(help), Some(advice)) => Some(cat3(help.as_str(), "; ", advice.as_str())),
            (None, None) => None,
        }
    }
}

/// The message for a policy whose evaluation failed.
pub open spec fn authorization_error_message(e: AuthorizationErrorV) -> Seq<char> {
    "while evaluating policy `"@ + e.id + "`: "@ + kind_message(e.error.kind)
}

impl AuthorizationError {
    /// The message of this error: the policy and the message of the
    /// evaluation error.
    pub fn message(&self) -> (r: String)
        ensures
            r@ == authorization_error_message(self@),
    {
        let m = self.error.message();
        let mut out = cat3("while evaluating policy `", self.id.0.as_str(), "`: ");
        out.append(m.as_str());
        out
    }
}

/// The message for a policy or template that could not be added.
pub open spec fn policy_set_error_message(e: PolicySetErrorV) -> Seq<char> {
    match e {
        PolicySetErrorV::AlreadyDefined { id } => "duplicate template or policy id `"@ + id + "`"@,
        PolicySetErrorV::ExpectedStatic { id } => "expected a static policy, got the template `"@
            + id + "`"@,
        PolicySetErrorV::ExpectedTemplate { id } =>
            "expected a template, got the static policy `"@ + id + "`"@,
    }
}

/// How slots are written in a list: each between backquotes, separated by `, `.
pub open spec fn show_slots(slots: Seq<SlotId>) -> Seq<Seq<char>> {
    Seq::new(slots.len(), |i: int| "`"@ + show_slot(slots[i]) + "`"@)
}

/// The message for a template that could not be linked.
pub open spec fn linking_error_message(e: LinkingErrorV) -> Seq<char> {
    match e {
        LinkingErrorV::NoSuchTemplate { id } =>
            "unable to link template: failed to find a template with id `"@ + id + "`"@,
        LinkingErrorV::ArityError { unbound_values, extra_values } =>
            "unable to link template: slots without a value: ["@ + joined(
                show_slots(unbound_values),
                ", "@,
            ) + "], values for slots that the template does not have: ["@ + joined(
                show_slots(extra_values),
                ", "@,
            ) + "]"@,
        LinkingErrorV::PolicyIdConflict { id } =>
            "unable to link template: template-linked policy id `"@ + id
                + "` conflicts with an existing policy id"@,
    }
}

impl PolicySetError {
    /// The message of this error.
    pub fn message(&self) -> (r: String)
        ensures
            r@ == policy_set_error_message(self@),
    {
        match self {
            PolicySetError::AlreadyDefined { id } => cat3(
                "duplicate template or policy id `",
                id.0.as_str(),
                "`",
            ),
            PolicySetError::ExpectedStatic { id } => cat3(
                "expected a static policy, got the template `",
                id.0.as_str(),
                "`",
            ),
            PolicySetError::ExpectedTemplate { id } => cat3(
                "expected a template, got the static policy `",
                id.0.as_str(),
                "`",
            ),
        }
    }
}

fn slot_names(slots: &Vec<SlotId>) -> (r: Vec<String>)
    ensures
        strings_view(r@) == show_slots(slots@),
{
    let mut names: Vec<String> = Vec::new();
    let mut i: usize = 0;
    while i < slots.len()
        invariant
            i <= slots.len(),
            names.len() == i,
            forall|k: int| 0 <= k < i ==> names[k]@ == "`"@ + show_slot(slots[k]) + "`"@,
        decreases slots.len() - i,
    {
        let t = slot_text(slots[i]);
        names.push(cat3("`", t.as_str(), "`"));
        i += 1;
    }
    assert(strings_view(names@) =~= show_slots(slots@));
    names
}

impl LinkingError {
    /// The message of this error.
    pub fn message(&self) -> (r: String)
        ensures
            r@ == linking_error_message(self@),
    {
        match self {
            LinkingError::NoSuchTemplate { id } => cat3(
                "unable to link template: failed to find a template with id `",
                id.0.as_str(),
                "`",
            ),
            LinkingError::ArityError { unbound_values, extra_values } => {
                let unbound = join_strings(&slot_names(unbound_values), ", ");
                let extra = join_strings(&slot_names(extra_values), ", ");
                cat5(
                    "unable to link template: slots without a value: [",
                    unbound.as_str(),
                    "], values for slots that the template does not have: [",
                    extra.as_str(),
                    "]",
                )
            },
            LinkingError::PolicyIdConflict { id } => cat3(
                "unable to link template: template-linked policy id `",
                id.0.as_str(),
                "` conflicts with an existing policy id",
            ),
        }
    }
}

} // verus!
