//! Errors that the evaluation of an expression can raise.
use vstd::prelude::*;
use nonempty::NonEmpty;
use crate::ast::{BinaryOp, Expr, ExprV, SlotId, UnaryOp};
use crate::text::strings_view;
use crate::value::{EntityUid, EntityUidV, Type, TypeV, Value, ValueV};

verus! {

/// The list type `nonempty::NonEmpty`: a head and a tail, so that it
/// always holds at least one element. Nothing inside it is seen here; what
/// it holds goes by the name `expected_types`.
#[verifier::external_type_specification]
#[verifier::external_body]
#[verifier::reject_recursive_types(T)]
pub struct ExNonEmpty<T>(NonEmpty<T>);

/// The type tags that a non-empty list holds, in order.
pub uninterp spec fn expected_types(l: NonEmpty<Type>) -> Seq<TypeV>;

/// A list of expected types with one element.
///
/// Wraps `NonEmpty::new`, which makes the list whose head is the given
/// element and whose tail is empty.
#[verifier::external_body]
pub(crate) fn expected_one(t: Type) -> (r: NonEmpty<Type>)
    ensures
        expected_types(r) == seq![t@],
{
    NonEmpty::new(t)
}

/// Appends a type to a list of expected types.
///
/// Wraps `NonEmpty::push`, which pushes the element to the end of the tail.
#[verifier::external_body]
pub(crate) fn expected_push(l: &mut NonEmpty<Type>, t: Type)
    ensures
        expected_types(*final(l)) == expected_types(*old(l)).push(t@),
{
    l.push(t)
}

/// The number of expected types.
///
/// Wraps `NonEmpty::len`, which is the length of the tail plus one.
#[verifier::external_body]
pub(crate) fn expected_len(l: &NonEmpty<Type>) -> (r: usize)
    ensures
        r == expected_types(*l).len(),
        r >= 1,
{
    l.len()
}

/// The expected type at a position, if the list is that long.
///
/// Wraps `NonEmpty::get`, which returns the head for index 0 and otherwise
/// what the tail holds at the index before.
#[verifier::external_body]
pub(crate) fn expected_get(l: &NonEmpty<Type>, i: usize) -> (r: Option<&Type>)
    ensures
        i < expected_types(*l).len() ==> r is Some && r->0@ == expected_types(*l)[i as int],
        i >= expected_types(*l).len() ==> r is None,
{
    l.get(i)
}

/// `NonEmpty`'s `Clone`, which the derived `Clone` of the error types calls.
/// Nothing is claimed of the copy.
pub assume_specification<T>[ <NonEmpty<T> as Clone>::clone ](l: &NonEmpty<T>) -> (r: NonEmpty<T>)
    where T: Clone,
;

/// Why the lookup of an extension function failed.
#[derive(Debug, PartialEq, Eq, Clone)]
pub enum ExtensionFunctionLookupError {
    /// No registered function has this name.
    FuncDoesNotExist { name: String },
    /// More than one registered function has this name.
    FuncMultiplyDefined { name: String, num_defs: usize },
}

/// Mathematical model of an [`ExtensionFunctionLookupError`].
pub enum ExtensionFunctionLookupErrorV {
    FuncDoesNotExist { name: Seq<char> },
    FuncMultiplyDefined { name: Seq<char>, num_defs: usize },
}

impl View for ExtensionFunctionLookupError {
    type V = ExtensionFunctionLookupErrorV;

    open spec fn view(&self) -> ExtensionFunctionLookupErrorV {
        match self {
            ExtensionFunctionLookupError::FuncDoesNotExist { name } => {
                ExtensionFunctionLookupErrorV::FuncDoesNotExist { name: name@ }
            },
            ExtensionFunctionLookupError::FuncMultiplyDefined { name, num_defs } => {
                ExtensionFunctionLookupErrorV::FuncMultiplyDefined {
                    name: name@,
                    num_defs: *num_defs,
                }
            },
        }
    }
}

/// Why an expression is not a restricted expression.
#[derive(Debug, PartialEq, Eq, Clone)]
pub enum RestrictedExprError {
    /// The expression holds a construct that restricted expressions may not hold.
    InvalidRestrictedExpression { feature: String, expr: Expr },
}

/// Mathematical model of a [`RestrictedExprError`].
pub enum RestrictedExprErrorV {
    InvalidRestrictedExpression { feature: Seq<char>, expr: ExprV },
}

impl View for RestrictedExprError {
    type V = RestrictedExprErrorV;

    open spec fn view(&self) -> RestrictedExprErrorV {
        match self {
            RestrictedExprError::InvalidRestrictedExpression { feature, expr } => {
                RestrictedExprErrorV::InvalidRestrictedExpression { feature: feature@, expr: expr@ }
            },
        }
    }
}

/// Overflow of an integer operation.
#[derive(Debug, PartialEq, Eq, Clone)]
#[allow(inconsistent_fields)]
pub enum IntegerOverflowError {
    /// Overflow during a binary operation
    BinaryOp {
        /// overflow while evaluating this operator
        op: BinaryOp,
        /// first argument to that operator
        arg1: Value,
        /// second argument to that operator
        arg2: Value,
    },
    /// Overflow during multiplication
    Multiplication {
        /// first argument, which wasn't necessarily a constant in the policy
        arg: Value,
        /// second argument, which was a constant in the policy
        constant: i64,
    },
    /// Overflow during a unary operation
    UnaryOp {
        /// overflow while evaluating this operator
        op: UnaryOp,
        /// argument to that operator
        arg: Value,
    },
}

/// Mathematical model of an [`IntegerOverflowError`].
#[allow(inconsistent_fields)]
pub enum IntegerOverflowErrorV {
    BinaryOp { op: BinaryOp, arg1: ValueV, arg2: ValueV },
    Multiplication { arg: ValueV, constant: i64 },
    UnaryOp { op: UnaryOp, arg: ValueV },
}

impl View for IntegerOverflowError {
    type V = IntegerOverflowErrorV;

    open spec fn view(&self) -> IntegerOverflowErrorV {
        match self {
            IntegerOverflowError::BinaryOp { op, arg1, arg2 } => IntegerOverflowErrorV::BinaryOp {
                op: *op,
                arg1: arg1@,
                arg2: arg2@,
            },
            IntegerOverflowError::Multiplication { arg, constant } => {
                IntegerOverflowErrorV::Multiplication { arg: arg@, constant: *constant }
            },
            IntegerOverflowError::UnaryOp { op, arg } => IntegerOverflowErrorV::UnaryOp {
                op: *op,
                arg: arg@,
            },
        }
    }
}

/// Enumeration of the possible errors that can occur during evaluation
#[derive(Debug, PartialEq, Eq, Clone)]
#[allow(inconsistent_fields)]
pub enum EvaluationErrorKind {
    /// Tried to lookup this entity UID, but it didn't exist in the provided
    /// entities
    EntityDoesNotExist(EntityUid),
    /// Tried to get this attribute, but the specified entity didn't
    /// have that attribute
    EntityAttrDoesNotExist {
        /// Entity that didn't have the attribute
        entity: EntityUid,
        /// Name of the attribute it didn't have
        attr: String,
    },
    /// Tried to access an attribute of an unspecified entity
    UnspecifiedEntityAccess(String),
    /// Tried to get an attribute of a (non-entity) record, but that record
    /// didn't have that attribute
    RecordAttrDoesNotExist(String, Vec<String>),
    /// An error occurred when looking up an extension function
    FailedExtensionFunctionLookup(ExtensionFunctionLookupError),
    /// Tried to evaluate an operation on values with incorrect types for that
    /// operation
    TypeError {
        /// Expected one of these types
        expected: NonEmpty<Type>,
        /// Encountered this type instead
        actual: Type,
    },
    /// Wrong number of arguments provided to an extension function
    WrongNumArguments {
        /// arguments to this function
        function_name: String,
        /// expected number of arguments
        expected: usize,
        /// actual number of arguments
        actual: usize,
    },
    /// Overflow during an integer operation
    IntegerOverflow(IntegerOverflowError),
    /// Error with the use of "restricted" expressions
    InvalidRestrictedExpression(RestrictedExprError),
    /// Thrown when a policy is evaluated with a slot that is not linked to an
    /// entity
    UnlinkedSlot(SlotId),
    /// Evaluation error thrown by an extension function
    FailedExtensionFunctionApplication {
        /// Name of the extension throwing the error
        extension_name: String,
        /// Error message from the extension
        msg: String,
    },
    /// This error is raised if an expression contains unknowns and cannot be
    /// reduced to a value. In order to return partial results, use the
    /// partial evaluation entry point instead.
    NonValue(Expr),
    /// Maximum recursion limit reached for expression evaluation
    RecursionLimit,
}

/// Mathematical model of an [`EvaluationErrorKind`].
#[allow(inconsistent_fields)]
pub enum EvaluationErrorKindV {
    EntityDoesNotExist(EntityUidV),
    EntityAttrDoesNotExist { entity: EntityUidV, attr: Seq<char> },
    UnspecifiedEntityAccess(Seq<char>),
    RecordAttrDoesNotExist(Seq<char>, Seq<Seq<char>>),
    FailedExtensionFunctionLookup(ExtensionFunctionLookupErrorV),
    TypeError { expected: Seq<TypeV>, actual: TypeV },
    WrongNumArguments { function_name: Seq<char>, expected: usize, actual: usize },
    IntegerOverflow(IntegerOverflowErrorV),
    InvalidRestrictedExpression(RestrictedExprErrorV),
    UnlinkedSlot(SlotId),
    FailedExtensionFunctionApplication { extension_name: Seq<char>, msg: Seq<char> },
    NonValue(ExprV),
    RecursionLimit,
}

impl View for EvaluationErrorKind {
    type V = EvaluationErrorKindV;

    open spec fn view(&self) -> EvaluationErrorKindV {
        match self {
            EvaluationErrorKind::EntityDoesNotExist(u) => EvaluationErrorKindV::EntityDoesNotExist(
                u@,
            ),
            EvaluationErrorKind::EntityAttrDoesNotExist { entity, attr } => {
                EvaluationErrorKindV::EntityAttrDoesNotExist { entity: entity@, attr: attr@ }
            },
            EvaluationErrorKind::UnspecifiedEntityAccess(attr) => {
                EvaluationErrorKindV::UnspecifiedEntityAccess(attr@)
            },
            EvaluationErrorKind::RecordAttrDoesNotExist(attr, alternatives) => {
                EvaluationErrorKindV::RecordAttrDoesNotExist(attr@, strings_view(alternatives@))
            },
            EvaluationErrorKind::FailedExtensionFunctionLookup(e) => {
                EvaluationErrorKindV::FailedExtensionFunctionLookup(e@)
            },
            EvaluationErrorKind::TypeError { expected, actual } => EvaluationErrorKindV::TypeError {
                expected: expected_types(*expected),
                actual: actual@,
            },
            EvaluationErrorKind::WrongNumArguments { function_name, expected, actual } => {
                EvaluationErrorKindV::WrongNumArguments {
                    function_name: function_name@,
                    expected: *expected,
                    actual: *actual,
                }
            },
            EvaluationErrorKind::IntegerOverflow(e) => EvaluationErrorKindV::IntegerOverflow(e@),
            EvaluationErrorKind::InvalidRestrictedExpression(e) => {
                EvaluationErrorKindV::InvalidRestrictedExpression(e@)
            },
            EvaluationErrorKind::UnlinkedSlot(s) => EvaluationErrorKindV::UnlinkedSlot(*s),
            EvaluationErrorKind::FailedExtensionFunctionApplication { extension_name, msg } => {
                EvaluationErrorKindV::FailedExtensionFunctionApplication {
                    extension_name: extension_name@,
                    msg: msg@,
                }
            },
            EvaluationErrorKind::NonValue(e) => EvaluationErrorKindV::NonValue(e@),
            EvaluationErrorKind::RecursionLimit => EvaluationErrorKindV::RecursionLimit,
        }
    }
}

/// An error generated while evaluating an expression
#[derive(Debug, PartialEq, Eq, Clone)]
pub struct EvaluationError {
    /// The kind of error that occurred
    error_kind: EvaluationErrorKind,
    /// Optional advice on how to fix the error
    advice: Option<String>,
}

/// Mathematical model of an [`EvaluationError`].
pub struct EvaluationErrorV {
    pub kind: EvaluationErrorKindV,
    pub advice: Option<Seq<char>>,
}

/// An error of the given kind, without advice.
pub open spec fn plain_error(kind: EvaluationErrorKindV) -> EvaluationErrorV {
    EvaluationErrorV { kind, advice: None }
}

/// The error for a value of the wrong type.
pub open spec fn type_error(expected: Seq<TypeV>, actual: TypeV) -> EvaluationErrorV {
    plain_error(EvaluationErrorKindV::TypeError { expected, actual })
}

/// The error for an expression that holds an unknown, with its advice.
pub open spec fn non_value_error(e: ExprV) -> EvaluationErrorV {
    EvaluationErrorV {
        kind: EvaluationErrorKindV::NonValue(e),
        advice: Some("consider using the partial evaluation APIs"@),
    }
}

impl View for EvaluationError {
    type V = EvaluationErrorV;

    closed spec fn view(&self) -> EvaluationErrorV {
        EvaluationErrorV {
            kind: self.error_kind@,
            advice: match self.advice {
                Some(a) => Some(a@),
                None => None,
            },
        }
    }
}

impl EvaluationError {
    /// Extract the kind of issue detected during evaluation
    pub fn error_kind(&self) -> (r: &EvaluationErrorKind)
        ensures
            r@ == self@.kind,
    {
        &self.error_kind
    }

    /// The advice on how to fix the error, if there is any.
    pub fn advice(&self) -> (r: &Option<String>)
        ensures
            r is Some <==> self@.advice is Some,
            r is Some ==> r->0@ == self@.advice->0,
    {
        &self.advice
    }

    /// Set the advice field of an error
    pub fn set_advice(&mut self, advice: String)
        ensures
            final(self)@ == (EvaluationErrorV { kind: old(self)@.kind, advice: Some(advice@) }),
    {
        self.advice = Some(advice);
    }

    /// An error of the given kind, without advice.
    pub fn from_kind(error_kind: EvaluationErrorKind) -> (r: Self)
        ensures
            r@ == plain_error(error_kind@),
    {
        Self { error_kind, advice: None }
    }

    /// Construct an `EntityDoesNotExist` error
    pub fn entity_does_not_exist(euid: EntityUid) -> (r: Self)
        ensures
            r@ == plain_error(EvaluationErrorKindV::EntityDoesNotExist(euid@)),
    {
        Self { error_kind: EvaluationErrorKind::EntityDoesNotExist(euid), advice: None }
    }

    /// Construct an `EntityAttrDoesNotExist` error
    pub fn entity_attr_does_not_exist(entity: EntityUid, attr: String) -> (r: Self)
        ensures
            r@ == plain_error(
                EvaluationErrorKindV::EntityAttrDoesNotExist { entity: entity@, attr: attr@ },
            ),
    {
        Self {
            error_kind: EvaluationErrorKind::EntityAttrDoesNotExist { entity, attr },
            advice: None,
        }
    }

    /// Construct an `UnspecifiedEntityAccess` error
    pub fn unspecified_entity_access(attr: String) -> (r: Self)
        ensures
            r@ == plain_error(EvaluationErrorKindV::UnspecifiedEntityAccess(attr@)),
    {
        Self { error_kind: EvaluationErrorKind::UnspecifiedEntityAccess(attr), advice: None }
    }

    /// Construct a `RecordAttrDoesNotExist` error
    pub fn record_attr_does_not_exist(attr: String, alternatives: Vec<String>) -> (r: Self)
        ensures
            r@ == plain_error(
                EvaluationErrorKindV::RecordAttrDoesNotExist(attr@, strings_view(alternatives@)),
            ),
    {
        Self {
            error_kind: EvaluationErrorKind::RecordAttrDoesNotExist(attr, alternatives),
            advice: None,
        }
    }

    /// Construct a `TypeError` error
    pub fn type_error(expected: NonEmpty<Type>, actual: Type) -> (r: Self)
        ensures
            r@ == type_error(expected_types(expected), actual@),
    {
        Self { error_kind: EvaluationErrorKind::TypeError { expected, actual }, advice: None }
    }

    /// Construct a `TypeError` error that expects a single type
    pub fn type_error_single(expected: Type, actual: Type) -> (r: Self)
        ensures
            r@ == type_error(seq![expected@], actual@),
    {
        Self::type_error(expected_one(expected), actual)
    }

    /// Construct a `TypeError` error that expects one of two types
    pub fn type_error_pair(first: Type, second: Type, actual: Type) -> (r: Self)
        ensures
            r@ == type_error(seq![first@, second@], actual@),
    {
        let mut expected = expected_one(first);
        expected_push(&mut expected, second);
        assert(expected_types(expected) =~= seq![first@, second@]);
        Self::type_error(expected, actual)
    }

    /// Construct a `TypeError` error with the advice field set
    pub fn type_error_with_advice(expected: NonEmpty<Type>, actual: Type, advice: String) -> (r:
        Self)
        ensures
            r@ == (EvaluationErrorV {
                kind: EvaluationErrorKindV::TypeError {
                    expected: expected_types(expected),
                    actual: actual@,
                },
                advice: Some(advice@),
            }),
    {
        Self {
            error_kind: EvaluationErrorKind::TypeError { expected, actual },
            advice: Some(advice),
        }
    }

    /// Construct a `TypeError` error that expects a single type, with the
    /// advice field set
    pub fn type_error_with_advice_single(expected: Type, actual: Type, advice: String) -> (r: Self)
        ensures
            r@ == (EvaluationErrorV {
                kind: EvaluationErrorKindV::TypeError { expected: seq![expected@], actual: actual@ },
                advice: Some(advice@),
            }),
    {
        Self::type_error_with_advice(expected_one(expected), actual, advice)
    }

    /// Construct a `WrongNumArguments` error
    pub fn wrong_num_arguments(function_name: String, expected: usize, actual: usize) -> (r: Self)
        ensures
            r@ == plain_error(
                EvaluationErrorKindV::WrongNumArguments {
                    function_name: function_name@,
                    expected,
                    actual,
                },
            ),
    {
        Self {
            error_kind: EvaluationErrorKind::WrongNumArguments { function_name, expected, actual },
            advice: None,
        }
    }

    /// Construct an `UnlinkedSlot` error
    pub fn unlinked_slot(id: SlotId) -> (r: Self)
        ensures
            r@ == plain_error(EvaluationErrorKindV::UnlinkedSlot(id)),
    {
        Self { error_kind: EvaluationErrorKind::UnlinkedSlot(id), advice: None }
    }

    /// Construct a `FailedExtensionFunctionApplication` error
    pub fn failed_extension_function_application(extension_name: String, msg: String) -> (r: Self)
        ensures
            r@ == plain_error(
                EvaluationErrorKindV::FailedExtensionFunctionApplication {
                    extension_name: extension_name@,
                    msg: msg@,
                },
            ),
    {
        Self {
            error_kind: EvaluationErrorKind::FailedExtensionFunctionApplication {
                extension_name,
                msg,
            },
            advice: None,
        }
    }

    /// Construct a `NonValue` error
    pub fn non_value(e: Expr) -> (r: Self)
        ensures
            r@ == non_value_error(e@),
    {
        Self {
            error_kind: EvaluationErrorKind::NonValue(e),
            advice: Some(String::from_str("consider using the partial evaluation APIs")),
        }
    }

    /// Construct a `RecursionLimit` error
    pub fn recursion_limit() -> (r: Self)
        ensures
            r@ == plain_error(EvaluationErrorKindV::RecursionLimit),
    {
        Self { error_kind: EvaluationErrorKind::RecursionLimit, advice: None }
    }

    /// The error for a failed lookup of an extension function.
    pub fn from_lookup_error(err: ExtensionFunctionLookupError) -> (r: Self)
        ensures
            r@ == plain_error(EvaluationErrorKindV::FailedExtensionFunctionLookup(err@)),
    {
        Self { error_kind: EvaluationErrorKind::FailedExtensionFunctionLookup(err), advice: None }
    }

    /// The error for an integer overflow.
    pub fn from_overflow(err: IntegerOverflowError) -> (r: Self)
        ensures
            r@ == plain_error(EvaluationErrorKindV::IntegerOverflow(err@)),
    {
        Self { error_kind: EvaluationErrorKind::IntegerOverflow(err), advice: None }
    }

    /// The error for an expression that is not a restricted expression.
    pub fn from_restricted(err: RestrictedExprError) -> (r: Self)
        ensures
            r@ == plain_error(EvaluationErrorKindV::InvalidRestrictedExpression(err@)),
    {
        Self { error_kind: EvaluationErrorKind::InvalidRestrictedExpression(err), advice: None }
    }
}

} // verus!
