use cedar_policy_core::ast::{BinaryOp, Expr, SlotId, UnaryOp, Var};
use cedar_policy_core::err::{
    EvaluationError, EvaluationErrorKind, ExtensionFunctionLookupError, IntegerOverflowError,
    RestrictedExprError,
};
use cedar_policy_core::value::{EntityType, EntityUid, Type, Value};
use nonempty::NonEmpty;

fn bob() -> EntityUid {
    EntityUid::new("User", "bob")
}

#[test]
fn entity_errors_name_the_entity() {
    let missing = EvaluationError::entity_does_not_exist(bob());
    assert_eq!(missing.error_kind(), &EvaluationErrorKind::EntityDoesNotExist(bob()));
    assert_eq!(missing.message(), "entity `User::\"bob\"` does not exist");
    assert_eq!(missing.help(), None);
    let attr = EvaluationError::entity_attr_does_not_exist(bob(), "age".to_string());
    assert_eq!(
        attr.error_kind(),
        &EvaluationErrorKind::EntityAttrDoesNotExist { entity: bob(), attr: "age".to_string() }
    );
    assert_eq!(attr.message(), "`User::\"bob\"` does not have the attribute `age`");
    let unspecified = EvaluationError::unspecified_entity_access("name".to_string());
    assert_eq!(
        unspecified.message(),
        "cannot access attribute `name` of unspecified entity"
    );
}

#[test]
fn record_error_lists_the_attributes_as_help() {
    let err = EvaluationError::record_attr_does_not_exist(
        "zzz".to_string(),
        vec!["a".to_string(), "b c".to_string()],
    );
    assert_eq!(err.message(), "record does not have the attribute `zzz`");
    assert_eq!(err.help(), Some("available attributes: [\"a\", \"b c\"]".to_string()));
    let none = EvaluationError::record_attr_does_not_exist("zzz".to_string(), vec![]);
    assert_eq!(none.help(), Some("available attributes: []".to_string()));
}

#[test]
fn type_errors_list_what_was_expected() {
    let one = EvaluationError::type_error_single(Type::Long, Type::Bool);
    assert_eq!(one.message(), "type error: expected long, got bool");
    let two = EvaluationError::type_error_pair(Type::SetOf, Type::Record, Type::String);
    assert_eq!(two.message(), "type error: expected one of [set, record], got string");
    let three = EvaluationError::type_error(
        NonEmpty::from_vec(vec![
            Type::Long,
            Type::Extension { name: "decimal".to_string() },
            Type::Entity { ty: EntityType::Specified("User".to_string()) },
        ])
        .unwrap(),
        Type::SetOf,
    );
    assert_eq!(
        three.message(),
        "type error: expected one of [long, decimal, (entity of type `User`)], got set"
    );
    assert_eq!(three.help(), None);
    assert_eq!(
        EvaluationError::type_error(NonEmpty::new(Type::String), Type::Long),
        EvaluationError::type_error_single(Type::String, Type::Long)
    );
}

#[test]
fn advice_is_offered_as_help() {
    let mut err = EvaluationError::type_error_with_advice_single(
        Type::Long,
        Type::String,
        "write a number".to_string(),
    );
    assert_eq!(err.advice(), &Some("write a number".to_string()));
    assert_eq!(err.help(), Some("write a number".to_string()));
    err.set_advice("try again".to_string());
    assert_eq!(err.help(), Some("try again".to_string()));
    assert_eq!(err.message(), "type error: expected long, got string");
    let mut record = EvaluationError::record_attr_does_not_exist(
        "x".to_string(),
        vec!["y".to_string()],
    );
    record.set_advice("did you mean `y`?".to_string());
    assert_eq!(
        record.help(),
        Some("available attributes: [\"y\"]; did you mean `y`?".to_string())
    );
    let plain = EvaluationError::from_kind(EvaluationErrorKind::RecursionLimit);
    assert_eq!(plain, EvaluationError::recursion_limit());
    assert_eq!(plain.advice(), &None);
    assert_eq!(plain.message(), "recursion limit reached");
}

#[test]
fn overflow_errors_show_the_operands() {
    let add = EvaluationError::from_overflow(IntegerOverflowError::BinaryOp {
        op: BinaryOp::Add,
        arg1: Value::Long(1),
        arg2: Value::Long(2),
    });
    assert_eq!(
        add.message(),
        "integer overflow while attempting to add the values `1` and `2`"
    );
    let sub = IntegerOverflowError::BinaryOp {
        op: BinaryOp::Sub,
        arg1: Value::Long(-3),
        arg2: Value::Long(4),
    };
    assert_eq!(
        sub.message(),
        "integer overflow while attempting to subtract the values `-3` and `4`"
    );
    let mul = EvaluationError::from_overflow(IntegerOverflowError::Multiplication {
        arg: Value::Long(4),
        constant: -2,
    });
    assert_eq!(mul.message(), "integer overflow while attempting to multiply `4` by `-2`");
    let neg = EvaluationError::from_overflow(IntegerOverflowError::UnaryOp {
        op: UnaryOp::Neg,
        arg: Value::Long(5),
    });
    assert_eq!(neg.message(), "integer overflow while attempting to negate the value `5`");
    assert!(matches!(neg.error_kind(), EvaluationErrorKind::IntegerOverflow(_)));
}

#[test]
fn extension_errors_name_the_function() {
    let missing = EvaluationError::from_lookup_error(
        ExtensionFunctionLookupError::FuncDoesNotExist { name: "f".to_string() },
    );
    assert_eq!(missing.message(), "extension function `f` does not exist");
    let twice = EvaluationError::from_lookup_error(
        ExtensionFunctionLookupError::FuncMultiplyDefined { name: "f".to_string(), num_defs: 2 },
    );
    assert_eq!(twice.message(), "extension function `f` is defined 2 times");
    let arity = EvaluationError::wrong_num_arguments("ip".to_string(), 1, 12);
    assert_eq!(
        arity.message(),
        "wrong number of arguments provided to extension function `ip`: expected 1, got 12"
    );
    let failed = EvaluationError::failed_extension_function_application(
        "decimal".to_string(),
        "no digits".to_string(),
    );
    assert_eq!(
        failed.message(),
        "error while evaluating `decimal` extension function: no digits"
    );
}

#[test]
fn expression_errors_show_the_expression() {
    let restricted = EvaluationError::from_restricted(
        RestrictedExprError::InvalidRestrictedExpression {
            feature: "variables".to_string(),
            expr: Expr::var(Var::Principal),
        },
    );
    assert_eq!(
        restricted.message(),
        "not allowed to use variables in a restricted expression: `principal`"
    );
    let slot = EvaluationError::unlinked_slot(SlotId::Resource);
    assert_eq!(slot.message(), "template slot `?resource` was not linked");
    let unknown = EvaluationError::non_value(Expr::unknown("x"));
    assert_eq!(unknown.message(), "the expression contains unknown(s): `unknown(\"x\")`");
    assert_eq!(
        unknown.help(),
        Some("consider using the partial evaluation APIs".to_string())
    );
}
