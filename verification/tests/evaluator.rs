use cedar_policy_core::ast::{BinaryOp, Expr, PatternElem, SlotId, UnaryOp, Var};
use cedar_policy_core::entities::{Entities, EntitiesError, Entity, EntityError, Mode};
use cedar_policy_core::err::{
    EvaluationError, EvaluationErrorKind, ExtensionFunctionLookupError, IntegerOverflowError,
};
use cedar_policy_core::evaluator::{interpret, partial_interpret, Evaluator, PartialValue};
use cedar_policy_core::extensions::{decimal_from_str, DecimalError, Extensions};
use cedar_policy_core::pattern::like;
use cedar_policy_core::request::{Context, ContextError, Request};
use cedar_policy_core::restricted::RestrictedEvaluator;
use cedar_policy_core::semantics::MAX_DEPTH;
use cedar_policy_core::value::{EntityUid, ExtValue, Type, Value};

fn request() -> Request {
    Request::new(
        Some(EntityUid::new("User", "alice")),
        Some(EntityUid::new("Action", "view")),
        Some(EntityUid::new("Photo", "door")),
        Context::from_pairs(vec![
            ("is_authenticated".to_string(), Value::Bool(true)),
            ("level".to_string(), Value::Long(3)),
        ])
        .unwrap(),
    )
}

fn store() -> Entities {
    let alice = EntityUid::new("User", "alice");
    let team = EntityUid::new("Team", "admins");
    let org = EntityUid::new("Org", "acme");
    Entities::from_entities(
        vec![
            Entity::new(
                alice,
                vec![
                    ("age".to_string(), Value::Long(41)),
                    ("name".to_string(), Value::String("Alice".to_string())),
                ],
                vec![team.clone(), org.clone()],
            )
            .unwrap(),
            Entity::new(team, vec![], vec![org.clone()]).unwrap(),
            Entity::new(org, vec![], vec![]).unwrap(),
        ],
        Mode::Concrete,
    )
    .unwrap()
}

fn eval(e: &Expr) -> Result<Value, EvaluationError> {
    interpret(e, &request(), &store())
}

fn uid(ty: &str, id: &str) -> Expr {
    Expr::uid(EntityUid::new(ty, id))
}

fn negations(n: usize) -> Expr {
    let mut e = Expr::bool(true);
    for _ in 0..n {
        e = Expr::not(e);
    }
    e
}

fn kind(r: Result<Value, EvaluationError>) -> EvaluationErrorKind {
    r.unwrap_err().error_kind().clone()
}

#[test]
fn literals_evaluate_to_themselves() {
    assert_eq!(eval(&Expr::bool(true)), Ok(Value::Bool(true)));
    assert_eq!(eval(&Expr::long(-7)), Ok(Value::Long(-7)));
    assert_eq!(eval(&Expr::string("hi")), Ok(Value::String("hi".to_string())));
    assert_eq!(
        eval(&uid("User", "bob")),
        Ok(Value::EntityUid(EntityUid::new("User", "bob")))
    );
}

#[test]
fn variables_resolve_to_the_request() {
    assert_eq!(
        eval(&Expr::var(Var::Principal)),
        Ok(Value::EntityUid(EntityUid::new("User", "alice")))
    );
    assert_eq!(
        eval(&Expr::get_attr(Expr::var(Var::Context), "level")),
        Ok(Value::Long(3))
    );
}

#[test]
fn absent_principal_is_unspecified_or_unknown() {
    let q = Request::new(None, None, None, Context::empty());
    let e = Expr::var(Var::Principal);
    assert_eq!(
        interpret(&e, &q, &Entities::empty()),
        Ok(Value::EntityUid(EntityUid::unspecified("principal")))
    );
    assert_eq!(
        partial_interpret(&e, &q, &Entities::empty()),
        Ok(PartialValue::Residual(Expr::unknown("principal")))
    );
}

#[test]
fn evaluation_is_deterministic() {
    let e = Expr::binary(
        BinaryOp::Add,
        Expr::get_attr(Expr::var(Var::Principal), "age"),
        Expr::long(1),
    );
    assert_eq!(eval(&e), eval(&e));
    assert_eq!(eval(&e), Ok(Value::Long(42)));
    let bad = Expr::get_attr(Expr::var(Var::Principal), "missing");
    assert_eq!(eval(&bad), eval(&bad));
    assert_eq!(eval(&bad).unwrap_err().message(), eval(&bad).unwrap_err().message());
}

#[test]
fn addition_overflow_is_an_error() {
    let e = Expr::binary(BinaryOp::Add, Expr::long(i64::MAX), Expr::long(1));
    assert_eq!(
        kind(eval(&e)),
        EvaluationErrorKind::IntegerOverflow(IntegerOverflowError::BinaryOp {
            op: BinaryOp::Add,
            arg1: Value::Long(i64::MAX),
            arg2: Value::Long(1),
        })
    );
    assert_eq!(
        eval(&Expr::binary(BinaryOp::Add, Expr::long(i64::MAX - 1), Expr::long(1))),
        Ok(Value::Long(i64::MAX))
    );
}

#[test]
fn subtraction_overflow_is_an_error() {
    let e = Expr::binary(BinaryOp::Sub, Expr::long(i64::MIN), Expr::long(1));
    assert_eq!(
        eval(&e).unwrap_err().message(),
        "integer overflow while attempting to subtract the values `-9223372036854775808` and `1`"
    );
    assert_eq!(
        eval(&Expr::binary(BinaryOp::Sub, Expr::long(5), Expr::long(7))),
        Ok(Value::Long(-2))
    );
}

#[test]
fn multiplication_overflow_names_the_constant() {
    let e = Expr::mul(Expr::long(i64::MAX / 2 + 1), 2);
    assert_eq!(
        kind(eval(&e)),
        EvaluationErrorKind::IntegerOverflow(IntegerOverflowError::Multiplication {
            arg: Value::Long(i64::MAX / 2 + 1),
            constant: 2,
        })
    );
    assert_eq!(
        eval(&e).unwrap_err().message(),
        "integer overflow while attempting to multiply `4611686018427387904` by `2`"
    );
    assert_eq!(eval(&Expr::mul(Expr::long(-6), 7)), Ok(Value::Long(-42)));
}

#[test]
fn negation_of_the_smallest_integer_overflows() {
    assert_eq!(
        kind(eval(&Expr::neg(Expr::long(i64::MIN)))),
        EvaluationErrorKind::IntegerOverflow(IntegerOverflowError::UnaryOp {
            op: UnaryOp::Neg,
            arg: Value::Long(i64::MIN),
        })
    );
    assert_eq!(
        eval(&Expr::neg(Expr::long(i64::MIN))).unwrap_err().message(),
        "integer overflow while attempting to negate the value `-9223372036854775808`"
    );
    assert_eq!(eval(&Expr::neg(Expr::long(i64::MAX))), Ok(Value::Long(-i64::MAX)));
}

#[test]
fn false_and_anything_is_false() {
    let failing = Expr::binary(BinaryOp::Add, Expr::long(i64::MAX), Expr::long(1));
    assert!(eval(&failing).is_err());
    assert_eq!(
        eval(&Expr::and(Expr::bool(false), failing.clone())),
        Ok(Value::Bool(false))
    );
    assert_eq!(
        eval(&Expr::or(Expr::bool(true), failing.clone())),
        Ok(Value::Bool(true))
    );
    assert_eq!(
        eval(&Expr::ite(Expr::bool(true), Expr::long(1), failing.clone())),
        Ok(Value::Long(1))
    );
    assert_eq!(
        eval(&Expr::ite(Expr::bool(false), failing.clone(), Expr::long(2))),
        Ok(Value::Long(2))
    );
    assert!(eval(&Expr::and(Expr::bool(true), failing)).is_err());
}

#[test]
fn connectives_want_truth_values() {
    assert_eq!(
        eval(&Expr::and(Expr::long(1), Expr::bool(true))).unwrap_err().message(),
        "type error: expected bool, got long"
    );
    assert_eq!(
        eval(&Expr::and(Expr::bool(true), Expr::string("x"))).unwrap_err().message(),
        "type error: expected bool, got string"
    );
    assert_eq!(
        eval(&Expr::ite(Expr::long(1), Expr::long(1), Expr::long(2))).unwrap_err().message(),
        "type error: expected bool, got long"
    );
    assert_eq!(eval(&Expr::not(Expr::bool(true))), Ok(Value::Bool(false)));
}

#[test]
fn equality_is_total_across_types() {
    let values = vec![
        Expr::bool(true),
        Expr::long(1),
        Expr::string("1"),
        uid("User", "alice"),
        Expr::set(vec![Expr::long(1)]),
        Expr::call("decimal", vec![Expr::string("1.0")]),
    ];
    for (i, a) in values.iter().enumerate() {
        for (j, b) in values.iter().enumerate() {
            let same = eval(&Expr::binary(BinaryOp::Eq, a.clone(), b.clone()));
            let differ = eval(&Expr::binary(BinaryOp::NotEq, a.clone(), b.clone()));
            assert_eq!(same, Ok(Value::Bool(i == j)));
            assert_eq!(differ, Ok(Value::Bool(i != j)));
        }
    }
}

#[test]
fn sets_are_equal_as_sets() {
    let a = Expr::set(vec![Expr::long(1), Expr::long(2), Expr::long(1)]);
    let b = Expr::set(vec![Expr::long(2), Expr::long(1)]);
    assert_eq!(eval(&Expr::binary(BinaryOp::Eq, a.clone(), b)), Ok(Value::Bool(true)));
    assert_eq!(
        eval(&a),
        Ok(Value::SetOf(vec![Value::Long(1), Value::Long(2)]))
    );
    assert_eq!(Value::SetOf(vec![Value::Long(1), Value::Long(2)]), Value::SetOf(vec![Value::Long(2), Value::Long(1)]));
}

#[test]
fn ordering_is_for_integers_only() {
    assert_eq!(
        eval(&Expr::binary(BinaryOp::Less, Expr::long(1), Expr::long(2))),
        Ok(Value::Bool(true))
    );
    assert_eq!(
        eval(&Expr::binary(BinaryOp::GreaterEq, Expr::long(1), Expr::long(2))),
        Ok(Value::Bool(false))
    );
    assert_eq!(
        eval(&Expr::binary(BinaryOp::Less, Expr::string("a"), Expr::long(2)))
            .unwrap_err()
            .message(),
        "type error: expected long, got string"
    );
    assert_eq!(
        eval(&Expr::binary(BinaryOp::LessEq, Expr::long(1), Expr::bool(true)))
            .unwrap_err()
            .message(),
        "type error: expected long, got bool"
    );
}

#[test]
fn contains_is_contains_any_of_a_singleton() {
    let s = Expr::set(vec![Expr::long(1), Expr::string("a"), uid("User", "alice")]);
    for x in [Expr::long(1), Expr::long(2), Expr::string("a"), uid("User", "bob")] {
        assert_eq!(
            eval(&Expr::binary(BinaryOp::Contains, s.clone(), x.clone())),
            eval(&Expr::binary(BinaryOp::ContainsAny, s.clone(), Expr::set(vec![x])))
        );
    }
    assert_eq!(
        eval(&Expr::binary(BinaryOp::Contains, s.clone(), Expr::long(1))),
        Ok(Value::Bool(true))
    );
    assert_eq!(
        eval(&Expr::binary(BinaryOp::Contains, Expr::long(1), Expr::long(1)))
            .unwrap_err()
            .message(),
        "type error: expected set, got long"
    );
}

#[test]
fn contains_all_both_ways_is_equality() {
    let sets = vec![
        Expr::set(vec![]),
        Expr::set(vec![Expr::long(1)]),
        Expr::set(vec![Expr::long(1), Expr::long(2)]),
        Expr::set(vec![Expr::long(2), Expr::long(1), Expr::long(2)]),
    ];
    for a in &sets {
        for b in &sets {
            let ab = eval(&Expr::binary(BinaryOp::ContainsAll, a.clone(), b.clone())).unwrap();
            let ba = eval(&Expr::binary(BinaryOp::ContainsAll, b.clone(), a.clone())).unwrap();
            let same = eval(&Expr::binary(BinaryOp::Eq, a.clone(), b.clone())).unwrap();
            assert_eq!(
                same,
                Value::Bool(ab == Value::Bool(true) && ba == Value::Bool(true))
            );
        }
    }
}

#[test]
fn in_follows_the_listed_ancestors() {
    let alice = uid("User", "alice");
    assert_eq!(
        eval(&Expr::binary(BinaryOp::In, alice.clone(), uid("Org", "acme"))),
        Ok(Value::Bool(true))
    );
    assert_eq!(
        eval(&Expr::binary(BinaryOp::In, alice.clone(), alice.clone())),
        Ok(Value::Bool(true))
    );
    assert_eq!(
        eval(&Expr::binary(BinaryOp::In, uid("Org", "acme"), alice.clone())),
        Ok(Value::Bool(false))
    );
    assert_eq!(
        eval(&Expr::binary(BinaryOp::In, uid("User", "nobody"), uid("Org", "acme"))),
        Ok(Value::Bool(false))
    );
    assert_eq!(
        eval(&Expr::binary(
            BinaryOp::In,
            alice.clone(),
            Expr::set(vec![uid("Team", "other"), uid("Team", "admins")])
        )),
        Ok(Value::Bool(true))
    );
    assert_eq!(
        eval(&Expr::binary(BinaryOp::In, alice.clone(), Expr::set(vec![Expr::long(1)])))
            .unwrap_err()
            .message(),
        "type error: expected (entity of type `any_entity_type`), got long"
    );
    assert_eq!(
        eval(&Expr::binary(BinaryOp::In, alice, Expr::long(1)))
            .unwrap_err()
            .message(),
        "type error: expected one of [set, (entity of type `any_entity_type`)], got long"
    );
}

#[test]
fn is_ancestor_of_agrees_with_descendants() {
    let entities = store();
    let alice = EntityUid::new("User", "alice");
    let team = EntityUid::new("Team", "admins");
    let org = EntityUid::new("Org", "acme");
    assert!(entities.is_ancestor_of(&org, &alice));
    assert!(entities.is_ancestor_of(&team, &alice));
    assert!(entities.is_ancestor_of(&org, &team));
    assert!(!entities.is_ancestor_of(&alice, &org));
    assert!(!entities.is_ancestor_of(&org, &EntityUid::new("User", "nobody")));
}

#[test]
fn recursion_at_the_bound_succeeds_and_beyond_fails() {
    assert_eq!(MAX_DEPTH, 200);
    assert_eq!(eval(&negations(MAX_DEPTH - 1)), Ok(Value::Bool(false)));
    assert_eq!(
        kind(eval(&negations(MAX_DEPTH))),
        EvaluationErrorKind::RecursionLimit
    );
    assert_eq!(
        eval(&negations(MAX_DEPTH)).unwrap_err().message(),
        "recursion limit reached"
    );
}

#[test]
fn has_on_missing_entity_is_false() {
    assert_eq!(
        eval(&Expr::has_attr(uid("User", "nobody"), "age")),
        Ok(Value::Bool(false))
    );
    assert_eq!(
        eval(&Expr::has_attr(uid("User", "alice"), "age")),
        Ok(Value::Bool(true))
    );
    assert_eq!(
        eval(&Expr::has_attr(uid("User", "alice"), "height")),
        Ok(Value::Bool(false))
    );
    assert_eq!(
        eval(&Expr::has_attr(Expr::var(Var::Context), "level")),
        Ok(Value::Bool(true))
    );
    assert_eq!(
        eval(&Expr::has_attr(Expr::long(1), "level")).unwrap_err().message(),
        "type error: expected one of [record, (entity of type `any_entity_type`)], got long"
    );
}

#[test]
fn attribute_of_unspecified_entity_is_an_error() {
    let q = Request::new(None, None, None, Context::empty());
    let e = Expr::get_attr(Expr::var(Var::Principal), "age");
    let r = interpret(&e, &q, &store());
    assert_eq!(
        kind(r.clone()),
        EvaluationErrorKind::UnspecifiedEntityAccess("age".to_string())
    );
    assert_eq!(
        r.unwrap_err().message(),
        "cannot access attribute `age` of unspecified entity"
    );
    assert_eq!(
        interpret(&Expr::has_attr(Expr::var(Var::Principal), "age"), &q, &store()),
        Ok(Value::Bool(false))
    );
}

#[test]
fn attribute_errors_name_what_is_missing() {
    assert_eq!(
        eval(&Expr::get_attr(uid("User", "nobody"), "age")).unwrap_err().message(),
        "entity `User::\"nobody\"` does not exist"
    );
    assert_eq!(
        eval(&Expr::get_attr(uid("User", "alice"), "height")).unwrap_err().message(),
        "`User::\"alice\"` does not have the attribute `height`"
    );
    let missing = eval(&Expr::get_attr(Expr::var(Var::Context), "zzz")).unwrap_err();
    assert_eq!(
        missing.error_kind(),
        &EvaluationErrorKind::RecordAttrDoesNotExist(
            "zzz".to_string(),
            vec!["is_authenticated".to_string(), "level".to_string()]
        )
    );
    assert_eq!(missing.message(), "record does not have the attribute `zzz`");
    assert_eq!(
        missing.help(),
        Some("available attributes: [\"is_authenticated\", \"level\"]".to_string())
    );
}

#[test]
fn unknown_is_an_error_with_advice_or_a_residual() {
    let e = Expr::binary(BinaryOp::Add, Expr::unknown("x"), Expr::long(1));
    let err = eval(&e).unwrap_err();
    assert_eq!(err.error_kind(), &EvaluationErrorKind::NonValue(Expr::unknown("x")));
    assert_eq!(err.message(), "the expression contains unknown(s): `unknown(\"x\")`");
    assert_eq!(
        err.help(),
        Some("consider using the partial evaluation APIs".to_string())
    );
    assert_eq!(
        partial_interpret(&e, &request(), &store()),
        Ok(PartialValue::Residual(Expr::binary(
            BinaryOp::Add,
            Expr::unknown("x"),
            Expr::Val(Value::Long(1))
        )))
    );
    assert_eq!(
        partial_interpret(
            &Expr::and(Expr::bool(false), Expr::unknown("x")),
            &request(),
            &store()
        ),
        Ok(PartialValue::Value(Value::Bool(false)))
    );
    assert_eq!(
        partial_interpret(
            &Expr::ite(Expr::unknown("c"), Expr::long(1), Expr::neg(Expr::long(i64::MIN))),
            &request(),
            &store()
        ),
        Ok(PartialValue::Residual(Expr::ite(
            Expr::unknown("c"),
            Expr::long(1),
            Expr::neg(Expr::long(i64::MIN))
        )))
    );
}

#[test]
fn partial_store_makes_missing_entities_residual() {
    let entities = Entities::from_entities(vec![], Mode::Partial).unwrap();
    let e = Expr::get_attr(uid("User", "alice"), "age");
    assert_eq!(
        partial_interpret(&e, &request(), &entities),
        Ok(PartialValue::Residual(Expr::GetAttr(
            Box::new(Expr::Val(Value::EntityUid(EntityUid::new("User", "alice")))),
            "age".to_string()
        )))
    );
    assert!(matches!(
        interpret(&e, &request(), &entities).unwrap_err().error_kind(),
        EvaluationErrorKind::NonValue(_)
    ));
}

#[test]
fn slot_is_an_error() {
    assert_eq!(
        kind(eval(&Expr::Slot(SlotId::Resource))),
        EvaluationErrorKind::UnlinkedSlot(SlotId::Resource)
    );
}

#[test]
fn like_matches_wildcards() {
    let star = PatternElem::Wildcard;
    let c = PatternElem::Char;
    assert!(like("", &vec![]));
    assert!(!like("a", &vec![]));
    assert!(like("", &vec![star]));
    assert!(like("hello", &vec![star]));
    assert!(like("hello", &vec![c('h'), star, c('o')]));
    assert!(!like("hello", &vec![c('h'), star, c('x')]));
    assert!(like("a*b", &vec![c('a'), c('*'), c('b')]));
    assert!(!like("axb", &vec![c('a'), c('*'), c('b')]));
    assert!(like("abcabc", &vec![star, c('b'), c('c')]));
    assert!(like("h\u{e9}llo", &vec![c('h'), c('\u{e9}'), star]));
    assert_eq!(
        eval(&Expr::like(Expr::string("photo.jpg"), vec![star, c('.'), c('j'), c('p'), c('g')])),
        Ok(Value::Bool(true))
    );
    assert_eq!(
        eval(&Expr::like(Expr::long(1), vec![star])).unwrap_err().message(),
        "type error: expected string, got long"
    );
}

#[test]
fn is_tests_the_entity_type() {
    assert_eq!(
        eval(&Expr::is_type(Expr::var(Var::Principal), "User")),
        Ok(Value::Bool(true))
    );
    assert_eq!(
        eval(&Expr::is_type(Expr::var(Var::Principal), "Photo")),
        Ok(Value::Bool(false))
    );
}

#[test]
fn record_literals_keep_their_order() {
    let e = Expr::Record(vec![
        ("b".to_string(), Expr::long(1)),
        ("a".to_string(), Expr::binary(BinaryOp::Add, Expr::long(1), Expr::long(1))),
    ]);
    assert_eq!(
        eval(&e),
        Ok(Value::Record(vec![
            ("b".to_string(), Value::Long(1)),
            ("a".to_string(), Value::Long(2)),
        ]))
    );
    assert_eq!(eval(&Expr::get_attr(e, "a")), Ok(Value::Long(2)));
}

#[test]
fn extension_calls_are_checked_and_applied() {
    let d = |s: &str| Expr::call("decimal", vec![Expr::string(s)]);
    assert_eq!(eval(&d("1.23")), Ok(Value::Ext(ExtValue::Decimal(12300))));
    assert_eq!(eval(&d("-0.5")), Ok(Value::Ext(ExtValue::Decimal(-5000))));
    assert_eq!(
        eval(&Expr::call("lessThan", vec![d("1.23"), d("1.3")])),
        Ok(Value::Bool(true))
    );
    assert_eq!(
        eval(&Expr::call("greaterThanOrEqual", vec![d("1.23"), d("1.3")])),
        Ok(Value::Bool(false))
    );
    assert_eq!(
        kind(eval(&Expr::call("nope", vec![]))),
        EvaluationErrorKind::FailedExtensionFunctionLookup(
            ExtensionFunctionLookupError::FuncDoesNotExist { name: "nope".to_string() }
        )
    );
    assert_eq!(
        eval(&Expr::call("nope", vec![])).unwrap_err().message(),
        "extension function `nope` does not exist"
    );
    assert_eq!(
        kind(eval(&Expr::call("decimal", vec![]))),
        EvaluationErrorKind::WrongNumArguments {
            function_name: "decimal".to_string(),
            expected: 1,
            actual: 0
        }
    );
    assert_eq!(
        eval(&Expr::call("decimal", vec![])).unwrap_err().message(),
        "wrong number of arguments provided to extension function `decimal`: expected 1, got 0"
    );
    assert_eq!(
        eval(&d("1.23456")).unwrap_err().message(),
        "error while evaluating `decimal` extension function: too many digits after the decimal point"
    );
    assert_eq!(
        eval(&d("abc")).unwrap_err().message(),
        "error while evaluating `decimal` extension function: input string is not a well-formed decimal value"
    );
}

#[test]
fn extension_lookup_uses_the_registry() {
    let none = Extensions::none();
    let q = request();
    let entities = store();
    let evaluator = Evaluator::new(&q, &entities, &none);
    assert!(matches!(
        evaluator
            .interpret(&Expr::call("decimal", vec![Expr::string("1.0")]))
            .unwrap_err()
            .error_kind(),
        EvaluationErrorKind::FailedExtensionFunctionLookup(_)
    ));
}

#[test]
fn decimals_parse_exactly() {
    assert_eq!(decimal_from_str("0.0"), Ok(0));
    assert_eq!(decimal_from_str("12.5"), Ok(125000));
    assert_eq!(decimal_from_str("-12.0625"), Ok(-120625));
    assert_eq!(decimal_from_str("922337203685477.5807"), Ok(i64::MAX));
    assert_eq!(decimal_from_str("-922337203685477.5808"), Ok(i64::MIN));
    assert_eq!(decimal_from_str("922337203685477.5808"), Err(DecimalError::Overflow));
    assert_eq!(decimal_from_str("99999999999999999999.0"), Err(DecimalError::Overflow));
    assert_eq!(decimal_from_str("1.00000"), Err(DecimalError::TooManyDigits));
    assert_eq!(decimal_from_str("1"), Err(DecimalError::Malformed));
    assert_eq!(decimal_from_str("1."), Err(DecimalError::Malformed));
    assert_eq!(decimal_from_str(".5"), Err(DecimalError::Malformed));
    assert_eq!(decimal_from_str("1.2.3"), Err(DecimalError::Malformed));
    assert_eq!(decimal_from_str("--1.0"), Err(DecimalError::Malformed));
    assert_eq!(decimal_from_str(""), Err(DecimalError::Malformed));
}

#[test]
fn restricted_evaluator_rejects_what_is_not_plain() {
    let exts = Extensions::all_available();
    let r = RestrictedEvaluator::new(&exts);
    let rejected = vec![
        Expr::var(Var::Principal),
        Expr::get_attr(Expr::Record(vec![]), "a"),
        Expr::binary(BinaryOp::Less, Expr::long(1), Expr::long(2)),
        Expr::ite(Expr::bool(true), Expr::long(1), Expr::long(2)),
        Expr::and(Expr::bool(true), Expr::bool(true)),
        Expr::set(vec![Expr::long(1), Expr::var(Var::Context)]),
        Expr::Record(vec![("a".to_string(), Expr::not(Expr::bool(true)))]),
        Expr::call("decimal", vec![Expr::var(Var::Context)]),
    ];
    for e in rejected {
        assert!(matches!(
            r.interpret(&e).unwrap_err().error_kind(),
            EvaluationErrorKind::InvalidRestrictedExpression(_)
        ));
    }
    assert_eq!(
        r.interpret(&Expr::set(vec![Expr::long(1), Expr::var(Var::Context)]))
            .unwrap_err()
            .message(),
        "not allowed to use variables in a restricted expression: `context`"
    );
    assert_eq!(
        r.interpret(&Expr::Record(vec![
            ("n".to_string(), Expr::long(1)),
            ("d".to_string(), Expr::call("decimal", vec![Expr::string("2.5")])),
            ("s".to_string(), Expr::set(vec![Expr::string("x")])),
        ])),
        Ok(Value::Record(vec![
            ("n".to_string(), Value::Long(1)),
            ("d".to_string(), Value::Ext(ExtValue::Decimal(25000))),
            ("s".to_string(), Value::SetOf(vec![Value::String("x".to_string())])),
        ]))
    );
}

#[test]
fn duplicate_context_keys_are_a_construction_error() {
    let r = Context::from_pairs(vec![
        ("is_authenticated".to_string(), Value::Bool(true)),
        ("is_authenticated".to_string(), Value::Bool(false)),
    ]);
    assert_eq!(r, Err(ContextError::DuplicateKey("is_authenticated".to_string())));
    assert!(Context::from_pairs(vec![
        ("a".to_string(), Value::Bool(true)),
        ("b".to_string(), Value::Bool(false)),
    ])
    .is_ok());
}

#[test]
fn duplicate_entities_and_attributes_are_construction_errors() {
    let alice = EntityUid::new("User", "alice");
    let r = Entities::from_entities(
        vec![
            Entity::new(alice.clone(), vec![], vec![]).unwrap(),
            Entity::new(alice.clone(), vec![], vec![]).unwrap(),
        ],
        Mode::Concrete,
    );
    assert_eq!(r, Err(EntitiesError::Duplicate(alice.clone())));
    let e = Entity::new(
        alice,
        vec![("a".to_string(), Value::Long(1)), ("a".to_string(), Value::Long(2))],
        vec![],
    );
    assert_eq!(e, Err(EntityError::DuplicateAttribute("a".to_string())));
}

#[test]
fn values_and_types_are_written_out() {
    assert_eq!(Value::Long(-12).to_text(), "-12");
    assert_eq!(Value::String("a\"b\\c\n".to_string()).to_text(), "\"a\\\"b\\\\c\\n\"");
    assert_eq!(
        Value::EntityUid(EntityUid::new("Org::User", "al\"ice")).to_text(),
        "Org::User::\"al\\\"ice\""
    );
    assert_eq!(
        Value::SetOf(vec![Value::Long(1), Value::Bool(false)]).to_text(),
        "[1, false]"
    );
    assert_eq!(
        Value::Record(vec![("k".to_string(), Value::Long(1)), ("l".to_string(), Value::SetOf(vec![]))])
            .to_text(),
        "{\"k\": 1, \"l\": []}"
    );
    assert_eq!(Value::Ext(ExtValue::Decimal(-12300)).to_text(), "decimal(\"-1.2300\")");
    assert_eq!(Value::Long(1).type_of(), Type::Long);
    assert_eq!(
        Value::EntityUid(EntityUid::new("User", "alice")).type_of().to_text(),
        "(entity of type `User`)"
    );
    assert_eq!(Value::Ext(ExtValue::Decimal(0)).type_of().to_text(), "decimal");
    assert_eq!(
        Expr::ite(
            Expr::binary(BinaryOp::Contains, Expr::set(vec![Expr::long(1)]), Expr::long(1)),
            Expr::get_attr(Expr::var(Var::Principal), "age"),
            Expr::mul(Expr::neg(Expr::long(2)), 3)
        )
        .to_text(),
        "(if [1].contains(1) then principal[\"age\"] else ((-2) * 3))"
    );
}
