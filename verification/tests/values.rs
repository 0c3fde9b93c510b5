use cedar_policy_core::ast::Expr;
use cedar_policy_core::extensions::{arg_types_of, arity_of, result_type_of, ExtOp};
use cedar_policy_core::value::{Type, Value};

fn elements(v: &Value) -> Vec<i64> {
    match v {
        Value::SetOf(vs) => vs
            .iter()
            .map(|x| match x {
                Value::Long(i) => *i,
                _ => panic!("expected an integer"),
            })
            .collect(),
        _ => panic!("expected a set"),
    }
}

#[test]
fn sets_keep_the_first_of_equal_elements() {
    let set = Value::set(vec![
        Value::Long(3),
        Value::Long(1),
        Value::Long(3),
        Value::Long(2),
        Value::Long(1),
    ]);
    assert_eq!(elements(&set), vec![3, 1, 2]);
    assert_eq!(elements(&Value::set(vec![])), Vec::<i64>::new());
    let nested = Value::set(vec![
        Value::SetOf(vec![Value::Long(1), Value::Long(2)]),
        Value::SetOf(vec![Value::Long(2), Value::Long(1)]),
        Value::String("x".to_string()),
    ]);
    match nested {
        Value::SetOf(vs) => {
            assert_eq!(vs.len(), 2);
            assert_eq!(elements(&vs[0]), vec![1, 2]);
        }
        _ => panic!("expected a set"),
    }
}

#[test]
fn records_reject_a_repeated_name() {
    let ok = Value::record(vec![
        ("a".to_string(), Value::Long(1)),
        ("b".to_string(), Value::Bool(true)),
    ]);
    assert_eq!(
        ok,
        Ok(Value::Record(vec![
            ("a".to_string(), Value::Long(1)),
            ("b".to_string(), Value::Bool(true)),
        ]))
    );
    let bad = Value::record(vec![
        ("a".to_string(), Value::Long(1)),
        ("b".to_string(), Value::Long(2)),
        ("c".to_string(), Value::Long(3)),
        ("b".to_string(), Value::Long(4)),
        ("a".to_string(), Value::Long(5)),
    ]);
    assert_eq!(bad, Err("b".to_string()));
    assert_eq!(Value::record(vec![]), Ok(Value::Record(vec![])));
}

#[test]
fn extension_functions_have_types() {
    let ipaddr = || Type::Extension { name: "ipaddr".to_string() };
    let decimal = || Type::Extension { name: "decimal".to_string() };
    assert_eq!(arg_types_of(ExtOp::Decimal), vec![Type::String]);
    assert_eq!(result_type_of(ExtOp::Decimal), decimal());
    assert_eq!(arg_types_of(ExtOp::Ip), vec![Type::String]);
    assert_eq!(result_type_of(ExtOp::Ip), ipaddr());
    assert_eq!(arg_types_of(ExtOp::IsInRange), vec![ipaddr(), ipaddr()]);
    assert_eq!(result_type_of(ExtOp::IsInRange), Type::Bool);
    assert_eq!(arg_types_of(ExtOp::IsLoopback), vec![ipaddr()]);
    assert_eq!(arg_types_of(ExtOp::LessThan), vec![decimal(), decimal()]);
    assert_eq!(result_type_of(ExtOp::GreaterThanOrEqual), Type::Bool);
    for op in [
        ExtOp::Decimal,
        ExtOp::LessThan,
        ExtOp::LessThanOrEqual,
        ExtOp::GreaterThan,
        ExtOp::GreaterThanOrEqual,
        ExtOp::Ip,
        ExtOp::IsIpv4,
        ExtOp::IsIpv6,
        ExtOp::IsLoopback,
        ExtOp::IsMulticast,
        ExtOp::IsInRange,
    ] {
        assert_eq!(arg_types_of(op).len(), arity_of(op));
    }
}

#[test]
fn record_literals_reject_a_repeated_name() {
    let fields = vec![
        ("a".to_string(), Expr::long(1)),
        ("b".to_string(), Expr::bool(false)),
    ];
    assert_eq!(Expr::record(fields.clone()), Ok(Expr::Record(fields)));
    assert_eq!(
        Expr::record(vec![
            ("a".to_string(), Expr::long(1)),
            ("b".to_string(), Expr::long(2)),
            ("b".to_string(), Expr::long(3)),
            ("a".to_string(), Expr::long(4)),
        ]),
        Err("b".to_string())
    );
    assert_eq!(Expr::record(vec![]), Ok(Expr::Record(vec![])));
}
