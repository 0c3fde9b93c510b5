use cedar_policy_core::ast::{BinaryOp, Expr, Literal, Var};
use cedar_policy_core::authorizer::{Authorizer, Decision};
use cedar_policy_core::entities::Entities;
use cedar_policy_core::ipaddr::{ip_from_str, is_in_range, is_loopback, is_multicast};
use cedar_policy_core::policy::{ActionConstraint, Effect, EntityRef, Policy, PolicyId, ScopeConstraint};
use cedar_policy_core::request::{Context, Request};
use cedar_policy_core::restricted::RestrictedEvaluator;
use cedar_policy_core::extensions::Extensions;
use cedar_policy_core::value::{EntityUid, ExtValue, IpNet, Value};

fn round_trip(l: Literal) {
    let text = l.to_value().to_text();
    assert_eq!(Literal::parse(&text), Some(l), "{}", text);
}

#[test]
fn displayed_scalars_parse_back() {
    round_trip(Literal::Bool(true));
    round_trip(Literal::Bool(false));
    for i in [0, 1, -1, 7, 10, 42, -100, 1234567890, i64::MAX, i64::MIN, i64::MIN + 1] {
        round_trip(Literal::Long(i));
    }
    for s in ["", "a", "hello world", "q\"uote", "back\\slash", "line\nbreak", "tab\t", "\r\0", "\u{e9}\u{4e2d}*", "\\n", "true", "12"] {
        round_trip(Literal::String(s.to_string()));
    }
}

#[test]
fn displayed_entity_uids_parse_back() {
    for (ty, id) in [
        ("User", "alice"),
        ("Org::Team", ""),
        ("A::B::C", "x::\"y\""),
        ("_t", "sp ace\n"),
        ("Photo", "\\"),
    ] {
        round_trip(Literal::EntityUid(EntityUid::new(ty, id)));
    }
}

#[test]
fn literals_are_parsed_exactly() {
    assert_eq!(Literal::parse("true"), Some(Literal::Bool(true)));
    assert_eq!(Literal::parse("-12"), Some(Literal::Long(-12)));
    assert_eq!(Literal::parse("007"), Some(Literal::Long(7)));
    assert_eq!(Literal::parse("\"a\\tb\\'\""), Some(Literal::String("a\tb'".to_string())));
    assert_eq!(
        Literal::parse("Org::User::\"al ice\""),
        Some(Literal::EntityUid(EntityUid::new("Org::User", "al ice")))
    );
    for bad in [
        "", "True", "9223372036854775808", "-9223372036854775809", "-", "1a", "\"open", "\"a\"b",
        "\"bad\\q\"", "User::alice", "User:\"alice\"", "::\"alice\"", "if::\"x\"", "User::\"a\"x",
        "1.5",
    ] {
        assert_eq!(Literal::parse(bad), None, "{}", bad);
    }
}

#[test]
fn ip_addresses_are_read() {
    assert_eq!(ip_from_str("222.222.222.222"), Some(IpNet::V4 { addr: 0xdededede, prefix: 32 }));
    assert_eq!(ip_from_str("10.0.0.1/8"), Some(IpNet::V4 { addr: 0x0a000001, prefix: 8 }));
    assert_eq!(ip_from_str("0.0.0.0/0"), Some(IpNet::V4 { addr: 0, prefix: 0 }));
    assert_eq!(ip_from_str("::1"), Some(IpNet::V6 { addr: 1, prefix: 128 }));
    assert_eq!(ip_from_str("::"), Some(IpNet::V6 { addr: 0, prefix: 128 }));
    assert_eq!(
        ip_from_str("ff00::/8"),
        Some(IpNet::V6 { addr: 0xff00_0000_0000_0000_0000_0000_0000_0000, prefix: 8 })
    );
    assert_eq!(
        ip_from_str("1:2:3:4:5:6:7:8"),
        Some(IpNet::V6 { addr: 0x0001_0002_0003_0004_0005_0006_0007_0008, prefix: 128 })
    );
    assert_eq!(
        ip_from_str("2001:db8::ABCD:1/64"),
        Some(IpNet::V6 { addr: 0x2001_0db8_0000_0000_0000_0000_abcd_0001, prefix: 64 })
    );
    for bad in [
        "", "1.2.3", "1.2.3.4.5", "256.1.1.1", "01.2.3.4", "1.2.3.4/33", "1.2.3.4/", "1.2.3.4/08",
        "a.b.c.d", "1..2.3", "1:2:3:4:5:6:7", "1:2:3:4:5:6:7:8:9", "1::2::3", ":::", "12345::",
        "1:2:3:4:5:6:7::8", "::1/129", "g::", "1.2.3.4/1/2",
    ] {
        assert_eq!(ip_from_str(bad), None, "{}", bad);
    }
}

#[test]
fn ip_ranges_are_compared_by_prefix() {
    let ip = |s: &str| ip_from_str(s).unwrap();
    assert!(is_in_range(&ip("222.222.222.222"), &ip("222.222.222.0/24")));
    assert!(!is_in_range(&ip("222.222.223.222"), &ip("222.222.222.0/24")));
    assert!(is_in_range(&ip("1.2.3.4"), &ip("0.0.0.0/0")));
    assert!(!is_in_range(&ip("222.222.222.0/24"), &ip("222.222.222.222")));
    assert!(is_in_range(&ip("10.1.0.0/16"), &ip("10.0.0.0/8")));
    assert!(!is_in_range(&ip("10.0.0.0/8"), &ip("10.1.0.0/16")));
    assert!(!is_in_range(&ip("::1"), &ip("0.0.0.0/0")));
    assert!(is_in_range(&ip("2001:db8::1"), &ip("2001:db8::/32")));
    assert!(is_loopback(&ip("127.0.0.1")));
    assert!(is_loopback(&ip("::1")));
    assert!(!is_loopback(&ip("128.0.0.1")));
    assert!(!is_loopback(&ip("127.0.0.0/7")));
    assert!(is_multicast(&ip("224.1.2.3")));
    assert!(is_multicast(&ip("ff02::1")));
    assert!(!is_multicast(&ip("223.255.255.255")));
}

#[test]
fn ip_values_are_written_out() {
    assert_eq!(
        Value::Ext(ExtValue::Ip(ip_from_str("222.222.222.0/24").unwrap())).to_text(),
        "ip(\"222.222.222.0/24\")"
    );
    assert_eq!(
        Value::Ext(ExtValue::Ip(ip_from_str("10.0.0.1").unwrap())).to_text(),
        "ip(\"10.0.0.1\")"
    );
    assert_eq!(
        Value::Ext(ExtValue::Ip(ip_from_str("2001:db8::ff").unwrap())).to_text(),
        "ip(\"2001:db8:0:0:0:0:0:ff\")"
    );
}

#[test]
fn context_extension_call_allows() {
    let exts = Extensions::all_available();
    let source_ip = RestrictedEvaluator::new(&exts)
        .interpret(&Expr::call("ip", vec![Expr::string("222.222.222.222")]))
        .unwrap();
    let context = Context::from_pairs(vec![
        ("is_authenticated".to_string(), Value::Bool(true)),
        ("source_ip".to_string(), source_ip),
    ])
    .unwrap();
    let q = Request::new(
        Some(EntityUid::new("User", "alice")),
        Some(EntityUid::new("Photo", "view")),
        Some(EntityUid::new("Photo", "door")),
        context,
    );
    let p = Policy {
        id: PolicyId::new("policy0"),
        effect: Effect::Permit,
        principal: ScopeConstraint::Eq(EntityRef::Uid(EntityUid::new("User", "alice"))),
        action: ActionConstraint::Any,
        resource: ScopeConstraint::Any,
        condition: Expr::and(
            Expr::get_attr(Expr::var(Var::Context), "is_authenticated"),
            Expr::call(
                "isInRange",
                vec![
                    Expr::get_attr(Expr::var(Var::Context), "source_ip"),
                    Expr::call("ip", vec![Expr::string("222.222.222.0/24")]),
                ],
            ),
        ),
    };
    let response = Authorizer::new().is_authorized_by(&q, &vec![p], &Entities::empty());
    assert_eq!(response.decision(), Decision::Allow);
    assert!(response.errors().is_empty());
}

#[test]
fn ip_functions_check_their_arguments() {
    let q = Request::new(None, None, None, Context::empty());
    let e = Expr::call("isInRange", vec![Expr::long(1), Expr::call("ip", vec![Expr::string("1.2.3.4")])]);
    assert_eq!(
        cedar_policy_core::evaluator::interpret(&e, &q, &Entities::empty())
            .unwrap_err()
            .message(),
        "error while evaluating `isInRange` extension function: isInRange expects two IP address arguments"
    );
    let bad = Expr::call("ip", vec![Expr::string("1.2.3")]);
    assert_eq!(
        cedar_policy_core::evaluator::interpret(&bad, &q, &Entities::empty())
            .unwrap_err()
            .message(),
        "error while evaluating `ip` extension function: input string is not a well-formed IP address or range"
    );
    let same = Expr::binary(
        BinaryOp::Eq,
        Expr::call("ip", vec![Expr::string("1.2.3.4")]),
        Expr::call("ip", vec![Expr::string("1.2.3.4/32")]),
    );
    assert_eq!(
        cedar_policy_core::evaluator::interpret(&same, &q, &Entities::empty()),
        Ok(Value::Bool(true))
    );
    let v4 = Expr::call("isIpv4", vec![Expr::call("ip", vec![Expr::string("1.2.3.4")])]);
    assert_eq!(
        cedar_policy_core::evaluator::interpret(&v4, &q, &Entities::empty()),
        Ok(Value::Bool(true))
    );
}
