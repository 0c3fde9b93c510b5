use cedar_policy_core::ast::{BinaryOp, Expr, PatternElem, SlotId, Var};
use cedar_policy_core::lexer::{tokenize, ParseError, ParseErrorKind, Sym, Token};
use cedar_policy_core::parser::parse_expression;
use cedar_policy_core::policy::{
    ActionConstraint, Effect, EntityRef, Policy, PolicyId, ScopeConstraint,
};
use cedar_policy_core::policy_set::PolicySet;
use cedar_policy_core::value::EntityUid;

fn parsed(text: &str) -> Expr {
    parse_expression(text).unwrap()
}

fn error(text: &str) -> ParseErrorKind {
    parse_expression(text).unwrap_err().kind
}

fn context(attr: &str) -> Expr {
    Expr::get_attr(Expr::var(Var::Context), attr)
}

#[test]
fn text_is_split_into_tokens() {
    assert_eq!(
        tokenize("principal == User::\"al\\\"ice\" // who\n && 12<=x"),
        Ok(vec![
            Token::Ident("principal".to_string()),
            Token::Sym(Sym::EqEq),
            Token::Ident("User".to_string()),
            Token::Sym(Sym::ColonColon),
            Token::Str("al\\\"ice".to_string()),
            Token::Sym(Sym::AndAnd),
            Token::Int(12),
            Token::Sym(Sym::LessEq),
            Token::Ident("x".to_string()),
        ])
    );
    assert_eq!(tokenize("  \t\n// only a comment"), Ok(vec![]));
    assert_eq!(
        tokenize("?principal ?resource"),
        Ok(vec![Token::Sym(Sym::SlotPrincipal), Token::Sym(Sym::SlotResource)])
    );
    assert_eq!(tokenize("9223372036854775808"), Ok(vec![Token::Int(9223372036854775808)]));
    assert_eq!(
        tokenize("9223372036854775809"),
        Err(ParseError { kind: ParseErrorKind::IntegerTooLarge, position: 0 })
    );
    assert_eq!(
        tokenize("a # b"),
        Err(ParseError { kind: ParseErrorKind::UnexpectedCharacter, position: 2 })
    );
    assert_eq!(
        tokenize("x \"open"),
        Err(ParseError { kind: ParseErrorKind::BadString, position: 2 })
    );
    assert_eq!(
        tokenize("?action"),
        Err(ParseError { kind: ParseErrorKind::UnexpectedCharacter, position: 0 })
    );
}

#[test]
fn literals_and_variables_are_read() {
    assert_eq!(parsed("true"), Expr::bool(true));
    assert_eq!(parsed("42"), Expr::long(42));
    assert_eq!(parsed("-42"), Expr::long(-42));
    assert_eq!(parsed("-9223372036854775808"), Expr::long(i64::MIN));
    assert_eq!(parsed("\"a\\nb\""), Expr::string("a\nb"));
    assert_eq!(parsed("resource"), Expr::var(Var::Resource));
    assert_eq!(parsed("Org::User::\"alice\""), Expr::uid(EntityUid::new("Org::User", "alice")));
    assert_eq!(parsed("?principal"), Expr::Slot(SlotId::Principal));
    assert_eq!(error("9223372036854775808"), ParseErrorKind::IntegerTooLarge);
    assert_eq!(error("\"bad\\q\""), ParseErrorKind::BadString);
    assert_eq!(error("if::\"x\""), ParseErrorKind::UnexpectedToken);
    assert_eq!(error("User::if::\"x\""), ParseErrorKind::ReservedName);
    assert_eq!(error(""), ParseErrorKind::UnexpectedEnd);
    assert_eq!(error("alice"), ParseErrorKind::UnexpectedEnd);
}

#[test]
fn operators_bind_as_they_should() {
    assert_eq!(
        parsed("1 + 2 * 3 - 4"),
        Expr::binary(
            BinaryOp::Sub,
            Expr::binary(BinaryOp::Add, Expr::long(1), Expr::mul(Expr::long(2), 3)),
            Expr::long(4)
        )
    );
    assert_eq!(
        parsed("context.a || context.b && !context.c"),
        Expr::or(context("a"), Expr::and(context("b"), Expr::not(context("c"))))
    );
    assert_eq!(
        parsed("(context.a || context.b) && context.c"),
        Expr::and(Expr::or(context("a"), context("b")), context("c"))
    );
    assert_eq!(
        parsed("context.a - -context.b"),
        Expr::binary(BinaryOp::Sub, context("a"), Expr::neg(context("b")))
    );
    assert_eq!(
        parsed("1 + 2 < 3 * context.n"),
        Expr::binary(
            BinaryOp::Less,
            Expr::binary(BinaryOp::Add, Expr::long(1), Expr::long(2)),
            Expr::mul(context("n"), 3)
        )
    );
    assert_eq!(
        parsed("if context.a then 1 else if context.b then 2 else 3"),
        Expr::ite(
            context("a"),
            Expr::long(1),
            Expr::ite(context("b"), Expr::long(2), Expr::long(3))
        )
    );
    assert_eq!(error("1 < 2 == true"), ParseErrorKind::UnexpectedToken);
    assert_eq!(error("context.a * context.b"), ParseErrorKind::NonConstantMultiplication);
    assert_eq!(error("(1 + 2"), ParseErrorKind::UnexpectedEnd);
    assert_eq!(error("1 +"), ParseErrorKind::UnexpectedEnd);
    assert_eq!(error("1 2"), ParseErrorKind::UnexpectedToken);
}

#[test]
fn members_and_calls_are_read() {
    assert_eq!(
        parsed("principal.manager[\"first name\"]"),
        Expr::get_attr(Expr::get_attr(Expr::var(Var::Principal), "manager"), "first name")
    );
    assert_eq!(
        parsed("context.tags.contains(\"x\")"),
        Expr::binary(BinaryOp::Contains, context("tags"), Expr::string("x"))
    );
    assert_eq!(
        parsed("[1, 2].containsAll([2,])"),
        Expr::binary(
            BinaryOp::ContainsAll,
            Expr::set(vec![Expr::long(1), Expr::long(2)]),
            Expr::set(vec![Expr::long(2)])
        )
    );
    assert_eq!(
        parsed("context.source_ip.isInRange(ip(\"222.222.222.0/24\"))"),
        Expr::call(
            "isInRange",
            vec![
                context("source_ip"),
                Expr::call("ip", vec![Expr::string("222.222.222.0/24")])
            ]
        )
    );
    assert_eq!(
        parsed("{a: 1, \"b c\": [true]}"),
        Expr::Record(vec![
            ("a".to_string(), Expr::long(1)),
            ("b c".to_string(), Expr::set(vec![Expr::bool(true)])),
        ])
    );
    assert_eq!(error("{a: 1, a: 2}"), ParseErrorKind::DuplicateKey);
    assert_eq!(
        parsed("principal has name && resource in Folder::\"house\""),
        Expr::and(
            Expr::has_attr(Expr::var(Var::Principal), "name"),
            Expr::binary(
                BinaryOp::In,
                Expr::var(Var::Resource),
                Expr::uid(EntityUid::new("Folder", "house"))
            )
        )
    );
    assert_eq!(
        parsed("context.file like \"*.j\\*g\""),
        Expr::like(
            context("file"),
            vec![
                PatternElem::Wildcard,
                PatternElem::Char('.'),
                PatternElem::Char('j'),
                PatternElem::Char('*'),
                PatternElem::Char('g'),
            ]
        )
    );
    assert_eq!(
        parsed("principal is Org::User"),
        Expr::is_type(Expr::var(Var::Principal), "Org::User")
    );
    assert_eq!(
        parsed("principal is User in Team::\"a\""),
        Expr::and(
            Expr::is_type(Expr::var(Var::Principal), "User"),
            Expr::binary(
                BinaryOp::In,
                Expr::var(Var::Principal),
                Expr::uid(EntityUid::new("Team", "a"))
            )
        )
    );
}

#[test]
fn policies_are_read() {
    assert_eq!(
        Policy::parse("ID1", "permit(principal == User::\"alice\", action, resource);"),
        Ok(Policy {
            id: PolicyId::new("ID1"),
            effect: Effect::Permit,
            principal: ScopeConstraint::Eq(EntityRef::Uid(EntityUid::new("User", "alice"))),
            action: ActionConstraint::Any,
            resource: ScopeConstraint::Any,
            condition: Expr::bool(true),
        })
    );
    assert_eq!(
        Policy::parse(
            "p",
            "forbid(principal is User in Team::\"t\", action in [Action::\"a\", Action::\"b\"], resource in Folder::\"f\")\n when { resource.owner == principal }\n unless { context.ok };"
        ),
        Ok(Policy {
            id: PolicyId::new("p"),
            effect: Effect::Forbid,
            principal: ScopeConstraint::IsIn(
                "User".to_string(),
                EntityRef::Uid(EntityUid::new("Team", "t"))
            ),
            action: ActionConstraint::In(vec![
                EntityUid::new("Action", "a"),
                EntityUid::new("Action", "b")
            ]),
            resource: ScopeConstraint::In(EntityRef::Uid(EntityUid::new("Folder", "f"))),
            condition: Expr::and(
                Expr::binary(
                    BinaryOp::Eq,
                    Expr::get_attr(Expr::var(Var::Resource), "owner"),
                    Expr::var(Var::Principal)
                ),
                Expr::not(context("ok"))
            ),
        })
    );
    assert_eq!(
        Policy::parse("t", "permit(principal == ?principal, action, resource);")
            .unwrap_err()
            .kind,
        ParseErrorKind::ExpectedStaticPolicy
    );
    assert_eq!(
        Policy::parse_template("t", "permit(principal, action, resource);")
            .unwrap_err()
            .kind,
        ParseErrorKind::ExpectedTemplate
    );
    assert_eq!(
        Policy::parse_template("t", "permit(principal == ?principal, action, resource in ?resource);")
            .unwrap()
            .resource,
        ScopeConstraint::In(EntityRef::Slot)
    );
    assert_eq!(
        Policy::parse("t", "permit(principal == ?resource, action, resource);")
            .unwrap_err()
            .kind,
        ParseErrorKind::SlotNotAllowed
    );
    assert_eq!(
        Policy::parse("t", "permit(principal, action, resource); permit(principal, action, resource);")
            .unwrap_err()
            .kind,
        ParseErrorKind::ExpectedOnePolicy
    );
    let missing = Policy::parse("t", "permit(principal, action, resource)").unwrap_err();
    assert_eq!(missing.kind, ParseErrorKind::UnexpectedEnd);
    assert_eq!(missing.message(), "unexpected end of input at position 8");
    assert_eq!(
        Policy::parse("t", "allow(principal, action, resource);").unwrap_err().message(),
        "unexpected token at position 0"
    );
}

#[test]
fn policy_sets_are_read_with_numbered_ids() {
    let set = PolicySet::from_text(
        "permit(principal, action, resource);\n// a template\npermit(principal == ?principal, action, resource);\nforbid(principal == User::\"alice\", action, resource);",
    )
    .unwrap();
    assert_eq!(set.policies().len(), 2);
    assert_eq!(set.templates().len(), 1);
    assert_eq!(set.policies()[0].id, PolicyId::new("policy0"));
    assert_eq!(set.templates()[0].id, PolicyId::new("policy1"));
    assert_eq!(set.policies()[1].id, PolicyId::new("policy2"));
    assert_eq!(set.policies()[1].effect, Effect::Forbid);
    assert!(PolicySet::from_text("").unwrap().is_empty());
    assert!(PolicySet::from_text("permit(principal, action, resource)").is_err());
}
