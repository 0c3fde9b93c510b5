use cedar_policy_core::ast::SlotId;
use cedar_policy_core::authorizer::{Authorizer, Decision};
use cedar_policy_core::ast::Expr;
use cedar_policy_core::entities::Entities;
use cedar_policy_core::frontend::{
    constant_true, parse_instantiation, parse_instantiations, DuplicateLinkError, EntityUIDStrings,
    InterfaceResponse, Link, Links, TemplateLink,
};
use cedar_policy_core::names::is_valid_name;
use cedar_policy_core::policy::{
    ActionConstraint, Effect, EntityRef, Policy, PolicyId, ScopeConstraint,
};
use cedar_policy_core::policy_set::PolicySet;
use cedar_policy_core::request::{Context, Request};
use cedar_policy_core::value::EntityUid;

fn link(slot: &str, ty: &str, eid: &str) -> Link {
    Link {
        slot: slot.to_string(),
        value: EntityUIDStrings { ty: ty.to_string(), eid: eid.to_string() },
    }
}

fn template(id: &str) -> Policy {
    Policy {
        id: PolicyId::new(id),
        effect: Effect::Permit,
        principal: ScopeConstraint::Eq(EntityRef::Slot),
        action: ActionConstraint::Any,
        resource: ScopeConstraint::Any,
        condition: Expr::bool(true),
    }
}

fn instantiation(template_id: &str, result: &str, links: Vec<Link>) -> TemplateLink {
    TemplateLink {
        template_id: template_id.to_string(),
        result_policy_id: result.to_string(),
        instantiations: Links::try_from(links).unwrap(),
    }
}

#[test]
fn interface_response_holds_sets() {
    let r = InterfaceResponse::new(
        Decision::Allow,
        vec![PolicyId::new("a"), PolicyId::new("b"), PolicyId::new("a")],
        vec!["e".to_string(), "e".to_string()],
    );
    assert_eq!(r.decision(), Decision::Allow);
    assert_eq!(r.diagnostics().reason(), &vec![PolicyId::new("a"), PolicyId::new("b")]);
    assert_eq!(r.diagnostics().errors(), &vec!["e".to_string()]);
}

#[test]
fn interface_response_carries_messages() {
    let q = Request::new(
        Some(EntityUid::new("User", "alice")),
        Some(EntityUid::new("Photo", "view")),
        Some(EntityUid::new("Photo", "door")),
        Context::empty(),
    );
    let good = Policy {
        id: PolicyId::new("good"),
        effect: Effect::Permit,
        principal: ScopeConstraint::Any,
        action: ActionConstraint::Any,
        resource: ScopeConstraint::Any,
        condition: Expr::bool(true),
    };
    let bad = Policy {
        id: PolicyId::new("bad"),
        effect: Effect::Permit,
        principal: ScopeConstraint::Any,
        action: ActionConstraint::Any,
        resource: ScopeConstraint::Any,
        condition: Expr::neg(Expr::long(i64::MIN)),
    };
    let response = Authorizer::new().is_authorized_by(&q, &vec![good, bad], &Entities::empty());
    let r = InterfaceResponse::from_response(&response);
    assert_eq!(r.decision(), Decision::Allow);
    assert_eq!(r.diagnostics().reason(), &vec![PolicyId::new("good")]);
    assert_eq!(
        r.diagnostics().errors(),
        &vec![
            "while evaluating policy `bad`: integer overflow while attempting to negate the value `-9223372036854775808`"
                .to_string()
        ]
    );
}

#[test]
fn links_without_duplicates_are_kept() {
    let links = vec![link("?principal", "User", "alice"), link("?resource", "Box", "box")];
    let kept = Links::try_from(links.clone()).unwrap();
    assert_eq!(kept.into_vec(), links);
    assert!(Links::try_from(vec![]).is_ok());
}

#[test]
fn duplicate_slot_is_reported_once() {
    let r = Links::try_from(vec![
        link("?principal", "User", "alice"),
        link("?principal", "User", "alice"),
    ]);
    let err = r.unwrap_err();
    assert_eq!(err, DuplicateLinkError::Duplicates(vec!["?principal".to_string()]));
    assert_eq!(
        err.message(),
        "duplicate instantiations of the slot(s): `?principal`"
    );
}

#[test]
fn duplicate_slot_among_others_is_reported() {
    let err = Links::try_from(vec![
        link("?principal", "User", "alice"),
        link("?resource", "Box", "box"),
        link("?principal", "User", "alice"),
    ])
    .unwrap_err();
    assert_eq!(
        err.message(),
        "duplicate instantiations of the slot(s): `?principal`"
    );
}

#[test]
fn duplicate_slots_are_reported_in_ascending_order() {
    let err = Links::try_from(vec![
        link("?resource", "Box", "box"),
        link("?principal", "User", "alice"),
        link("?principal", "Team", "bob"),
        link("?resource", "Box", "box2"),
        link("?resource", "Box", "box3"),
    ])
    .unwrap_err();
    assert_eq!(
        err,
        DuplicateLinkError::Duplicates(vec!["?principal".to_string(), "?resource".to_string()])
    );
    assert_eq!(
        err.message(),
        "duplicate instantiations of the slot(s): `?principal`, `?resource`"
    );
}

#[test]
fn instantiation_names_slot_and_entity() {
    assert_eq!(
        parse_instantiation(&link("?principal", "User", "alice")),
        Ok((SlotId::Principal, EntityUid::new("User", "alice")))
    );
    assert_eq!(
        parse_instantiation(&link("?resource", "Org::Box", "b 1")),
        Ok((SlotId::Resource, EntityUid::new("Org::Box", "b 1")))
    );
    assert_eq!(
        parse_instantiation(&link("?action", "User", "alice")),
        Err(vec!["Slot must by \"?principal\" or \"?resource\"".to_string()])
    );
    assert_eq!(
        parse_instantiation(&link("?principal", "not a type", "alice")),
        Err(vec!["invalid entity type name: `not a type`".to_string()])
    );
    assert_eq!(
        parse_instantiation(&link("principal", "not a type", "alice")),
        Err(vec!["Slot must by \"?principal\" or \"?resource\"".to_string()])
    );
}

#[test]
fn entity_type_names_are_identifiers_between_colons() {
    for good in ["User", "_x", "A::B", "Org::Team::Member9", "a1::b2"] {
        assert!(is_valid_name(good), "{}", good);
    }
    for bad in ["", "9a", "A::", "::A", "A:B", "A::::B", "a b", "if", "A::true", "has", "A-B", "\u{e9}"] {
        assert!(!is_valid_name(bad), "{}", bad);
    }
}

#[test]
fn instantiation_adds_the_linked_policy() {
    let mut set = PolicySet::new();
    set.add_template(template("ID0")).unwrap();
    let r = parse_instantiations(
        &mut set,
        instantiation("ID0", "ID0_User_alice", vec![link("?principal", "User", "alice")]),
    );
    assert_eq!(r, Ok(()));
    assert_eq!(set.policies().len(), 1);
    assert_eq!(set.policies()[0].id, PolicyId::new("ID0_User_alice"));
    assert_eq!(
        set.policies()[0].principal,
        ScopeConstraint::Eq(EntityRef::Uid(EntityUid::new("User", "alice")))
    );
}

#[test]
fn instantiation_with_an_existing_id_fails() {
    let mut set = PolicySet::new();
    set.add_template(template("ID0")).unwrap();
    let first = instantiation("ID0", "ID1", vec![link("?principal", "User", "alice")]);
    assert_eq!(parse_instantiations(&mut set, first.clone()), Ok(()));
    assert_eq!(
        parse_instantiations(&mut set, first),
        Err(vec![
            "Error instantiating template: unable to link template: template-linked policy id `ID1` conflicts with an existing policy id"
                .to_string()
        ])
    );
    assert_eq!(
        parse_instantiations(
            &mut set,
            instantiation("ID0", "ID0", vec![link("?principal", "User", "alice")])
        ),
        Err(vec![
            "Error instantiating template: unable to link template: template-linked policy id `ID0` conflicts with an existing policy id"
                .to_string()
        ])
    );
    assert_eq!(set.policies().len(), 1);
}

#[test]
fn instantiation_with_a_bad_link_changes_nothing() {
    let mut set = PolicySet::new();
    set.add_template(template("ID0")).unwrap();
    assert_eq!(
        parse_instantiations(
            &mut set,
            instantiation("ID0", "ID1", vec![link("?principal", "1User", "alice")])
        ),
        Err(vec!["invalid entity type name: `1User`".to_string()])
    );
    assert_eq!(
        parse_instantiations(&mut set, instantiation("nope", "ID1", vec![])),
        Err(vec![
            "Error instantiating template: unable to link template: failed to find a template with id `nope`"
                .to_string()
        ])
    );
    assert!(set.policies().is_empty());
}

#[test]
fn request_validation_is_on_by_default() {
    assert!(constant_true());
}
