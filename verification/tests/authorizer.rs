use cedar_policy_core::ast::{BinaryOp, Expr, SlotId, Var};
use cedar_policy_core::authorizer::{Authorizer, Decision, Response};
use cedar_policy_core::entities::{Entities, Entity, Mode};
use cedar_policy_core::policy::{
    ActionConstraint, Effect, EntityRef, Policy, PolicyId, ScopeConstraint,
};
use cedar_policy_core::policy_set::{LinkingError, PolicySet, PolicySetError};
use cedar_policy_core::request::{Context, Request};
use cedar_policy_core::value::{EntityUid, Value};

fn alice_views_door() -> Request {
    Request::new(
        Some(EntityUid::new("User", "alice")),
        Some(EntityUid::new("Photo", "view")),
        Some(EntityUid::new("Photo", "door")),
        Context::empty(),
    )
}

fn policy(
    id: &str,
    effect: Effect,
    principal: ScopeConstraint,
    resource: ScopeConstraint,
    condition: Expr,
) -> Policy {
    Policy {
        id: PolicyId::new(id),
        effect,
        principal,
        action: ActionConstraint::Any,
        resource,
        condition,
    }
}

fn eq(ty: &str, id: &str) -> ScopeConstraint {
    ScopeConstraint::Eq(EntityRef::Uid(EntityUid::new(ty, id)))
}

fn ask(policies: &PolicySet) -> Response {
    Authorizer::new().is_authorized(&alice_views_door(), policies, &Entities::empty())
}

fn ids(response: &Response) -> Vec<String> {
    response.reason().iter().map(|id| id.0.clone()).collect()
}

fn overflowing() -> Expr {
    Expr::binary(
        BinaryOp::Eq,
        Expr::binary(BinaryOp::Add, Expr::long(i64::MAX), Expr::long(1)),
        Expr::long(0),
    )
}

#[test]
fn empty_policies_deny_by_default() {
    let response = ask(&PolicySet::new());
    assert_eq!(response.decision(), Decision::Deny);
    assert!(response.reason().is_empty());
    assert!(response.errors().is_empty());
}

#[test]
fn simple_permit_allows() {
    let mut set = PolicySet::new();
    set.add(policy("ID1", Effect::Permit, eq("User", "alice"), ScopeConstraint::Any, Expr::bool(true)))
        .unwrap();
    let response = ask(&set);
    assert_eq!(response.decision(), Decision::Allow);
    assert_eq!(ids(&response), vec!["ID1".to_string()]);
    assert!(response.errors().is_empty());
}

#[test]
fn permit_for_another_principal_denies() {
    let mut set = PolicySet::new();
    set.add(policy("ID1", Effect::Permit, eq("User", "bob"), ScopeConstraint::Any, Expr::bool(true)))
        .unwrap();
    let response = ask(&set);
    assert_eq!(response.decision(), Decision::Deny);
    assert!(response.reason().is_empty());
}

#[test]
fn forbid_overrides_permit() {
    let mut set = PolicySet::new();
    set.add(policy("ID0", Effect::Permit, ScopeConstraint::Any, ScopeConstraint::Any, Expr::bool(true)))
        .unwrap();
    set.add(policy("ID1", Effect::Forbid, eq("User", "alice"), eq("Photo", "door"), Expr::bool(true)))
        .unwrap();
    let response = ask(&set);
    assert_eq!(response.decision(), Decision::Deny);
    assert_eq!(ids(&response), vec!["ID1".to_string()]);
}

#[test]
fn one_of_several_permits_allows() {
    let mut set = PolicySet::new();
    set.add(policy("ID0", Effect::Permit, eq("User", "jerry"), eq("Photo", "doorx"), Expr::bool(true)))
        .unwrap();
    set.add(policy("ID1", Effect::Permit, eq("User", "tom"), eq("Photo", "doory"), Expr::bool(true)))
        .unwrap();
    set.add(policy("ID2", Effect::Permit, eq("User", "alice"), eq("Photo", "door"), Expr::bool(true)))
        .unwrap();
    let response = ask(&set);
    assert_eq!(response.decision(), Decision::Allow);
    assert_eq!(ids(&response), vec!["ID2".to_string()]);
}

#[test]
fn attribute_and_hierarchy_allow() {
    let alice = EntityUid::new("User", "alice");
    let door = EntityUid::new("Photo", "door");
    let house = EntityUid::new("Folder", "house");
    let entities = Entities::from_entities(
        vec![
            Entity::new(alice.clone(), vec![], vec![]).unwrap(),
            Entity::new(
                door.clone(),
                vec![("owner".to_string(), Value::EntityUid(alice.clone()))],
                vec![house.clone()],
            )
            .unwrap(),
            Entity::new(house.clone(), vec![], vec![]).unwrap(),
        ],
        Mode::Concrete,
    )
    .unwrap();
    let mut set = PolicySet::new();
    set.add(policy(
        "policy0",
        Effect::Permit,
        ScopeConstraint::Any,
        ScopeConstraint::In(EntityRef::Uid(house)),
        Expr::binary(
            BinaryOp::Eq,
            Expr::get_attr(Expr::var(Var::Resource), "owner"),
            Expr::var(Var::Principal),
        ),
    ))
    .unwrap();
    let response = Authorizer::new().is_authorized(&alice_views_door(), &set, &entities);
    assert_eq!(response.decision(), Decision::Allow);
    assert!(response.errors().is_empty());
}

#[test]
fn short_circuit_masks_error() {
    let mut set = PolicySet::new();
    set.add(policy(
        "ID0",
        Effect::Permit,
        ScopeConstraint::Any,
        ScopeConstraint::Any,
        Expr::and(Expr::bool(false), overflowing()),
    ))
    .unwrap();
    let response = ask(&set);
    assert_eq!(response.decision(), Decision::Deny);
    assert!(response.errors().is_empty());
}

#[test]
fn errored_policy_is_reported_and_not_in_reason() {
    let mut set = PolicySet::new();
    set.add(policy("good", Effect::Permit, ScopeConstraint::Any, ScopeConstraint::Any, Expr::bool(true)))
        .unwrap();
    set.add(policy("bad", Effect::Permit, ScopeConstraint::Any, ScopeConstraint::Any, overflowing()))
        .unwrap();
    let response = ask(&set);
    assert_eq!(response.decision(), Decision::Allow);
    assert_eq!(ids(&response), vec!["good".to_string()]);
    assert_eq!(response.errors().len(), 1);
    assert_eq!(response.errors()[0].id, PolicyId::new("bad"));
    assert_eq!(
        response.errors()[0].message(),
        "while evaluating policy `bad`: integer overflow while attempting to add the values `9223372036854775807` and `1`"
    );
}

#[test]
fn adding_an_erroring_policy_only_extends_errors() {
    let mut set = PolicySet::new();
    set.add(policy("ID0", Effect::Permit, eq("User", "alice"), ScopeConstraint::Any, Expr::bool(true)))
        .unwrap();
    let before = ask(&set);
    set.add(policy("bad", Effect::Forbid, ScopeConstraint::Any, ScopeConstraint::Any, overflowing()))
        .unwrap();
    let after = ask(&set);
    assert_eq!(after.decision(), before.decision());
    assert_eq!(ids(&after), ids(&before));
    assert_eq!(before.errors().len(), 0);
    assert_eq!(after.errors().len(), 1);
}

#[test]
fn errored_forbid_does_not_deny() {
    let mut set = PolicySet::new();
    set.add(policy("ok", Effect::Permit, ScopeConstraint::Any, ScopeConstraint::Any, Expr::bool(true)))
        .unwrap();
    set.add(policy("bad", Effect::Forbid, ScopeConstraint::Any, ScopeConstraint::Any, overflowing()))
        .unwrap();
    assert_eq!(ask(&set).decision(), Decision::Allow);
}

#[test]
fn adding_a_satisfied_forbid_denies() {
    let mut set = PolicySet::new();
    set.add(policy("ID0", Effect::Permit, ScopeConstraint::Any, ScopeConstraint::Any, Expr::bool(true)))
        .unwrap();
    assert_eq!(ask(&set).decision(), Decision::Allow);
    set.add(policy("no", Effect::Forbid, ScopeConstraint::Any, ScopeConstraint::Any, Expr::bool(true)))
        .unwrap();
    let response = ask(&set);
    assert_eq!(response.decision(), Decision::Deny);
    assert_eq!(ids(&response), vec!["no".to_string()]);
}

#[test]
fn without_permits_the_answer_is_deny() {
    let mut set = PolicySet::new();
    set.add(policy("f0", Effect::Forbid, eq("User", "bob"), ScopeConstraint::Any, Expr::bool(true)))
        .unwrap();
    let response = ask(&set);
    assert_eq!(response.decision(), Decision::Deny);
    assert!(response.reason().is_empty());
}

#[test]
fn condition_that_is_no_truth_value_is_an_error() {
    let mut set = PolicySet::new();
    set.add(policy("ID0", Effect::Permit, ScopeConstraint::Any, ScopeConstraint::Any, Expr::long(1)))
        .unwrap();
    let response = ask(&set);
    assert_eq!(response.decision(), Decision::Deny);
    assert_eq!(response.errors().len(), 1);
    assert_eq!(
        response.errors()[0].error.message(),
        "type error: expected bool, got long"
    );
}

#[test]
fn duplicate_policy_id_is_refused() {
    let mut set = PolicySet::new();
    set.add(policy("ID0", Effect::Permit, ScopeConstraint::Any, ScopeConstraint::Any, Expr::bool(true)))
        .unwrap();
    let again =
        set.add(policy("ID0", Effect::Forbid, ScopeConstraint::Any, ScopeConstraint::Any, Expr::bool(true)));
    assert_eq!(again, Err(PolicySetError::AlreadyDefined { id: PolicyId::new("ID0") }));
    assert_eq!(
        again.unwrap_err().message(),
        "duplicate template or policy id `ID0`"
    );
    assert_eq!(set.policies().len(), 1);
}

#[test]
fn template_is_not_evaluated_until_linked() {
    let mut set = PolicySet::new();
    set.add_template(policy(
        "ID0",
        Effect::Permit,
        ScopeConstraint::Eq(EntityRef::Slot),
        ScopeConstraint::Any,
        Expr::bool(true),
    ))
    .unwrap();
    assert_eq!(ask(&set).decision(), Decision::Deny);
    set.link(
        PolicyId::new("ID0"),
        PolicyId::new("ID0_User_alice"),
        vec![(SlotId::Principal, EntityUid::new("User", "alice"))],
    )
    .unwrap();
    let response = ask(&set);
    assert_eq!(response.decision(), Decision::Allow);
    assert_eq!(ids(&response), vec!["ID0_User_alice".to_string()]);
}

#[test]
fn template_link_collision_is_a_construction_error() {
    let mut set = PolicySet::new();
    set.add(policy("ID1", Effect::Permit, ScopeConstraint::Any, ScopeConstraint::Any, Expr::bool(true)))
        .unwrap();
    set.add_template(policy(
        "ID0",
        Effect::Permit,
        ScopeConstraint::Eq(EntityRef::Slot),
        ScopeConstraint::Any,
        Expr::bool(true),
    ))
    .unwrap();
    let linked = set.link(
        PolicyId::new("ID0"),
        PolicyId::new("ID1"),
        vec![(SlotId::Principal, EntityUid::new("User", "alice"))],
    );
    assert_eq!(linked, Err(LinkingError::PolicyIdConflict { id: PolicyId::new("ID1") }));
    assert_eq!(
        linked.unwrap_err().message(),
        "unable to link template: template-linked policy id `ID1` conflicts with an existing policy id"
    );
    assert_eq!(set.policies().len(), 1);
}

#[test]
fn link_with_wrong_slots_is_refused() {
    let mut set = PolicySet::new();
    set.add_template(policy(
        "T",
        Effect::Permit,
        ScopeConstraint::Eq(EntityRef::Slot),
        ScopeConstraint::Any,
        Expr::bool(true),
    ))
    .unwrap();
    let linked = set.link(
        PolicyId::new("T"),
        PolicyId::new("P"),
        vec![(SlotId::Resource, EntityUid::new("Photo", "door"))],
    );
    assert_eq!(
        linked,
        Err(LinkingError::ArityError {
            unbound_values: vec![SlotId::Principal],
            extra_values: vec![SlotId::Resource],
        })
    );
    let missing = set.link(PolicyId::new("nope"), PolicyId::new("P"), vec![]);
    assert_eq!(missing, Err(LinkingError::NoSuchTemplate { id: PolicyId::new("nope") }));
}

#[test]
fn unlinked_slot_in_a_policy_is_an_error() {
    let p = policy(
        "ID0",
        Effect::Permit,
        ScopeConstraint::Eq(EntityRef::Slot),
        ScopeConstraint::Any,
        Expr::bool(true),
    );
    let response = Authorizer::new().is_authorized_by(&alice_views_door(), &vec![p], &Entities::empty());
    assert_eq!(response.decision(), Decision::Deny);
    assert_eq!(response.errors().len(), 1);
    assert_eq!(
        response.errors()[0].error.message(),
        "template slot `?principal` was not linked"
    );
}
