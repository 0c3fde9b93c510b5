use cedar_policy_core::authorizer::Decision;
use cedar_policy_core::extensions::Extensions;
use cedar_policy_core::frontend::{
    is_authorized, AuthorizationAnswer, AuthorizationCall, EntityUIDStrings, Link, Links,
    PolicySpecification, RecvdSlice, TemplateLink,
};
use cedar_policy_core::json::JsonValue;
use cedar_policy_core::value::EntityUid;

fn s(text: &str) -> JsonValue {
    JsonValue::String(text.to_string())
}

fn obj(members: Vec<(&str, JsonValue)>) -> JsonValue {
    JsonValue::Object(members.into_iter().map(|(k, v)| (k.to_string(), v)).collect())
}

fn uid(ty: &str, id: &str) -> JsonValue {
    obj(vec![("type", s(ty)), ("id", s(id))])
}

fn entity_ref(ty: &str, id: &str) -> JsonValue {
    obj(vec![("__entity", uid(ty, id))])
}

fn entity(uid: JsonValue, attrs: Vec<(&str, JsonValue)>, parents: Vec<JsonValue>) -> JsonValue {
    obj(vec![("uid", uid), ("attrs", obj(attrs)), ("parents", JsonValue::Array(parents))])
}

fn texts(pairs: Vec<(&str, &str)>) -> Vec<(String, String)> {
    pairs.into_iter().map(|(k, v)| (k.to_string(), v.to_string())).collect()
}

fn link(slot: &str, ty: &str, eid: &str) -> Link {
    Link {
        slot: slot.to_string(),
        value: EntityUIDStrings { ty: ty.to_string(), eid: eid.to_string() },
    }
}

fn instantiation(template_id: &str, result: &str, links: Vec<Link>) -> TemplateLink {
    TemplateLink {
        template_id: template_id.to_string(),
        result_policy_id: result.to_string(),
        instantiations: Links::try_from(links).unwrap(),
    }
}

fn slice(
    policies: PolicySpecification,
    entities: Vec<JsonValue>,
    templates: Option<Vec<(String, String)>>,
    template_instantiations: Option<Vec<TemplateLink>>,
) -> RecvdSlice {
    RecvdSlice { policies, entities: JsonValue::Array(entities), templates, template_instantiations }
}

fn call(action_type: &str, context: Vec<(&str, JsonValue)>, slice: RecvdSlice) -> AuthorizationCall {
    AuthorizationCall {
        principal: Some(uid("User", "alice")),
        action: uid(action_type, "view"),
        resource: Some(uid("Photo", "door")),
        context: context.into_iter().map(|(k, v)| (k.to_string(), v)).collect(),
        schema: None,
        enable_request_validation: true,
        slice,
    }
}

fn house_entities() -> Vec<JsonValue> {
    vec![
        entity(entity_ref("User", "alice"), vec![], vec![]),
        entity(
            entity_ref("Photo", "door"),
            vec![("owner", entity_ref("User", "alice"))],
            vec![entity_ref("Folder", "house")],
        ),
        entity(entity_ref("Folder", "house"), vec![], vec![]),
    ]
}

fn assert_is_authorized(answer: AuthorizationAnswer) {
    match answer {
        AuthorizationAnswer::Success { response } => {
            assert_eq!(response.decision(), Decision::Allow);
            assert_eq!(response.diagnostics().errors().len(), 0);
        }
        AuthorizationAnswer::ParseFailed { errors } => panic!("{:?}", errors),
    }
}

fn assert_is_not_authorized(answer: AuthorizationAnswer) {
    match answer {
        AuthorizationAnswer::Success { response } => {
            assert_eq!(response.decision(), Decision::Deny);
            assert_eq!(response.diagnostics().errors().len(), 0);
        }
        AuthorizationAnswer::ParseFailed { errors } => panic!("{:?}", errors),
    }
}

fn assert_is_failure(answer: AuthorizationAnswer, msg: &str) {
    match answer {
        AuthorizationAnswer::ParseFailed { errors } => {
            assert!(errors.iter().any(|e| e.contains(msg)), "{:?}", errors);
        }
        AuthorizationAnswer::Success { response } => panic!("{:?}", response),
    }
}

#[test]
fn test_slice_convert() {
    let entities = vec![
        entity(uid("user", "alice"), vec![("foo", s("bar"))], vec![uid("user", "bob")]),
        entity(uid("user", "bob"), vec![], vec![]),
    ];
    let rslice = slice(PolicySpecification::Individual(vec![]), entities, None, None);
    let (policies, entities) = rslice
        .try_into(&Extensions::all_available())
        .expect("parse failed");
    assert!(policies.is_empty());
    match entities.get(&EntityUid::new("user", "alice")) {
        None => panic!("Missing user::alice Entity"),
        Some(alice) => {
            assert!(entities.is_ancestor_of(&EntityUid::new("user", "bob"), alice.uid()));
        }
    }
}

#[test]
fn test_not_authorized_on_empty_slice() {
    let c = call(
        "Photo",
        vec![],
        slice(PolicySpecification::Individual(vec![]), vec![], None, None),
    );
    assert_is_not_authorized(is_authorized(c));
}

#[test]
fn test_authorized_on_simple_slice() {
    let c = call(
        "Photo",
        vec![],
        slice(
            PolicySpecification::Individual(texts(vec![(
                "ID1",
                "permit(principal == User::\"alice\", action, resource);",
            )])),
            vec![],
            None,
            None,
        ),
    );
    assert_is_authorized(is_authorized(c));
}

#[test]
fn test_authorized_on_simple_slice_with_string_policies() {
    let c = call(
        "Photo",
        vec![],
        slice(
            PolicySpecification::Concatenated(
                "permit(principal == User::\"alice\", action, resource);".to_string(),
            ),
            vec![],
            None,
            None,
        ),
    );
    assert_is_authorized(is_authorized(c));
}

#[test]
fn test_authorized_on_simple_slice_with_context() {
    let c = call(
        "Photo",
        vec![
            ("is_authenticated", JsonValue::Bool(true)),
            (
                "source_ip",
                obj(vec![("__extn", obj(vec![("fn", s("ip")), ("arg", s("222.222.222.222"))]))]),
            ),
        ],
        slice(
            PolicySpecification::Concatenated(
                "permit(principal == User::\"alice\", action, resource) when { context.is_authenticated && context.source_ip.isInRange(ip(\"222.222.222.0/24\")) };"
                    .to_string(),
            ),
            vec![],
            None,
            None,
        ),
    );
    assert_is_authorized(is_authorized(c));
}

#[test]
fn test_authorized_on_simple_slice_with_attrs_and_parents() {
    let c = call(
        "Photo",
        vec![],
        slice(
            PolicySpecification::Concatenated(
                "permit(principal, action, resource in Folder::\"house\") when { resource.owner == principal };"
                    .to_string(),
            ),
            house_entities(),
            None,
            None,
        ),
    );
    assert_is_authorized(is_authorized(c));
}

#[test]
fn test_authorized_on_multi_policy_slice() {
    let c = call(
        "Photo",
        vec![],
        slice(
            PolicySpecification::Individual(texts(vec![
                ("ID0", "permit(principal == User::\"jerry\", action, resource == Photo::\"doorx\");"),
                ("ID1", "permit(principal == User::\"tom\", action, resource == Photo::\"doory\");"),
                ("ID2", "permit(principal == User::\"alice\", action, resource == Photo::\"door\");"),
            ])),
            vec![],
            None,
            None,
        ),
    );
    assert_is_authorized(is_authorized(c));
}

#[test]
fn test_authorized_on_multi_policy_slice_with_string_policies() {
    let c = call(
        "Photo",
        vec![],
        slice(
            PolicySpecification::Concatenated(
                "permit(principal, action, resource in Folder::\"house\") when { resource.owner == principal };"
                    .to_string(),
            ),
            house_entities(),
            None,
            None,
        ),
    );
    assert_is_authorized(is_authorized(c));
}

#[test]
fn test_authorized_on_multi_policy_slice_denies_when_expected() {
    let c = call(
        "Photo",
        vec![],
        slice(
            PolicySpecification::Individual(texts(vec![
                ("ID0", "permit(principal, action, resource);"),
                ("ID1", "forbid(principal == User::\"alice\", action, resource == Photo::\"door\");"),
            ])),
            vec![],
            None,
            None,
        ),
    );
    assert_is_not_authorized(is_authorized(c));
}

#[test]
fn test_authorized_on_multi_policy_slice_with_string_policies_denies_when_expected() {
    let c = call(
        "Photo",
        vec![],
        slice(
            PolicySpecification::Concatenated(
                "permit(principal, action, resource);forbid(principal == User::\"alice\", action, resource);"
                    .to_string(),
            ),
            vec![],
            None,
            None,
        ),
    );
    assert_is_not_authorized(is_authorized(c));
}

#[test]
fn test_authorized_with_template_as_policy_should_fail() {
    let c = call(
        "Photo",
        vec![],
        slice(
            PolicySpecification::Concatenated(
                "permit(principal == ?principal, action, resource);".to_string(),
            ),
            vec![],
            Some(vec![]),
            None,
        ),
    );
    assert_is_not_authorized(is_authorized(c));
}

#[test]
fn test_authorized_with_template_should_fail() {
    let c = call(
        "Photo",
        vec![],
        slice(
            PolicySpecification::Individual(vec![]),
            vec![],
            Some(texts(vec![("ID0", "permit(principal == ?principal, action, resource);")])),
            None,
        ),
    );
    assert_is_not_authorized(is_authorized(c));
}

#[test]
fn test_authorized_with_template_instantiation() {
    let c = call(
        "Photo",
        vec![],
        slice(
            PolicySpecification::Individual(vec![]),
            vec![],
            Some(texts(vec![("ID0", "permit(principal == ?principal, action, resource);")])),
            Some(vec![instantiation(
                "ID0",
                "ID0_User_alice",
                vec![link("?principal", "User", "alice")],
            )]),
        ),
    );
    assert_is_authorized(is_authorized(c));
}

#[test]
fn test_authorized_fails_on_policy_collision_with_template() {
    let c = call(
        "Action",
        vec![],
        slice(
            PolicySpecification::Individual(texts(vec![(
                "ID0",
                "permit(principal, action, resource);",
            )])),
            vec![],
            Some(texts(vec![("ID0", "permit(principal == ?principal, action, resource);")])),
            Some(vec![]),
        ),
    );
    assert_is_failure(
        is_authorized(c),
        "couldn't add policy to set due to error: duplicate template or policy id `ID0`",
    );
}

#[test]
fn test_authorized_fails_on_duplicate_instantiations_ids() {
    let c = call(
        "Action",
        vec![],
        slice(
            PolicySpecification::Individual(vec![]),
            vec![],
            Some(texts(vec![("ID0", "permit(principal == ?principal, action, resource);")])),
            Some(vec![
                instantiation("ID0", "ID1", vec![link("?principal", "User", "alice")]),
                instantiation("ID0", "ID1", vec![link("?principal", "User", "alice")]),
            ]),
        ),
    );
    assert_is_failure(
        is_authorized(c),
        "Error instantiating template: unable to link template: template-linked policy id `ID1` conflicts with an existing policy id",
    );
}

#[test]
fn test_authorized_fails_on_template_instantiation_collision_with_template() {
    let c = call(
        "Action",
        vec![],
        slice(
            PolicySpecification::Individual(vec![]),
            vec![],
            Some(texts(vec![("ID0", "permit(principal == ?principal, action, resource);")])),
            Some(vec![instantiation(
                "ID0",
                "ID0",
                vec![link("?principal", "User", "alice")],
            )]),
        ),
    );
    assert_is_failure(
        is_authorized(c),
        "Error instantiating template: unable to link template: template-linked policy id `ID0` conflicts with an existing policy id",
    );
}

#[test]
fn test_authorized_fails_on_template_instantiation_collision_with_policy() {
    let c = call(
        "Action",
        vec![],
        slice(
            PolicySpecification::Individual(texts(vec![(
                "ID1",
                "permit(principal, action, resource);",
            )])),
            vec![],
            Some(texts(vec![("ID0", "permit(principal == ?principal, action, resource);")])),
            Some(vec![instantiation(
                "ID0",
                "ID1",
                vec![link("?principal", "User", "alice")],
            )]),
        ),
    );
    assert_is_failure(
        is_authorized(c),
        "Error instantiating template: unable to link template: template-linked policy id `ID1` conflicts with an existing policy id",
    );
}

#[test]
fn test_authorized_fails_on_duplicate_slot_instantiation1() {
    let err = Links::try_from(vec![
        link("?principal", "User", "alice"),
        link("?principal", "User", "alice"),
    ])
    .unwrap_err();
    assert!(err
        .message()
        .contains("duplicate instantiations of the slot(s): `?principal`"));
}

#[test]
fn test_authorized_fails_on_duplicate_slot_instantiation2() {
    let err = Links::try_from(vec![
        link("?principal", "User", "alice"),
        link("?resource", "Box", "box"),
        link("?principal", "User", "alice"),
    ])
    .unwrap_err();
    assert!(err
        .message()
        .contains("duplicate instantiations of the slot(s): `?principal`"));
}

#[test]
fn test_authorized_fails_on_duplicate_slot_instantiation3() {
    let err = Links::try_from(vec![
        link("?principal", "User", "alice"),
        link("?resource", "Box", "box"),
        link("?principal", "Team", "bob"),
        link("?resource", "Box", "box2"),
    ])
    .unwrap_err();
    assert!(err
        .message()
        .contains("duplicate instantiations of the slot(s): `?principal`, `?resource`"));
}

#[test]
fn test_authorized_fails_duplicate_entity_uid() {
    let c = call(
        "Photo",
        vec![],
        slice(
            PolicySpecification::Individual(vec![]),
            vec![
                entity(uid("User", "alice"), vec![], vec![]),
                entity(uid("User", "alice"), vec![], vec![]),
            ],
            Some(vec![]),
            Some(vec![]),
        ),
    );
    assert_is_failure(is_authorized(c), r#"duplicate entity entry `User::"alice"`"#);
}

#[test]
fn duplicate_policy_ids_are_reported() {
    let c = call(
        "Photo",
        vec![],
        slice(
            PolicySpecification::Individual(texts(vec![
                ("ID0", "permit(principal, action, resource);"),
                ("ID0", "permit(principal, action, resource);"),
            ])),
            vec![],
            Some(vec![]),
            Some(vec![]),
        ),
    );
    assert_is_failure(
        is_authorized(c),
        "couldn't add policy to set due to error: duplicate template or policy id `ID0`",
    );
}

#[test]
fn duplicate_context_keys_are_reported() {
    let c = call(
        "Photo",
        vec![
            ("is_authenticated", JsonValue::Bool(true)),
            ("is_authenticated", JsonValue::Bool(false)),
        ],
        slice(PolicySpecification::Individual(vec![]), vec![], Some(vec![]), Some(vec![])),
    );
    assert_is_failure(is_authorized(c), "duplicate key in context");
}

#[test]
fn all_errors_of_a_slice_are_reported() {
    let c = call(
        "Photo",
        vec![],
        slice(
            PolicySpecification::Individual(texts(vec![
                ("ID0", "permit(principal, action);"),
                ("ID1", "permit(principal == ?principal, action, resource);"),
            ])),
            vec![JsonValue::Null],
            None,
            Some(vec![instantiation("T", "P", vec![link("?action", "User", "alice")])]),
        ),
    );
    match is_authorized(c) {
        AuthorizationAnswer::ParseFailed { errors } => assert_eq!(
            errors,
            vec![
                "expected an entity: an object with the fields `uid`, `attrs` (an object) and `parents` (an array)"
                    .to_string(),
                "couldn't parse policy with id `ID0`".to_string(),
                "unexpected token at position 5".to_string(),
                "couldn't parse policy with id `ID1`".to_string(),
                "expected a static policy, got a template at position 0".to_string(),
                "Slot must by \"?principal\" or \"?resource\"".to_string(),
            ]
        ),
        other => panic!("{:?}", other),
    }
}

#[test]
fn bad_requests_are_reported() {
    let mut c = call(
        "Photo",
        vec![],
        slice(PolicySpecification::Individual(vec![]), vec![], None, None),
    );
    c.principal = Some(s("User::\"alice\""));
    match is_authorized(c) {
        AuthorizationAnswer::ParseFailed { errors } => {
            assert_eq!(errors.len(), 2);
            assert_eq!(errors[0], "Failed to parse principal");
        }
        other => panic!("{:?}", other),
    }
    let mut c = call(
        "Photo",
        vec![],
        slice(PolicySpecification::Individual(vec![]), vec![], None, None),
    );
    c.action = obj(vec![("type", s("not a type")), ("id", s("view"))]);
    assert_is_failure(is_authorized(c), "invalid entity type name: `not a type`");
    let mut c = call(
        "Photo",
        vec![],
        slice(PolicySpecification::Individual(vec![]), vec![], None, None),
    );
    c.schema = Some(obj(vec![]));
    assert_is_failure(is_authorized(c), "validation against a schema is not supported");
    let mut c = call(
        "Photo",
        vec![],
        slice(PolicySpecification::Individual(vec![]), vec![], None, None),
    );
    c.principal = None;
    c.resource = None;
    assert_is_not_authorized(is_authorized(c));
}

#[test]
fn ancestors_are_transitively_closed() {
    let entities = vec![
        entity(uid("User", "alice"), vec![], vec![uid("Team", "a"), uid("Team", "b")]),
        entity(uid("Team", "a"), vec![], vec![uid("Org", "x")]),
        entity(uid("Team", "b"), vec![], vec![uid("Org", "x"), uid("Team", "a")]),
        entity(uid("Org", "x"), vec![], vec![uid("World", "w")]),
        entity(uid("Loop", "1"), vec![], vec![uid("Loop", "2")]),
        entity(uid("Loop", "2"), vec![], vec![uid("Loop", "1")]),
    ];
    let (_, store) = slice(PolicySpecification::Individual(vec![]), entities, None, None)
        .try_into(&Extensions::all_available())
        .unwrap();
    let alice = EntityUid::new("User", "alice");
    for (ty, id) in [("Team", "a"), ("Team", "b"), ("Org", "x"), ("World", "w")] {
        assert!(store.is_ancestor_of(&EntityUid::new(ty, id), &alice), "{} {}", ty, id);
    }
    assert!(!store.is_ancestor_of(&alice, &EntityUid::new("Team", "a")));
    assert!(!store.is_ancestor_of(&EntityUid::new("Loop", "1"), &alice));
    assert!(store.is_ancestor_of(&EntityUid::new("World", "w"), &EntityUid::new("Team", "b")));
    assert!(store.is_ancestor_of(&EntityUid::new("Loop", "1"), &EntityUid::new("Loop", "1")));
    assert!(store.is_ancestor_of(&EntityUid::new("Loop", "2"), &EntityUid::new("Loop", "1")));
    assert!(!store.is_ancestor_of(&EntityUid::new("Org", "x"), &EntityUid::new("World", "w")));
}
