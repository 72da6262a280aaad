use plan_store::json::Json;
use plan_store::plan::{plan_object_id, PlanError};
use plan_store::pointer::{resolve, split_pointer};
use plan_store::validator::{classify, requires_field, validate_node, FieldKind, ValidationError, Validator};

fn s(text: &str) -> Json {
    Json::Str(text.to_string())
}

fn obj(members: Vec<(&str, Json)>) -> Json {
    Json::Object(members.into_iter().map(|(k, v)| (k.to_string(), v)).collect())
}

fn typed(tag: &str) -> Json {
    obj(vec![("type", s(tag))])
}

fn reference(pointer: &str) -> Json {
    obj(vec![("$ref", s(pointer))])
}

fn id_name_schema() -> Json {
    obj(vec![
        ("properties", obj(vec![("id", typed("integer")), ("name", typed("string"))])),
        ("required", Json::Array(vec![s("id")])),
    ])
}

fn mismatch(field: &str) -> Result<(), ValidationError> {
    Err(ValidationError::FieldTypeMismatch(field.to_string()))
}

#[test]
fn scenario_missing_required_id() {
    let v = Validator::new(id_name_schema());
    let doc = obj(vec![("name", s("a"))]);
    assert_eq!(v.validate(&doc), Err(ValidationError::MissingRequiredField("id".to_string())));
}

#[test]
fn scenario_valid_document() {
    let v = Validator::new(id_name_schema());
    let doc = obj(vec![("id", Json::Int(5)), ("name", s("a"))]);
    assert_eq!(v.validate(&doc), Ok(()));
}

#[test]
fn scenario_mistyped_id() {
    let v = Validator::new(id_name_schema());
    let doc = obj(vec![("id", s("x"))]);
    assert_eq!(v.validate(&doc), mismatch("id"));
}

#[test]
fn empty_properties_accept_any_object() {
    let v = Validator::new(obj(vec![("properties", obj(vec![]))]));
    assert_eq!(v.validate(&obj(vec![])), Ok(()));
    let doc = obj(vec![("x", Json::Null), ("y", Json::Array(vec![Json::Bool(true)])), ("z", s("q"))]);
    assert_eq!(v.validate(&doc), Ok(()));
}

#[test]
fn first_missing_required_field_is_reported() {
    let schema = obj(vec![
        ("properties", obj(vec![("a", typed("string")), ("b", typed("integer")), ("c", typed("integer"))])),
        ("required", Json::Array(vec![s("c"), s("b")])),
    ]);
    let v = Validator::new(schema);
    let doc = obj(vec![("a", s("ok"))]);
    assert_eq!(v.validate(&doc), Err(ValidationError::MissingRequiredField("b".to_string())));
}

#[test]
fn integer_field_rejects_every_non_integer() {
    let v = Validator::new(obj(vec![("properties", obj(vec![("n", typed("integer"))]))]));
    let bad = vec![
        s("7"),
        Json::Decimal("1.5".to_string()),
        Json::Bool(true),
        Json::Null,
        Json::Array(vec![Json::Int(1)]),
        obj(vec![("n", Json::Int(1))]),
        Json::UInt(9_223_372_036_854_775_808),
    ];
    for value in bad {
        let doc = obj(vec![("n", value)]);
        assert_eq!(v.validate(&doc), mismatch("n"));
    }
    assert_eq!(v.validate(&obj(vec![("n", Json::Int(-3))])), Ok(()));
    assert_eq!(v.validate(&obj(vec![("n", Json::UInt(9_223_372_036_854_775_807))])), Ok(()));
}

#[test]
fn string_field_rejects_non_text() {
    let v = Validator::new(obj(vec![("properties", obj(vec![("t", typed("string"))]))]));
    assert_eq!(v.validate(&obj(vec![("t", Json::Int(1))])), mismatch("t"));
    assert_eq!(v.validate(&obj(vec![("t", s(""))])), Ok(()));
}

#[test]
fn validating_twice_gives_same_outcome() {
    let v = Validator::new(id_name_schema());
    let doc = obj(vec![("id", s("x"))]);
    let first = v.validate(&doc);
    let second = v.validate(&doc);
    assert_eq!(first, second);
    assert_eq!(first, mismatch("id"));
}

#[test]
fn resolves_definition_and_fails_on_absent_one() {
    let foo = obj(vec![("properties", obj(vec![("k", typed("integer"))]))]);
    let root = obj(vec![("properties", obj(vec![])), ("definitions", obj(vec![("Foo", foo)]))]);
    let found = resolve(&root, "#/definitions/Foo").expect("Foo resolves");
    assert!(found.get("properties").is_some());
    assert!(resolve(&root, "#/definitions/Bar").is_none());
}

#[test]
fn pointer_must_start_at_root() {
    let root = obj(vec![("a", obj(vec![]))]);
    assert!(resolve(&root, "#/a").is_some());
    assert!(resolve(&root, "a").is_none());
    assert!(resolve(&root, "x/a").is_none());
    assert!(resolve(&root, "#").is_none());
}

#[test]
fn resolution_falls_back_to_definitions() {
    let inner = obj(vec![("properties", obj(vec![]))]);
    let root = obj(vec![("definitions", obj(vec![("Foo", inner)]))]);
    assert!(resolve(&root, "#/Foo").is_some());
    assert!(resolve(&root, "#/Foo/properties").is_some());
    assert!(resolve(&root, "#/Foo/nothing").is_none());
}

#[test]
fn split_pointer_keeps_empty_pieces() {
    assert_eq!(split_pointer("#/definitions/Foo"), vec!["#", "definitions", "Foo"]);
    assert_eq!(split_pointer(""), vec![""]);
    assert_eq!(split_pointer("a//b/"), vec!["a", "", "b", ""]);
}

#[test]
fn reference_field_validates_nested_object() {
    let schema = obj(vec![
        ("properties", obj(vec![("child", reference("#/definitions/Child"))])),
        (
            "definitions",
            obj(vec![(
                "Child",
                obj(vec![
                    ("properties", obj(vec![("n", typed("integer"))])),
                    ("required", Json::Array(vec![s("n")])),
                ]),
            )]),
        ),
    ]);
    let v = Validator::new(schema);
    assert_eq!(v.validate(&obj(vec![("child", obj(vec![("n", Json::Int(1))]))])), Ok(()));
    assert_eq!(v.validate(&obj(vec![("child", obj(vec![("n", s("no"))]))])), mismatch("n"));
    assert_eq!(
        v.validate(&obj(vec![("child", obj(vec![]))])),
        Err(ValidationError::MissingRequiredField("n".to_string()))
    );
    assert_eq!(v.validate(&obj(vec![("child", Json::Int(3))])), Err(ValidationError::DataTypeMismatch));
    assert_eq!(v.validate(&obj(vec![])), Ok(()));
}

#[test]
fn unresolvable_reference_is_reported() {
    let schema = obj(vec![("properties", obj(vec![("child", reference("#/definitions/Missing"))]))]);
    let v = Validator::new(schema);
    assert_eq!(
        v.validate(&obj(vec![("child", obj(vec![]))])),
        Err(ValidationError::ReferenceResolutionFailed("#/definitions/Missing".to_string()))
    );
}

#[test]
fn unsupported_type_is_reported() {
    let schema = obj(vec![("properties", obj(vec![("f", typed("number")), ("g", obj(vec![]))]))]);
    let v = Validator::new(schema);
    assert_eq!(
        v.validate(&obj(vec![("f", Json::Int(1))])),
        Err(ValidationError::UnsupportedType("f".to_string()))
    );
    assert_eq!(
        v.validate(&obj(vec![("g", Json::Int(1))])),
        Err(ValidationError::UnsupportedType("g".to_string()))
    );
}

#[test]
fn malformed_schema_and_non_object_document() {
    let no_props = Validator::new(obj(vec![("required", Json::Array(vec![]))]));
    assert_eq!(no_props.validate(&obj(vec![])), Err(ValidationError::SchemaMalformed));
    let not_object = Validator::new(s("schema"));
    assert_eq!(not_object.validate(&obj(vec![])), Err(ValidationError::SchemaMalformed));
    let props_not_object = Validator::new(obj(vec![("properties", Json::Array(vec![]))]));
    assert_eq!(props_not_object.validate(&obj(vec![])), Err(ValidationError::SchemaMalformed));
    let v = Validator::new(id_name_schema());
    assert_eq!(v.validate(&Json::Array(vec![])), Err(ValidationError::DataTypeMismatch));
    assert_eq!(validate_node(v.schema(), &s("doc")), Err(ValidationError::DataTypeMismatch));
}

#[test]
fn fields_checked_in_declared_order() {
    let schema = obj(vec![("properties", obj(vec![("z", typed("integer")), ("a", typed("integer"))]))]);
    let v = Validator::new(schema);
    let doc = obj(vec![("a", s("x")), ("z", s("y"))]);
    assert_eq!(v.validate(&doc), mismatch("z"));
}

#[test]
fn classify_reads_constraints() {
    assert!(matches!(classify(&typed("integer")), FieldKind::Integer));
    assert!(matches!(classify(&typed("string")), FieldKind::Text));
    assert!(matches!(classify(&typed("$ref")), FieldKind::Unknown));
    assert!(matches!(classify(&obj(vec![("$ref", Json::Int(1))])), FieldKind::Unknown));
    match classify(&reference("#/x")) {
        FieldKind::Reference(p) => assert_eq!(p, "#/x"),
        other => panic!("unexpected {:?}", other),
    }
}

#[test]
fn required_list_lookup() {
    let schema = id_name_schema();
    assert!(requires_field(&schema, &"id".to_string()));
    assert!(!requires_field(&schema, &"name".to_string()));
    assert!(!requires_field(&obj(vec![("required", s("id"))]), &"id".to_string()));
}

#[test]
fn first_member_with_a_name_wins() {
    let doc = obj(vec![("k", Json::Int(1)), ("k", Json::Int(2))]);
    assert!(matches!(doc.get("k"), Some(Json::Int(1))));
    assert!(Json::Null.get("k").is_none());
}

#[test]
fn plan_key_rules() {
    let plan = obj(vec![("objectType", s("plan")), ("objectId", s("12xvxc345ssdsds-508"))]);
    assert_eq!(plan_object_id(&plan), Ok("12xvxc345ssdsds-508".to_string()));
    assert_eq!(plan_object_id(&obj(vec![])), Err(PlanError::MissingObjectType));
    assert_eq!(plan_object_id(&obj(vec![("objectType", s("service"))])), Err(PlanError::NotAPlan));
    assert_eq!(plan_object_id(&obj(vec![("objectType", s("plan"))])), Err(PlanError::MissingObjectId));
    assert_eq!(
        plan_object_id(&obj(vec![("objectType", s("plan")), ("objectId", Json::Int(4))])),
        Err(PlanError::ObjectIdNotText)
    );
}
