use rusty_gql::{
    build_schema, is_gql_primitive_ty, GqlArgument, GqlEnum, GqlEnumValue, GqlField, GqlObject,
    GqlScalar, GqlTypeDefinition, GqlValueType, RootTypeNames, SchemaDocument, SchemaError,
};

fn named(n: &str) -> GqlValueType {
    GqlValueType::NamedType(n.to_string())
}

fn field(name: &str, ty: GqlValueType) -> GqlField {
    GqlField { name: name.to_string(), arguments: vec![], meta_type: ty }
}

fn object(name: &str, fields: Vec<GqlField>) -> GqlTypeDefinition {
    GqlTypeDefinition::Object(GqlObject {
        name: name.to_string(),
        implements_interfaces: vec![],
        fields,
    })
}

fn doc(definitions: Vec<GqlTypeDefinition>) -> SchemaDocument {
    SchemaDocument { definitions, schema_definition: None, directives: vec![] }
}

#[test]
fn builds_hero_schema_with_default_roots() {
    let schema = build_schema(vec![doc(vec![object("Query", vec![field("hero", named("String"))])])])
        .unwrap();
    assert_eq!(schema.type_map.len(), 1);
    assert_eq!(schema.query_type_name, "Query");
    assert_eq!(schema.mutation_type_name, "Mutation");
    assert_eq!(schema.subscription_type_name, "Subscription");
    assert!(schema.get_type("Query").is_some());
    assert!(schema.get_type("Hero").is_none());
}

#[test]
fn unresolved_field_type_fails() {
    let r = build_schema(vec![doc(vec![object("Query", vec![field("hero", named("Character"))])])]);
    match r {
        Err(SchemaError::UnresolvedTypeReference(n)) => assert_eq!(n, "Character"),
        other => panic!("unexpected {:?}", other),
    }
}

#[test]
fn unresolved_wrapped_argument_type_fails() {
    let mut f = field("hero", GqlValueType::NonNullType(Box::new(named("String"))));
    f.arguments.push(GqlArgument {
        name: "episode".to_string(),
        meta_type: GqlValueType::ListType(Box::new(named("Episode"))),
    });
    let r = build_schema(vec![doc(vec![object("Query", vec![f])])]);
    match r {
        Err(SchemaError::UnresolvedTypeReference(n)) => assert_eq!(n, "Episode"),
        other => panic!("unexpected {:?}", other),
    }
}

#[test]
fn references_across_documents_resolve() {
    let episode = GqlTypeDefinition::Enum(GqlEnum {
        name: "Episode".to_string(),
        values: vec![GqlEnumValue { name: "JEDI".to_string() }],
    });
    let r = build_schema(vec![
        doc(vec![object("Query", vec![field("episode", named("Episode"))])]),
        doc(vec![episode]),
    ]);
    let schema = r.unwrap();
    assert_eq!(schema.type_map.len(), 2);
    assert_eq!(schema.type_map[1].name(), "Episode");
}

#[test]
fn duplicate_type_name_fails() {
    let r = build_schema(vec![
        doc(vec![GqlTypeDefinition::Scalar(GqlScalar { name: "Date".to_string() })]),
        doc(vec![GqlTypeDefinition::Scalar(GqlScalar { name: "Date".to_string() })]),
    ]);
    match r {
        Err(SchemaError::DuplicateTypeName(n)) => assert_eq!(n, "Date"),
        other => panic!("unexpected {:?}", other),
    }
}

#[test]
fn unknown_root_override_fails() {
    let mut d = doc(vec![object("Root", vec![field("a", named("Int"))])]);
    d.schema_definition = Some(RootTypeNames {
        query: Some("Root".to_string()),
        mutation: Some("Writes".to_string()),
        subscription: None,
    });
    match build_schema(vec![d]) {
        Err(SchemaError::UnknownRootType(n)) => assert_eq!(n, "Writes"),
        other => panic!("unexpected {:?}", other),
    }
}

#[test]
fn root_override_is_used() {
    let mut d = doc(vec![object("Root", vec![field("a", named("Int"))])]);
    d.schema_definition =
        Some(RootTypeNames { query: Some("Root".to_string()), mutation: None, subscription: None });
    let schema = build_schema(vec![d]).unwrap();
    assert_eq!(schema.query_type_name, "Root");
    assert_eq!(schema.mutation_type_name, "Mutation");
}

#[test]
fn builtin_scalar_names() {
    for n in ["String", "Int", "Float", "Boolean", "ID"] {
        assert!(is_gql_primitive_ty(n));
    }
    assert!(!is_gql_primitive_ty("Episode"));
    assert!(!is_gql_primitive_ty("string"));
}

#[test]
fn value_type_name_and_non_null() {
    let t = GqlValueType::NonNullType(Box::new(GqlValueType::ListType(Box::new(named("Episode")))));
    assert_eq!(t.name(), "Episode");
    assert!(t.is_non_null());
    let l = GqlValueType::ListType(Box::new(GqlValueType::NonNullType(Box::new(named("Int")))));
    assert!(!l.is_non_null());
    assert_eq!(l.name(), "Int");
}

#[test]
fn type_kinds() {
    let e = GqlTypeDefinition::Enum(GqlEnum { name: "E".to_string(), values: vec![] });
    assert!(e.is_leaf_type());
    assert!(!e.is_composite_type());
    let o = object("O", vec![field("x", named("Int"))]);
    assert!(o.is_composite_type());
    assert!(!o.is_leaf_type());
    assert_eq!(o.get_field_by_name("x").unwrap().name, "x");
    assert!(o.get_field_by_name("y").is_none());
}
