use rusty_gql::{
    argument_names, operation_call_line, GqlArgument, OperationModFile, OperationType,
    build_schema, dir_path_str, file_path_str, gql_file_types, object_from_entries,
    type_file_dir, type_file_names, use_gql_definitions, value_from_ast, variant_value,
    GqlEnum, GqlField, GqlInputObject, GqlInterface, GqlObject, GqlScalar, GqlTypeDefinition,
    GqlValue, GqlValueType, ModFile, SchemaDocument, SerializerError, Value, Variables,
};

#[test]
fn object_from_entries_replaces_in_place() {
    let v = object_from_entries(vec![
        ("a".to_string(), GqlValue::Number("1".to_string())),
        ("b".to_string(), GqlValue::Null),
        ("a".to_string(), GqlValue::Number("3".to_string())),
    ]);
    match v {
        GqlValue::Object(es) => {
            assert_eq!(es.len(), 2);
            assert_eq!(es[0].0, "a");
            assert!(matches!(&es[0].1, GqlValue::Number(n) if n == "3"));
            assert_eq!(es[1].0, "b");
        }
        other => panic!("unexpected {:?}", other),
    }
}

#[test]
fn variant_wraps_inner_value() {
    let v = variant_value(
        "Move".to_string(),
        GqlValue::List(vec![GqlValue::Number("1".to_string()), GqlValue::Number("2".to_string())]),
    );
    match v {
        GqlValue::Object(es) => {
            assert_eq!(es.len(), 1);
            assert_eq!(es[0].0, "Move");
            assert!(matches!(&es[0].1, GqlValue::List(items) if items.len() == 2));
        }
        other => panic!("unexpected {:?}", other),
    }
}

#[test]
fn clone_copies_nested_values() {
    let v = GqlValue::Object(vec![(
        "k".to_string(),
        GqlValue::List(vec![GqlValue::Enum("E".to_string()), GqlValue::Boolean(false)]),
    )]);
    let c = v.clone();
    match c {
        GqlValue::Object(es) => match &es[0].1 {
            GqlValue::List(items) => {
                assert!(matches!(&items[0], GqlValue::Enum(e) if e == "E"));
                assert!(matches!(items[1], GqlValue::Boolean(false)));
            }
            other => panic!("unexpected {:?}", other),
        },
        other => panic!("unexpected {:?}", other),
    }
}

#[test]
fn literal_object_and_variable() {
    let v = value_from_ast(&Value::Object(vec![
        ("x".to_string(), Value::Float("1.5".to_string())),
        ("y".to_string(), Value::Variable("v".to_string())),
    ]));
    match v {
        GqlValue::Object(es) => {
            assert!(matches!(&es[0].1, GqlValue::Number(n) if n == "1.5"));
            assert!(matches!(es[1].1, GqlValue::Null));
        }
        other => panic!("unexpected {:?}", other),
    }
}

#[test]
fn variables_from_input() {
    let vs = Variables::from_input(None);
    assert!(vs.0.is_empty());
    let vs = Variables::from_input(Some(vec![
        ("a".to_string(), GqlValue::Boolean(true)),
        ("a".to_string(), GqlValue::Boolean(false)),
    ]));
    assert_eq!(vs.0.len(), 1);
    assert!(matches!(vs.get(&"a".to_string()), Some(GqlValue::Boolean(false))));
    assert!(vs.get(&"b".to_string()).is_none());
    assert!(Variables::default().0.is_empty());
}

#[test]
fn serializer_error_message() {
    let e = SerializerError("bad float".to_string());
    assert_eq!(e.message(), "bad float");
}

#[test]
fn paths() {
    assert_eq!(file_path_str(vec!["src", "graphql", "mod"]), "src/graphql/mod.rs");
    assert_eq!(file_path_str(vec!["x"]), "x.rs");
    assert_eq!(dir_path_str(vec!["src", "graphql"]), "src/graphql");
    assert_eq!(dir_path_str(vec![]), "");
}

#[test]
fn file_kinds_and_uses() {
    assert_eq!(
        gql_file_types(),
        vec!["query", "mutation", "subscription", "model", "directive", "scalar", "input", "interface"]
    );
    assert_eq!(use_gql_definitions(), "use crate::graphql::*;\nuse rusty_gql::ID;");
}

#[test]
fn mod_file_content_uses_snake_case() {
    let m = ModFile { file_names: vec!["UserProfile".to_string(), "Hero".to_string()], path: "src/model" };
    assert_eq!(
        m.content(),
        "mod user_profile;\nmod hero;\n\npub use user_profile::UserProfile;\npub use hero::Hero;\n"
    );
    assert_eq!(m.path(), "src/model/mod.rs");
    let empty = ModFile { file_names: vec![], path: "p" };
    assert_eq!(empty.content(), "\n");
}

#[test]
fn type_files_skip_builtins_and_roots() {
    let field = |n: &str, t: &str| GqlField {
        name: n.to_string(),
        arguments: vec![],
        meta_type: GqlValueType::NamedType(t.to_string()),
    };
    let defs = vec![
        GqlTypeDefinition::Object(GqlObject {
            name: "Query".to_string(),
            implements_interfaces: vec![],
            fields: vec![field("me", "User")],
        }),
        GqlTypeDefinition::Object(GqlObject {
            name: "User".to_string(),
            implements_interfaces: vec!["Node".to_string()],
            fields: vec![field("id", "ID")],
        }),
        GqlTypeDefinition::Interface(GqlInterface {
            name: "Node".to_string(),
            fields: vec![field("id", "ID")],
        }),
        GqlTypeDefinition::Scalar(GqlScalar { name: "String".to_string() }),
        GqlTypeDefinition::Scalar(GqlScalar { name: "Date".to_string() }),
        GqlTypeDefinition::InputObject(GqlInputObject { name: "Filter".to_string(), fields: vec![] }),
        GqlTypeDefinition::Enum(GqlEnum { name: "Role".to_string(), values: vec![] }),
    ];
    let schema =
        build_schema(vec![SchemaDocument { definitions: defs, schema_definition: None, directives: vec![] }])
            .unwrap();
    let names = type_file_names(&schema);
    assert_eq!(names.model_names, vec!["User", "Role"]);
    assert_eq!(names.interface_names, vec!["Node"]);
    assert_eq!(names.input_names, vec!["Filter"]);
    assert_eq!(names.scalar_names, vec!["Date"]);
    assert_eq!(type_file_dir(&schema.type_map[1]), "model");
    assert_eq!(type_file_dir(&schema.type_map[2]), "interface");
    assert_eq!(type_file_dir(&schema.type_map[4]), "scalar");
    assert_eq!(type_file_dir(&schema.type_map[5]), "input");
}

#[test]
fn operation_mod_file_lines() {
    let arg = |n: &str| GqlArgument { name: n.to_string(), meta_type: GqlValueType::NamedType("ID".to_string()) };
    let ops = vec![
        GqlField {
            name: "hero".to_string(),
            arguments: vec![arg("episode"), arg("first")],
            meta_type: GqlValueType::NamedType("Character".to_string()),
        },
        GqlField { name: "droid".to_string(), arguments: vec![], meta_type: GqlValueType::NamedType("Droid".to_string()) },
    ];
    let interfaces = vec!["Character".to_string()];
    let file = OperationModFile {
        operations: &ops,
        operation_type: OperationType::Query,
        path: "src/query/mod.rs".to_string(),
        interface_names: &interfaces,
    };
    assert_eq!(file.name(), "mod.rs");
    assert_eq!(file.path(), "src/query/mod.rs");
    assert_eq!(file.mod_lines(), "mod hero;\nmod droid;\n");
    assert!(file.returns_interface(&ops[0]));
    assert!(!file.returns_interface(&ops[1]));
    assert_eq!(argument_names(&ops[0].arguments), "episode,first");
    assert_eq!(operation_call_line(&ops[0]), "hero::hero(episode,first).await");
    assert_eq!(operation_call_line(&ops[1]), "droid::droid().await");
}
