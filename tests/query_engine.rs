use rusty_gql::{
    build_context, build_operation, build_schema, collect_fields, collect_query_fields,
    complete_root, get_variables, is_included, validate, Directive, Document, Field,
    FragmentDefinition, FragmentSpread, GqlEnum, GqlEnumValue, GqlField, GqlObject,
    GqlTypeDefinition, GqlValue, GqlValueType, InlineFragment, OperationDefinition,
    OperationType, Pos, Resolved, ResolvedField, Schema, SchemaDocument, Selection, SelectionSet,
    Value, VariableDefinition,
};

fn pos(line: usize, column: usize) -> Pos {
    Pos { line, column }
}

fn named(n: &str) -> GqlValueType {
    GqlValueType::NamedType(n.to_string())
}

fn gfield(name: &str, ty: GqlValueType) -> GqlField {
    GqlField { name: name.to_string(), arguments: vec![], meta_type: ty }
}

fn object(name: &str, fields: Vec<GqlField>) -> GqlTypeDefinition {
    GqlTypeDefinition::Object(GqlObject {
        name: name.to_string(),
        implements_interfaces: vec![],
        fields,
    })
}

fn schema(defs: Vec<GqlTypeDefinition>) -> Schema {
    build_schema(vec![SchemaDocument { definitions: defs, schema_definition: None, directives: vec![] }])
        .unwrap()
}

fn field_at(name: &str, p: Pos, items: Vec<Selection>) -> Selection {
    Selection::Field(Field {
        position: p,
        alias: None,
        name: name.to_string(),
        arguments: vec![],
        directives: vec![],
        selection_set: SelectionSet { items },
    })
}

fn field(name: &str, items: Vec<Selection>) -> Selection {
    field_at(name, pos(1, 1), items)
}

fn spread(name: &str) -> Selection {
    Selection::FragmentSpread(FragmentSpread {
        position: pos(1, 1),
        fragment_name: name.to_string(),
        directives: vec![],
    })
}

fn fragment(name: &str, on: &str, items: Vec<Selection>) -> FragmentDefinition {
    FragmentDefinition {
        position: pos(5, 1),
        name: name.to_string(),
        type_condition: on.to_string(),
        selection_set: SelectionSet { items },
    }
}

fn query(items: Vec<Selection>, fragments: Vec<FragmentDefinition>) -> Document {
    Document {
        operations: vec![OperationDefinition {
            position: pos(1, 1),
            operation_type: OperationType::Query,
            name: None,
            variable_definitions: vec![],
            selection_set: SelectionSet { items },
        }],
        fragments,
    }
}

fn inner_names(f: &Field) -> Vec<String> {
    f.selection_set
        .items
        .iter()
        .map(|s| match s {
            Selection::Field(x) => x.name.clone(),
            _ => String::from("?"),
        })
        .collect()
}

fn hero_schema() -> Schema {
    schema(vec![object("Query", vec![gfield("hero", named("String"))])])
}

#[test]
fn scenario_a_hero_is_luke() {
    let s = hero_schema();
    let doc = query(vec![field("hero", vec![])], vec![]);
    assert!(validate(&s, &doc).is_empty());
    let op = build_operation(doc, None).unwrap();
    let vars = vec![];
    let mut ctx = build_context(&s, &op, &vars);
    let groups = collect_query_fields(&ctx, &op.selection_set);
    assert_eq!(groups.len(), 1);
    assert_eq!(groups[0].0, "hero");
    let resolved = vec![ResolvedField {
        key: groups[0].0.clone(),
        non_null: false,
        node: Resolved::Value(GqlValue::String("Luke".to_string())),
    }];
    let data = complete_root(&mut ctx, resolved);
    match data {
        GqlValue::Object(es) => {
            assert_eq!(es.len(), 1);
            assert_eq!(es[0].0, "hero");
            assert!(matches!(&es[0].1, GqlValue::String(s) if s == "Luke"));
        }
        other => panic!("unexpected {:?}", other),
    }
    assert!(ctx.errors.is_empty());
}

#[test]
fn scenario_b_missing_non_null_variable() {
    let s = schema(vec![
        object("Query", vec![gfield("hero", named("String"))]),
        GqlTypeDefinition::Enum(GqlEnum {
            name: "Episode".to_string(),
            values: vec![GqlEnumValue { name: "JEDI".to_string() }],
        }),
    ]);
    let defs = vec![VariableDefinition {
        position: pos(1, 7),
        name: "ep".to_string(),
        var_type: GqlValueType::NonNullType(Box::new(named("Episode"))),
        default_value: None,
    }];
    let r = get_variables(&s, &defs, &vec![]);
    assert_eq!(r.unwrap_err(), "ep must not be null");
}

#[test]
fn variables_take_input_then_default() {
    let s = hero_schema();
    let defs = vec![
        VariableDefinition {
            position: pos(1, 7),
            name: "a".to_string(),
            var_type: GqlValueType::NonNullType(Box::new(named("Int"))),
            default_value: None,
        },
        VariableDefinition {
            position: pos(1, 20),
            name: "b".to_string(),
            var_type: named("String"),
            default_value: Some(Value::String("dflt".to_string())),
        },
        VariableDefinition {
            position: pos(1, 30),
            name: "c".to_string(),
            var_type: named("Boolean"),
            default_value: None,
        },
        VariableDefinition {
            position: pos(1, 40),
            name: "d".to_string(),
            var_type: GqlValueType::NonNullType(Box::new(named("Unknown"))),
            default_value: None,
        },
        VariableDefinition {
            position: pos(1, 50),
            name: "e".to_string(),
            var_type: GqlValueType::NonNullType(Box::new(named("Int"))),
            default_value: Some(Value::Int("7".to_string())),
        },
    ];
    let input = vec![("a".to_string(), GqlValue::Number("42".to_string()))];
    let out = get_variables(&s, &defs, &input).unwrap();
    assert_eq!(out.len(), 3);
    assert_eq!(out[0].0, "a");
    assert!(matches!(&out[0].1, GqlValue::Number(n) if n == "42"));
    assert_eq!(out[1].0, "b");
    assert!(matches!(&out[1].1, GqlValue::String(s) if s == "dflt"));
    assert_eq!(out[2].0, "e");
    assert!(matches!(&out[2].1, GqlValue::Number(n) if n == "7"));
}

#[test]
fn supplied_value_wins_over_default() {
    let s = hero_schema();
    let defs = vec![VariableDefinition {
        position: pos(1, 7),
        name: "b".to_string(),
        var_type: named("String"),
        default_value: Some(Value::List(vec![Value::Null, Value::Boolean(true)])),
    }];
    let out = get_variables(&s, &defs, &vec![]).unwrap();
    assert!(matches!(&out[0].1, GqlValue::List(v) if v.len() == 2
        && matches!(v[0], GqlValue::Null) && matches!(v[1], GqlValue::Boolean(true))));
    let input = vec![("b".to_string(), GqlValue::String("given".to_string()))];
    let out = get_variables(&s, &defs, &input).unwrap();
    assert!(matches!(&out[0].1, GqlValue::String(s) if s == "given"));
}

#[test]
fn scenario_c_fields_merge_across_fragment() {
    let doc_items = vec![field("a", vec![field("x", vec![])]), spread("F")];
    let frags = vec![fragment("F", "T", vec![field("a", vec![field("y", vec![])])])];
    let ss = SelectionSet { items: doc_items };
    let groups = collect_fields(&frags, &vec![], &ss);
    assert_eq!(groups.len(), 1);
    assert_eq!(groups[0].0, "a");
    assert_eq!(groups[0].1.len(), 2);
    assert_eq!(inner_names(groups[0].1[0]), vec!["x".to_string()]);
    assert_eq!(inner_names(groups[0].1[1]), vec!["y".to_string()]);
}

#[test]
fn fragment_cycle_terminates() {
    let frags = vec![
        fragment("A", "T", vec![field("a", vec![]), spread("B")]),
        fragment("B", "T", vec![field("b", vec![]), spread("A")]),
    ];
    let ss = SelectionSet { items: vec![spread("A"), field("c", vec![])] };
    let groups = collect_fields(&frags, &vec![], &ss);
    let keys: Vec<&str> = groups.iter().map(|g| g.0.as_str()).collect();
    assert_eq!(keys, vec!["a", "b", "c"]);
    assert!(groups.iter().all(|g| g.1.len() == 1));
}

#[test]
fn spread_after_inline_fragment_is_collected() {
    let inline = Selection::InlineFragment(InlineFragment {
        position: pos(1, 1),
        type_condition: None,
        directives: vec![],
        selection_set: SelectionSet { items: vec![field("i", vec![])] },
    });
    let frags = vec![fragment("F", "T", vec![field("f", vec![])])];
    let ss = SelectionSet { items: vec![spread("F"), inline, field("z", vec![]), spread("F")] };
    let groups = collect_fields(&frags, &vec![], &ss);
    let keys: Vec<&str> = groups.iter().map(|g| g.0.as_str()).collect();
    assert_eq!(keys, vec!["f", "i", "z"]);
}

#[test]
fn alias_is_the_response_key() {
    let mk = |alias: Option<&str>| {
        Selection::Field(Field {
            position: pos(1, 1),
            alias: alias.map(|a| a.to_string()),
            name: "hero".to_string(),
            arguments: vec![],
            directives: vec![],
            selection_set: SelectionSet { items: vec![] },
        })
    };
    let ss = SelectionSet { items: vec![mk(Some("main")), mk(None), mk(Some("main"))] };
    let no_fragments = vec![];
    let groups = collect_fields(&no_fragments, &vec![], &ss);
    let keys: Vec<&str> = groups.iter().map(|g| g.0.as_str()).collect();
    assert_eq!(keys, vec!["main", "hero"]);
    assert_eq!(groups[0].1.len(), 2);
}

fn directive(name: &str, arg: Value) -> Directive {
    Directive { position: pos(1, 1), name: name.to_string(), arguments: vec![("if".to_string(), arg)] }
}

#[test]
fn skip_and_include_directives() {
    let vars = vec![("flag".to_string(), GqlValue::Boolean(true))];
    assert!(!is_included(&vec![directive("skip", Value::Boolean(true))], &vars));
    assert!(is_included(&vec![directive("skip", Value::Boolean(false))], &vars));
    assert!(!is_included(&vec![directive("include", Value::Boolean(false))], &vars));
    assert!(!is_included(&vec![directive("skip", Value::Variable("flag".to_string()))], &vars));
    assert!(is_included(&vec![directive("include", Value::Variable("flag".to_string()))], &vars));
    assert!(is_included(&vec![], &vars));

    let mut skipped = Field {
        position: pos(1, 1),
        alias: None,
        name: "gone".to_string(),
        arguments: vec![],
        directives: vec![],
        selection_set: SelectionSet { items: vec![] },
    };
    skipped.directives.push(directive("skip", Value::Variable("flag".to_string())));
    let ss = SelectionSet { items: vec![Selection::Field(skipped), field("kept", vec![])] };
    let no_fragments = vec![];
    let groups = collect_fields(&no_fragments, &vars, &ss);
    assert_eq!(groups.len(), 1);
    assert_eq!(groups[0].0, "kept");
}

fn star_wars() -> Schema {
    schema(vec![
        object(
            "Query",
            vec![gfield("hero", named("Character")), gfield("name", named("String"))],
        ),
        object("Character", vec![gfield("name", named("String")), gfield("episode", named("Episode"))]),
        GqlTypeDefinition::Enum(GqlEnum {
            name: "Episode".to_string(),
            values: vec![GqlEnumValue { name: "JEDI".to_string() }],
        }),
    ])
}

#[test]
fn leaf_field_with_selection_is_reported() {
    let s = star_wars();
    let doc = query(vec![field("name", vec![field_at("length", pos(2, 9), vec![])])], vec![]);
    let errors = validate(&s, &doc);
    assert_eq!(errors.len(), 1);
    assert_eq!(
        errors[0].message,
        "Field name must not have a selection items because type String has no subfields"
    );
    assert_eq!(errors[0].locations, vec![pos(1, 1)]);
}

#[test]
fn nested_leaf_violation_and_missing_selection() {
    let s = star_wars();
    let doc = query(
        vec![
            field("hero", vec![field_at("episode", pos(3, 5), vec![field("x", vec![])])]),
            field_at("hero", pos(7, 1), vec![]),
        ],
        vec![],
    );
    let errors = validate(&s, &doc);
    assert_eq!(errors.len(), 2);
    assert_eq!(
        errors[0].message,
        "Field episode must not have a selection items because type Episode has no subfields"
    );
    assert_eq!(errors[0].locations, vec![pos(3, 5)]);
    assert_eq!(errors[1].message, "Field hero must have selection items");
    assert_eq!(errors[1].locations, vec![pos(7, 1)]);
}

#[test]
fn fragment_on_leaf_type_is_reported() {
    let s = star_wars();
    let inline = Selection::InlineFragment(InlineFragment {
        position: pos(4, 3),
        type_condition: Some("Episode".to_string()),
        directives: vec![],
        selection_set: SelectionSet { items: vec![] },
    });
    let doc = query(
        vec![field("hero", vec![field("name", vec![]), inline])],
        vec![fragment("F", "Episode", vec![])],
    );
    let errors = validate(&s, &doc);
    assert_eq!(errors.len(), 2);
    assert_eq!(errors[0].message, "Fragment Episode cannot condition non composite type");
    assert_eq!(errors[0].locations, vec![pos(4, 3)]);
    assert_eq!(errors[1].message, "Fragment F cannot condition non composite type");
    assert_eq!(errors[1].locations, vec![pos(5, 1)]);
}

#[test]
fn valid_document_has_no_errors() {
    let s = star_wars();
    let doc = query(
        vec![field("hero", vec![field("name", vec![]), spread("C")])],
        vec![fragment("C", "Character", vec![field("episode", vec![])])],
    );
    assert!(validate(&s, &doc).is_empty());
}

#[test]
fn scenario_d_null_propagates_to_nearest_nullable() {
    let s = star_wars();
    let doc = query(vec![], vec![]);
    let op = build_operation(doc, None).unwrap();
    let vars = vec![];
    let mut ctx = build_context(&s, &op, &vars);
    let hero = Resolved::Object(vec![
        ResolvedField {
            key: "name".to_string(),
            non_null: true,
            node: Resolved::Failed("boom".to_string()),
        },
        ResolvedField {
            key: "episode".to_string(),
            non_null: false,
            node: Resolved::Value(GqlValue::Enum("JEDI".to_string())),
        },
    ]);
    let root = vec![
        ResolvedField { key: "hero".to_string(), non_null: false, node: hero },
        ResolvedField {
            key: "name".to_string(),
            non_null: true,
            node: Resolved::Value(GqlValue::String("R2".to_string())),
        },
    ];
    let data = complete_root(&mut ctx, root);
    match data {
        GqlValue::Object(es) => {
            assert_eq!(es.len(), 2);
            assert_eq!(es[0].0, "hero");
            assert!(matches!(es[0].1, GqlValue::Null));
            assert_eq!(es[1].0, "name");
            assert!(matches!(&es[1].1, GqlValue::String(s) if s == "R2"));
        }
        other => panic!("unexpected {:?}", other),
    }
    assert_eq!(ctx.errors.len(), 2);
    assert_eq!(ctx.errors[0].message, "boom");
    assert_eq!(ctx.errors[0].path.len(), 2);
    assert!(matches!(&ctx.errors[0].path[1], rusty_gql::PathSegment::Field(k) if k == "name"));
    assert_eq!(ctx.errors[1].message, "a non-null field below failed, so this value is null");
    assert_eq!(ctx.errors[1].path.len(), 1);
    assert!(matches!(&ctx.errors[1].path[0], rusty_gql::PathSegment::Field(k) if k == "hero"));
}

#[test]
fn non_null_root_failure_nulls_data() {
    let s = hero_schema();
    let op = build_operation(query(vec![], vec![]), None).unwrap();
    let vars = vec![];
    let mut ctx = build_context(&s, &op, &vars);
    let root = vec![
        ResolvedField { key: "a".to_string(), non_null: true, node: Resolved::Value(GqlValue::Null) },
        ResolvedField {
            key: "b".to_string(),
            non_null: false,
            node: Resolved::List(
                vec![Resolved::Value(GqlValue::Boolean(true)), Resolved::Failed("bad".to_string())],
                false,
            ),
        },
    ];
    let data = complete_root(&mut ctx, root);
    assert!(matches!(data, GqlValue::Null));
    assert_eq!(ctx.errors.len(), 2);
    assert_eq!(ctx.errors[0].message, "null value for a non-null field");
    assert_eq!(ctx.errors[1].message, "bad");
    assert!(matches!(ctx.errors[1].path[1], rusty_gql::PathSegment::Index(1)));
}

#[test]
fn response_keeps_field_order() {
    let s = hero_schema();
    let op = build_operation(query(vec![], vec![]), None).unwrap();
    let vars = vec![];
    let mut ctx = build_context(&s, &op, &vars);
    let root = ["zeta", "alpha", "mid"]
        .iter()
        .map(|k| ResolvedField {
            key: k.to_string(),
            non_null: false,
            node: Resolved::Value(GqlValue::Boolean(false)),
        })
        .collect();
    match complete_root(&mut ctx, root) {
        GqlValue::Object(es) => {
            let keys: Vec<&str> = es.iter().map(|e| e.0.as_str()).collect();
            assert_eq!(keys, vec!["zeta", "alpha", "mid"]);
        }
        other => panic!("unexpected {:?}", other),
    }
}

#[test]
fn operation_is_chosen_by_name() {
    let mk = |name: &str| OperationDefinition {
        position: pos(1, 1),
        operation_type: OperationType::Query,
        name: Some(name.to_string()),
        variable_definitions: vec![],
        selection_set: SelectionSet { items: vec![field(name, vec![])] },
    };
    let doc = Document { operations: vec![mk("One"), mk("Two")], fragments: vec![] };
    let op = build_operation(doc, Some("Two")).unwrap();
    assert_eq!(op.name.as_deref(), Some("Two"));
    let doc = Document { operations: vec![mk("One"), mk("Two")], fragments: vec![] };
    assert!(build_operation(doc, None).is_err());
    let doc = Document { operations: vec![mk("One")], fragments: vec![] };
    assert_eq!(build_operation(doc, Some("Three")).unwrap_err(), "Unknown operation named Three");
}

#[test]
fn forked_context_extends_path_and_joins_errors() {
    let s = hero_schema();
    let op = build_operation(query(vec![], vec![]), None).unwrap();
    let vars = vec![];
    let mut ctx = build_context(&s, &op, &vars);
    let mut child = ctx.fork(&"hero".to_string());
    assert_eq!(child.current_path.len(), 1);
    child.errors.push(rusty_gql::GqlError { message: "m".to_string(), path: vec![] });
    ctx.join(child);
    assert_eq!(ctx.errors.len(), 1);
    assert!(ctx.current_path.is_empty());
}

#[test]
fn projection_follows_query_order_and_aliases() {
    let value = GqlValue::Object(vec![
        ("a".to_string(), GqlValue::Number("1".to_string())),
        (
            "friends".to_string(),
            GqlValue::List(vec![
                GqlValue::Object(vec![
                    ("id".to_string(), GqlValue::String("x".to_string())),
                    ("name".to_string(), GqlValue::String("Han".to_string())),
                ]),
                GqlValue::Object(vec![("name".to_string(), GqlValue::String("Leia".to_string()))]),
            ]),
        ),
        ("z".to_string(), GqlValue::Boolean(true)),
    ]);
    let aliased = Selection::Field(Field {
        position: pos(1, 1),
        alias: Some("first".to_string()),
        name: "a".to_string(),
        arguments: vec![],
        directives: vec![],
        selection_set: SelectionSet { items: vec![] },
    });
    let hero = Field {
        position: pos(1, 1),
        alias: None,
        name: "hero".to_string(),
        arguments: vec![],
        directives: vec![],
        selection_set: SelectionSet {
            items: vec![
                field("z", vec![]),
                field("friends", vec![field("name", vec![])]),
                aliased,
                field("missing", vec![]),
            ],
        },
    };
    let no_fragments = vec![];
    let out = rusty_gql::project(&no_fragments, &vec![], &vec![&hero], &value);
    match out {
        GqlValue::Object(es) => {
            let keys: Vec<&str> = es.iter().map(|e| e.0.as_str()).collect();
            assert_eq!(keys, vec!["z", "friends", "first", "missing"]);
            assert!(matches!(es[0].1, GqlValue::Boolean(true)));
            match &es[1].1 {
                GqlValue::List(items) => {
                    assert_eq!(items.len(), 2);
                    match &items[0] {
                        GqlValue::Object(f) => {
                            assert_eq!(f.len(), 1);
                            assert_eq!(f[0].0, "name");
                            assert!(matches!(&f[0].1, GqlValue::String(s) if s == "Han"));
                        }
                        other => panic!("unexpected {:?}", other),
                    }
                }
                other => panic!("unexpected {:?}", other),
            }
            assert!(matches!(&es[2].1, GqlValue::Number(n) if n == "1"));
            assert!(matches!(es[3].1, GqlValue::Null));
        }
        other => panic!("unexpected {:?}", other),
    }
}

#[test]
fn projection_keeps_leaf_values() {
    let leaf = Field {
        position: pos(1, 1),
        alias: None,
        name: "hero".to_string(),
        arguments: vec![],
        directives: vec![],
        selection_set: SelectionSet { items: vec![] },
    };
    let no_fragments = vec![];
    let out = rusty_gql::project(
        &no_fragments,
        &vec![],
        &vec![&leaf],
        &GqlValue::String("Luke".to_string()),
    );
    assert!(matches!(out, GqlValue::String(s) if s == "Luke"));
}

#[test]
fn nested_null_propagates_through_resolved_tree() {
    let s = schema(vec![
        object("Query", vec![gfield("hero", named("Character"))]),
        object(
            "Character",
            vec![
                gfield("name", GqlValueType::NonNullType(Box::new(named("String")))),
                gfield("friends", GqlValueType::ListType(Box::new(named("Character")))),
            ],
        ),
    ]);
    let hero_field = Field {
        position: pos(1, 1),
        alias: None,
        name: "hero".to_string(),
        arguments: vec![],
        directives: vec![],
        selection_set: SelectionSet {
            items: vec![field("name", vec![]), field("friends", vec![field("name", vec![])])],
        },
    };
    let value = GqlValue::Object(vec![
        ("friends".to_string(), GqlValue::List(vec![
            GqlValue::Object(vec![("name".to_string(), GqlValue::String("Han".to_string()))]),
            GqlValue::Object(vec![]),
        ])),
        ("name".to_string(), GqlValue::String("Luke".to_string())),
    ]);
    let hero_type = match s.get_type("Query") {
        Some(GqlTypeDefinition::Object(o)) => o.fields[0].meta_type.clone(),
        _ => panic!("no query type"),
    };
    let no_fragments = vec![];
    let vars = vec![];
    let node = rusty_gql::resolve_tree(&s, &no_fragments, &vars, Some(&hero_type), &vec![&hero_field], &value);
    let op = build_operation(query(vec![], vec![]), None).unwrap();
    let mut ctx = build_context(&s, &op, &vars);
    let data = complete_root(
        &mut ctx,
        vec![ResolvedField { key: "hero".to_string(), non_null: false, node }],
    );
    match data {
        GqlValue::Object(es) => match &es[0].1 {
            GqlValue::Object(hero) => {
                let keys: Vec<&str> = hero.iter().map(|e| e.0.as_str()).collect();
                assert_eq!(keys, vec!["name", "friends"]);
                match &hero[1].1 {
                    GqlValue::List(friends) => {
                        assert!(matches!(&friends[0], GqlValue::Object(f) if f.len() == 1));
                        assert!(matches!(friends[1], GqlValue::Null));
                    }
                    other => panic!("unexpected {:?}", other),
                }
            }
            other => panic!("unexpected {:?}", other),
        },
        other => panic!("unexpected {:?}", other),
    }
    assert_eq!(ctx.errors.len(), 2);
    assert_eq!(ctx.errors[0].message, "null value for a non-null field");
    assert_eq!(ctx.errors[0].path.len(), 4);
    assert_eq!(ctx.errors[1].message, "a non-null field below failed, so this value is null");
    assert!(matches!(ctx.errors[1].path[2], rusty_gql::PathSegment::Index(1)));
}
