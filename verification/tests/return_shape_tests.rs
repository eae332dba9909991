use helix_db::analyzer::object_literal::{process_array_literal, process_object_literal};
use helix_db::analyzer::text::capitalize_first;
use helix_db::analyzer::query_validation::analyze;
use helix_db::analyzer::types::{
    Ctx, Expression, FieldType, GeneratedQuery, ItemSchema, Loc, Parameter, Position, Query, ReturnFieldSource,
    ReturnFieldType, ReturnType, ReturnValueStruct, Schema, SchemaField, Source, StartNode,
    Statement, Traversal, VariableInfo,
};

fn person_schema() -> Schema {
    Schema {
        nodes: vec![ItemSchema {
            label: "Person".to_string(),
            fields: vec![SchemaField { name: "name".to_string(), field_type: FieldType::String }],
            from_label: None,
            to_label: None,
        }],
        edges: Vec::new(),
        vectors: Vec::new(),
    }
}

fn empty_query(name: &str) -> GeneratedQuery {
    GeneratedQuery {
        name: name.to_string(),
        embedding_model_to_use: None,
        parameters: Vec::new(),
        statements: Vec::new(),
        return_values: Vec::new(),
        return_structs: Vec::new(),
        use_struct_returns: true,
        mcp_handler: None,
    }
}

fn nowhere() -> Loc {
    Loc {
        filepath: None,
        start: Position { line: 0, column: 0 },
        end: Position { line: 0, column: 0 },
        span: String::new(),
    }
}

fn source_query(name: &str) -> Query {
    Query {
        loc: nowhere(),
        name: name.to_string(),
        built_in_macro: None,
        parameters: Vec::new(),
        statements: Vec::new(),
        return_values: Vec::new(),
    }
}

fn assert_json_field(s: &ReturnValueStruct, i: usize, name: &str) {
    assert_eq!(s.field_infos[i].name, name);
    match &s.field_infos[i].field_type {
        ReturnFieldType::Simple(t) => assert_eq!(t, "serde_json::Value"),
        _ => panic!("a field of an object literal holds a JSON value"),
    }
    assert!(matches!(s.field_infos[i].source, ReturnFieldSource::Implicit));
}

#[test]
fn capitalize_first_upper_cases_only_the_first_character() {
    assert_eq!(capitalize_first("getPerson"), "GetPerson");
    assert_eq!(capitalize_first("person"), "Person");
    assert_eq!(capitalize_first("Already"), "Already");
    assert_eq!(capitalize_first("9lives"), "9lives");
    assert_eq!(capitalize_first(""), "");
    assert_eq!(capitalize_first("éclair"), "Éclair");
}

#[test]
fn object_literal_gives_one_struct_field_per_key() {
    let schema = person_schema();
    let ctx = Ctx { schema: &schema, diagnostics: Vec::new(), queries: Vec::new() };
    let scope: Vec<(String, VariableInfo)> = Vec::new();
    let mut generated = empty_query("getThings");
    let fields = vec![
        ("count".to_string(), ReturnType::Expression(Expression::IntegerLiteral(3))),
        (
            "nested".to_string(),
            ReturnType::Object(vec![(
                "flag".to_string(),
                ReturnType::Expression(Expression::BooleanLiteral(true)),
            )]),
        ),
    ];
    let s = process_object_literal(
        &ctx,
        &source_query("getThings"),
        &scope,
        &mut generated,
        &fields,
        "GetThingsReturnType".to_string(),
    );
    assert_eq!(s.name, "GetThingsReturnType");
    assert_eq!(s.field_infos.len(), 2);
    assert_json_field(&s, 0, "count");
    assert_json_field(&s, 1, "nested");
    assert!(!s.is_collection && !s.is_aggregate && !s.is_group_by);
    assert!(!generated.use_struct_returns);
    assert!(generated.return_structs.is_empty());
    assert_eq!(generated.return_values.len(), 1);
    assert_eq!(generated.return_values[0].0, "response");
    assert_eq!(generated.return_values[0].1.name, "serde_json::Value");
    let code = generated.return_values[0].1.literal_value.clone().unwrap();
    assert!(code.starts_with("json!("));
    assert!(code.contains("\"count\": serde_json::Value::Null"));
}

#[test]
fn array_literal_gives_a_struct_with_a_data_field() {
    let schema = person_schema();
    let ctx = Ctx { schema: &schema, diagnostics: Vec::new(), queries: Vec::new() };
    let scope: Vec<(String, VariableInfo)> = Vec::new();
    let mut generated = empty_query("listThings");
    let array = ReturnType::Array(vec![ReturnType::Object(Vec::new())]);
    let s = process_array_literal(
        &ctx,
        &scope,
        &mut generated,
        &array,
        "ListThingsReturnType".to_string(),
    );
    assert_eq!(s.name, "ListThingsReturnType");
    assert_eq!(s.field_infos.len(), 1);
    assert_json_field(&s, 0, "data");
    assert!(!generated.use_struct_returns);
    assert_eq!(generated.return_values.len(), 1);
    assert_eq!(generated.return_values[0].0, "response");
}

#[test]
fn returned_node_gets_a_struct_named_after_query_and_variable() {
    let q = Query {
        loc: nowhere(),
        name: "getPerson".to_string(),
        built_in_macro: None,
        parameters: vec![Parameter { name: "id".to_string(), param_type: FieldType::Uuid, type_loc: nowhere() }],
        statements: vec![Statement::Assignment {
            variable: "person".to_string(),
            value: Expression::Traversal(Box::new(Traversal {
                start: StartNode::Node { label: "Person".to_string(), by_id: true },
                steps: Vec::new(),
            })),
        }],
        return_values: vec![ReturnType::Expression(Expression::Identifier("person".to_string()))],
    };
    let source = Source { schema: person_schema(), queries: vec![q] };
    let (diagnostics, generated) = analyze(&source).ok().unwrap();
    assert!(diagnostics.is_empty());
    let query = &generated.queries[0];
    assert_eq!(query.return_values.len(), 1);
    assert_eq!(query.return_values[0].0, "person");
    assert_eq!(query.return_values[0].1.name, "PersonReturnType");
    assert_eq!(query.return_structs.len(), 1);
    assert_eq!(query.return_structs[0].name, "GetPersonPersonReturnType");
    assert_eq!(query.return_structs[0].source_variable, "person");
}
