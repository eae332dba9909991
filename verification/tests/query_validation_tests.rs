use helix_db::analyzer::query_validation::analyze;
use helix_db::analyzer::types::{
    BuiltInMacro, Diagnostic, ErrorCode, Expression, FieldType, GeneratedSource, ItemSchema, Loc,
    Parameter, Position, Query, ReturnType, Schema, SchemaField, Source, StartNode, Statement, Step,
    Traversal,
};

fn field(name: &str, field_type: FieldType) -> SchemaField {
    SchemaField { name: name.to_string(), field_type }
}

fn node(label: &str, fields: Vec<SchemaField>) -> ItemSchema {
    ItemSchema { label: label.to_string(), fields, from_label: None, to_label: None }
}

fn edge(label: &str, from: &str, to: &str) -> ItemSchema {
    ItemSchema {
        label: label.to_string(),
        fields: Vec::new(),
        from_label: Some(from.to_string()),
        to_label: Some(to.to_string()),
    }
}

fn person_schema() -> Schema {
    Schema {
        nodes: vec![node("Person", vec![field("name", FieldType::String)])],
        edges: Vec::new(),
        vectors: Vec::new(),
    }
}

fn loc(start: (usize, usize), end: (usize, usize), span: &str) -> Loc {
    Loc {
        filepath: Some("queries.hx".to_string()),
        start: Position { line: start.0, column: start.1 },
        end: Position { line: end.0, column: end.1 },
        span: span.to_string(),
    }
}

fn param(name: &str, param_type: FieldType) -> Parameter {
    Parameter { name: name.to_string(), param_type, type_loc: loc((1, 10), (1, 16), "param") }
}

fn ident(name: &str) -> Expression {
    Expression::Identifier(name.to_string())
}

fn traversal(start: StartNode, steps: Vec<Step>) -> Expression {
    Expression::Traversal(Box::new(Traversal { start, steps }))
}

fn all_nodes(label: &str) -> Expression {
    traversal(StartNode::Node { label: label.to_string(), by_id: false }, Vec::new())
}

fn node_by_id(label: &str) -> Expression {
    traversal(StartNode::Node { label: label.to_string(), by_id: true }, Vec::new())
}

fn assign(variable: &str, value: Expression) -> Statement {
    Statement::Assignment { variable: variable.to_string(), value }
}

fn ret(e: Expression) -> ReturnType {
    ReturnType::Expression(e)
}

fn query(
    name: &str,
    built_in_macro: Option<BuiltInMacro>,
    parameters: Vec<Parameter>,
    statements: Vec<Statement>,
    return_values: Vec<ReturnType>,
) -> Query {
    Query {
        loc: loc((1, 1), (4, 20), name),
        name: name.to_string(),
        built_in_macro,
        parameters,
        statements,
        return_values,
    }
}

fn run(schema: Schema, q: Query) -> (Vec<Diagnostic>, GeneratedSource) {
    let source = Source { schema, queries: vec![q] };
    let result = analyze(&source);
    assert!(result.is_ok());
    result.ok().unwrap()
}

fn has(diagnostics: &[Diagnostic], code: ErrorCode) -> bool {
    diagnostics.iter().any(|d| d.code == code)
}

#[test]
fn test_unknown_parameter_type() {
    let q = query(
        "test",
        None,
        vec![param("data", FieldType::Identifier("UnknownType".to_string()))],
        vec![assign("p", all_nodes("Person"))],
        vec![ret(ident("p"))],
    );
    let (diagnostics, _) = run(person_schema(), q);
    assert!(has(&diagnostics, ErrorCode::E209));
    assert!(diagnostics
        .iter()
        .any(|d| d.message.contains("unknown type") && d.message.contains("UnknownType")));
}

#[test]
fn test_valid_array_parameter_type() {
    let q = query(
        "createPeople",
        None,
        vec![param("names", FieldType::Array(Box::new(FieldType::String)))],
        vec![assign("p", all_nodes("Person"))],
        vec![ret(ident("p"))],
    );
    let (diagnostics, _) = run(person_schema(), q);
    assert!(!has(&diagnostics, ErrorCode::E209));
}

#[test]
fn test_variable_not_in_scope() {
    let q = query(
        "test",
        None,
        Vec::new(),
        vec![assign("p", all_nodes("Person"))],
        vec![ret(ident("unknownVar"))],
    );
    let (diagnostics, _) = run(person_schema(), q);
    assert!(has(&diagnostics, ErrorCode::E301));
    assert!(diagnostics
        .iter()
        .any(|d| d.message.contains("not in scope") && d.message.contains("unknownVar")));
}

#[test]
fn test_parameter_in_scope() {
    let q = query(
        "test",
        None,
        vec![param("id", FieldType::Uuid)],
        vec![assign("p", node_by_id("Person"))],
        vec![ret(ident("p"))],
    );
    let (diagnostics, _) = run(person_schema(), q);
    assert!(!has(&diagnostics, ErrorCode::E301));
}

#[test]
fn test_assigned_variable_in_scope() {
    let q = query(
        "test",
        None,
        Vec::new(),
        vec![
            assign("p", all_nodes("Person")),
            assign(
                "result",
                traversal(
                    StartNode::Identifier("p".to_string()),
                    vec![Step::Object(vec!["name".to_string()])],
                ),
            ),
        ],
        vec![ret(ident("result"))],
    );
    let (diagnostics, _) = run(person_schema(), q);
    assert!(!has(&diagnostics, ErrorCode::E301));
}

#[test]
fn test_mcp_query_single_return_valid() {
    let q = query(
        "getPerson",
        Some(BuiltInMacro::Mcp),
        vec![param("id", FieldType::Uuid)],
        vec![assign("person", node_by_id("Person"))],
        vec![ret(ident("person"))],
    );
    let (diagnostics, _) = run(person_schema(), q);
    assert!(!has(&diagnostics, ErrorCode::E401));
}

#[test]
fn test_mcp_query_multiple_returns_invalid() {
    let q = query(
        "getPerson",
        Some(BuiltInMacro::Mcp),
        Vec::new(),
        vec![assign("p1", all_nodes("Person")), assign("p2", all_nodes("Person"))],
        vec![ret(ident("p1")), ret(ident("p2"))],
    );
    let (diagnostics, _) = run(person_schema(), q);
    assert!(has(&diagnostics, ErrorCode::E401));
    assert!(diagnostics
        .iter()
        .any(|d| d.message.contains("MCP query must return a single value")));
}

#[test]
fn test_non_mcp_query_multiple_returns_valid() {
    let q = query(
        "getPeople",
        None,
        Vec::new(),
        vec![assign("p1", all_nodes("Person")), assign("p2", all_nodes("Person"))],
        vec![ret(ident("p1")), ret(ident("p2"))],
    );
    let (diagnostics, _) = run(person_schema(), q);
    assert!(!has(&diagnostics, ErrorCode::E401));
}

#[test]
fn test_return_literal_value() {
    let q = query(
        "test",
        None,
        Vec::new(),
        vec![assign("p", all_nodes("Person"))],
        vec![ret(Expression::StringLiteral("success".to_string()))],
    );
    let (diagnostics, _) = run(person_schema(), q);
    assert!(!has(&diagnostics, ErrorCode::E301));
}

#[test]
fn test_return_multiple_values() {
    let q = query(
        "test",
        None,
        Vec::new(),
        vec![assign("p1", all_nodes("Person")), assign("p2", all_nodes("Person"))],
        vec![ret(ident("p1")), ret(ident("p2"))],
    );
    let (diagnostics, _) = run(person_schema(), q);
    assert!(!has(&diagnostics, ErrorCode::E301));
}

#[test]
fn test_return_object() {
    let q = query(
        "test",
        None,
        Vec::new(),
        vec![assign("p", all_nodes("Person"))],
        vec![ReturnType::Object(vec![
            ("person".to_string(), ret(ident("p"))),
            ("status".to_string(), ret(Expression::StringLiteral("found".to_string()))),
        ])],
    );
    let (diagnostics, _) = run(person_schema(), q);
    assert!(!has(&diagnostics, ErrorCode::E301));
}

#[test]
fn test_model_macro_sets_embedding_model() {
    let schema = Schema {
        nodes: Vec::new(),
        edges: Vec::new(),
        vectors: vec![node(
            "Document",
            vec![
                field("content", FieldType::String),
                field("embedding", FieldType::Array(Box::new(FieldType::F32))),
            ],
        )],
    };
    let q = query(
        "addDoc",
        Some(BuiltInMacro::Model("\"gpt-4\"".to_string())),
        vec![param("text", FieldType::String)],
        vec![assign(
            "doc",
            Expression::AddVector { label: "Document".to_string(), args: vec![ident("text")] },
        )],
        vec![ret(ident("doc"))],
    );
    let (diagnostics, generated) = run(schema, q);
    assert!(diagnostics.is_empty() || !has(&diagnostics, ErrorCode::E301));
    assert_eq!(generated.queries.len(), 1);
    assert_eq!(
        generated.queries[0].embedding_model_to_use,
        Some("\"gpt-4\"".to_string())
    );
}

#[test]
fn test_query_with_traversal_and_filtering() {
    let schema = Schema {
        nodes: vec![node(
            "Person",
            vec![field("name", FieldType::String), field("age", FieldType::U32)],
        )],
        edges: vec![edge("Knows", "Person", "Person")],
        vectors: Vec::new(),
    };
    let filter = traversal(
        StartNode::Anonymous,
        vec![
            Step::Object(vec!["age".to_string()]),
            Step::Compare(Box::new(ident("minAge"))),
        ],
    );
    let q = query(
        "getFriends",
        None,
        vec![param("id", FieldType::Uuid), param("minAge", FieldType::U32)],
        vec![
            assign("person", node_by_id("Person")),
            assign(
                "friends",
                traversal(
                    StartNode::Identifier("person".to_string()),
                    vec![Step::Out("Knows".to_string()), Step::Where(Box::new(filter))],
                ),
            ),
        ],
        vec![ret(ident("friends"))],
    );
    let (diagnostics, _) = run(schema, q);
    assert!(!has(&diagnostics, ErrorCode::E301));
}

#[test]
fn test_query_with_multiple_assignments() {
    let schema = Schema {
        nodes: vec![
            node("Person", vec![field("name", FieldType::String)]),
            node("Company", vec![field("name", FieldType::String)]),
        ],
        edges: vec![edge("WorksAt", "Person", "Company")],
        vectors: Vec::new(),
    };
    let q = query(
        "getEmployees",
        None,
        vec![param("companyId", FieldType::Uuid)],
        vec![
            assign("company", node_by_id("Company")),
            assign(
                "edges",
                traversal(
                    StartNode::Identifier("company".to_string()),
                    vec![Step::InE("WorksAt".to_string())],
                ),
            ),
            assign(
                "people",
                traversal(StartNode::Identifier("edges".to_string()), vec![Step::FromN]),
            ),
        ],
        vec![ret(ident("people"))],
    );
    let (diagnostics, _) = run(schema, q);
    assert!(!has(&diagnostics, ErrorCode::E301));
}

#[test]
fn test_query_returning_property_access() {
    let schema = Schema {
        nodes: vec![node(
            "Person",
            vec![field("name", FieldType::String), field("email", FieldType::String)],
        )],
        edges: Vec::new(),
        vectors: Vec::new(),
    };
    let q = query(
        "getEmail",
        None,
        vec![param("id", FieldType::Uuid)],
        vec![
            assign("person", node_by_id("Person")),
            assign(
                "email",
                traversal(
                    StartNode::Identifier("person".to_string()),
                    vec![Step::Object(vec!["email".to_string()])],
                ),
            ),
        ],
        vec![ret(ident("email"))],
    );
    let (diagnostics, _) = run(schema, q);
    assert!(!has(&diagnostics, ErrorCode::E301));
}

#[test]
fn missing_return_is_a_warning_and_mcp_count_is_reported() {
    let q = query("noReturn", None, Vec::new(), vec![assign("p", all_nodes("Person"))], Vec::new());
    let (diagnostics, _) = run(person_schema(), q);
    assert!(diagnostics
        .iter()
        .any(|d| d.code == ErrorCode::W101 && d.message == "query has no RETURN clause"));

    let q = query(
        "three",
        Some(BuiltInMacro::Mcp),
        Vec::new(),
        vec![assign("p", all_nodes("Person"))],
        vec![ret(ident("p")), ret(ident("p")), ret(ident("p"))],
    );
    let (diagnostics, _) = run(person_schema(), q);
    assert!(diagnostics.iter().any(|d| d.code == ErrorCode::E401
        && d.message == "MCP query must return a single value, but it returns 3"));
}

#[test]
fn diagnostics_carry_their_locations() {
    let q = query("noReturn", None, Vec::new(), vec![assign("p", all_nodes("Person"))], Vec::new());
    let (diagnostics, _) = run(person_schema(), q);
    let w = diagnostics.iter().find(|d| d.code == ErrorCode::W101).unwrap();
    let l = w.loc.as_ref().unwrap();
    assert_eq!(l.start, Position { line: 4, column: 20 });
    assert_eq!(l.end, Position { line: 4, column: 20 });
    assert_eq!(l.span, "noReturn");
    assert_eq!(l.filepath.as_deref(), Some("queries.hx"));
    assert_eq!(w.hint.as_deref(), Some("add `RETURN <expr>` at the end"));

    let mut p = param("who", FieldType::Identifier("Ghost".to_string()));
    p.type_loc = loc((2, 5), (2, 10), "Ghost");
    let q = query("badParam", None, vec![p], vec![assign("x", all_nodes("Person"))], vec![ret(ident("x"))]);
    let (diagnostics, _) = run(person_schema(), q);
    let e = diagnostics.iter().find(|d| d.code == ErrorCode::E209).unwrap();
    let l = e.loc.as_ref().unwrap();
    assert_eq!((l.start, l.end), (Position { line: 2, column: 5 }, Position { line: 2, column: 10 }));
    assert_eq!(l.span, "Ghost");

    let q = query(
        "two",
        Some(BuiltInMacro::Mcp),
        Vec::new(),
        vec![assign("p", all_nodes("Person"))],
        vec![ret(ident("p")), ret(ident("p"))],
    );
    let (diagnostics, _) = run(person_schema(), q);
    let e = diagnostics.iter().find(|d| d.code == ErrorCode::E401).unwrap();
    let l = e.loc.as_ref().unwrap();
    assert_eq!((l.start, l.end), (Position { line: 1, column: 1 }, Position { line: 4, column: 20 }));

    let q = query("unknownVar", None, Vec::new(), Vec::new(), vec![ret(ident("nobody"))]);
    let (diagnostics, _) = run(person_schema(), q);
    let e = diagnostics.iter().find(|d| d.code == ErrorCode::E301).unwrap();
    assert!(e.loc.is_none());
}

#[test]
fn generated_parameters_keep_their_types() {
    let q = query(
        "byName",
        None,
        vec![
            param("name", FieldType::String),
            param("ids", FieldType::Array(Box::new(FieldType::Uuid))),
        ],
        Vec::new(),
        Vec::new(),
    );
    let (_, generated) = run(person_schema(), q);
    let ps = &generated.queries[0].parameters;
    assert_eq!(ps.len(), 2);
    assert_eq!(ps[0].name, "name");
    assert!(matches!(ps[0].field_type, FieldType::String));
    assert_eq!(ps[1].name, "ids");
    assert!(matches!(&ps[1].field_type, FieldType::Array(inner) if matches!(**inner, FieldType::Uuid)));
}
