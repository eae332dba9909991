use vstd::prelude::*;

verus! {

/// Types of declared properties and of query parameters.
pub enum FieldType {
    String,
    Boolean,
    F32,
    F64,
    I8,
    I16,
    I32,
    I64,
    U8,
    U16,
    U32,
    U64,
    U128,
    Uuid,
    Date,
    Array(Box<FieldType>),
    /// A name: a node, edge or vector type, or an unknown one.
    Identifier(String),
}

/// One declared property of a node, edge or vector type.
pub struct SchemaField {
    pub name: String,
    pub field_type: FieldType,
}

/// A declared node, edge or vector type and its properties, in order.
pub struct ItemSchema {
    pub label: String,
    pub fields: Vec<SchemaField>,
    /// For an edge type, the labels of its two ends.
    pub from_label: Option<String>,
    pub to_label: Option<String>,
}

/// Which kind of item a schema label names.
pub enum ItemKind {
    Node,
    Edge,
    Vector,
}

/// Diagnostic codes the analyzer reports here.
#[derive(PartialEq, Eq, Structural, Debug, Clone, Copy)]
pub enum ErrorCode {
    /// A parameter's type names no node, edge or vector type.
    E209,
    /// A variable is used that is not in scope.
    E301,
    /// An MCP query does not return exactly one value.
    E401,
    /// A query has no RETURN clause.
    W101,
}

/// A position in a source file.
#[derive(PartialEq, Eq, Structural, Debug, Clone, Copy)]
pub struct Position {
    pub line: usize,
    pub column: usize,
}

/// Where a piece of source text stands: its file, where it starts and
/// ends, and the text itself.
pub struct Loc {
    pub filepath: Option<String>,
    pub start: Position,
    pub end: Position,
    pub span: String,
}

/// A problem the analyzer found: its code, the query, the message, where
/// in the source it is (where the analyzer knows), and a hint at a fix.
pub struct Diagnostic {
    pub code: ErrorCode,
    pub query_name: String,
    pub message: String,
    pub loc: Option<Loc>,
    pub hint: Option<String>,
}

/// The type the analyzer infers for an expression.
pub enum Type {
    Node(Option<String>),
    Nodes(Option<String>),
    Edge(Option<String>),
    Edges(Option<String>),
    Vector(Option<String>),
    Vectors(Option<String>),
    Scalar(FieldType),
    Boolean,
    Array(Box<Type>),
    Aggregate(AggregateInfo),
    Unknown,
}

/// A grouping or aggregation over the items of `source_type`.
pub struct AggregateInfo {
    pub source_type: Box<Type>,
    pub properties: NameList,
    pub is_count: bool,
    pub is_group_by: bool,
}

/// A list of property names.
pub enum NameList {
    End,
    Name(String, Box<NameList>),
}

/// The names a list holds, in order.
pub open spec fn name_seq(l: NameList) -> Seq<String>
    decreases l,
{
    match l {
        NameList::End => Seq::empty(),
        NameList::Name(h, t) => seq![h] + name_seq(*t),
    }
}

/// A copy of a list of names.
pub fn copy_names(l: &NameList) -> (r: NameList)
    ensures
        r == *l,
    decreases l,
{
    match l {
        NameList::End => NameList::End,
        NameList::Name(h, t) => NameList::Name(h.clone(), Box::new(copy_names(t))),
    }
}

/// The names of a list, as a vector.
pub fn names_to_vec(l: &NameList) -> (r: Vec<String>)
    ensures
        r@ == name_seq(*l),
    decreases l,
{
    match l {
        NameList::End => Vec::new(),
        NameList::Name(h, t) => {
            let mut v = names_to_vec(t);
            v.insert(0, h.clone());
            assert(v@ =~= seq![*h] + name_seq(**t));
            v
        },
    }
}

/// How a traversal's results are gathered.
pub enum ShouldCollect {
    ToObj,
    ToVec,
    No,
}

/// What kind of traversal generated code runs.
pub enum TraversalType {
    Ref,
    Mut,
    Nested,
    FromVar(String),
}

/// Where a generated traversal starts.
pub enum SourceStep {
    Identifier(String),
    Other,
}

/// The generator's description of a traversal.
pub struct GeneratedTraversal {
    pub source_step: SourceStep,
    pub should_collect: ShouldCollect,
    pub traversal_type: TraversalType,
    /// The generated code of the traversal's steps.
    pub steps_code: String,
    pub object_fields: Vec<String>,
    pub excluded_fields: Vec<String>,
    pub has_object_step: bool,
    pub has_spread: bool,
    pub nested_traversals: Vec<(String, NestedTraversalInfo)>,
    pub is_reused_variable: bool,
}

/// A traversal nested in a projection, such as `friends: _::Out<Knows>`.
pub struct NestedTraversalInfo {
    pub traversal: GeneratedTraversal,
    pub return_type: Option<Type>,
    pub closure_param_name: Option<String>,
    pub closure_source_var: Option<String>,
    pub own_closure_param: Option<String>,
}

/// The type of one field of a returned struct.
pub enum ReturnFieldType {
    Simple(String),
    Nested(Vec<ReturnFieldInfo>),
}

/// Where the value of a returned field comes from.
pub enum ReturnFieldSource {
    Implicit,
    Schema,
    NestedTraversal {
        traversal_expr: String,
        traversal_code: Option<String>,
        nested_struct_name: Option<String>,
        traversal_type: Option<TraversalType>,
        closure_param_name: Option<String>,
        closure_source_var: Option<String>,
        accessed_field_name: Option<String>,
        own_closure_param: Option<String>,
    },
}

/// One field of a struct a query returns.
pub struct ReturnFieldInfo {
    pub name: String,
    pub field_type: ReturnFieldType,
    pub source: ReturnFieldSource,
}

/// A field of a returned value, with its Rust type.
pub struct ReturnValueField {
    pub name: String,
    pub field_type: String,
    pub is_implicit: bool,
}

/// A value a query returns: its Rust type, its fields, and, where the
/// value is computed in place, the code that computes it.
pub struct ReturnValue {
    pub name: String,
    pub fields: Vec<ReturnValueField>,
    pub literal_value: Option<String>,
}

/// A struct generated for a returned value.
pub struct ReturnValueStruct {
    pub name: String,
    pub field_infos: Vec<ReturnFieldInfo>,
    pub source_variable: String,
    pub is_collection: bool,
    pub is_reused_variable: bool,
    pub is_aggregate: bool,
    pub is_group_by: bool,
    pub aggregate_properties: Vec<String>,
    pub is_count_aggregate: bool,
}

} // verus!

verus! {

/// Macros that can stand before a query.
pub enum BuiltInMacro {
    /// `#[mcp]`: the query is served as an MCP tool.
    Mcp,
    /// `#[model("...")]`: the embedding model the query uses, as written.
    Model(String),
}

pub struct Parameter {
    pub name: String,
    pub param_type: FieldType,
    /// Where the parameter's type is written.
    pub type_loc: Loc,
}

/// Where a traversal starts.
pub enum StartNode {
    /// `N<Label>`, or `N<Label>(id)` when `by_id`.
    Node { label: String, by_id: bool },
    /// `E<Label>`, or `E<Label>(id)` when `by_id`.
    Edge { label: String, by_id: bool },
    /// `V<Label>`, or `V<Label>(id)` when `by_id`.
    Vector { label: String, by_id: bool },
    /// A variable.
    Identifier(String),
    /// `_`, the item under test in a condition.
    Anonymous,
}

/// One step of a traversal.
pub enum Step {
    /// `::{a, b}`: a projection onto properties.
    Object(Vec<String>),
    /// `::Out<Edge>`: the nodes the named edges lead to.
    Out(String),
    /// `::In<Edge>`: the nodes the named edges come from.
    In(String),
    /// `::OutE<Edge>`: the outgoing edges of that label.
    OutE(String),
    /// `::InE<Edge>`: the incoming edges of that label.
    InE(String),
    /// `::FromN`: the node an edge comes from.
    FromN,
    /// `::ToN`: the node an edge leads to.
    ToN,
    /// `::WHERE(condition)`.
    Where(Box<Expression>),
    /// A comparison such as `::GT(value)`.
    Compare(Box<Expression>),
}

pub struct Traversal {
    pub start: StartNode,
    pub steps: Vec<Step>,
}

pub enum Expression {
    Identifier(String),
    Traversal(Box<Traversal>),
    StringLiteral(String),
    IntegerLiteral(i64),
    BooleanLiteral(bool),
    /// `AddV<Label>(arguments...)`.
    AddVector { label: String, args: Vec<Expression> },
}

/// What a query returns: an expression, a list, an object literal, or
/// nothing.
pub enum ReturnType {
    Expression(Expression),
    Array(Vec<ReturnType>),
    Object(Vec<(String, ReturnType)>),
    Empty,
}

pub enum Statement {
    Assignment { variable: String, value: Expression },
    Expression(Expression),
}

pub struct Query {
    pub loc: Loc,
    pub name: String,
    pub built_in_macro: Option<BuiltInMacro>,
    pub parameters: Vec<Parameter>,
    pub statements: Vec<Statement>,
    pub return_values: Vec<ReturnType>,
}

/// The declared node, edge and vector types.
pub struct Schema {
    pub nodes: Vec<ItemSchema>,
    pub edges: Vec<ItemSchema>,
    pub vectors: Vec<ItemSchema>,
}

/// A parsed source: its schema and its queries.
pub struct Source {
    pub schema: Schema,
    pub queries: Vec<Query>,
}

/// What the generator is handed for one statement.
pub enum GeneratedStatement {
    Assignment { variable: String, value: Box<GeneratedStatement> },
    Traversal(GeneratedTraversal),
    Identifier(String),
    /// Code of a literal value.
    Literal(String),
    Empty,
}

/// A parameter as the generator is handed it: its name and declared
/// type.
pub struct GeneratedParameter {
    pub name: String,
    pub field_type: FieldType,
}

/// What the generator is handed for one query.
pub struct GeneratedQuery {
    pub name: String,
    pub embedding_model_to_use: Option<String>,
    pub parameters: Vec<GeneratedParameter>,
    pub statements: Vec<GeneratedStatement>,
    pub return_values: Vec<(String, ReturnValue)>,
    pub return_structs: Vec<ReturnValueStruct>,
    pub use_struct_returns: bool,
    pub mcp_handler: Option<String>,
}

/// A variable in scope: its type, whether it holds one item, and how
/// often statements refer to it.
pub struct VariableInfo {
    pub ty: Type,
    pub is_single: bool,
    pub reference_count: usize,
}

/// The analyzer's state: the schema, the diagnostics so far, and the
/// queries analyzed so far.
pub struct Ctx<'a> {
    pub schema: &'a Schema,
    pub diagnostics: Vec<Diagnostic>,
    pub queries: Vec<GeneratedQuery>,
}

/// The analyzer's output.
pub struct GeneratedSource {
    pub queries: Vec<GeneratedQuery>,
}

} // verus!

verus! {

/// A source the analyzer cannot analyze at all; problems within a query
/// are diagnostics instead.
pub struct AnalyzeError {
    pub message: String,
}

} // verus!
