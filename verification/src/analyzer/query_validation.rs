use vstd::prelude::*;
use vstd::string::*;
use crate::analyzer::types::{
    AnalyzeError, GeneratedParameter, GeneratedSource, Source, BuiltInMacro, Ctx, Diagnostic, Loc, Position, ErrorCode, Expression, FieldType, GeneratedQuery,
    GeneratedStatement, GeneratedTraversal, ItemKind, Query, ReturnType, ReturnValue,
    ReturnValueStruct, SchemaField, Schema, ShouldCollect, SourceStep, StartNode, Statement, Step,
    Traversal, TraversalType, Type, VariableInfo, AggregateInfo,
};
use crate::analyzer::text::{
    capitalize_first, capitalized, cat, decimal, i64_to_text, signed_decimal, text_eq, u64_to_text,
};
use crate::analyzer::scope::{lookup, scope_lookup};
use crate::analyzer::return_types::{
    build_return_fields, fields_ok, item_by_label, item_fields, item_named, items_of,
    labelled_kind, rust_type_text, schema_fields, type_to_rust_string_and_fields, value_field_view,
    value_fields,
};
use crate::analyzer::object_literal::{
    field_json, literal_value_ok, object_json, process_array_literal, process_object_literal,
    property_access, same_but_returns,
};

verus! {

// ------------------------------------------------------------------
// Types of expressions
// ------------------------------------------------------------------

/// The type a parameter of declared type `ft` has.
pub open spec fn param_type(ft: FieldType) -> Type
    decreases ft,
{
    match ft {
        FieldType::Array(inner) => Type::Array(Box::new(param_type(*inner))),
        _ => Type::Scalar(ft),
    }
}

/// The label at one end of the edge type `label`: the `to` end or the
/// `from` end.
pub open spec fn edge_end(schema: Schema, label: Seq<char>, to: bool) -> Option<String> {
    match item_named(schema.edges@, label) {
        Some(item) => if to {
            item.to_label
        } else {
            item.from_label
        },
        None => None,
    }
}

pub open spec fn edge_end_of(schema: Schema, ty: Type, to: bool) -> Option<String> {
    match ty {
        Type::Edge(Some(l)) => edge_end(schema, l@, to),
        Type::Edges(Some(l)) => edge_end(schema, l@, to),
        _ => None,
    }
}

/// The first declared type of a property named `name`.
pub open spec fn declared_type(sf: Seq<SchemaField>, name: Seq<char>) -> Option<FieldType>
    decreases sf.len(),
{
    if sf.len() == 0 {
        None
    } else {
        match declared_type(sf.drop_last(), name) {
            Some(t) => Some(t),
            None => if sf.last().name@ == name {
                Some(sf.last().field_type)
            } else {
                None
            },
        }
    }
}

/// The type of property `name` of an item of type `ty`; text when the
/// schema does not declare it.
pub open spec fn property_type(schema: Schema, ty: Type, name: Seq<char>) -> FieldType {
    match labelled_kind(ty) {
        Some((l, kind)) => match item_fields(items_of(schema, kind), l@) {
            Some(sf) => match declared_type(sf, name) {
                Some(ft) => ft,
                None => FieldType::String,
            },
            None => FieldType::String,
        },
        None => FieldType::String,
    }
}

/// The type and cardinality after one traversal step.
pub open spec fn step_result(schema: Schema, cur: (Type, bool), step: Step) -> (Type, bool) {
    let ty = cur.0;
    let single = cur.1;
    match step {
        Step::Object(fields) => if fields@.len() == 1 {
            (Type::Scalar(property_type(schema, ty, fields@[0]@)), single)
        } else {
            (ty, single)
        },
        Step::Out(e) => (Type::Nodes(edge_end(schema, e@, true)), false),
        Step::In(e) => (Type::Nodes(edge_end(schema, e@, false)), false),
        Step::OutE(e) => (Type::Edges(Some(e)), false),
        Step::InE(e) => (Type::Edges(Some(e)), false),
        Step::FromN => {
            let n = edge_end_of(schema, ty, false);
            (
                if single {
                    Type::Node(n)
                } else {
                    Type::Nodes(n)
                },
                single,
            )
        },
        Step::ToN => {
            let n = edge_end_of(schema, ty, true);
            (
                if single {
                    Type::Node(n)
                } else {
                    Type::Nodes(n)
                },
                single,
            )
        },
        Step::Where(_) => (ty, single),
        Step::Compare(_) => (Type::Boolean, single),
    }
}

/// The type and cardinality where a traversal starts.
pub open spec fn start_result(scope: Seq<(String, VariableInfo)>, start: StartNode) -> (Type, bool) {
    match start {
        StartNode::Node { label, by_id } => (
            if by_id {
                Type::Node(Some(label))
            } else {
                Type::Nodes(Some(label))
            },
            by_id,
        ),
        StartNode::Edge { label, by_id } => (
            if by_id {
                Type::Edge(Some(label))
            } else {
                Type::Edges(Some(label))
            },
            by_id,
        ),
        StartNode::Vector { label, by_id } => (
            if by_id {
                Type::Vector(Some(label))
            } else {
                Type::Vectors(Some(label))
            },
            by_id,
        ),
        StartNode::Identifier(v) => match scope_lookup(scope, v@) {
            Some(info) => (info.ty, info.is_single),
            None => (Type::Unknown, true),
        },
        StartNode::Anonymous => (Type::Unknown, true),
    }
}

pub open spec fn steps_result(schema: Schema, start: (Type, bool), steps: Seq<Step>) -> (Type, bool)
    decreases steps.len(),
{
    if steps.len() == 0 {
        start
    } else {
        step_result(schema, steps_result(schema, start, steps.drop_last()), steps.last())
    }
}

/// The type of a traversal's result and whether it is one item.
pub open spec fn traversal_result(
    schema: Schema,
    scope: Seq<(String, VariableInfo)>,
    t: Traversal,
) -> (Type, bool) {
    steps_result(schema, start_result(scope, t.start), t.steps@)
}

/// The type of an expression.
pub open spec fn expr_type(schema: Schema, scope: Seq<(String, VariableInfo)>, e: Expression) -> Type {
    match e {
        Expression::Identifier(id) => match scope_lookup(scope, id@) {
            Some(info) => info.ty,
            None => Type::Unknown,
        },
        Expression::Traversal(t) => traversal_result(schema, scope, *t).0,
        Expression::StringLiteral(_) => Type::Scalar(FieldType::String),
        Expression::IntegerLiteral(_) => Type::Scalar(FieldType::I64),
        Expression::BooleanLiteral(_) => Type::Boolean,
        Expression::AddVector { label, args } => Type::Vector(Some(label)),
    }
}

/// Whether an expression denotes one item.
pub open spec fn expr_single(schema: Schema, scope: Seq<(String, VariableInfo)>, e: Expression) -> bool {
    match e {
        Expression::Identifier(id) => match scope_lookup(scope, id@) {
            Some(info) => info.is_single,
            None => true,
        },
        Expression::Traversal(t) => traversal_result(schema, scope, *t).1,
        _ => true,
    }
}

/// The properties the last projection of `steps` selects.
pub open spec fn last_object_fields(steps: Seq<Step>) -> Seq<String>
    decreases steps.len(),
{
    if steps.len() == 0 {
        Seq::empty()
    } else {
        match steps.last() {
            Step::Object(fields) => fields@,
            _ => last_object_fields(steps.drop_last()),
        }
    }
}

pub open spec fn has_object_step(steps: Seq<Step>) -> bool {
    exists|i: int| 0 <= i < steps.len() && (#[trigger] steps[i]) is Object
}

/// A variable is reused when statements refer to it more than once.
pub open spec fn reused(scope: Seq<(String, VariableInfo)>, v: Seq<char>) -> bool {
    match scope_lookup(scope, v) {
        Some(info) => info.reference_count > 1,
        None => false,
    }
}

/// The generator's traversal for `t`.
pub open spec fn traversal_gen_ok(
    schema: Schema,
    scope: Seq<(String, VariableInfo)>,
    t: Traversal,
    gt: GeneratedTraversal,
) -> bool {
    let single = traversal_result(schema, scope, t).1;
    &&& gt.source_step == match t.start {
        StartNode::Identifier(v) => SourceStep::Identifier(v),
        _ => SourceStep::Other,
    }
    &&& gt.should_collect == if single {
        ShouldCollect::ToObj
    } else {
        ShouldCollect::ToVec
    }
    &&& gt.traversal_type == TraversalType::Ref
    &&& gt.steps_code@ == Seq::<char>::empty()
    &&& gt.object_fields@ == last_object_fields(t.steps@)
    &&& gt.excluded_fields@.len() == 0
    &&& gt.has_object_step == has_object_step(t.steps@)
    &&& !gt.has_spread
    &&& gt.nested_traversals@.len() == 0
    &&& gt.is_reused_variable == match t.start {
        StartNode::Identifier(v) => reused(scope, v@),
        _ => false,
    }
}

/// The generator's traversal for adding a vector: one new item.
pub open spec fn add_vector_gen_ok(gt: GeneratedTraversal) -> bool {
    &&& gt.source_step == SourceStep::Other
    &&& gt.should_collect == ShouldCollect::ToObj
    &&& gt.traversal_type == TraversalType::Mut
    &&& gt.steps_code@ == Seq::<char>::empty()
    &&& gt.object_fields@.len() == 0
    &&& gt.excluded_fields@.len() == 0
    &&& !gt.has_object_step
    &&& !gt.has_spread
    &&& gt.nested_traversals@.len() == 0
    &&& !gt.is_reused_variable
}

/// The code of a literal.
pub open spec fn literal_code(e: Expression) -> Seq<char> {
    match e {
        Expression::StringLiteral(s) => "\""@ + s@ + "\""@,
        Expression::IntegerLiteral(n) => signed_decimal(n as int),
        Expression::BooleanLiteral(b) => if b {
            "true"@
        } else {
            "false"@
        },
        _ => Seq::empty(),
    }
}

/// `st` is what the generator is handed for expression `e`.
pub open spec fn generated_ok(
    schema: Schema,
    scope: Seq<(String, VariableInfo)>,
    e: Expression,
    st: GeneratedStatement,
) -> bool {
    match e {
        Expression::Identifier(id) => st == GeneratedStatement::Identifier(id),
        Expression::Traversal(t) => st matches GeneratedStatement::Traversal(gt)
            && traversal_gen_ok(schema, scope, *t, gt),
        Expression::AddVector { .. } => st matches GeneratedStatement::Traversal(gt)
            && add_vector_gen_ok(gt),
        _ => st matches GeneratedStatement::Literal(c) && c@ == literal_code(e),
    }
}

// ------------------------------------------------------------------
// Variables that are not in scope
// ------------------------------------------------------------------

/// The unknown variables `e` refers to, in order, a bare variable too.
pub open spec fn expr_unknowns(scope: Seq<(String, VariableInfo)>, e: Expression) -> Seq<Seq<char>>
    decreases e, 1nat,
{
    match e {
        Expression::Identifier(id) => if scope_lookup(scope, id@) is Some {
            Seq::empty()
        } else {
            seq![id@]
        },
        _ => inner_unknowns(scope, e),
    }
}

/// The unknown variables `e` refers to, leaving out `e` itself when it
/// is a bare variable.
pub open spec fn inner_unknowns(scope: Seq<(String, VariableInfo)>, e: Expression) -> Seq<Seq<char>>
    decreases e, 0nat,
{
    match e {
        Expression::Traversal(t) => start_unknowns(scope, t.start) + steps_unknowns(
            scope,
            t.steps,
            t.steps@.len(),
        ),
        Expression::AddVector { label, args } => args_unknowns(scope, args, args@.len()),
        _ => Seq::empty(),
    }
}

/// The starting variable of a traversal, when it is not in scope.
pub open spec fn start_unknowns(scope: Seq<(String, VariableInfo)>, start: StartNode) -> Seq<Seq<char>> {
    match start {
        StartNode::Identifier(v) => if scope_lookup(scope, v@) is Some {
            Seq::empty()
        } else {
            seq![v@]
        },
        _ => Seq::empty(),
    }
}

pub open spec fn steps_unknowns(scope: Seq<(String, VariableInfo)>, steps: Vec<Step>, n: nat) -> Seq<
    Seq<char>,
>
    decreases steps, n,
{
    if n == 0 || n > steps@.len() {
        Seq::empty()
    } else {
        steps_unknowns(scope, steps, (n - 1) as nat) + match steps@[n - 1] {
            Step::Where(c) => expr_unknowns(scope, *c),
            Step::Compare(c) => expr_unknowns(scope, *c),
            _ => Seq::empty(),
        }
    }
}

pub open spec fn args_unknowns(scope: Seq<(String, VariableInfo)>, args: Vec<Expression>, n: nat) -> Seq<
    Seq<char>,
>
    decreases args, n,
{
    if n == 0 || n > args@.len() {
        Seq::empty()
    } else {
        args_unknowns(scope, args, (n - 1) as nat) + expr_unknowns(scope, args@[n - 1])
    }
}

pub open spec fn not_in_scope_text(name: Seq<char>) -> Seq<char> {
    "variable `"@ + name + "` is not in scope"@
}

/// `d` reports that variable `name` is not in scope.
/// `d` reports that variable `name` is not in scope. Expressions carry no
/// source location here, so neither does the report; it has no hint.
pub open spec fn not_in_scope_ok(d: Diagnostic, query_name: Seq<char>, name: Seq<char>) -> bool {
    &&& d.code == ErrorCode::E301
    &&& d.query_name@ == query_name
    &&& d.message@ == not_in_scope_text(name)
    &&& d.loc is None
    &&& d.hint is None
}

/// An optional text by its view.
pub open spec fn opt_text(o: Option<String>) -> Option<Seq<char>> {
    match o {
        Some(t) => Some(t@),
        None => None,
    }
}

/// `l` lies in the file of `at`, with its text, from `start` to `end`.
pub open spec fn loc_is(l: Loc, at: Loc, start: Position, end: Position) -> bool {
    &&& opt_text(l.filepath) == opt_text(at.filepath)
    &&& l.start == start
    &&& l.end == end
    &&& l.span@ == at.span@
}

/// `d` is placed in the file of `at`, with its text, from `start` to
/// `end`.
pub open spec fn placed_at(d: Diagnostic, at: Loc, start: Position, end: Position) -> bool {
    d.loc matches Some(l) && loc_is(l, at, start, end)
}

/// A location in the file of `at`, with its text, from `start` to `end`.
fn loc_between(at: &Loc, start: Position, end: Position) -> (l: Loc)
    ensures
        loc_is(l, *at, start, end),
{
    let filepath = match &at.filepath {
        Some(f) => Some(f.clone()),
        None => None,
    };
    Loc { filepath, start, end, span: at.span.clone() }
}

/// `new` is `old` followed by one report per name in `names`.
pub open spec fn reports_unknowns(
    old: Seq<Diagnostic>,
    new: Seq<Diagnostic>,
    query_name: Seq<char>,
    names: Seq<Seq<char>>,
) -> bool {
    &&& new.len() == old.len() + names.len()
    &&& forall|i: int| 0 <= i < old.len() ==> new[i] == old[i]
    &&& forall|j: int|
        0 <= j < names.len() ==> not_in_scope_ok(#[trigger] new[old.len() + j], query_name, names[j])
}

proof fn lemma_reports_trans(
    a: Seq<Diagnostic>,
    b: Seq<Diagnostic>,
    c: Seq<Diagnostic>,
    q: Seq<char>,
    x: Seq<Seq<char>>,
    y: Seq<Seq<char>>,
)
    requires
        reports_unknowns(a, b, q, x),
        reports_unknowns(b, c, q, y),
    ensures
        reports_unknowns(a, c, q, x + y),
{
    assert forall|j: int| 0 <= j < (x + y).len() implies not_in_scope_ok(
        #[trigger] c[a.len() + j],
        q,
        (x + y)[j],
    ) by {
        if j < x.len() {
            assert(c[a.len() + j] == b[a.len() + j]);
        } else {
            assert(c[b.len() + (j - x.len())] == c[a.len() + j]);
        }
    }
}

proof fn lemma_reports_none(a: Seq<Diagnostic>, q: Seq<char>)
    ensures
        reports_unknowns(a, a, q, Seq::empty()),
{
}

/// The diagnostic that variable `name` is not in scope.
fn not_in_scope(query_name: &String, name: &str) -> (d: Diagnostic)
    ensures
        not_in_scope_ok(d, query_name@, name@),
{
    let mut msg = String::from_str("variable `");
    msg.append(name);
    msg.append("` is not in scope");
    Diagnostic { code: ErrorCode::E301, query_name: query_name.clone(), message: msg, loc: None, hint: None }
}

fn report_if_unknown(
    ctx: &mut Ctx,
    scope: &Vec<(String, VariableInfo)>,
    query_name: &String,
    name: &String,
)
    ensures
        final(ctx).schema == old(ctx).schema,
        final(ctx).queries == old(ctx).queries,
        reports_unknowns(
            old(ctx).diagnostics@,
            final(ctx).diagnostics@,
            query_name@,
            if scope_lookup(scope@, name@) is Some {
                Seq::empty()
            } else {
                seq![name@]
            },
        ),
{
    if lookup(scope, name.as_str()).is_none() {
        let d = not_in_scope(query_name, name.as_str());
        ctx.diagnostics.push(d);
    }
}

/// Reports every unknown variable `e` refers to, `e` itself included.
fn report_expr_unknowns(
    ctx: &mut Ctx,
    scope: &Vec<(String, VariableInfo)>,
    query_name: &String,
    e: &Expression,
)
    ensures
        final(ctx).schema == old(ctx).schema,
        final(ctx).queries == old(ctx).queries,
        reports_unknowns(
            old(ctx).diagnostics@,
            final(ctx).diagnostics@,
            query_name@,
            expr_unknowns(scope@, *e),
        ),
    decreases e, 1nat,
{
    match e {
        Expression::Identifier(id) => report_if_unknown(ctx, scope, query_name, id),
        _ => report_inner_unknowns(ctx, scope, query_name, e),
    }
}

/// Reports every unknown variable `e` refers to, leaving out `e` itself
/// when it is a bare variable.
fn report_inner_unknowns(
    ctx: &mut Ctx,
    scope: &Vec<(String, VariableInfo)>,
    query_name: &String,
    e: &Expression,
)
    ensures
        final(ctx).schema == old(ctx).schema,
        final(ctx).queries == old(ctx).queries,
        reports_unknowns(
            old(ctx).diagnostics@,
            final(ctx).diagnostics@,
            query_name@,
            inner_unknowns(scope@, *e),
        ),
    decreases e, 0nat,
{
    let ghost d0 = ctx.diagnostics@;
    match e {
        Expression::Traversal(t) => {
            match &t.start {
                StartNode::Identifier(v) => report_if_unknown(ctx, scope, query_name, v),
                _ => {
                    proof {
                        lemma_reports_none(d0, query_name@);
                    }
                },
            }
            let ghost d1 = ctx.diagnostics@;
            let ghost first = start_unknowns(scope@, t.start);
            let mut i: usize = 0;
            while i < t.steps.len()
                invariant
                    i <= t.steps@.len(),
                    *e == Expression::Traversal(*t),
                    ctx.schema == old(ctx).schema,
                    ctx.queries == old(ctx).queries,
                    reports_unknowns(d0, d1, query_name@, first),
                    reports_unknowns(
                        d1,
                        ctx.diagnostics@,
                        query_name@,
                        steps_unknowns(scope@, t.steps, i as nat),
                    ),
                decreases t.steps@.len() - i,
            {
                let ghost before = ctx.diagnostics@;
                let step = &t.steps[i];
                proof {
                    assert(decreases_to!(*e => (*e)->Traversal_0));
                }
                match step {
                    Step::Where(c) => report_expr_unknowns(ctx, scope, query_name, c),
                    Step::Compare(c) => report_expr_unknowns(ctx, scope, query_name, c),
                    _ => {
                        proof {
                            lemma_reports_none(before, query_name@);
                        }
                    },
                }
                proof {
                    let prev = steps_unknowns(scope@, t.steps, i as nat);
                    let add = match t.steps@[i as int] {
                        Step::Where(c) => expr_unknowns(scope@, *c),
                        Step::Compare(c) => expr_unknowns(scope@, *c),
                        _ => Seq::empty(),
                    };
                    lemma_reports_trans(d1, before, ctx.diagnostics@, query_name@, prev, add);
                }
                i = i + 1;
            }
            proof {
                lemma_reports_trans(d0, d1, ctx.diagnostics@, query_name@, first, steps_unknowns(scope@, t.steps, t.steps@.len()));
            }
        },
        Expression::AddVector { label, args } => {
            proof {
                lemma_reports_none(d0, query_name@);
            }
            let mut i: usize = 0;
            while i < args.len()
                invariant
                    i <= args@.len(),
                    *e == (Expression::AddVector { label: *label, args: *args }),
                    ctx.schema == old(ctx).schema,
                    ctx.queries == old(ctx).queries,
                    reports_unknowns(
                        d0,
                        ctx.diagnostics@,
                        query_name@,
                        args_unknowns(scope@, *args, i as nat),
                    ),
                decreases args@.len() - i,
            {
                let ghost before = ctx.diagnostics@;
                proof {
                    assert(decreases_to!(*e => (*e)->args));
                }
                report_expr_unknowns(ctx, scope, query_name, &args[i]);
                proof {
                    lemma_reports_trans(d0, before, ctx.diagnostics@, query_name@, args_unknowns(scope@, *args, i as nat), expr_unknowns(scope@, args@[i as int]));
                }
                i = i + 1;
            }
        },
        _ => {
            proof {
                lemma_reports_none(d0, query_name@);
            }
        },
    }
}

} // verus!

verus! {

// ------------------------------------------------------------------
// Inference
// ------------------------------------------------------------------

/// A copy of a property type.
pub fn copy_field_type(ft: &FieldType) -> (r: FieldType)
    ensures
        r == *ft,
    decreases ft,
{
    match ft {
        FieldType::String => FieldType::String,
        FieldType::Boolean => FieldType::Boolean,
        FieldType::F32 => FieldType::F32,
        FieldType::F64 => FieldType::F64,
        FieldType::I8 => FieldType::I8,
        FieldType::I16 => FieldType::I16,
        FieldType::I32 => FieldType::I32,
        FieldType::I64 => FieldType::I64,
        FieldType::U8 => FieldType::U8,
        FieldType::U16 => FieldType::U16,
        FieldType::U32 => FieldType::U32,
        FieldType::U64 => FieldType::U64,
        FieldType::U128 => FieldType::U128,
        FieldType::Uuid => FieldType::Uuid,
        FieldType::Date => FieldType::Date,
        FieldType::Array(inner) => FieldType::Array(Box::new(copy_field_type(inner))),
        FieldType::Identifier(name) => FieldType::Identifier(name.clone()),
    }
}

fn copy_label(l: &Option<String>) -> (r: Option<String>)
    ensures
        r == *l,
{
    match l {
        Some(s) => Some(s.clone()),
        None => None,
    }
}

/// A copy of a type.
pub fn copy_type(t: &Type) -> (r: Type)
    ensures
        r == *t,
    decreases t,
{
    match t {
        Type::Node(l) => Type::Node(copy_label(l)),
        Type::Nodes(l) => Type::Nodes(copy_label(l)),
        Type::Edge(l) => Type::Edge(copy_label(l)),
        Type::Edges(l) => Type::Edges(copy_label(l)),
        Type::Vector(l) => Type::Vector(copy_label(l)),
        Type::Vectors(l) => Type::Vectors(copy_label(l)),
        Type::Scalar(ft) => Type::Scalar(copy_field_type(ft)),
        Type::Boolean => Type::Boolean,
        Type::Array(inner) => Type::Array(Box::new(copy_type(inner))),
        Type::Aggregate(info) => Type::Aggregate(
            AggregateInfo {
                source_type: Box::new(copy_type(&info.source_type)),
                properties: crate::analyzer::types::copy_names(&info.properties),
                is_count: info.is_count,
                is_group_by: info.is_group_by,
            },
        ),
        Type::Unknown => Type::Unknown,
    }
}

/// The type a parameter of declared type `ft` has.
pub fn type_of_param(ft: &FieldType) -> (r: Type)
    ensures
        r == param_type(*ft),
    decreases ft,
{
    match ft {
        FieldType::Array(inner) => Type::Array(Box::new(type_of_param(inner))),
        _ => Type::Scalar(copy_field_type(ft)),
    }
}

proof fn lemma_declared_prefix(sf: Seq<SchemaField>, name: Seq<char>, k: int)
    requires
        0 <= k <= sf.len(),
        declared_type(sf.take(k), name) is Some,
    ensures
        declared_type(sf, name) == declared_type(sf.take(k), name),
    decreases sf.len(),
{
    if k == sf.len() {
        assert(sf.take(k) =~= sf);
    } else {
        assert(sf.drop_last().take(k) =~= sf.take(k));
        lemma_declared_prefix(sf.drop_last(), name, k);
    }
}

fn declared_type_of<'a>(sf: &'a Vec<SchemaField>, name: &str) -> (r: Option<&'a FieldType>)
    ensures
        match r {
            Some(ft) => declared_type(sf@, name@) == Some(*ft),
            None => declared_type(sf@, name@) is None,
        },
{
    let mut i: usize = 0;
    while i < sf.len()
        invariant
            i <= sf@.len(),
            declared_type(sf@.take(i as int), name@) is None,
        decreases sf@.len() - i,
    {
        proof {
            assert(sf@.take(i + 1).drop_last() =~= sf@.take(i as int));
        }
        if text_eq(sf[i].name.as_str(), name) {
            proof {
                lemma_declared_prefix(sf@, name@, i + 1);
            }
            return Some(&sf[i].field_type);
        }
        i = i + 1;
    }
    assert(sf@.take(sf@.len() as int) =~= sf@);
    None
}

fn property_type_of(schema: &Schema, ty: &Type, name: &str) -> (r: FieldType)
    ensures
        r == property_type(*schema, *ty, name@),
{
    let target: Option<(&String, ItemKind)> = match ty {
        Type::Node(Some(l)) | Type::Nodes(Some(l)) => Some((l, ItemKind::Node)),
        Type::Edge(Some(l)) | Type::Edges(Some(l)) => Some((l, ItemKind::Edge)),
        Type::Vector(Some(l)) | Type::Vectors(Some(l)) => Some((l, ItemKind::Vector)),
        _ => None,
    };
    match target {
        Some((label, kind)) => match schema_fields(schema, &kind, label.as_str()) {
            Some(sf) => match declared_type_of(sf, name) {
                Some(ft) => copy_field_type(ft),
                None => FieldType::String,
            },
            None => FieldType::String,
        },
        None => FieldType::String,
    }
}

fn edge_end_of_label(schema: &Schema, label: &str, to: bool) -> (r: Option<String>)
    ensures
        r == edge_end(*schema, label@, to),
{
    match item_by_label(&schema.edges, label) {
        Some(item) => if to {
            copy_label(&item.to_label)
        } else {
            copy_label(&item.from_label)
        },
        None => None,
    }
}

fn edge_end_of_type(schema: &Schema, ty: &Type, to: bool) -> (r: Option<String>)
    ensures
        r == edge_end_of(*schema, *ty, to),
{
    match ty {
        Type::Edge(Some(l)) | Type::Edges(Some(l)) => edge_end_of_label(schema, l.as_str(), to),
        _ => None,
    }
}

fn apply_step(schema: &Schema, cur: Type, single: bool, step: &Step) -> (r: (Type, bool))
    ensures
        r == step_result(*schema, (cur, single), *step),
{
    match step {
        Step::Object(fields) => {
            if fields.len() == 1 {
                (Type::Scalar(property_type_of(schema, &cur, fields[0].as_str())), single)
            } else {
                (cur, single)
            }
        },
        Step::Out(e) => (Type::Nodes(edge_end_of_label(schema, e.as_str(), true)), false),
        Step::In(e) => (Type::Nodes(edge_end_of_label(schema, e.as_str(), false)), false),
        Step::OutE(e) => (Type::Edges(Some(e.clone())), false),
        Step::InE(e) => (Type::Edges(Some(e.clone())), false),
        Step::FromN => {
            let n = edge_end_of_type(schema, &cur, false);
            (
                if single {
                    Type::Node(n)
                } else {
                    Type::Nodes(n)
                },
                single,
            )
        },
        Step::ToN => {
            let n = edge_end_of_type(schema, &cur, true);
            (
                if single {
                    Type::Node(n)
                } else {
                    Type::Nodes(n)
                },
                single,
            )
        },
        Step::Where(_) => (cur, single),
        Step::Compare(_) => (Type::Boolean, single),
    }
}

fn start_of(scope: &Vec<(String, VariableInfo)>, start: &StartNode) -> (r: (Type, bool))
    requires
    ensures
        r == start_result(scope@, *start),
{
    match start {
        StartNode::Node { label, by_id } => (
            if *by_id {
                Type::Node(Some(label.clone()))
            } else {
                Type::Nodes(Some(label.clone()))
            },
            *by_id,
        ),
        StartNode::Edge { label, by_id } => (
            if *by_id {
                Type::Edge(Some(label.clone()))
            } else {
                Type::Edges(Some(label.clone()))
            },
            *by_id,
        ),
        StartNode::Vector { label, by_id } => (
            if *by_id {
                Type::Vector(Some(label.clone()))
            } else {
                Type::Vectors(Some(label.clone()))
            },
            *by_id,
        ),
        StartNode::Identifier(v) => match lookup(scope, v.as_str()) {
            Some(info) => {
                (copy_type(&info.ty), info.is_single)
            },
            None => (Type::Unknown, true),
        },
        StartNode::Anonymous => (Type::Unknown, true),
    }
}

/// The type of a traversal's result and whether it is one item.
fn infer_traversal(schema: &Schema, scope: &Vec<(String, VariableInfo)>, t: &Traversal) -> (r: (
    Type,
    bool,
))
    requires
    ensures
        r == traversal_result(*schema, scope@, *t),
{
    let start = start_of(scope, &t.start);
    let ghost s0 = start;
    let mut cur = start.0;
    let mut single = start.1;
    let mut i: usize = 0;
    while i < t.steps.len()
        invariant
            i <= t.steps@.len(),
            (cur, single) == steps_result(*schema, s0, t.steps@.take(i as int)),
        decreases t.steps@.len() - i,
    {
        proof {
            assert(t.steps@.take(i + 1).drop_last() =~= t.steps@.take(i as int));
        }
        let next = apply_step(schema, cur, single, &t.steps[i]);
        cur = next.0;
        single = next.1;
        i = i + 1;
    }
    assert(t.steps@.take(t.steps@.len() as int) =~= t.steps@);
    (cur, single)
}

fn last_object_fields_of(steps: &Vec<Step>) -> (r: Vec<String>)
    ensures
        r@ == last_object_fields(steps@),
{
    let mut i: usize = steps.len();
    assert(steps@.take(i as int) =~= steps@);
    while i > 0
        invariant
            i <= steps@.len(),
            last_object_fields(steps@) == last_object_fields(steps@.take(i as int)),
        decreases i,
    {
        proof {
            assert(steps@.take(i as int).drop_last() =~= steps@.take(i - 1));
        }
        match &steps[i - 1] {
            Step::Object(fields) => {
                return crate::analyzer::text::copy_strings(fields);
            },
            _ => {},
        }
        i = i - 1;
    }
    Vec::new()
}

fn has_object_step_in(steps: &Vec<Step>) -> (r: bool)
    ensures
        r == has_object_step(steps@),
{
    let mut i: usize = 0;
    while i < steps.len()
        invariant
            i <= steps@.len(),
            forall|j: int| 0 <= j < i ==> !((#[trigger] steps@[j]) is Object),
        decreases steps@.len() - i,
    {
        match &steps[i] {
            Step::Object(_) => {
                return true;
            },
            _ => {},
        }
        i = i + 1;
    }
    false
}

fn is_reused(scope: &Vec<(String, VariableInfo)>, v: &str) -> (r: bool)
    ensures
        r == reused(scope@, v@),
{
    match lookup(scope, v) {
        Some(info) => info.reference_count > 1,
        None => false,
    }
}

fn generate_traversal(schema: &Schema, scope: &Vec<(String, VariableInfo)>, t: &Traversal) -> (gt:
    GeneratedTraversal)
    requires
    ensures
        traversal_gen_ok(*schema, scope@, *t, gt),
{
    let (_, single) = infer_traversal(schema, scope, t);
    let (source_step, reuse) = match &t.start {
        StartNode::Identifier(v) => (SourceStep::Identifier(v.clone()), is_reused(scope, v.as_str())),
        _ => (SourceStep::Other, false),
    };
    GeneratedTraversal {
        source_step,
        should_collect: if single {
            ShouldCollect::ToObj
        } else {
            ShouldCollect::ToVec
        },
        traversal_type: TraversalType::Ref,
        steps_code: String::new(),
        object_fields: last_object_fields_of(&t.steps),
        excluded_fields: Vec::new(),
        has_object_step: has_object_step_in(&t.steps),
        has_spread: false,
        nested_traversals: Vec::new(),
        is_reused_variable: reuse,
    }
}

fn literal_code_of(e: &Expression) -> (r: String)
    ensures
        r@ == literal_code(*e),
{
    match e {
        Expression::StringLiteral(s) => {
            let mut r = String::from_str("\"");
            r.append(s.as_str());
            r.append("\"");
            r
        },
        Expression::IntegerLiteral(n) => i64_to_text(*n),
        Expression::BooleanLiteral(b) => if *b {
            String::from_str("true")
        } else {
            String::from_str("false")
        },
        _ => String::new(),
    }
}

/// The type of `expr` and what the generator is handed for it; reports
/// every unknown variable `expr` refers to below its top level.
fn infer_expr_type(
    ctx: &mut Ctx,
    scope: &Vec<(String, VariableInfo)>,
    source_query: &Query,
    expr: &Expression,
) -> (r: (Type, GeneratedStatement))
    requires
    ensures
        final(ctx).schema == old(ctx).schema,
        final(ctx).queries == old(ctx).queries,
        reports_unknowns(
            old(ctx).diagnostics@,
            final(ctx).diagnostics@,
            source_query.name@,
            inner_unknowns(scope@, *expr),
        ),
        r.0 == expr_type(*old(ctx).schema, scope@, *expr),
        generated_ok(*old(ctx).schema, scope@, *expr, r.1),
{
    report_inner_unknowns(ctx, scope, &source_query.name, expr);
    match expr {
        Expression::Identifier(id) => {
            let ty = match lookup(scope, id.as_str()) {
                Some(info) => {
                    copy_type(&info.ty)
                },
                None => Type::Unknown,
            };
            (ty, GeneratedStatement::Identifier(id.clone()))
        },
        Expression::Traversal(t) => {
            let (ty, _) = infer_traversal(ctx.schema, scope, t);
            (ty, GeneratedStatement::Traversal(generate_traversal(ctx.schema, scope, t)))
        },
        Expression::AddVector { label, args } => (
            Type::Vector(Some(label.clone())),
            GeneratedStatement::Traversal(
                GeneratedTraversal {
                    source_step: SourceStep::Other,
                    should_collect: ShouldCollect::ToObj,
                    traversal_type: TraversalType::Mut,
                    steps_code: String::new(),
                    object_fields: Vec::new(),
                    excluded_fields: Vec::new(),
                    has_object_step: false,
                    has_spread: false,
                    nested_traversals: Vec::new(),
                    is_reused_variable: false,
                },
            ),
        ),
        Expression::StringLiteral(_) => (
            Type::Scalar(FieldType::String),
            GeneratedStatement::Literal(literal_code_of(expr)),
        ),
        Expression::IntegerLiteral(_) => (
            Type::Scalar(FieldType::I64),
            GeneratedStatement::Literal(literal_code_of(expr)),
        ),
        Expression::BooleanLiteral(_) => (Type::Boolean, GeneratedStatement::Literal(literal_code_of(expr))),
    }
}

} // verus!

verus! {

// ------------------------------------------------------------------
// Statements
// ------------------------------------------------------------------

/// The variable an expression starts from, if any.
pub open spec fn referenced_var(e: Expression) -> Option<Seq<char>> {
    match e {
        Expression::Identifier(id) => Some(id@),
        Expression::Traversal(t) => match t.start {
            StartNode::Identifier(v) => Some(v@),
            _ => None,
        },
        _ => None,
    }
}

/// `i` is the last binding of `name`.
pub open spec fn last_binding(scope: Seq<(String, VariableInfo)>, name: Seq<char>, i: int) -> bool {
    &&& 0 <= i < scope.len()
    &&& scope[i].0@ == name
    &&& forall|j: int| i < j < scope.len() ==> (#[trigger] scope[j]).0@ != name
}

pub open spec fn saturating_inc(n: usize) -> usize {
    if n < usize::MAX {
        (n + 1) as usize
    } else {
        n
    }
}

/// The scope with one more reference to the last binding of `name`.
pub open spec fn bump(scope: Seq<(String, VariableInfo)>, name: Seq<char>) -> Seq<(String, VariableInfo)> {
    if exists|i: int| last_binding(scope, name, i) {
        let i = choose|i: int| last_binding(scope, name, i);
        scope.update(
            i,
            (
                scope[i].0,
                VariableInfo {
                    ty: scope[i].1.ty,
                    is_single: scope[i].1.is_single,
                    reference_count: saturating_inc(scope[i].1.reference_count),
                },
            ),
        )
    } else {
        scope
    }
}

pub open spec fn statement_expr(s: Statement) -> Expression {
    match s {
        Statement::Assignment { variable, value } => value,
        Statement::Expression(e) => e,
    }
}

/// The scope after a statement: the variable it starts from has one
/// more reference, and an assignment binds its variable.
pub open spec fn scope_after(schema: Schema, scope: Seq<(String, VariableInfo)>, s: Statement) -> Seq<
    (String, VariableInfo),
> {
    let e = statement_expr(s);
    let bumped = match referenced_var(e) {
        Some(v) => bump(scope, v),
        None => scope,
    };
    match s {
        Statement::Assignment { variable, value } => bumped.push(
            (
                variable,
                VariableInfo {
                    ty: expr_type(schema, scope, value),
                    is_single: expr_single(schema, scope, value),
                    reference_count: 0,
                },
            ),
        ),
        Statement::Expression(_) => bumped,
    }
}

/// What the generator is handed for a statement.
pub open spec fn statement_gen_ok(
    schema: Schema,
    scope: Seq<(String, VariableInfo)>,
    s: Statement,
    st: GeneratedStatement,
) -> bool {
    match s {
        Statement::Assignment { variable, value } => match st {
            GeneratedStatement::Assignment { variable: v, value: g } => v == variable && generated_ok(
                schema,
                scope,
                value,
                *g,
            ),
            _ => false,
        },
        Statement::Expression(e) => generated_ok(schema, scope, e, st),
    }
}

proof fn lemma_last_binding_unique(scope: Seq<(String, VariableInfo)>, name: Seq<char>, i: int, j: int)
    requires
        last_binding(scope, name, i),
        last_binding(scope, name, j),
    ensures
        i == j,
{
    if i < j {
        assert(scope[j].0@ != name);
    } else if j < i {
        assert(scope[i].0@ != name);
    }
}

fn last_binding_index(scope: &Vec<(String, VariableInfo)>, name: &str) -> (r: Option<usize>)
    ensures
        match r {
            Some(i) => last_binding(scope@, name@, i as int),
            None => forall|j: int| 0 <= j < scope@.len() ==> (#[trigger] scope@[j]).0@ != name@,
        },
{
    let mut i: usize = scope.len();
    while i > 0
        invariant
            i <= scope@.len(),
            forall|j: int| i <= j < scope@.len() ==> (#[trigger] scope@[j]).0@ != name@,
        decreases i,
    {
        if text_eq(scope[i - 1].0.as_str(), name) {
            return Some(i - 1);
        }
        i = i - 1;
    }
    None
}

/// Counts one more reference to the last binding of `name`.
fn bump_reference(scope: &mut Vec<(String, VariableInfo)>, name: &str)
    requires
    ensures
        final(scope)@ == bump(old(scope)@, name@),
{
    match last_binding_index(scope, name) {
        Some(i) => {
            proof {
                let k = choose|k: int| last_binding(old(scope)@, name@, k);
                lemma_last_binding_unique(old(scope)@, name@, i as int, k);
            }
            let rc = scope[i].1.reference_count;
            let n = if rc < usize::MAX {
                rc + 1
            } else {
                rc
            };
            scope[i].1.reference_count = n;
            proof {
                assert(final(scope)@ =~= bump(old(scope)@, name@));
            }
        },
        None => {},
    }
}

/// Validates one statement: reports the unknown variables it refers
/// to, counts the reference to the variable it starts from, binds the
/// variable it assigns, and hands the generator its statement.
fn validate_statements(
    ctx: &mut Ctx,
    scope: &mut Vec<(String, VariableInfo)>,
    source_query: &Query,
    statement: &Statement,
) -> (r: Option<GeneratedStatement>)
    requires
    ensures
        final(ctx).schema == old(ctx).schema,
        final(ctx).queries == old(ctx).queries,
        reports_unknowns(
            old(ctx).diagnostics@,
            final(ctx).diagnostics@,
            source_query.name@,
            expr_unknowns(old(scope)@, statement_expr(*statement)),
        ),
        final(scope)@ == scope_after(*old(ctx).schema, old(scope)@, *statement),
        r matches Some(st) && statement_gen_ok(*old(ctx).schema, old(scope)@, *statement, st),
{
    let e = match statement {
        Statement::Assignment { variable: _, value } => value,
        Statement::Expression(e) => e,
    };
    let ghost d0 = ctx.diagnostics@;
    match e {
        Expression::Identifier(id) => report_if_unknown(ctx, scope, &source_query.name, id),
        _ => {},
    }
    let ghost d1 = ctx.diagnostics@;
    let (ty, st) = infer_expr_type(ctx, scope, source_query, e);
    proof {
        if e is Identifier {
            {
                assert(inner_unknowns(scope@, *e) =~= Seq::<Seq<char>>::empty());
                lemma_reports_trans(d0, d1, ctx.diagnostics@, source_query.name@, expr_unknowns(scope@, *e), Seq::empty());
                assert(expr_unknowns(scope@, *e) + Seq::<Seq<char>>::empty() =~= expr_unknowns(scope@, *e));
            }
        } else {
            assert(d1 == d0);
        }
    }
    let single = match e {
        Expression::Identifier(id) => match lookup(scope, id.as_str()) {
            Some(info) => info.is_single,
            None => true,
        },
        Expression::Traversal(t) => infer_traversal(ctx.schema, scope, t).1,
        _ => true,
    };
    let ghost before = scope@;
    match e {
        Expression::Identifier(id) => bump_reference(scope, id.as_str()),
        Expression::Traversal(t) => match &t.start {
            StartNode::Identifier(v) => bump_reference(scope, v.as_str()),
            _ => {},
        },
        _ => {},
    }
    match statement {
        Statement::Assignment { variable, value: _ } => {
            scope.push(
                (variable.clone(), VariableInfo { ty, is_single: single, reference_count: 0 }),
            );
            Some(GeneratedStatement::Assignment { variable: variable.clone(), value: Box::new(st) })
        },
        Statement::Expression(_) => Some(st),
    }
}

} // verus!

verus! {

// ------------------------------------------------------------------
// Returned values
// ------------------------------------------------------------------

/// Code that reads property `p` of the value in `var`: of the one item,
/// or of every item of a collection.
pub open spec fn scalar_literal(ty: Type, sc: ShouldCollect, fields: Seq<String>, var: Seq<char>) -> Option<
    Seq<char>,
> {
    if ty is Scalar && fields.len() > 0 {
        let p = fields[0]@;
        match sc {
            ShouldCollect::ToObj => Some(property_access(var, p)),
            ShouldCollect::ToVec => Some(
                if p == "id"@ {
                    var + ".iter().map(|item| uuid_str(item.id(), &arena)).collect::<Vec<_>>()"@
                } else if p == "label"@ {
                    var + ".iter().map(|item| item.label()).collect::<Vec<_>>()"@
                } else {
                    var + ".iter().map(|item| item.get_property(\""@ + p
                        + "\")).collect::<Vec<_>>()"@
                },
            ),
            ShouldCollect::No => None,
        }
    } else {
        None
    }
}

/// A scalar returned through a projection on `id` reads the id of the one
/// item, or of every item of a collection, through `id()` and never as a
/// stored property; one on `label` reads `label()`; any other property is
/// read by its name. Values that are not projected scalars get no code.
pub proof fn lemma_scalar_literal_reads(ty: Type, sc: ShouldCollect, fields: Seq<String>, var: Seq<char>)
    ensures
        !(ty is Scalar && fields.len() > 0) ==> scalar_literal(ty, sc, fields, var) is None,
        sc is No ==> scalar_literal(ty, sc, fields, var) is None,
        ty is Scalar && fields.len() > 0 && fields[0]@ == "id"@ ==> {
            &&& sc is ToObj ==> scalar_literal(ty, sc, fields, var) == Some("uuid_str("@ + var + ".id(), &arena)"@)
            &&& sc is ToVec ==> scalar_literal(ty, sc, fields, var) == Some(
                var + ".iter().map(|item| uuid_str(item.id(), &arena)).collect::<Vec<_>>()"@,
            )
        },
        ty is Scalar && fields.len() > 0 && fields[0]@ == "label"@ ==> {
            &&& sc is ToObj ==> scalar_literal(ty, sc, fields, var) == Some(var + ".label()"@)
            &&& sc is ToVec ==> scalar_literal(ty, sc, fields, var) == Some(
                var + ".iter().map(|item| item.label()).collect::<Vec<_>>()"@,
            )
        },
        ty is Scalar && fields.len() > 0 && fields[0]@ != "id"@ && fields[0]@ != "label"@ ==> {
            &&& sc is ToObj ==> scalar_literal(ty, sc, fields, var) == Some(
                var + ".get_property(\""@ + fields[0]@ + "\")"@,
            )
            &&& sc is ToVec ==> scalar_literal(ty, sc, fields, var) == Some(
                var + ".iter().map(|item| item.get_property(\""@ + fields[0]@ + "\")).collect::<Vec<_>>()"@,
            )
        },
{
    crate::analyzer::object_literal::lemma_property_access_reads(var, fields[0]@);
    reveal_strlit("id");
    reveal_strlit("label");
    assert(("id"@).len() != ("label"@).len());
}

/// `entry` is the returned value `name` of type `ty` gathered as `sc`
/// says, computed in place by `literal` when that is given.
pub open spec fn value_ok(
    schema: Schema,
    entry: (String, ReturnValue),
    name: Seq<char>,
    ty: Type,
    sc: ShouldCollect,
    literal: Option<Seq<char>>,
) -> bool {
    &&& entry.0@ == name
    &&& entry.1.name@ == rust_type_text(ty, sc)
    &&& entry.1.fields@.len() == value_fields(schema, ty, sc).len()
    &&& forall|i: int|
        0 <= i < entry.1.fields@.len() ==> value_field_view(#[trigger] entry.1.fields@[i])
            == value_fields(schema, ty, sc)[i]
    &&& match literal {
        Some(l) => entry.1.literal_value matches Some(x) && x@ == l,
        None => entry.1.literal_value is None,
    }
}

pub open spec fn collect_of(single: bool) -> ShouldCollect {
    if single {
        ShouldCollect::ToObj
    } else {
        ShouldCollect::ToVec
    }
}

/// `entry` is the value returned for expression `e`.
pub open spec fn expr_value_ok(
    schema: Schema,
    scope: Seq<(String, VariableInfo)>,
    e: Expression,
    entry: (String, ReturnValue),
) -> bool {
    match e {
        Expression::Identifier(id) => value_ok(
            schema,
            entry,
            id@,
            expr_type(schema, scope, e),
            ShouldCollect::No,
            None,
        ),
        Expression::Traversal(t) => {
            let r = traversal_result(schema, scope, *t);
            let sc = collect_of(r.1);
            match t.start {
                StartNode::Identifier(v) => value_ok(
                    schema,
                    entry,
                    v@,
                    r.0,
                    sc,
                    scalar_literal(r.0, sc, last_object_fields(t.steps@), v@),
                ),
                _ => value_ok(schema, entry, "data"@, r.0, sc, None),
            }
        },
        Expression::AddVector { label, args } => value_ok(
            schema,
            entry,
            "data"@,
            Type::Vector(Some(label)),
            ShouldCollect::ToObj,
            None,
        ),
        _ => literal_value_ok(entry, "data"@, "Value"@, literal_code(e)),
    }
}

pub open spec fn is_collection_type(t: Type) -> bool {
    t is Nodes || t is Edges || t is Vectors
}

/// The traversal a returned variable's struct is built from.
pub open spec fn default_traversal_ok(trav: GeneratedTraversal, reused: bool) -> bool {
    &&& trav.source_step == SourceStep::Other
    &&& trav.should_collect == ShouldCollect::No
    &&& trav.traversal_type == TraversalType::Ref
    &&& trav.steps_code@ == Seq::<char>::empty()
    &&& trav.object_fields@.len() == 0
    &&& trav.excluded_fields@.len() == 0
    &&& !trav.has_object_step
    &&& !trav.has_spread
    &&& trav.nested_traversals@.len() == 0
    &&& trav.is_reused_variable == reused
}

/// `s` is the struct generated for returned value `field` of type `ty`
/// produced by `trav`.
pub open spec fn struct_ok(
    schema: Schema,
    s: ReturnValueStruct,
    query_name: Seq<char>,
    field: Seq<char>,
    ty: Type,
    trav: GeneratedTraversal,
    is_collection: bool,
    is_reused: bool,
    with_aggregate_details: bool,
) -> bool {
    let prefix = capitalized(query_name) + capitalized(field);
    &&& s.name@ == prefix + "ReturnType"@
    &&& fields_ok(schema, ty, trav, prefix, s.field_infos@)
    &&& s.source_variable@ == field
    &&& s.is_collection == is_collection
    &&& s.is_reused_variable == is_reused
    &&& s.is_aggregate == ty is Aggregate
    &&& s.is_group_by == match ty {
        Type::Aggregate(info) => info.is_group_by,
        _ => false,
    }
    &&& s.aggregate_properties@ == match ty {
        Type::Aggregate(info) => if with_aggregate_details {
            crate::analyzer::types::name_seq(info.properties)
        } else {
            Seq::empty()
        },
        _ => Seq::empty(),
    }
    &&& s.is_count_aggregate == match ty {
        Type::Aggregate(info) => with_aggregate_details && info.is_count,
        _ => false,
    }
}

/// Whether returning `e` generates a struct: every value but a literal
/// and a variable or property of primitive type does.
pub open spec fn expr_has_struct(schema: Schema, scope: Seq<(String, VariableInfo)>, e: Expression) -> bool {
    let ty = expr_type(schema, scope, e);
    match e {
        Expression::Identifier(_) => !(ty is Boolean || ty is Scalar),
        Expression::Traversal(t) => match t.start {
            StartNode::Identifier(_) => !(ty is Boolean || ty is Scalar),
            _ => true,
        },
        Expression::AddVector { .. } => true,
        _ => false,
    }
}

/// Whether variable `v` holds a collection.
pub open spec fn var_collection(scope: Seq<(String, VariableInfo)>, v: Seq<char>) -> bool {
    match scope_lookup(scope, v) {
        Some(info) => !info.is_single,
        None => false,
    }
}

/// `s` is the struct generated for returning `e`.
pub open spec fn expr_struct_ok(
    schema: Schema,
    scope: Seq<(String, VariableInfo)>,
    query_name: Seq<char>,
    e: Expression,
    s: ReturnValueStruct,
) -> bool {
    let ty = expr_type(schema, scope, e);
    match e {
        Expression::Identifier(id) => exists|trav: GeneratedTraversal|
            #[trigger] default_traversal_ok(trav, reused(scope, id@)) && struct_ok(
                schema,
                s,
                query_name,
                id@,
                ty,
                trav,
                var_collection(scope, id@),
                reused(scope, id@),
                false,
            ),
        Expression::Traversal(t) => {
            let field = match t.start {
                StartNode::Identifier(v) => v@,
                _ => "data"@,
            };
            exists|gt: GeneratedTraversal|
                #[trigger] traversal_gen_ok(schema, scope, *t, gt) && struct_ok(
                    schema,
                    s,
                    query_name,
                    field,
                    ty,
                    gt,
                    is_collection_type(ty),
                    gt.is_reused_variable,
                    true,
                )
        },
        Expression::AddVector { label, args } => exists|gt: GeneratedTraversal|
            #[trigger] add_vector_gen_ok(gt) && struct_ok(
                schema,
                s,
                query_name,
                "data"@,
                ty,
                gt,
                false,
                false,
                true,
            ),
        _ => false,
    }
}

/// Whether a return is handled value by value rather than as one JSON
/// object: a single expression, or a list or object of expressions only.
pub open spec fn is_direct(r: ReturnType) -> bool {
    match r {
        ReturnType::Expression(_) => true,
        ReturnType::Array(vs) => forall|i: int| 0 <= i < vs@.len() ==> (#[trigger] vs@[i]) is Expression,
        ReturnType::Object(fs) => forall|i: int|
            0 <= i < fs@.len() ==> (#[trigger] fs@[i]).1 is Expression,
        ReturnType::Empty => true,
    }
}

/// The expressions of a direct return, in order.
pub open spec fn element_exprs(r: ReturnType) -> Seq<Expression> {
    match r {
        ReturnType::Expression(e) => seq![e],
        ReturnType::Array(vs) => vs@.map_values(|v: ReturnType| v->Expression_0),
        ReturnType::Object(fs) => fs@.map_values(|f: (String, ReturnType)| f.1->Expression_0),
        ReturnType::Empty => Seq::empty(),
    }
}

/// The number of values a return adds.
pub open spec fn return_count(r: ReturnType) -> nat {
    if is_direct(r) {
        element_exprs(r).len()
    } else {
        1
    }
}

/// The JSON code a return that is not direct is built by.
pub open spec fn wrapped_json(schema: Schema, scope: Seq<(String, VariableInfo)>, r: ReturnType) -> Seq<char> {
    match r {
        ReturnType::Object(fs) => object_json(schema, scope, fs),
        _ => "{\n        \"data\": "@ + field_json(schema, scope, r) + "\n    }"@,
    }
}

/// `seg` is what a return adds to the returned values.
pub open spec fn return_values_ok(
    schema: Schema,
    scope: Seq<(String, VariableInfo)>,
    r: ReturnType,
    seg: Seq<(String, ReturnValue)>,
) -> bool {
    if is_direct(r) {
        let es = element_exprs(r);
        &&& seg.len() == es.len()
        &&& forall|i: int|
            0 <= i < es.len() ==> expr_value_ok(schema, scope, es[i], #[trigger] seg[i])
    } else {
        &&& seg.len() == 1
        &&& literal_value_ok(
            seg[0],
            "response"@,
            "serde_json::Value"@,
            "json!("@ + wrapped_json(schema, scope, r) + ")"@,
        )
    }
}

/// `seg` is the structs generated for returning each of `es`.
pub open spec fn structs_ok(
    schema: Schema,
    scope: Seq<(String, VariableInfo)>,
    query_name: Seq<char>,
    es: Seq<Expression>,
    seg: Seq<ReturnValueStruct>,
) -> bool
    decreases es.len(),
{
    if es.len() == 0 {
        seg.len() == 0
    } else if expr_has_struct(schema, scope, es.last()) {
        &&& seg.len() > 0
        &&& structs_ok(schema, scope, query_name, es.drop_last(), seg.drop_last())
        &&& expr_struct_ok(schema, scope, query_name, es.last(), seg.last())
    } else {
        structs_ok(schema, scope, query_name, es.drop_last(), seg)
    }
}

/// The unknown variables the expressions of `es` refer to, in order.
pub open spec fn exprs_unknowns(scope: Seq<(String, VariableInfo)>, es: Seq<Expression>) -> Seq<
    Seq<char>,
>
    decreases es.len(),
{
    if es.len() == 0 {
        Seq::empty()
    } else {
        exprs_unknowns(scope, es.drop_last()) + expr_unknowns(scope, es.last())
    }
}

/// The expressions of a return whose values are analyzed one by one.
pub open spec fn direct_exprs(r: ReturnType) -> Seq<Expression> {
    if is_direct(r) {
        element_exprs(r)
    } else {
        Seq::empty()
    }
}

/// What analyzing a return does to the query and the diagnostics.
pub open spec fn return_effect_ok(
    ctx0: Ctx,
    ctx1: Ctx,
    scope: Seq<(String, VariableInfo)>,
    q0: GeneratedQuery,
    q1: GeneratedQuery,
    r: ReturnType,
) -> bool {
    let n = q0.return_values@.len();
    let m = q0.return_structs@.len();
    &&& ctx1.schema == ctx0.schema
    &&& ctx1.queries == ctx0.queries
    &&& same_but_returns(q0, q1)
    &&& reports_unknowns(ctx0.diagnostics@, ctx1.diagnostics@, q0.name@, exprs_unknowns(scope, direct_exprs(r)))
    &&& q1.return_values@.len() == n + return_count(r)
    &&& q1.return_values@.subrange(0, n as int) == q0.return_values@
    &&& return_values_ok(*ctx0.schema, scope, r, q1.return_values@.subrange(n as int, q1.return_values@.len() as int))
    &&& q1.return_structs@.len() >= m
    &&& q1.return_structs@.subrange(0, m as int) == q0.return_structs@
    &&& structs_ok(*ctx0.schema, scope, q0.name@, direct_exprs(r), q1.return_structs@.subrange(m as int, q1.return_structs@.len() as int))
    &&& q1.use_struct_returns == (q0.use_struct_returns && is_direct(r))
}

} // verus!

verus! {

fn scalar_literal_code(var: &str, prop: &str, sc: &ShouldCollect) -> (r: Option<String>)
    ensures
        match *sc {
            ShouldCollect::ToObj => r matches Some(x) && x@ == property_access(var@, prop@),
            ShouldCollect::ToVec => r matches Some(x) && x@ == (if prop@ == "id"@ {
                var@ + ".iter().map(|item| uuid_str(item.id(), &arena)).collect::<Vec<_>>()"@
            } else if prop@ == "label"@ {
                var@ + ".iter().map(|item| item.label()).collect::<Vec<_>>()"@
            } else {
                var@ + ".iter().map(|item| item.get_property(\""@ + prop@
                    + "\")).collect::<Vec<_>>()"@
            }),
            ShouldCollect::No => r is None,
        },
{
    match sc {
        ShouldCollect::ToObj => {
            if text_eq(prop, "id") {
                let mut r = String::from_str("uuid_str(");
                r.append(var);
                r.append(".id(), &arena)");
                Some(r)
            } else if text_eq(prop, "label") {
                Some(cat(var, ".label()"))
            } else {
                let mut r = cat(var, ".get_property(\"");
                r.append(prop);
                r.append("\")");
                Some(r)
            }
        },
        ShouldCollect::ToVec => {
            if text_eq(prop, "id") {
                Some(cat(var, ".iter().map(|item| uuid_str(item.id(), &arena)).collect::<Vec<_>>()"))
            } else if text_eq(prop, "label") {
                Some(cat(var, ".iter().map(|item| item.label()).collect::<Vec<_>>()"))
            } else {
                let mut r = cat(var, ".iter().map(|item| item.get_property(\"");
                r.append(prop);
                r.append("\")).collect::<Vec<_>>()");
                Some(r)
            }
        },
        ShouldCollect::No => None,
    }
}

fn is_primitive(t: &Type) -> (r: bool)
    ensures
        r == (*t is Boolean || *t is Scalar),
{
    match t {
        Type::Boolean | Type::Scalar(_) => true,
        _ => false,
    }
}

fn is_collection(t: &Type) -> (r: bool)
    ensures
        r == is_collection_type(*t),
{
    match t {
        Type::Nodes(_) | Type::Edges(_) | Type::Vectors(_) => true,
        _ => false,
    }
}

proof fn lemma_single_struct(
    schema: Schema,
    scope: Seq<(String, VariableInfo)>,
    q: Seq<char>,
    e: Expression,
    seg: Seq<ReturnValueStruct>,
)
    requires
        if expr_has_struct(schema, scope, e) {
            seg.len() == 1 && expr_struct_ok(schema, scope, q, e, seg[0])
        } else {
            seg.len() == 0
        },
    ensures
        structs_ok(schema, scope, q, seq![e], seg),
{
    reveal_with_fuel(structs_ok, 2);
    let es = seq![e];
    assert(es.drop_last() =~= Seq::<Expression>::empty());
    assert(es.last() == e);
    if expr_has_struct(schema, scope, e) {
        assert(seg.drop_last().len() == 0);
    }
}

proof fn lemma_single_unknowns(scope: Seq<(String, VariableInfo)>, e: Expression)
    ensures
        exprs_unknowns(scope, seq![e]) == expr_unknowns(scope, e),
{
    reveal_with_fuel(exprs_unknowns, 2);
    let es = seq![e];
    assert(es.drop_last() =~= Seq::<Expression>::empty());
    assert(Seq::<Seq<char>>::empty() + expr_unknowns(scope, e) =~= expr_unknowns(scope, e));
}

/// The struct for a returned value, named from the query and the value.
fn push_return_struct(
    ctx: &Ctx,
    query: &mut GeneratedQuery,
    field_name: &String,
    inferred_type: &Type,
    traversal: &GeneratedTraversal,
    is_collection: bool,
    with_aggregate_details: bool,
)
    ensures
        same_but_returns(*old(query), *final(query)),
        final(query).return_values == old(query).return_values,
        final(query).use_struct_returns == old(query).use_struct_returns,
        final(query).return_structs@ == old(query).return_structs@.push(
            final(query).return_structs@.last(),
        ),
        struct_ok(
            *ctx.schema,
            final(query).return_structs@.last(),
            old(query).name@,
            field_name@,
            *inferred_type,
            *traversal,
            is_collection,
            traversal.is_reused_variable,
            with_aggregate_details,
        ),
{
    let q = capitalize_first(query.name.as_str());
    let f = capitalize_first(field_name.as_str());
    let prefix = cat(q.as_str(), f.as_str());
    let return_fields = build_return_fields(ctx, inferred_type, traversal, prefix.as_str());
    let struct_name = cat(prefix.as_str(), "ReturnType");
    let (is_aggregate, is_group_by, aggregate_properties, is_count_aggregate) = match inferred_type {
        Type::Aggregate(info) => (
            true,
            info.is_group_by,
            if with_aggregate_details {
                crate::analyzer::types::names_to_vec(&info.properties)
            } else {
                Vec::new()
            },
            with_aggregate_details && info.is_count,
        ),
        _ => (false, false, Vec::new(), false),
    };
    query.return_structs.push(
        ReturnValueStruct {
            name: struct_name,
            field_infos: return_fields,
            source_variable: field_name.clone(),
            is_collection,
            is_reused_variable: traversal.is_reused_variable,
            is_aggregate,
            is_group_by,
            aggregate_properties,
            is_count_aggregate,
        },
    );
}

/// Analyzes one returned expression: adds its value and, unless it is
/// a literal or of a primitive type, the struct generated for it.
fn analyze_return_expression(
    ctx: &mut Ctx,
    source_query: &Query,
    scope: &Vec<(String, VariableInfo)>,
    query: &mut GeneratedQuery,
    expr: &Expression,
)
    requires
        old(query).name@ == source_query.name@,
    ensures
        return_effect_ok(
            *old(ctx),
            *final(ctx),
            scope@,
            *old(query),
            *final(query),
            ReturnType::Expression(*expr),
        ),
{
    let ghost ctx0 = *ctx;
    let ghost q0 = *query;
    let ghost n = query.return_values@.len();
    let ghost m = query.return_structs@.len();
    let ghost schema = *ctx.schema;
    let (inferred_type, stmt) = infer_expr_type(ctx, scope, source_query, expr);
    let ghost d1 = ctx.diagnostics@;
    let ghost ty = inferred_type;
    proof {
        lemma_single_unknowns(scope@, *expr);
    }
    match stmt {
        GeneratedStatement::Traversal(traversal) => {
            let ghost gt = traversal;
            let field_name = match &traversal.source_step {
                SourceStep::Identifier(v) => v.clone(),
                SourceStep::Other => String::from_str("data"),
            };
            let from_variable = match &traversal.source_step {
                SourceStep::Identifier(_) => true,
                SourceStep::Other => false,
            };
            let (rust_type, fields) = type_to_rust_string_and_fields(
                &inferred_type,
                &traversal.should_collect,
                ctx,
                field_name.as_str(),
            );
            let is_scalar = match &inferred_type {
                Type::Scalar(_) => true,
                _ => false,
            };
            let literal_value = if from_variable && is_scalar && traversal.object_fields.len() > 0 {
                scalar_literal_code(
                    field_name.as_str(),
                    traversal.object_fields[0].as_str(),
                    &traversal.should_collect,
                )
            } else {
                None
            };
            query.return_values.push(
                (field_name.clone(), ReturnValue { name: rust_type, fields, literal_value }),
            );
            let ghost q1 = *query;
            if !from_variable || !is_primitive(&inferred_type) {
                let coll = is_collection(&inferred_type);
                push_return_struct(ctx, query, &field_name, &inferred_type, &traversal, coll, true);
                proof {
                    assert(expr_struct_ok(schema, scope@, q0.name@, *expr, query.return_structs@.last()));
                }
            }
            proof {
                let seg = query.return_structs@.subrange(m as int, query.return_structs@.len() as int);
                if expr_has_struct(schema, scope@, *expr) {
                    assert(seg[0] == query.return_structs@.last());
                }
                lemma_single_struct(schema, scope@, q0.name@, *expr, seg);
                assert(query.return_values@.subrange(0, n as int) =~= q0.return_values@);
                assert(query.return_structs@.subrange(0, m as int) =~= q0.return_structs@);
                let vseg = query.return_values@.subrange(n as int, query.return_values@.len() as int);
                assert(vseg[0] == query.return_values@[n as int]);
                assert(element_exprs(ReturnType::Expression(*expr))[0] == *expr);
            }
        },
        GeneratedStatement::Identifier(id) => {
            let var = lookup(scope, id.as_str());
            let identifier_end_type = match var {
                Some(info) => {
                    copy_type(&info.ty)
                },
                None => {
                    let d = not_in_scope(&source_query.name, id.as_str());
                    ctx.diagnostics.push(d);
                    Type::Unknown
                },
            };
            proof {
                let names = if scope_lookup(scope@, id@) is Some {
                    Seq::<Seq<char>>::empty()
                } else {
                    seq![id@]
                };
                assert(reports_unknowns(d1, ctx.diagnostics@, q0.name@, names));
                lemma_reports_trans(ctx0.diagnostics@, d1, ctx.diagnostics@, q0.name@, Seq::empty(), names);
                assert(Seq::<Seq<char>>::empty() + names =~= names);
            }
            let field_name = id.clone();
            let (rust_type, fields) = type_to_rust_string_and_fields(
                &identifier_end_type,
                &ShouldCollect::No,
                ctx,
                field_name.as_str(),
            );
            query.return_values.push(
                (field_name.clone(), ReturnValue { name: rust_type, fields, literal_value: None }),
            );
            if !is_primitive(&identifier_end_type) {
                let is_reused = match var {
                    Some(info) => info.reference_count > 1,
                    None => false,
                };
                let coll = match var {
                    Some(info) => !info.is_single,
                    None => false,
                };
                let traversal = GeneratedTraversal {
                    source_step: SourceStep::Other,
                    should_collect: ShouldCollect::No,
                    traversal_type: TraversalType::Ref,
                    steps_code: String::new(),
                    object_fields: Vec::new(),
                    excluded_fields: Vec::new(),
                    has_object_step: false,
                    has_spread: false,
                    nested_traversals: Vec::new(),
                    is_reused_variable: is_reused,
                };
                push_return_struct(
                    ctx,
                    query,
                    &field_name,
                    &identifier_end_type,
                    &traversal,
                    coll,
                    false,
                );
                proof {
                    assert(*expr == Expression::Identifier(id));
                    assert(is_reused == reused(scope@, id@));
                    assert(coll == var_collection(scope@, id@));
                    assert(default_traversal_ok(traversal, reused(scope@, id@)));
                    assert(identifier_end_type == expr_type(schema, scope@, *expr));
                    assert(struct_ok(
                        schema,
                        query.return_structs@.last(),
                        q0.name@,
                        id@,
                        expr_type(schema, scope@, *expr),
                        traversal,
                        coll,
                        is_reused,
                        false,
                    ));
                    assert(expr_struct_ok(schema, scope@, q0.name@, *expr, query.return_structs@.last()));
                }
            }
            proof {
                let seg = query.return_structs@.subrange(m as int, query.return_structs@.len() as int);
                if expr_has_struct(schema, scope@, *expr) {
                    assert(seg[0] == query.return_structs@.last());
                }
                lemma_single_struct(schema, scope@, q0.name@, *expr, seg);
                assert(query.return_values@.subrange(0, n as int) =~= q0.return_values@);
                assert(query.return_structs@.subrange(0, m as int) =~= q0.return_structs@);
                let vseg = query.return_values@.subrange(n as int, query.return_values@.len() as int);
                assert(vseg[0] == query.return_values@[n as int]);
                assert(element_exprs(ReturnType::Expression(*expr))[0] == *expr);
            }
        },
        GeneratedStatement::Literal(l) => {
            query.return_values.push(
                (
                    String::from_str("data"),
                    ReturnValue { name: String::from_str("Value"), fields: Vec::new(), literal_value: Some(l) },
                ),
            );
            proof {
                let seg = query.return_structs@.subrange(m as int, query.return_structs@.len() as int);
                lemma_single_struct(schema, scope@, q0.name@, *expr, seg);
                assert(query.return_values@.subrange(0, n as int) =~= q0.return_values@);
                assert(query.return_structs@.subrange(0, m as int) =~= q0.return_structs@);
                let vseg = query.return_values@.subrange(n as int, query.return_values@.len() as int);
                assert(vseg[0] == query.return_values@[n as int]);
                assert(element_exprs(ReturnType::Expression(*expr))[0] == *expr);
            }
        },
        GeneratedStatement::Empty => {
            proof {
                assert(false);
            }
            query.return_values = Vec::new();
        },
        GeneratedStatement::Assignment { .. } => {
            proof {
                assert(false);
            }
        },
    }
}

} // verus!

verus! {

/// What analyzing the expressions `es` one by one has done so far.
pub open spec fn prefix_effect_ok(
    ctx0: Ctx,
    ctx: Ctx,
    scope: Seq<(String, VariableInfo)>,
    q0: GeneratedQuery,
    q: GeneratedQuery,
    es: Seq<Expression>,
) -> bool {
    let n = q0.return_values@.len();
    let m = q0.return_structs@.len();
    &&& ctx.schema == ctx0.schema
    &&& ctx.queries == ctx0.queries
    &&& same_but_returns(q0, q)
    &&& q.use_struct_returns == q0.use_struct_returns
    &&& reports_unknowns(ctx0.diagnostics@, ctx.diagnostics@, q0.name@, exprs_unknowns(scope, es))
    &&& q.return_values@.len() == n + es.len()
    &&& q.return_values@.subrange(0, n as int) == q0.return_values@
    &&& forall|j: int|
        0 <= j < es.len() ==> expr_value_ok(*ctx0.schema, scope, es[j], #[trigger] q.return_values@[n + j])
    &&& q.return_structs@.len() >= m
    &&& q.return_structs@.subrange(0, m as int) == q0.return_structs@
    &&& structs_ok(*ctx0.schema, scope, q0.name@, es, q.return_structs@.subrange(m as int, q.return_structs@.len() as int))
}

proof fn lemma_structs_push(
    schema: Schema,
    scope: Seq<(String, VariableInfo)>,
    q: Seq<char>,
    xs: Seq<Expression>,
    e: Expression,
    a: Seq<ReturnValueStruct>,
    b: Seq<ReturnValueStruct>,
)
    requires
        structs_ok(schema, scope, q, xs, a),
        structs_ok(schema, scope, q, seq![e], b),
    ensures
        structs_ok(schema, scope, q, xs.push(e), a + b),
{
    reveal_with_fuel(structs_ok, 2);
    let es = seq![e];
    assert(es.drop_last() =~= Seq::<Expression>::empty());
    assert(xs.push(e).drop_last() =~= xs);
    assert(xs.push(e).last() == e);
    if expr_has_struct(schema, scope, e) {
        assert(b.drop_last().len() == 0);
        assert((a + b).drop_last() =~= a);
        assert((a + b).last() == b.last());
    } else {
        assert(b.len() == 0);
        assert(a + b =~= a);
    }
}

proof fn lemma_prefix_start(ctx: Ctx, scope: Seq<(String, VariableInfo)>, q: GeneratedQuery)
    ensures
        prefix_effect_ok(ctx, ctx, scope, q, q, Seq::empty()),
{
    assert(q.return_values@.subrange(0, q.return_values@.len() as int) =~= q.return_values@);
    assert(q.return_structs@.subrange(0, q.return_structs@.len() as int) =~= q.return_structs@);
    assert(q.return_structs@.subrange(q.return_structs@.len() as int, q.return_structs@.len() as int)
        =~= Seq::<ReturnValueStruct>::empty());
}

proof fn lemma_prefix_step(
    ctx0: Ctx,
    ca: Ctx,
    cb: Ctx,
    scope: Seq<(String, VariableInfo)>,
    q0: GeneratedQuery,
    qa: GeneratedQuery,
    qb: GeneratedQuery,
    es: Seq<Expression>,
    e: Expression,
)
    requires
        prefix_effect_ok(ctx0, ca, scope, q0, qa, es),
        return_effect_ok(ca, cb, scope, qa, qb, ReturnType::Expression(e)),
    ensures
        prefix_effect_ok(ctx0, cb, scope, q0, qb, es.push(e)),
{
    let n = q0.return_values@.len();
    let m = q0.return_structs@.len();
    let na = qa.return_values@.len();
    let ma = qa.return_structs@.len();
    assert(direct_exprs(ReturnType::Expression(e)) =~= seq![e]);
    lemma_single_unknowns(scope, e);
    assert(es.push(e).drop_last() =~= es);
    lemma_reports_trans(ctx0.diagnostics@, ca.diagnostics@, cb.diagnostics@, q0.name@, exprs_unknowns(scope, es), expr_unknowns(scope, e));
    assert forall|j: int| 0 <= j < es.push(e).len() implies expr_value_ok(
        *ctx0.schema,
        scope,
        es.push(e)[j],
        #[trigger] qb.return_values@[n + j],
    ) by {
        if j < es.len() {
            assert(qb.return_values@[n + j] == qb.return_values@.subrange(0, na as int)[n + j]);
        } else {
            let seg = qb.return_values@.subrange(na as int, qb.return_values@.len() as int);
            assert(seg[0] == qb.return_values@[n + j]);
        }
    }
    assert(qb.return_values@.subrange(0, n as int) =~= qa.return_values@.subrange(0, n as int)) by {
        assert(qb.return_values@.subrange(0, na as int) == qa.return_values@);
    }
    assert(qb.return_structs@.subrange(0, m as int) =~= qa.return_structs@.subrange(0, m as int)) by {
        assert(qb.return_structs@.subrange(0, ma as int) == qa.return_structs@);
    }
    let sa = qa.return_structs@.subrange(m as int, ma as int);
    let sb = qb.return_structs@.subrange(ma as int, qb.return_structs@.len() as int);
    assert(qb.return_structs@.subrange(m as int, qb.return_structs@.len() as int) =~= sa + sb) by {
        assert(qb.return_structs@.subrange(0, ma as int) == qa.return_structs@);
    }
    lemma_structs_push(*ctx0.schema, scope, q0.name@, es, e, sa, sb);
}

proof fn lemma_prefix_done(
    ctx0: Ctx,
    ctx: Ctx,
    scope: Seq<(String, VariableInfo)>,
    q0: GeneratedQuery,
    q: GeneratedQuery,
    r: ReturnType,
)
    requires
        is_direct(r),
        prefix_effect_ok(ctx0, ctx, scope, q0, q, element_exprs(r)),
    ensures
        return_effect_ok(ctx0, ctx, scope, q0, q, r),
{
    let n = q0.return_values@.len();
    let es = element_exprs(r);
    let seg = q.return_values@.subrange(n as int, q.return_values@.len() as int);
    assert forall|i: int| 0 <= i < es.len() implies expr_value_ok(*ctx0.schema, scope, es[i], #[trigger] seg[i]) by {
        assert(seg[i] == q.return_values@[n + i]);
    }
}

/// Analyzes one returned value: an expression, a list or an object
/// whose values are expressions adds one value per expression; any
/// other list or object is returned as one JSON value built in place.
pub fn analyze_return_expr(
    ctx: &mut Ctx,
    source_query: &Query,
    scope: &Vec<(String, VariableInfo)>,
    query: &mut GeneratedQuery,
    ret: &ReturnType,
)
    requires
        old(query).name@ == source_query.name@,
    ensures
        return_effect_ok(*old(ctx), *final(ctx), scope@, *old(query), *final(query), *ret),
    decreases ret,
{
    let ghost ctx0 = *ctx;
    let ghost q0 = *query;
    match ret {
        ReturnType::Expression(expr) => {
            analyze_return_expression(ctx, source_query, scope, query, expr);
        },
        ReturnType::Array(values) => {
            let mut is_simple_array = true;
            let mut k: usize = 0;
            while k < values.len()
                invariant
                    k <= values@.len(),
                    is_simple_array == forall|j: int| 0 <= j < k ==> (#[trigger] values@[j]) is Expression,
                decreases values@.len() - k,
            {
                match &values[k] {
                    ReturnType::Expression(_) => {},
                    _ => {
                        is_simple_array = false;
                    },
                }
                k = k + 1;
            }
            if is_simple_array {
                let ghost es = element_exprs(*ret);
                proof {
                    lemma_prefix_start(ctx0, scope@, q0);
                    assert(es.take(0) =~= Seq::<Expression>::empty());
                }
                let mut i: usize = 0;
                while i < values.len()
                    invariant
                        i <= values@.len(),
                        *ret == ReturnType::Array(*values),
                        is_direct(*ret),
                        es == element_exprs(*ret),
                        es.len() == values@.len(),
                        query.name@ == source_query.name@,
                        q0.name@ == source_query.name@,
                        prefix_effect_ok(ctx0, *ctx, scope@, q0, *query, es.take(i as int)),
                    decreases values@.len() - i,
                {
                    let ghost ca = *ctx;
                    let ghost qa = *query;
                    proof {
                        assert(values@[i as int] is Expression);
                        assert(es[i as int] == values@[i as int]->Expression_0);
                        assert(values@[i as int] == ReturnType::Expression(es[i as int]));
                    }
                    analyze_return_expr(ctx, source_query, scope, query, &values[i]);
                    proof {
                        lemma_prefix_step(ctx0, ca, *ctx, scope@, q0, qa, *query, es.take(i as int), es[i as int]);
                        assert(es.take(i as int).push(es[i as int]) =~= es.take(i + 1));
                    }
                    i = i + 1;
                }
                proof {
                    assert(es.take(values@.len() as int) =~= es);
                    lemma_prefix_done(ctx0, *ctx, scope@, q0, *query, *ret);
                }
            } else {
                let cap = capitalize_first(query.name.as_str());
                let struct_name = cat(cap.as_str(), "ReturnType");
                process_array_literal(ctx, scope, query, ret, struct_name);
                proof {
                    assert(!is_direct(*ret));
                    assert(direct_exprs(*ret) =~= Seq::<Expression>::empty());
                    lemma_reports_none(ctx0.diagnostics@, q0.name@);
                    let n = q0.return_values@.len();
                    assert(query.return_values@.subrange(0, n as int) =~= q0.return_values@);
                    let seg = query.return_values@.subrange(n as int, query.return_values@.len() as int);
                    assert(seg[0] == query.return_values@.last());
                    assert(query.return_structs@.subrange(0, q0.return_structs@.len() as int) =~= q0.return_structs@);
                    assert(query.return_structs@.subrange(q0.return_structs@.len() as int, query.return_structs@.len() as int) =~= Seq::<ReturnValueStruct>::empty());
                }
            }
        },
        ReturnType::Object(values) => {
            let mut is_simple_object = true;
            let mut k: usize = 0;
            while k < values.len()
                invariant
                    k <= values@.len(),
                    is_simple_object == forall|j: int| 0 <= j < k ==> (#[trigger] values@[j]).1 is Expression,
                decreases values@.len() - k,
            {
                match &values[k].1 {
                    ReturnType::Expression(_) => {},
                    _ => {
                        is_simple_object = false;
                    },
                }
                k = k + 1;
            }
            if is_simple_object {
                let ghost es = element_exprs(*ret);
                proof {
                    lemma_prefix_start(ctx0, scope@, q0);
                    assert(es.take(0) =~= Seq::<Expression>::empty());
                }
                let mut i: usize = 0;
                while i < values.len()
                    invariant
                        i <= values@.len(),
                        *ret == ReturnType::Object(*values),
                        is_direct(*ret),
                        es == element_exprs(*ret),
                        es.len() == values@.len(),
                        query.name@ == source_query.name@,
                        q0.name@ == source_query.name@,
                        prefix_effect_ok(ctx0, *ctx, scope@, q0, *query, es.take(i as int)),
                    decreases values@.len() - i,
                {
                    let ghost ca = *ctx;
                    let ghost qa = *query;
                    proof {
                        assert(values@[i as int].1 is Expression);
                        assert(es[i as int] == values@[i as int].1->Expression_0);
                        assert(values@[i as int].1 == ReturnType::Expression(es[i as int]));
                    }
                    analyze_return_expr(ctx, source_query, scope, query, &values[i].1);
                    proof {
                        lemma_prefix_step(ctx0, ca, *ctx, scope@, q0, qa, *query, es.take(i as int), es[i as int]);
                        assert(es.take(i as int).push(es[i as int]) =~= es.take(i + 1));
                    }
                    i = i + 1;
                }
                proof {
                    assert(es.take(values@.len() as int) =~= es);
                    lemma_prefix_done(ctx0, *ctx, scope@, q0, *query, *ret);
                }
            } else {
                let cap = capitalize_first(query.name.as_str());
                let struct_name = cat(cap.as_str(), "ReturnType");
                process_object_literal(ctx, source_query, scope, query, values, struct_name);
                proof {
                    assert(!is_direct(*ret));
                    assert(direct_exprs(*ret) =~= Seq::<Expression>::empty());
                    lemma_reports_none(ctx0.diagnostics@, q0.name@);
                    let n = q0.return_values@.len();
                    assert(query.return_values@.subrange(0, n as int) =~= q0.return_values@);
                    let seg = query.return_values@.subrange(n as int, query.return_values@.len() as int);
                    assert(seg[0] == query.return_values@.last());
                    assert(query.return_structs@.subrange(0, q0.return_structs@.len() as int) =~= q0.return_structs@);
                    assert(query.return_structs@.subrange(q0.return_structs@.len() as int, query.return_structs@.len() as int) =~= Seq::<ReturnValueStruct>::empty());
                }
            }
        },
        ReturnType::Empty => {
            proof {
                lemma_prefix_start(ctx0, scope@, q0);
                assert(element_exprs(*ret) =~= Seq::<Expression>::empty());
                lemma_prefix_done(ctx0, *ctx, scope@, q0, *query, *ret);
            }
        },
    }
}

} // verus!

verus! {

// ------------------------------------------------------------------
// Queries
// ------------------------------------------------------------------

/// Whether some node, edge or vector type is labelled `label`.
pub open spec fn declared_label(schema: Schema, label: Seq<char>) -> bool {
    item_named(schema.nodes@, label) is Some || item_named(schema.edges@, label) is Some
        || item_named(schema.vectors@, label) is Some
}

/// An item labelled `label` makes the first such item found.
proof fn lemma_item_named_found(items: Seq<crate::analyzer::types::ItemSchema>, label: Seq<char>, k: int)
    requires
        0 <= k < items.len(),
        items[k].label@ == label,
    ensures
        item_named(items, label) is Some,
    decreases k,
{
    if exists|j: int| 0 <= j < k && (#[trigger] items[j]).label@ == label {
        let j = choose|j: int| 0 <= j < k && (#[trigger] items[j]).label@ == label;
        lemma_item_named_found(items, label, j);
    } else {
        assert(crate::analyzer::return_types::first_with_label(items, label, k));
    }
}

/// No item of `items` is labelled `label`.
pub open spec fn no_item_labelled(items: Seq<crate::analyzer::types::ItemSchema>, label: Seq<char>) -> bool {
    forall|k: int| 0 <= k < items.len() ==> (#[trigger] items[k]).label@ != label
}

/// A parameter is reported as of unknown type exactly when its type is a
/// name that labels no declared node, edge or vector type: a parameter
/// whose type names a declared type gets no E209, and one whose type
/// names none gets one.
pub proof fn lemma_unknown_params_are_undeclared(schema: Schema, params: Seq<crate::analyzer::types::Parameter>)
    ensures
        forall|i: int|
            0 <= i < unknown_params(schema, params).len() ==> {
                let ty = (#[trigger] unknown_params(schema, params)[i]).0;
                &&& no_item_labelled(schema.nodes@, ty)
                &&& no_item_labelled(schema.edges@, ty)
                &&& no_item_labelled(schema.vectors@, ty)
            },
        forall|j: int|
            0 <= j < params.len() && (#[trigger] params[j]).param_type is Identifier && no_item_labelled(
                schema.nodes@,
                params[j].param_type->Identifier_0@,
            ) && no_item_labelled(schema.edges@, params[j].param_type->Identifier_0@) && no_item_labelled(
                schema.vectors@,
                params[j].param_type->Identifier_0@,
            ) ==> unknown_params(schema, params).contains(
                (params[j].param_type->Identifier_0@, params[j].name@, params[j].type_loc),
            ),
    decreases params.len(),
{
    if params.len() > 0 {
        let pre = params.drop_last();
        lemma_unknown_params_are_undeclared(schema, pre);
        let prev = unknown_params(schema, pre);
        let cur = unknown_params(schema, params);
        let p = params.last();
        assert forall|i: int| 0 <= i < cur.len() implies {
            let ty = (#[trigger] cur[i]).0;
            &&& no_item_labelled(schema.nodes@, ty)
            &&& no_item_labelled(schema.edges@, ty)
            &&& no_item_labelled(schema.vectors@, ty)
        } by {
            if i < prev.len() {
                assert(cur[i] == prev[i]);
            } else {
                let id = p.param_type->Identifier_0;
                assert(cur[i].0 == id@);
                assert forall|k: int| 0 <= k < schema.nodes@.len() implies (#[trigger] schema.nodes@[k]).label@ != id@ by {
                    if schema.nodes@[k].label@ == id@ {
                        lemma_item_named_found(schema.nodes@, id@, k);
                    }
                }
                assert forall|k: int| 0 <= k < schema.edges@.len() implies (#[trigger] schema.edges@[k]).label@ != id@ by {
                    if schema.edges@[k].label@ == id@ {
                        lemma_item_named_found(schema.edges@, id@, k);
                    }
                }
                assert forall|k: int| 0 <= k < schema.vectors@.len() implies (#[trigger] schema.vectors@[k]).label@ != id@ by {
                    if schema.vectors@[k].label@ == id@ {
                        lemma_item_named_found(schema.vectors@, id@, k);
                    }
                }
            }
        }
        assert forall|j: int|
            0 <= j < params.len() && (#[trigger] params[j]).param_type is Identifier && no_item_labelled(
                schema.nodes@,
                params[j].param_type->Identifier_0@,
            ) && no_item_labelled(schema.edges@, params[j].param_type->Identifier_0@) && no_item_labelled(
                schema.vectors@,
                params[j].param_type->Identifier_0@,
            ) implies cur.contains((params[j].param_type->Identifier_0@, params[j].name@, params[j].type_loc)) by {
            let id = params[j].param_type->Identifier_0;
            let x = (id@, params[j].name@, params[j].type_loc);
            if j < pre.len() {
                assert(pre[j] == params[j]);
                assert(prev.contains(x));
                let t = choose|t: int| 0 <= t < prev.len() && prev[t] == x;
                assert(cur[t] == x);
            } else {
                assert(params[j] == p);
                assert(!declared_label(schema, id@));
                assert(cur[cur.len() - 1] == x);
            }
        }
    }
}

/// A parameter as the generator is handed it.
pub open spec fn generated_param(p: crate::analyzer::types::Parameter) -> GeneratedParameter {
    GeneratedParameter { name: p.name, field_type: p.param_type }
}

/// The parameters whose type names no declared type: (type, parameter,
/// where the type is written).
pub open spec fn unknown_params(schema: Schema, params: Seq<crate::analyzer::types::Parameter>) -> Seq<
    (Seq<char>, Seq<char>, Loc),
>
    decreases params.len(),
{
    if params.len() == 0 {
        Seq::empty()
    } else {
        let prev = unknown_params(schema, params.drop_last());
        let p = params.last();
        match p.param_type {
            FieldType::Identifier(id) => if !declared_label(schema, id@) {
                prev.push((id@, p.name@, p.type_loc))
            } else {
                prev
            },
            _ => prev,
        }
    }
}

pub open spec fn unknown_type_text(ty: Seq<char>, param: Seq<char>) -> Seq<char> {
    "unknown type `"@ + ty + "` for parameter `"@ + param + "`"@
}

pub open spec fn no_return_text() -> Seq<char> {
    "query has no RETURN clause"@
}

pub open spec fn no_return_hint() -> Seq<char> {
    "add `RETURN <expr>` at the end"@
}

pub open spec fn mcp_text(count: nat) -> Seq<char> {
    "MCP query must return a single value, but it returns "@ + decimal(count)
}

pub open spec fn diag_ok(d: Diagnostic, code: ErrorCode, query_name: Seq<char>, message: Seq<char>) -> bool {
    &&& d.code == code
    &&& d.query_name@ == query_name
    &&& d.message@ == message
}

/// The variables the parameters bind, in order.
pub open spec fn param_scope(params: Seq<crate::analyzer::types::Parameter>) -> Seq<(String, VariableInfo)> {
    params.map_values(
        |p: crate::analyzer::types::Parameter|
            (
                p.name,
                VariableInfo {
                    ty: param_type(p.param_type),
                    is_single: !is_collection_type(param_type(p.param_type)),
                    reference_count: 0,
                },
            ),
    )
}

/// The scope after a run of statements.
pub open spec fn scope_after_all(schema: Schema, scope: Seq<(String, VariableInfo)>, stmts: Seq<Statement>) -> Seq<
    (String, VariableInfo),
>
    decreases stmts.len(),
{
    if stmts.len() == 0 {
        scope
    } else {
        scope_after(schema, scope_after_all(schema, scope, stmts.drop_last()), stmts.last())
    }
}

/// The unknown variables a run of statements refers to, in order.
pub open spec fn statements_unknowns(
    schema: Schema,
    scope: Seq<(String, VariableInfo)>,
    stmts: Seq<Statement>,
) -> Seq<Seq<char>>
    decreases stmts.len(),
{
    if stmts.len() == 0 {
        Seq::empty()
    } else {
        statements_unknowns(schema, scope, stmts.drop_last()) + expr_unknowns(
            scope_after_all(schema, scope, stmts.drop_last()),
            statement_expr(stmts.last()),
        )
    }
}

/// The number of values a run of returns adds.
pub open spec fn total_return_count(rets: Seq<ReturnType>) -> nat
    decreases rets.len(),
{
    if rets.len() == 0 {
        0
    } else {
        total_return_count(rets.drop_last()) + return_count(rets.last())
    }
}

/// The unknown variables a run of returns refers to, in order.
pub open spec fn returns_unknowns(scope: Seq<(String, VariableInfo)>, rets: Seq<ReturnType>) -> Seq<
    Seq<char>,
>
    decreases rets.len(),
{
    if rets.len() == 0 {
        Seq::empty()
    } else {
        returns_unknowns(scope, rets.drop_last()) + exprs_unknowns(scope, direct_exprs(rets.last()))
    }
}

/// The number of structs generated for the expressions `es`.
pub open spec fn struct_count(schema: Schema, scope: Seq<(String, VariableInfo)>, es: Seq<Expression>) -> nat
    decreases es.len(),
{
    if es.len() == 0 {
        0
    } else {
        struct_count(schema, scope, es.drop_last()) + if expr_has_struct(schema, scope, es.last()) {
            1nat
        } else {
            0nat
        }
    }
}

pub open spec fn returns_struct_count(schema: Schema, scope: Seq<(String, VariableInfo)>, rets: Seq<ReturnType>) -> nat
    decreases rets.len(),
{
    if rets.len() == 0 {
        0
    } else {
        returns_struct_count(schema, scope, rets.drop_last()) + struct_count(schema, scope, direct_exprs(rets.last()))
    }
}

/// `vals` and `structs` are what a run of returns adds, return by return.
pub open spec fn returns_ok(
    schema: Schema,
    scope: Seq<(String, VariableInfo)>,
    query_name: Seq<char>,
    rets: Seq<ReturnType>,
    vals: Seq<(String, ReturnValue)>,
    structs: Seq<ReturnValueStruct>,
) -> bool
    decreases rets.len(),
{
    if rets.len() == 0 {
        vals.len() == 0 && structs.len() == 0
    } else {
        let r = rets.last();
        let c = return_count(r);
        let d = struct_count(schema, scope, direct_exprs(r));
        &&& vals.len() >= c
        &&& structs.len() >= d
        &&& returns_ok(schema, scope, query_name, rets.drop_last(), vals.take(vals.len() - c), structs.take(structs.len() - d))
        &&& return_values_ok(schema, scope, r, vals.skip(vals.len() - c))
        &&& structs_ok(schema, scope, query_name, direct_exprs(r), structs.skip(structs.len() - d))
    }
}

pub open spec fn all_direct(rets: Seq<ReturnType>) -> bool {
    forall|i: int| 0 <= i < rets.len() ==> is_direct(#[trigger] rets[i])
}

/// The model named by `#[model(...)]`, if the query has one.
pub open spec fn model_of(q: Query) -> Option<String> {
    match q.built_in_macro {
        Some(BuiltInMacro::Model(m)) => Some(m),
        _ => None,
    }
}

pub open spec fn is_mcp(q: Query) -> bool {
    q.built_in_macro matches Some(BuiltInMacro::Mcp)
}

/// An MCP query returns at least one value; without one the analyzer
/// cannot name the value it serves.
pub open spec fn mcp_returns_something(q: Query) -> bool {
    is_mcp(q) ==> total_return_count(q.return_values@) > 0
}

} // verus!

verus! {

proof fn lemma_structs_count(
    schema: Schema,
    scope: Seq<(String, VariableInfo)>,
    q: Seq<char>,
    es: Seq<Expression>,
    seg: Seq<ReturnValueStruct>,
)
    requires
        structs_ok(schema, scope, q, es, seg),
    ensures
        seg.len() == struct_count(schema, scope, es),
    decreases es.len(),
{
    if es.len() > 0 {
        if expr_has_struct(schema, scope, es.last()) {
            lemma_structs_count(schema, scope, q, es.drop_last(), seg.drop_last());
        } else {
            lemma_structs_count(schema, scope, q, es.drop_last(), seg);
        }
    }
}

/// What validating a query does: its diagnostics, in order, are the
/// parameters whose type names no declared type, the unknown variables
/// its statements refer to, a warning when it returns nothing, the
/// unknown variables its returns refer to, and, for an MCP query that
/// does not return exactly one value, an error; the query handed to the
/// generator carries its name, model, parameters, statements, returned
/// values and structs, and for an MCP query the value it serves.
pub open spec fn validated_ok(ctx0: Ctx, ctx1: Ctx, oq: Query) -> bool {
    let schema = *ctx0.schema;
    let scope0 = param_scope(oq.parameters@);
    let scope = scope_after_all(schema, scope0, oq.statements@);
    let ups = unknown_params(schema, oq.parameters@);
    let sus = statements_unknowns(schema, scope0, oq.statements@);
    let rus = returns_unknowns(scope, oq.return_values@);
    let count = total_return_count(oq.return_values@);
    let w: int = if oq.return_values@.len() == 0 {
        1
    } else {
        0
    };
    let e: int = if is_mcp(oq) && count != 1 {
        1
    } else {
        0
    };
    let d0 = ctx0.diagnostics@.len() as int;
    let k1 = d0 + ups.len();
    let k2 = k1 + sus.len();
    let k3 = k2 + w;
    let k4 = k3 + rus.len();
    let d = ctx1.diagnostics@;
    let q = ctx1.queries@.last();
    &&& ctx1.schema == ctx0.schema
    &&& ctx1.queries@.len() == ctx0.queries@.len() + 1
    &&& ctx1.queries@.take(ctx0.queries@.len() as int) == ctx0.queries@
    &&& d.len() == k4 + e
    &&& d.take(d0) == ctx0.diagnostics@
    &&& forall|i: int|
        0 <= i < ups.len() ==> diag_ok(
            #[trigger] d[d0 + i],
            ErrorCode::E209,
            oq.name@,
            unknown_type_text(ups[i].0, ups[i].1),
        )
    &&& reports_unknowns(d.take(k1), d.take(k2), oq.name@, sus)
    &&& forall|i: int|
        0 <= i < ups.len() ==> placed_at(#[trigger] d[d0 + i], ups[i].2, ups[i].2.start, ups[i].2.end)
            && d[d0 + i].hint is None
    &&& w == 1 ==> diag_ok(d[k2], ErrorCode::W101, oq.name@, no_return_text())
    &&& w == 1 ==> placed_at(d[k2], oq.loc, oq.loc.end, oq.loc.end) && (d[k2].hint matches Some(h)
        && h@ == no_return_hint())
    &&& reports_unknowns(d.take(k3), d.take(k4), oq.name@, rus)
    &&& e == 1 ==> diag_ok(d[k4], ErrorCode::E401, oq.name@, mcp_text(count))
    &&& e == 1 ==> placed_at(d[k4], oq.loc, oq.loc.start, oq.loc.end) && d[k4].hint is None
    &&& q.name == oq.name
    &&& q.embedding_model_to_use == model_of(oq)
    &&& q.parameters@ == oq.parameters@.map_values(|p: crate::analyzer::types::Parameter| generated_param(p))
    &&& q.statements@.len() == oq.statements@.len()
    &&& forall|i: int|
        0 <= i < oq.statements@.len() ==> statement_gen_ok(
            schema,
            scope_after_all(schema, scope0, oq.statements@.take(i)),
            oq.statements@[i],
            #[trigger] q.statements@[i],
        )
    &&& returns_ok(schema, scope, oq.name@, oq.return_values@, q.return_values@, q.return_structs@)
    &&& q.use_struct_returns == all_direct(oq.return_values@)
    &&& q.mcp_handler == if is_mcp(oq) {
        Some(q.return_values@[0].0)
    } else {
        None
    }
}

fn is_declared_label(schema: &Schema, label: &str) -> (r: bool)
    ensures
        r == declared_label(*schema, label@),
{
    item_by_label(&schema.nodes, label).is_some() || item_by_label(&schema.edges, label).is_some()
        || item_by_label(&schema.vectors, label).is_some()
}

fn unknown_type_diagnostic(query_name: &String, ty: &str, param: &str, at: &Loc) -> (d: Diagnostic)
    ensures
        diag_ok(d, ErrorCode::E209, query_name@, unknown_type_text(ty@, param@)),
        placed_at(d, *at, at.start, at.end),
        d.hint is None,
{
    let mut msg = String::from_str("unknown type `");
    msg.append(ty);
    msg.append("` for parameter `");
    msg.append(param);
    msg.append("`");
    Diagnostic {
        code: ErrorCode::E209,
        query_name: query_name.clone(),
        message: msg,
        loc: Some(loc_between(at, at.start, at.end)),
        hint: None,
    }
}

/// Reports every parameter whose type names no declared type, and
/// gives the parameters as the generator is handed them.
fn check_parameters(ctx: &mut Ctx, source_query: &Query) -> (names: Vec<GeneratedParameter>)
    ensures
        final(ctx).schema == old(ctx).schema,
        final(ctx).queries == old(ctx).queries,
        final(ctx).diagnostics@.len() == old(ctx).diagnostics@.len() + unknown_params(
            *old(ctx).schema,
            source_query.parameters@,
        ).len(),
        final(ctx).diagnostics@.take(old(ctx).diagnostics@.len() as int) == old(ctx).diagnostics@,
        forall|j: int|
            0 <= j < unknown_params(*old(ctx).schema, source_query.parameters@).len() ==> diag_ok(
                #[trigger] final(ctx).diagnostics@[old(ctx).diagnostics@.len() + j],
                ErrorCode::E209,
                source_query.name@,
                unknown_type_text(
                    unknown_params(*old(ctx).schema, source_query.parameters@)[j].0,
                    unknown_params(*old(ctx).schema, source_query.parameters@)[j].1,
                ),
            ),
        forall|j: int|
            0 <= j < unknown_params(*old(ctx).schema, source_query.parameters@).len() ==> placed_at(
                #[trigger] final(ctx).diagnostics@[old(ctx).diagnostics@.len() + j],
                unknown_params(*old(ctx).schema, source_query.parameters@)[j].2,
                unknown_params(*old(ctx).schema, source_query.parameters@)[j].2.start,
                unknown_params(*old(ctx).schema, source_query.parameters@)[j].2.end,
            ) && final(ctx).diagnostics@[old(ctx).diagnostics@.len() + j].hint is None,
        names@ == source_query.parameters@.map_values(
            |p: crate::analyzer::types::Parameter| generated_param(p),
        ),
{
    let ghost schema = *ctx.schema;
    let ghost d0 = ctx.diagnostics@;
    let params = &source_query.parameters;
    let mut names: Vec<GeneratedParameter> = Vec::new();
    let mut i: usize = 0;
    while i < params.len()
        invariant
            i <= params@.len(),
            params == &source_query.parameters,
            ctx.schema == old(ctx).schema,
            schema == *old(ctx).schema,
            d0 == old(ctx).diagnostics@,
            ctx.queries == old(ctx).queries,
            ctx.diagnostics@.len() == d0.len() + unknown_params(schema, params@.take(i as int)).len(),
            ctx.diagnostics@.take(d0.len() as int) == d0,
            forall|j: int|
                0 <= j < unknown_params(schema, params@.take(i as int)).len() ==> diag_ok(
                    #[trigger] ctx.diagnostics@[d0.len() + j],
                    ErrorCode::E209,
                    source_query.name@,
                    unknown_type_text(
                        unknown_params(schema, params@.take(i as int))[j].0,
                        unknown_params(schema, params@.take(i as int))[j].1,
                    ),
                ),
            forall|j: int|
                0 <= j < unknown_params(schema, params@.take(i as int)).len() ==> placed_at(
                    #[trigger] ctx.diagnostics@[d0.len() + j],
                    unknown_params(schema, params@.take(i as int))[j].2,
                    unknown_params(schema, params@.take(i as int))[j].2.start,
                    unknown_params(schema, params@.take(i as int))[j].2.end,
                ) && ctx.diagnostics@[d0.len() + j].hint is None,
            names@ == params@.take(i as int).map_values(
                |p: crate::analyzer::types::Parameter| generated_param(p),
            ),
        decreases params@.len() - i,
    {
        let param = &params[i];
        let ghost before = ctx.diagnostics@;
        let ghost prev = unknown_params(schema, params@.take(i as int));
        proof {
            assert(params@.take(i + 1).drop_last() =~= params@.take(i as int));
            assert(params@.take(i + 1).last() == params@[i as int]);
        }
        let unknown = match &param.param_type {
            FieldType::Identifier(id) => !is_declared_label(ctx.schema, id.as_str()),
            _ => false,
        };
        if unknown {
            let id = match &param.param_type {
                FieldType::Identifier(id) => id.as_str(),
                _ => "",
            };
            let d = unknown_type_diagnostic(&source_query.name, id, param.name.as_str(), &param.type_loc);
            ctx.diagnostics.push(d);
            proof {
                assert(ctx.diagnostics@ == before.push(d));
            }
        }
        proof {
            let ups = unknown_params(schema, params@.take(i + 1));
            if unknown {
                assert(ups == prev.push((param.param_type->Identifier_0@, param.name@, param.type_loc)));
            } else {
                assert(ups == prev);
            }
            assert(ctx.diagnostics@.take(d0.len() as int) =~= d0) by {
                assert(before.take(d0.len() as int) == d0);
            }
            assert forall|j: int| 0 <= j < ups.len() implies diag_ok(
                #[trigger] ctx.diagnostics@[d0.len() + j],
                ErrorCode::E209,
                source_query.name@,
                unknown_type_text(ups[j].0, ups[j].1),
            ) by {
                if j < prev.len() {
                    assert(ctx.diagnostics@[d0.len() + j] == before[d0.len() + j]);
                }
            }
            assert forall|j: int| 0 <= j < ups.len() implies placed_at(
                #[trigger] ctx.diagnostics@[d0.len() + j],
                ups[j].2,
                ups[j].2.start,
                ups[j].2.end,
            ) && ctx.diagnostics@[d0.len() + j].hint is None by {
                if j < prev.len() {
                    assert(ctx.diagnostics@[d0.len() + j] == before[d0.len() + j]);
                }
            }
        }
        names.push(GeneratedParameter { name: param.name.clone(), field_type: copy_field_type(&param.param_type) });
        proof {
            assert(names@ =~= params@.take(i + 1).map_values(
                |p: crate::analyzer::types::Parameter| generated_param(p),
            ));
        }
        i = i + 1;
    }
    proof {
        assert(params@.take(params@.len() as int) =~= params@);
    }
    names
}

/// The variables the parameters bind.
fn parameter_scope(params: &Vec<crate::analyzer::types::Parameter>) -> (scope: Vec<
    (String, VariableInfo),
>)
    ensures
        scope@ == param_scope(params@),
{
    let mut scope: Vec<(String, VariableInfo)> = Vec::new();
    let mut i: usize = 0;
    while i < params.len()
        invariant
            i <= params@.len(),
            scope@ == param_scope(params@.take(i as int)),
        decreases params@.len() - i,
    {
        let param = &params[i];
        let ty = type_of_param(&param.param_type);
        let single = !is_collection(&ty);
        scope.push((param.name.clone(), VariableInfo { ty, is_single: single, reference_count: 0 }));
        proof {
            assert(scope@ =~= param_scope(params@.take(i + 1)));
        }
        i = i + 1;
    }
    proof {
        assert(params@.take(params@.len() as int) =~= params@);
    }
    scope
}

/// Validates the statements in order.
fn validate_all_statements(
    ctx: &mut Ctx,
    scope: &mut Vec<(String, VariableInfo)>,
    source_query: &Query,
) -> (r: Option<Vec<GeneratedStatement>>)
    requires
    ensures
        final(ctx).schema == old(ctx).schema,
        final(ctx).queries == old(ctx).queries,
        reports_unknowns(
            old(ctx).diagnostics@,
            final(ctx).diagnostics@,
            source_query.name@,
            statements_unknowns(*old(ctx).schema, old(scope)@, source_query.statements@),
        ),
        final(scope)@ == scope_after_all(*old(ctx).schema, old(scope)@, source_query.statements@),
        r matches Some(sts) && sts@.len() == source_query.statements@.len() && forall|i: int|
            0 <= i < sts@.len() ==> statement_gen_ok(
                *old(ctx).schema,
                scope_after_all(*old(ctx).schema, old(scope)@, source_query.statements@.take(i)),
                source_query.statements@[i],
                #[trigger] sts@[i],
            ),
{
    let ghost schema = *ctx.schema;
    let ghost scope0 = scope@;
    let ghost d0 = ctx.diagnostics@;
    let stmts = &source_query.statements;
    let mut out: Vec<GeneratedStatement> = Vec::new();
    let mut i: usize = 0;
    proof {
        assert(stmts@.take(0) =~= Seq::<Statement>::empty());
        lemma_reports_none(d0, source_query.name@);
    }
    while i < stmts.len()
        invariant
            i <= stmts@.len(),
            stmts == &source_query.statements,
            ctx.schema == old(ctx).schema,
            schema == *old(ctx).schema,
            scope0 == old(scope)@,
            d0 == old(ctx).diagnostics@,
            ctx.queries == old(ctx).queries,
            reports_unknowns(
                d0,
                ctx.diagnostics@,
                source_query.name@,
                statements_unknowns(schema, scope0, stmts@.take(i as int)),
            ),
            scope@ == scope_after_all(schema, scope0, stmts@.take(i as int)),
            out@.len() == i,
            forall|j: int|
                0 <= j < i ==> statement_gen_ok(
                    schema,
                    scope_after_all(schema, scope0, stmts@.take(j)),
                    stmts@[j],
                    #[trigger] out@[j],
                ),
        decreases stmts@.len() - i,
    {
        let ghost before = ctx.diagnostics@;
        let ghost scope_before = scope@;
        let statement = validate_statements(ctx, scope, source_query, &stmts[i]);
        proof {
            assert(stmts@.take(i + 1).drop_last() =~= stmts@.take(i as int));
            assert(stmts@.take(i + 1).last() == stmts@[i as int]);
            lemma_reports_trans(
                d0,
                before,
                ctx.diagnostics@,
                source_query.name@,
                statements_unknowns(schema, scope0, stmts@.take(i as int)),
                expr_unknowns(scope_before, statement_expr(stmts@[i as int])),
            );
        }
        match statement {
            Some(s) => {
                out.push(s);
            },
            None => {
                return None;
            },
        }
        proof {
            assert forall|j: int| 0 <= j < i + 1 implies statement_gen_ok(
                schema,
                scope_after_all(schema, scope0, stmts@.take(j)),
                stmts@[j],
                #[trigger] out@[j],
            ) by {
                if j == i {
                    assert(stmts@.take(j) =~= stmts@.take(i as int));
                }
            }
        }
        i = i + 1;
    }
    proof {
        assert(stmts@.take(stmts@.len() as int) =~= stmts@);
    }
    Some(out)
}

/// Analyzes the returned values in order.
fn analyze_all_returns(
    ctx: &mut Ctx,
    scope: &Vec<(String, VariableInfo)>,
    source_query: &Query,
    query: &mut GeneratedQuery,
)
    requires
        old(query).name@ == source_query.name@,
        old(query).return_values@.len() == 0,
        old(query).return_structs@.len() == 0,
        old(query).use_struct_returns,
    ensures
        final(ctx).schema == old(ctx).schema,
        final(ctx).queries == old(ctx).queries,
        reports_unknowns(
            old(ctx).diagnostics@,
            final(ctx).diagnostics@,
            source_query.name@,
            returns_unknowns(scope@, source_query.return_values@),
        ),
        same_but_returns(*old(query), *final(query)),
        final(query).use_struct_returns == all_direct(source_query.return_values@),
        final(query).return_values@.len() == total_return_count(source_query.return_values@),
        returns_ok(
            *old(ctx).schema,
            scope@,
            source_query.name@,
            source_query.return_values@,
            final(query).return_values@,
            final(query).return_structs@,
        ),
{
    let ghost schema = *ctx.schema;
    let ghost d0 = ctx.diagnostics@;
    let ghost q0 = *query;
    let rets = &source_query.return_values;
    let mut i: usize = 0;
    proof {
        assert(rets@.take(0) =~= Seq::<ReturnType>::empty());
        lemma_reports_none(d0, source_query.name@);
    }
    while i < rets.len()
        invariant
            i <= rets@.len(),
            rets == &source_query.return_values,
            ctx.schema == old(ctx).schema,
            schema == *old(ctx).schema,
            d0 == old(ctx).diagnostics@,
            q0 == *old(query),
            q0.name@ == source_query.name@,
            ctx.queries == old(ctx).queries,
            reports_unknowns(
                d0,
                ctx.diagnostics@,
                source_query.name@,
                returns_unknowns(scope@, rets@.take(i as int)),
            ),
            same_but_returns(q0, *query),
            query.name == q0.name,
            query.use_struct_returns == all_direct(rets@.take(i as int)),
            query.return_values@.len() == total_return_count(rets@.take(i as int)),
            returns_ok(
                schema,
                scope@,
                source_query.name@,
                rets@.take(i as int),
                query.return_values@,
                query.return_structs@,
            ),
        decreases rets@.len() - i,
    {
        let ghost ca = *ctx;
        let ghost qa = *query;
        analyze_return_expr(ctx, source_query, scope, query, &rets[i]);
        proof {
            let r = rets@[i as int];
            let t = rets@.take(i + 1);
            assert(t.drop_last() =~= rets@.take(i as int));
            assert(t.last() == r);
            lemma_reports_trans(
                d0,
                ca.diagnostics@,
                ctx.diagnostics@,
                source_query.name@,
                returns_unknowns(scope@, rets@.take(i as int)),
                exprs_unknowns(scope@, direct_exprs(r)),
            );
            let n = qa.return_values@.len();
            let m = qa.return_structs@.len();
            let seg = query.return_structs@.subrange(m as int, query.return_structs@.len() as int);
            lemma_structs_count(schema, scope@, source_query.name@, direct_exprs(r), seg);
            assert(query.return_values@.take(query.return_values@.len() - return_count(r))
                =~= qa.return_values@) by {
                assert(query.return_values@.subrange(0, n as int) == qa.return_values@);
            }
            assert(query.return_values@.skip(query.return_values@.len() - return_count(r))
                =~= query.return_values@.subrange(n as int, query.return_values@.len() as int));
            assert(query.return_structs@.take(
                query.return_structs@.len() - struct_count(schema, scope@, direct_exprs(r)),
            ) =~= qa.return_structs@) by {
                assert(query.return_structs@.subrange(0, m as int) == qa.return_structs@);
            }
            assert(query.return_structs@.skip(
                query.return_structs@.len() - struct_count(schema, scope@, direct_exprs(r)),
            ) =~= seg);
            if all_direct(t) {
                assert(is_direct(t[i as int]));
                assert forall|j: int| 0 <= j < i implies is_direct(
                    #[trigger] rets@.take(i as int)[j],
                ) by {
                    assert(t[j] == rets@.take(i as int)[j]);
                }
            }
            if all_direct(rets@.take(i as int)) && is_direct(r) {
                assert forall|j: int| 0 <= j < t.len() implies is_direct(#[trigger] t[j]) by {
                    if j < i {
                        assert(t[j] == rets@.take(i as int)[j]);
                    }
                }
            }
        }
        i = i + 1;
    }
    proof {
        assert(rets@.take(rets@.len() as int) =~= rets@);
    }
}

proof fn lemma_reports_prefix(
    a: Seq<Diagnostic>,
    b: Seq<Diagnostic>,
    c: Seq<Diagnostic>,
    q: Seq<char>,
    names: Seq<Seq<char>>,
)
    requires
        reports_unknowns(a, b, q, names),
        b.len() <= c.len(),
        c.take(b.len() as int) == b,
    ensures
        reports_unknowns(c.take(a.len() as int), c.take(b.len() as int), q, names),
{
    assert(c.take(a.len() as int) =~= a) by {
        assert forall|i: int| 0 <= i < a.len() implies c.take(a.len() as int)[i] == a[i] by {
            assert(c[i] == b[i]);
        }
    }
}

/// Validates one query and hands what it found to the generator: see
/// `validated_ok`.
pub fn validate_query(ctx: &mut Ctx, source_query: &Query)
    requires
        mcp_returns_something(*source_query),
    ensures
        validated_ok(*old(ctx), *final(ctx), *source_query),
{
    let ghost ctx0 = *ctx;
    let ghost schema = *ctx.schema;
    let ghost dstart = ctx.diagnostics@;
    let mut query = GeneratedQuery {
        name: source_query.name.clone(),
        embedding_model_to_use: None,
        parameters: Vec::new(),
        statements: Vec::new(),
        return_values: Vec::new(),
        return_structs: Vec::new(),
        use_struct_returns: true,
        mcp_handler: None,
    };
    match &source_query.built_in_macro {
        Some(BuiltInMacro::Model(model_name)) => {
            query.embedding_model_to_use = Some(model_name.clone());
        },
        _ => {},
    }
    // Parameter validation
    query.parameters = check_parameters(ctx, source_query);
    let ghost d1 = ctx.diagnostics@;
    // Statement-by-statement walk
    let mut scope = parameter_scope(&source_query.parameters);
    let ghost scope0 = scope@;
    match validate_all_statements(ctx, &mut scope, source_query) {
        Some(statements) => {
            query.statements = statements;
        },
        None => {
            return;
        },
    }
    let ghost d2 = ctx.diagnostics@;
    // A query should return something
    if source_query.return_values.len() == 0 {
        let msg = String::from_str("query has no RETURN clause");
        ctx.diagnostics.push(
            Diagnostic {
                code: ErrorCode::W101,
                query_name: source_query.name.clone(),
                message: msg,
                loc: Some(loc_between(&source_query.loc, source_query.loc.end, source_query.loc.end)),
                hint: Some(String::from_str("add `RETURN <expr>` at the end")),
            },
        );
    }
    let ghost d3 = ctx.diagnostics@;
    // Returned values
    analyze_all_returns(ctx, &scope, source_query, &mut query);
    let ghost d4 = ctx.diagnostics@;
    // An MCP query serves exactly one value
    match &source_query.built_in_macro {
        Some(BuiltInMacro::Mcp) => {
            if query.return_values.len() != 1 {
                let mut msg = String::from_str("MCP query must return a single value, but it returns ");
                msg.append(u64_to_text(query.return_values.len() as u64).as_str());
                ctx.diagnostics.push(
                    Diagnostic {
                        code: ErrorCode::E401,
                        query_name: source_query.name.clone(),
                        message: msg,
                        loc: Some(loc_between(&source_query.loc, source_query.loc.start, source_query.loc.end)),
                        hint: None,
                    },
                );
            }
            let return_name = query.return_values[0].0.clone();
            query.mcp_handler = Some(return_name);
        },
        _ => {},
    }
    let ghost dfin = ctx.diagnostics@;
    ctx.queries.push(query);
    proof {
        let ups = unknown_params(schema, source_query.parameters@);
        let k0 = dstart.len() as int;
        let k1 = d1.len() as int;
        let k2 = d2.len() as int;
        let k3 = d3.len() as int;
        let k4 = d4.len() as int;
        assert(dfin.take(k4) =~= d4);
        assert(d4.take(k3) =~= d3);
        assert(dfin.take(k3) =~= d3);
        assert(d3.take(k2) =~= d2);
        assert(dfin.take(k2) =~= d2);
        assert(d2.take(k1) =~= d1);
        assert(dfin.take(k1) =~= d1);
        assert(dfin.take(k0) =~= dstart) by {
            assert(d1.take(k0) == dstart);
        }
        lemma_reports_prefix(d1, d2, dfin, source_query.name@, statements_unknowns(schema, scope0, source_query.statements@));
        lemma_reports_prefix(d3, d4, dfin, source_query.name@, returns_unknowns(scope@, source_query.return_values@));
        assert forall|j: int| 0 <= j < ups.len() implies diag_ok(
            #[trigger] dfin[k0 + j],
            ErrorCode::E209,
            source_query.name@,
            unknown_type_text(ups[j].0, ups[j].1),
        ) by {
            assert(dfin[k0 + j] == d1[k0 + j]);
        }
        assert forall|j: int| 0 <= j < ups.len() implies placed_at(
            #[trigger] dfin[k0 + j],
            ups[j].2,
            ups[j].2.start,
            ups[j].2.end,
        ) && dfin[k0 + j].hint is None by {
            assert(dfin[k0 + j] == d1[k0 + j]);
        }
        if source_query.return_values@.len() == 0 {
            assert(dfin[k2] == d3[k2]);
        }
        assert(ctx.queries@.take(ctx0.queries@.len() as int) =~= ctx0.queries@);
    }
}

} // verus!

verus! {

/// The states of the analyzer across the queries of a source: it starts
/// with no diagnostics and no queries, and validates each query in turn.
pub open spec fn analysis_states_ok(source: Source, states: Seq<Ctx>) -> bool {
    let n = source.queries@.len();
    &&& states.len() == n + 1
    &&& *states[0].schema == source.schema
    &&& states[0].diagnostics@.len() == 0
    &&& states[0].queries@.len() == 0
    &&& forall|i: int| 0 <= i < n ==> validated_ok(#[trigger] states[i], states[i + 1], source.queries@[i])
}

/// Analyzes every query of a source against its schema: the diagnostics
/// and the generated queries are those `validate_query` gives, query by
/// query. Every query of the source is analyzed; problems within a query
/// are diagnostics, so the analysis itself succeeds.
pub fn analyze(source: &Source) -> (r: Result<(Vec<Diagnostic>, GeneratedSource), AnalyzeError>)
    requires
        forall|i: int| 0 <= i < source.queries@.len() ==> mcp_returns_something(#[trigger] source.queries@[i]),
    ensures
        r matches Ok((diagnostics, generated)) && exists|states: Seq<Ctx>|
            analysis_states_ok(*source, states) && states.last().diagnostics@ == diagnostics@
                && states.last().queries@ == generated.queries@,
{
    let mut ctx = Ctx { schema: &source.schema, diagnostics: Vec::new(), queries: Vec::new() };
    let ghost mut states: Seq<Ctx> = seq![ctx];
    let mut i: usize = 0;
    while i < source.queries.len()
        invariant
            i <= source.queries@.len(),
            forall|k: int| 0 <= k < source.queries@.len() ==> mcp_returns_something(#[trigger] source.queries@[k]),
            states.len() == i + 1,
            *states[0].schema == source.schema,
            states[0].diagnostics@.len() == 0,
            states[0].queries@.len() == 0,
            forall|k: int| 0 <= k < i ==> validated_ok(#[trigger] states[k], states[k + 1], source.queries@[k]),
            states.last() == ctx,
        decreases source.queries@.len() - i,
    {
        let ghost before = ctx;
        validate_query(&mut ctx, &source.queries[i]);
        proof {
            states = states.push(ctx);
            assert forall|k: int| 0 <= k < i + 1 implies validated_ok(#[trigger] states[k], states[k + 1], source.queries@[k]) by {
                if k == i {
                    assert(states[k] == before);
                }
            }
        }
        i = i + 1;
    }
    proof {
        assert(analysis_states_ok(*source, states));
    }
    Ok((ctx.diagnostics, GeneratedSource { queries: ctx.queries }))
}

} // verus!
