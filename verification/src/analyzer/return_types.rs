use vstd::prelude::*;
use vstd::string::*;
use crate::analyzer::types::{
    AggregateInfo, Ctx, FieldType, GeneratedTraversal, ItemKind, ItemSchema,
    NestedTraversalInfo, ReturnFieldInfo, ReturnFieldSource, ReturnFieldType, ReturnValueField,
    Schema, SchemaField, ShouldCollect, TraversalType, Type,
};
use crate::analyzer::text::{
    capitalize_first, capitalized, cat, contains_text, copy_opt_string, text_eq,
};

verus! {

// ------------------------------------------------------------------
// Schema lookups
// ------------------------------------------------------------------

/// `i` is the first item of `items` labelled `label`.
pub open spec fn first_with_label(items: Seq<ItemSchema>, label: Seq<char>, i: int) -> bool {
    &&& 0 <= i < items.len()
    &&& items[i].label@ == label
    &&& forall|j: int| 0 <= j < i ==> (#[trigger] items[j]).label@ != label
}

/// The properties of the first item labelled `label`, if there is one.
pub open spec fn item_fields(items: Seq<ItemSchema>, label: Seq<char>) -> Option<Seq<SchemaField>> {
    if exists|i: int| first_with_label(items, label, i) {
        Some(items[choose|i: int| first_with_label(items, label, i)].fields@)
    } else {
        None
    }
}

/// The first item labelled `label`, if there is one.
pub open spec fn item_named(items: Seq<ItemSchema>, label: Seq<char>) -> Option<ItemSchema> {
    if exists|i: int| first_with_label(items, label, i) {
        Some(items[choose|i: int| first_with_label(items, label, i)])
    } else {
        None
    }
}

/// Finds the first item labelled `label`, as `item_named` states.
pub fn item_by_label<'a>(items: &'a Vec<ItemSchema>, label: &str) -> (r: Option<&'a ItemSchema>)
    ensures
        match r {
            Some(item) => item_named(items@, label@) == Some(*item),
            None => item_named(items@, label@) is None,
        },
{
    let found = find_item(items, label);
    match found {
        Some(item) => {
            proof {
                let i = choose|i: int| first_with_label(items@, label@, i) && items@[i] == *item;
                let k = choose|k: int| first_with_label(items@, label@, k);
                lemma_first_unique(items@, label@, i, k);
            }
            Some(item)
        },
        None => None,
    }
}

/// The declared items of one kind.
pub open spec fn items_of(schema: Schema, kind: ItemKind) -> Seq<ItemSchema> {
    match kind {
        ItemKind::Node => schema.nodes@,
        ItemKind::Edge => schema.edges@,
        ItemKind::Vector => schema.vectors@,
    }
}

/// Finds the first item labelled `label`.
pub fn find_item<'a>(items: &'a Vec<ItemSchema>, label: &str) -> (r: Option<&'a ItemSchema>)
    ensures
        match r {
            Some(item) => exists|i: int| first_with_label(items@, label@, i) && items@[i] == *item,
            None => forall|i: int| 0 <= i < items@.len() ==> (#[trigger] items@[i]).label@ != label@,
        },
{
    let mut i: usize = 0;
    while i < items.len()
        invariant
            i <= items@.len(),
            forall|j: int| 0 <= j < i ==> (#[trigger] items@[j]).label@ != label@,
        decreases items@.len() - i,
    {
        if text_eq(items[i].label.as_str(), label) {
            assert(first_with_label(items@, label@, i as int));
            return Some(&items[i]);
        }
        i = i + 1;
    }
    None
}

proof fn lemma_first_unique(items: Seq<ItemSchema>, label: Seq<char>, i: int, j: int)
    requires
        first_with_label(items, label, i),
        first_with_label(items, label, j),
    ensures
        i == j,
{
    if i < j {
        assert(items[i].label@ != label);
    } else if j < i {
        assert(items[j].label@ != label);
    }
}

/// The declared properties of the item of `kind` labelled `label`.
pub fn schema_fields<'a>(schema: &'a Schema, kind: &ItemKind, label: &str) -> (r: Option<
    &'a Vec<SchemaField>,
>)
    ensures
        match r {
            Some(v) => item_fields(items_of(*schema, *kind), label@) == Some(v@),
            None => item_fields(items_of(*schema, *kind), label@) is None,
        },
{
    let items = match kind {
        ItemKind::Node => &schema.nodes,
        ItemKind::Edge => &schema.edges,
        ItemKind::Vector => &schema.vectors,
    };
    let found = find_item(items, label);
    match found {
        Some(item) => {
            proof {
                let i = choose|i: int| first_with_label(items@, label@, i) && items@[i] == *item;
                let k = choose|k: int| first_with_label(items@, label@, k);
                lemma_first_unique(items@, label@, i, k);
            }
            Some(&item.fields)
        },
        None => None,
    }
}

// ------------------------------------------------------------------
// Rust type names
// ------------------------------------------------------------------

/// The Rust type that stands for a property type in generated code.
pub open spec fn field_type_text(ft: FieldType) -> Seq<char>
    decreases ft,
{
    match ft {
        FieldType::String => "String"@,
        FieldType::Boolean => "bool"@,
        FieldType::F32 => "f32"@,
        FieldType::F64 => "f64"@,
        FieldType::I8 => "i8"@,
        FieldType::I16 => "i16"@,
        FieldType::I32 => "i32"@,
        FieldType::I64 => "i64"@,
        FieldType::U8 => "u8"@,
        FieldType::U16 => "u16"@,
        FieldType::U32 => "u32"@,
        FieldType::U64 => "u64"@,
        FieldType::U128 => "u128"@,
        FieldType::Uuid => "ID"@,
        FieldType::Date => "Date"@,
        FieldType::Array(inner) => "Vec<"@ + field_type_text(*inner) + ">"@,
        FieldType::Identifier(name) => name@,
    }
}

pub fn field_type_to_text(ft: &FieldType) -> (r: String)
    ensures
        r@ == field_type_text(*ft),
    decreases ft,
{
    match ft {
        FieldType::String => String::from_str("String"),
        FieldType::Boolean => String::from_str("bool"),
        FieldType::F32 => String::from_str("f32"),
        FieldType::F64 => String::from_str("f64"),
        FieldType::I8 => String::from_str("i8"),
        FieldType::I16 => String::from_str("i16"),
        FieldType::I32 => String::from_str("i32"),
        FieldType::I64 => String::from_str("i64"),
        FieldType::U8 => String::from_str("u8"),
        FieldType::U16 => String::from_str("u16"),
        FieldType::U32 => String::from_str("u32"),
        FieldType::U64 => String::from_str("u64"),
        FieldType::U128 => String::from_str("u128"),
        FieldType::Uuid => String::from_str("ID"),
        FieldType::Date => String::from_str("Date"),
        FieldType::Array(inner) => {
            let mut r = String::from_str("Vec<");
            let t = field_type_to_text(inner);
            r.append(t.as_str());
            r.append(">");
            r
        },
        FieldType::Identifier(name) => name.clone(),
    }
}

/// The label of a node, edge or vector type, with its kind.
pub open spec fn labelled_kind(ty: Type) -> Option<(String, ItemKind)> {
    match ty {
        Type::Node(Some(l)) => Some((l, ItemKind::Node)),
        Type::Nodes(Some(l)) => Some((l, ItemKind::Node)),
        Type::Edge(Some(l)) => Some((l, ItemKind::Edge)),
        Type::Edges(Some(l)) => Some((l, ItemKind::Edge)),
        Type::Vector(Some(l)) => Some((l, ItemKind::Vector)),
        Type::Vectors(Some(l)) => Some((l, ItemKind::Vector)),
        _ => None,
    }
}

/// The Rust type of a returned value of type `ty`, gathered as `sc` says.
pub open spec fn rust_type_text(ty: Type, sc: ShouldCollect) -> Seq<char>
    decreases ty,
{
    match ty {
        Type::Node(Some(l)) => if sc is ToVec {
            "Vec<"@ + l@ + "ReturnType>"@
        } else {
            l@ + "ReturnType"@
        },
        Type::Edge(Some(l)) => if sc is ToVec {
            "Vec<"@ + l@ + "ReturnType>"@
        } else {
            l@ + "ReturnType"@
        },
        Type::Vector(Some(l)) => if sc is ToVec {
            "Vec<"@ + l@ + "ReturnType>"@
        } else {
            l@ + "ReturnType"@
        },
        Type::Scalar(s) => field_type_text(s),
        Type::Boolean => "bool"@,
        Type::Array(inner) => "Vec<"@ + rust_type_text(*inner, ShouldCollect::No) + ">"@,
        Type::Aggregate(_) => "HashMap<String, AggregateItem>"@,
        _ => Seq::empty(),
    }
}

/// A returned field as (name, Rust type, implicit).
pub open spec fn value_field_view(f: ReturnValueField) -> (Seq<char>, Seq<char>, bool) {
    (f.name@, f.field_type@, f.is_implicit)
}

/// The declared properties other than `id` and `label`, as returned fields.
pub open spec fn declared_value_fields(fields: Seq<SchemaField>) -> Seq<(Seq<char>, Seq<char>, bool)>
    decreases fields.len(),
{
    if fields.len() == 0 {
        Seq::empty()
    } else {
        let prev = declared_value_fields(fields.drop_last());
        let f = fields.last();
        if f.name@ != "id"@ && f.name@ != "label"@ {
            prev.push((f.name@, field_type_text(f.field_type), false))
        } else {
            prev
        }
    }
}

/// The fields of a returned value of type `ty` gathered as `sc` says: a
/// single node, edge or vector has its id, its label and its declared
/// properties; every other value has none.
pub open spec fn value_fields(schema: Schema, ty: Type, sc: ShouldCollect) -> Seq<
    (Seq<char>, Seq<char>, bool),
> {
    match labelled_kind(ty) {
        Some((l, kind)) => if !(sc is ToVec) && (ty is Node || ty is Edge || ty is Vector) {
            seq![("id"@, "ID"@, true), ("label"@, "String"@, true)] + match item_fields(
                items_of(schema, kind),
                l@,
            ) {
                Some(fields) => declared_value_fields(fields),
                None => Seq::empty(),
            }
        } else {
            Seq::empty()
        },
        None => Seq::empty(),
    }
}

fn value_field(name: &str, ty: &str, implicit: bool) -> (f: ReturnValueField)
    ensures
        value_field_view(f) == (name@, ty@, implicit),
{
    ReturnValueField { name: name.to_owned(), field_type: ty.to_owned(), is_implicit: implicit }
}

fn push_declared_value_fields(out: &mut Vec<ReturnValueField>, fields: &Vec<SchemaField>)
    ensures
        final(out)@.len() == old(out)@.len() + declared_value_fields(fields@).len(),
        forall|i: int| 0 <= i < old(out)@.len() ==> final(out)@[i] == old(out)@[i],
        forall|i: int|
            0 <= i < declared_value_fields(fields@).len() ==> value_field_view(
                #[trigger] final(out)@[old(out)@.len() + i],
            ) == declared_value_fields(fields@)[i],
{
    let ghost start = out@.len();
    let ghost orig = out@;
    let mut i: usize = 0;
    while i < fields.len()
        invariant
            i <= fields@.len(),
            start == orig.len(),
            out@.len() == start + declared_value_fields(fields@.take(i as int)).len(),
            forall|j: int| 0 <= j < start ==> out@[j] == orig[j],
            forall|j: int|
                0 <= j < declared_value_fields(fields@.take(i as int)).len() ==> value_field_view(
                    #[trigger] out@[start + j],
                ) == declared_value_fields(fields@.take(i as int))[j],
        decreases fields@.len() - i,
    {
        let f = &fields[i];
        proof {
            reveal_strlit("id");
            reveal_strlit("label");
            assert(fields@.take(i + 1).drop_last() =~= fields@.take(i as int));
        }
        if !text_eq(f.name.as_str(), "id") && !text_eq(f.name.as_str(), "label") {
            let t = field_type_to_text(&f.field_type);
            out.push(value_field(f.name.as_str(), t.as_str(), false));
        }
        i = i + 1;
    }
    assert(fields@.take(fields@.len() as int) =~= fields@);
}

/// The Rust type of a returned value, with its fields when it is one
/// node, edge or vector of a declared type.
pub fn type_to_rust_string_and_fields(
    ty: &Type,
    should_collect: &ShouldCollect,
    ctx: &Ctx,
    field_name: &str,
) -> (r: (String, Vec<ReturnValueField>))
    ensures
        r.0@ == rust_type_text(*ty, *should_collect),
        r.1@.len() == value_fields(*ctx.schema, *ty, *should_collect).len(),
        forall|i: int|
            0 <= i < r.1@.len() ==> value_field_view(#[trigger] r.1@[i]) == value_fields(
                *ctx.schema,
                *ty,
                *should_collect,
            )[i],
    decreases ty,
{
    let single = match should_collect {
        ShouldCollect::ToVec => false,
        _ => true,
    };
    match ty {
        Type::Node(Some(label)) | Type::Edge(Some(label)) | Type::Vector(Some(label)) => {
            let kind = match ty {
                Type::Node(_) => ItemKind::Node,
                Type::Edge(_) => ItemKind::Edge,
                _ => ItemKind::Vector,
            };
            if !single {
                let mut name = String::from_str("Vec<");
                name.append(label.as_str());
                name.append("ReturnType>");
                return (name, Vec::new());
            }
            let name = cat(label.as_str(), "ReturnType");
            let mut fields: Vec<ReturnValueField> = Vec::new();
            fields.push(value_field("id", "ID", true));
            fields.push(value_field("label", "String", true));
            match schema_fields(ctx.schema, &kind, label.as_str()) {
                Some(declared) => {
                    push_declared_value_fields(&mut fields, declared);
                },
                None => {},
            }
            proof {
                let exp = value_fields(*ctx.schema, *ty, *should_collect);
                assert(exp.len() == fields@.len());
                assert forall|i: int| 0 <= i < fields@.len() implies value_field_view(
                    #[trigger] fields@[i],
                ) == exp[i] by {
                    if i >= 2 {
                        let d = declared_value_fields(item_fields(items_of(*ctx.schema, kind), label@).unwrap());
                        assert(value_field_view(fields@[2 + (i - 2)]) == d[i - 2]);
                    }
                }
            }
            (name, fields)
        },
        Type::Scalar(s) => (field_type_to_text(s), Vec::new()),
        Type::Boolean => (String::from_str("bool"), Vec::new()),
        Type::Array(inner) => {
            let (inner_type, _) = type_to_rust_string_and_fields(
                inner,
                &ShouldCollect::No,
                ctx,
                field_name,
            );
            let mut name = String::from_str("Vec<");
            name.append(inner_type.as_str());
            name.append(">");
            (name, Vec::new())
        },
        Type::Aggregate(_) => (String::from_str("HashMap<String, AggregateItem>"), Vec::new()),
        _ => (String::new(), Vec::new()),
    }
}

} // verus!

verus! {

// ------------------------------------------------------------------
// Fields of generated return structs
// ------------------------------------------------------------------

/// A plain field as (name, Rust type, implicit), or `None` for a field
/// filled by a nested traversal.
pub open spec fn flat_of(f: ReturnFieldInfo) -> Option<(Seq<char>, Seq<char>, bool)> {
    match f.field_type {
        ReturnFieldType::Simple(t) => match f.source {
            ReturnFieldSource::Implicit => Some((f.name@, t@, true)),
            ReturnFieldSource::Schema => Some((f.name@, t@, false)),
            _ => None,
        },
        _ => None,
    }
}

/// `new` is `old` followed by plain fields that `part` describes.
pub open spec fn extends_with(
    old: Seq<ReturnFieldInfo>,
    new: Seq<ReturnFieldInfo>,
    part: Seq<(Seq<char>, Seq<char>, bool)>,
) -> bool {
    &&& new.len() == old.len() + part.len()
    &&& forall|i: int| 0 <= i < old.len() ==> new[i] == old[i]
    &&& forall|j: int| 0 <= j < part.len() ==> flat_of(#[trigger] new[old.len() + j]) == Some(part[j])
}

/// The plain fields in `out` are those `exp` describes.
pub open spec fn flat_matches(out: Seq<ReturnFieldInfo>, exp: Seq<(Seq<char>, Seq<char>, bool)>) -> bool {
    &&& out.len() == exp.len()
    &&& forall|i: int| 0 <= i < exp.len() ==> flat_of(#[trigger] out[i]) == Some(exp[i])
}

pub open spec fn optional_value() -> Seq<char> {
    "Option<&'a Value>"@
}

pub open spec fn str_ref() -> Seq<char> {
    "&'a str"@
}

pub open spec fn has_name(names: Seq<String>, n: Seq<char>) -> bool {
    exists|i: int| 0 <= i < names.len() && (#[trigger] names[i])@ == n
}

/// A built-in field is kept unless excluded, and, under a projection,
/// only when selected.
pub open spec fn keep_field(trav: GeneratedTraversal, n: Seq<char>) -> bool {
    !has_name(trav.excluded_fields@, n) && (!trav.has_object_step || has_name(
        trav.object_fields@,
        n,
    ))
}

pub open spec fn entry_if(keep: bool, name: Seq<char>, ty: Seq<char>) -> Seq<
    (Seq<char>, Seq<char>, bool),
> {
    if keep {
        seq![(name, ty, true)]
    } else {
        Seq::empty()
    }
}

/// The built-in fields of an item of `kind` that `trav` keeps.
pub open spec fn implicit_part(trav: GeneratedTraversal, kind: ItemKind) -> Seq<
    (Seq<char>, Seq<char>, bool),
> {
    entry_if(keep_field(trav, "id"@), "id"@, str_ref()) + entry_if(
        keep_field(trav, "label"@),
        "label"@,
        str_ref(),
    ) + match kind {
        ItemKind::Edge => entry_if(keep_field(trav, "from_node"@), "from_node"@, str_ref())
            + entry_if(keep_field(trav, "to_node"@), "to_node"@, str_ref()),
        ItemKind::Vector => entry_if(keep_field(trav, "data"@), "data"@, "&'a [f64]"@) + entry_if(
            keep_field(trav, "score"@),
            "score"@,
            "f64"@,
        ),
        ItemKind::Node => Seq::empty(),
    }
}

pub open spec fn is_implicit_name(n: Seq<char>) -> bool {
    n == "id"@ || n == "label"@ || n == "from_node"@ || n == "to_node"@ || n == "data"@ || n
        == "score"@
}

pub open spec fn nested_has(trav: GeneratedTraversal, n: Seq<char>) -> bool {
    exists|i: int|
        0 <= i < trav.nested_traversals@.len() && (#[trigger] trav.nested_traversals@[i]).0@ == n
}

pub open spec fn declares(sf: Seq<SchemaField>, n: Seq<char>) -> bool {
    exists|i: int| 0 <= i < sf.len() && (#[trigger] sf[i]).name@ == n
}

/// Under a projection: the selected declared properties, in the order of
/// selection, leaving out built-in fields and nested traversals.
pub open spec fn projection_part(
    sf: Seq<SchemaField>,
    trav: GeneratedTraversal,
    names: Seq<String>,
) -> Seq<(Seq<char>, Seq<char>, bool)>
    decreases names.len(),
{
    if names.len() == 0 {
        Seq::empty()
    } else {
        let prev = projection_part(sf, trav, names.drop_last());
        let n = names.last()@;
        if !nested_has(trav, n) && !is_implicit_name(n) && declares(sf, n) {
            prev.push((n, optional_value(), false))
        } else {
            prev
        }
    }
}

pub open spec fn flat_has_name(fl: Seq<(Seq<char>, Seq<char>, bool)>, n: Seq<char>) -> bool {
    exists|i: int| 0 <= i < fl.len() && (#[trigger] fl[i]).0 == n
}

pub open spec fn spread_type(n: Seq<char>) -> Seq<char> {
    if n == "data"@ {
        "&'a [f64]"@
    } else if n == "score"@ {
        "f64"@
    } else {
        str_ref()
    }
}

/// Under a projection with `..`: every declared property not yet present
/// and not excluded, in declaration order.
pub open spec fn spread_part(
    sf: Seq<SchemaField>,
    trav: GeneratedTraversal,
    base: Seq<(Seq<char>, Seq<char>, bool)>,
) -> Seq<(Seq<char>, Seq<char>, bool)>
    decreases sf.len(),
{
    if sf.len() == 0 {
        Seq::empty()
    } else {
        let prev = spread_part(sf.drop_last(), trav, base);
        let n = sf.last().name@;
        if flat_has_name(base + prev, n) || has_name(trav.excluded_fields@, n) {
            prev
        } else if is_implicit_name(n) {
            prev.push((n, spread_type(n), true))
        } else {
            prev.push((n, optional_value(), false))
        }
    }
}

/// Without a projection: every declared property that is neither built
/// in nor excluded, in declaration order.
pub open spec fn plain_part(sf: Seq<SchemaField>, trav: GeneratedTraversal) -> Seq<
    (Seq<char>, Seq<char>, bool),
>
    decreases sf.len(),
{
    if sf.len() == 0 {
        Seq::empty()
    } else {
        let prev = plain_part(sf.drop_last(), trav);
        let n = sf.last().name@;
        if !is_implicit_name(n) && !has_name(trav.excluded_fields@, n) {
            prev.push((n, optional_value(), false))
        } else {
            prev
        }
    }
}

/// The plain fields of the struct returned for a value of type `ty`.
pub open spec fn flat_part(schema: Schema, ty: Type, trav: GeneratedTraversal) -> Seq<
    (Seq<char>, Seq<char>, bool),
> {
    match labelled_kind(ty) {
        Some((l, kind)) => {
            let imp = implicit_part(trav, kind);
            imp + match item_fields(items_of(schema, kind), l@) {
                Some(sf) => if trav.has_object_step {
                    let proj = projection_part(sf, trav, trav.object_fields@);
                    proj + if trav.has_spread {
                        spread_part(sf, trav, imp + proj)
                    } else {
                        Seq::empty()
                    }
                } else {
                    plain_part(sf, trav)
                },
                None => Seq::empty(),
            }
        },
        None => Seq::empty(),
    }
}

pub open spec fn is_accessor_name(n: Seq<char>) -> bool {
    is_implicit_name(n) || n == "ID"@ || n == "Label"@
}

pub open spec fn first_field(trav: GeneratedTraversal) -> Option<String> {
    if trav.object_fields@.len() > 0 {
        Some(trav.object_fields@[0])
    } else {
        None
    }
}

/// The Rust type of a nested traversal that yields a scalar: a built-in
/// field has its own type, any other property is an optional value.
pub open spec fn scalar_nested_type(trav: GeneratedTraversal) -> Seq<char> {
    match first_field(trav) {
        Some(a) => if is_accessor_name(a@) {
            if a@ == "data"@ {
                "&'a [f64]"@
            } else if a@ == "score"@ {
                "f64"@
            } else {
                str_ref()
            }
        } else {
            optional_value()
        },
        None => if !trav.has_object_step {
            str_ref()
        } else {
            optional_value()
        },
    }
}

/// The source of a field filled by the nested traversal `info` named
/// `name`.
pub open spec fn nested_source_ok(
    src: ReturnFieldSource,
    name: String,
    info: NestedTraversalInfo,
    struct_name: Option<Seq<char>>,
    accessed: Option<String>,
) -> bool {
    match src {
        ReturnFieldSource::NestedTraversal {
            traversal_expr,
            traversal_code,
            nested_struct_name,
            traversal_type,
            closure_param_name,
            closure_source_var,
            accessed_field_name,
            own_closure_param,
        } => {
            &&& traversal_expr@ == "nested_traversal_"@ + name@
            &&& traversal_code == Some(info.traversal.steps_code)
            &&& match struct_name {
                Some(sn) => nested_struct_name matches Some(n) && n@ == sn,
                None => nested_struct_name is None,
            }
            &&& traversal_type == Some(info.traversal.traversal_type)
            &&& closure_param_name == info.closure_param_name
            &&& closure_source_var == info.closure_source_var
            &&& accessed_field_name == accessed
            &&& own_closure_param == info.own_closure_param
        },
        _ => false,
    }
}

pub open spec fn is_item_type(t: Type) -> bool {
    t is Node || t is Edge || t is Vector || t is Nodes || t is Edges || t is Vectors
}

/// The fixed fields of an aggregate: its key, the grouped properties,
/// and the count.
pub open spec fn aggregate_part(info: AggregateInfo) -> Seq<(Seq<char>, Seq<char>, bool)> {
    seq![("key"@, "String"@, true)] + crate::analyzer::types::name_seq(info.properties).map_values(
        |p: String| (p@, optional_value(), false),
    ) + seq![("count"@, "i32"@, true)]
}

/// `out` is exactly the list of fields of the struct returned for a value
/// of type `ty` produced by `trav`, with nested structs named from
/// `prefix`.
pub open spec fn fields_ok(
    schema: Schema,
    ty: Type,
    trav: GeneratedTraversal,
    prefix: Seq<char>,
    out: Seq<ReturnFieldInfo>,
) -> bool
    decreases trav, ty,
{
    match ty {
        Type::Aggregate(info) => {
            let base = aggregate_part(info);
            &&& out.len() == base.len() + if info.is_count {
                0int
            } else {
                1int
            }
            &&& forall|i: int| 0 <= i < base.len() ==> flat_of(#[trigger] out[i]) == Some(base[i])
            &&& !info.is_count ==> {
                let f = out[base.len() as int];
                &&& f.name@ == "items"@
                &&& match f.field_type {
                    ReturnFieldType::Nested(v) => fields_ok(
                        schema,
                        *info.source_type,
                        trav,
                        prefix + "Items"@,
                        v@,
                    ),
                    _ => false,
                }
                &&& match f.source {
                    ReturnFieldSource::NestedTraversal {
                        traversal_expr,
                        traversal_code,
                        nested_struct_name,
                        traversal_type,
                        closure_param_name,
                        closure_source_var,
                        accessed_field_name,
                        own_closure_param,
                    } => {
                        &&& traversal_expr@ == Seq::<char>::empty()
                        &&& traversal_code is None
                        &&& nested_struct_name matches Some(n) && n@ == prefix + "Items"@
                            + "ReturnType"@
                        &&& traversal_type is None
                        &&& closure_param_name is None
                        &&& closure_source_var is None
                        &&& accessed_field_name is None
                        &&& own_closure_param is None
                    },
                    _ => false,
                }
            }
        },
        _ => {
            let flat = flat_part(schema, ty, trav);
            let nt = trav.nested_traversals@;
            &&& out.len() == flat.len() + nt.len()
            &&& forall|i: int| 0 <= i < flat.len() ==> flat_of(#[trigger] out[i]) == Some(flat[i])
            &&& forall|k: int|
                0 <= k < nt.len() ==> nested_entry_ok(
                    schema,
                    prefix,
                    (#[trigger] nt[k]).0,
                    nt[k].1,
                    out[flat.len() + k],
                )
        },
    }
}

/// `f` is the field filled by the nested traversal `info` named `name`.
pub open spec fn nested_entry_ok(
    schema: Schema,
    prefix: Seq<char>,
    name: String,
    info: NestedTraversalInfo,
    f: ReturnFieldInfo,
) -> bool
    decreases info.traversal, info.return_type,
{
    &&& f.name == name
    &&& match info.return_type {
        Some(rt) => if rt is Scalar {
            &&& f.field_type matches ReturnFieldType::Simple(t) && t@ == scalar_nested_type(
                info.traversal,
            )
            &&& nested_source_ok(f.source, name, info, None, first_field(info.traversal))
        } else if is_item_type(rt) {
            let np = prefix + capitalized(name@);
            &&& match f.field_type {
                ReturnFieldType::Nested(v) => fields_ok(schema, rt, info.traversal, np, v@),
                _ => false,
            }
            &&& nested_source_ok(f.source, name, info, Some(np + "ReturnType"@), None)
        } else {
            &&& f.field_type matches ReturnFieldType::Simple(t) && t@ == "Value"@
            &&& nested_source_ok(f.source, name, info, None, None)
        },
        None => {
            &&& f.field_type matches ReturnFieldType::Simple(t) && t@ == "Value"@
            &&& f.source matches ReturnFieldSource::NestedTraversal {
                traversal_expr,
                traversal_code,
                nested_struct_name,
                traversal_type,
                closure_param_name,
                closure_source_var,
                accessed_field_name,
                own_closure_param,
            } && traversal_expr@ == "nested_traversal_"@ + name@ && traversal_code is None
                && nested_struct_name is None && traversal_type is None && closure_param_name is None
                && closure_source_var is None && accessed_field_name is None
                && own_closure_param is None
        },
    }
}

} // verus!

verus! {

fn flat_field(name: &str, ty: &str, implicit: bool) -> (f: ReturnFieldInfo)
    ensures
        flat_of(f) == Some((name@, ty@, implicit)),
{
    ReturnFieldInfo {
        name: name.to_owned(),
        field_type: ReturnFieldType::Simple(ty.to_owned()),
        source: if implicit {
            ReturnFieldSource::Implicit
        } else {
            ReturnFieldSource::Schema
        },
    }
}

proof fn lemma_extends_trans(
    a: Seq<ReturnFieldInfo>,
    b: Seq<ReturnFieldInfo>,
    c: Seq<ReturnFieldInfo>,
    p: Seq<(Seq<char>, Seq<char>, bool)>,
    q: Seq<(Seq<char>, Seq<char>, bool)>,
)
    requires
        extends_with(a, b, p),
        extends_with(b, c, q),
    ensures
        extends_with(a, c, p + q),
{
    assert forall|j: int| 0 <= j < (p + q).len() implies flat_of(#[trigger] c[a.len() + j]) == Some(
        (p + q)[j],
    ) by {
        if j < p.len() {
            assert(c[a.len() + j] == b[a.len() + j]);
        } else {
            let k = j - p.len();
            assert(c[b.len() + k] == c[a.len() + j]);
        }
    }
}

proof fn lemma_extends_push(
    a: Seq<ReturnFieldInfo>,
    b: Seq<ReturnFieldInfo>,
    p: Seq<(Seq<char>, Seq<char>, bool)>,
    f: ReturnFieldInfo,
    e: (Seq<char>, Seq<char>, bool),
)
    requires
        extends_with(a, b, p),
        flat_of(f) == Some(e),
    ensures
        extends_with(a, b.push(f), p.push(e)),
{
    assert forall|j: int| 0 <= j < p.push(e).len() implies flat_of(
        #[trigger] b.push(f)[a.len() + j],
    ) == Some(p.push(e)[j]) by {
        if j < p.len() {
            assert(b.push(f)[a.len() + j] == b[a.len() + j]);
        }
    }
}

proof fn lemma_extends_matches(
    a: Seq<ReturnFieldInfo>,
    b: Seq<ReturnFieldInfo>,
    base: Seq<(Seq<char>, Seq<char>, bool)>,
    p: Seq<(Seq<char>, Seq<char>, bool)>,
)
    requires
        flat_matches(a, base),
        extends_with(a, b, p),
    ensures
        flat_matches(b, base + p),
{
    assert forall|i: int| 0 <= i < (base + p).len() implies flat_of(#[trigger] b[i]) == Some(
        (base + p)[i],
    ) by {
        if i >= base.len() {
            let j = i - base.len();
            assert(b[a.len() + j] == b[i]);
        }
    }
}

fn keeps(trav: &GeneratedTraversal, n: &str) -> (r: bool)
    ensures
        r == keep_field(*trav, n@),
{
    !contains_text(&trav.excluded_fields, n) && (!trav.has_object_step || contains_text(
        &trav.object_fields,
        n,
    ))
}

fn push_if_kept(out: &mut Vec<ReturnFieldInfo>, trav: &GeneratedTraversal, name: &str, ty: &str)
    ensures
        extends_with(old(out)@, final(out)@, entry_if(keep_field(*trav, name@), name@, ty@)),
{
    if keeps(trav, name) {
        let f = flat_field(name, ty, true);
        let ghost before = out@;
        out.push(f);
        proof {
            assert(final(out)@ == before.push(f));
        }
    }
}

fn add_implicit_fields(out: &mut Vec<ReturnFieldInfo>, trav: &GeneratedTraversal, kind: &ItemKind)
    ensures
        extends_with(old(out)@, final(out)@, implicit_part(*trav, *kind)),
{
    let ghost o0 = out@;
    push_if_kept(out, trav, "id", "&'a str");
    let ghost o1 = out@;
    push_if_kept(out, trav, "label", "&'a str");
    let ghost o2 = out@;
    proof {
        lemma_extends_trans(o0, o1, o2, entry_if(keep_field(*trav, "id"@), "id"@, str_ref()), entry_if(keep_field(*trav, "label"@), "label"@, str_ref()));
    }
    match kind {
        ItemKind::Edge => {
            push_if_kept(out, trav, "from_node", "&'a str");
            let ghost o3 = out@;
            push_if_kept(out, trav, "to_node", "&'a str");
            proof {
                let a = entry_if(keep_field(*trav, "from_node"@), "from_node"@, str_ref());
                let b = entry_if(keep_field(*trav, "to_node"@), "to_node"@, str_ref());
                lemma_extends_trans(o2, o3, out@, a, b);
                lemma_extends_trans(o0, o2, out@, entry_if(keep_field(*trav, "id"@), "id"@, str_ref()) + entry_if(keep_field(*trav, "label"@), "label"@, str_ref()), a + b);
            }
        },
        ItemKind::Vector => {
            push_if_kept(out, trav, "data", "&'a [f64]");
            let ghost o3 = out@;
            push_if_kept(out, trav, "score", "f64");
            proof {
                let a = entry_if(keep_field(*trav, "data"@), "data"@, "&'a [f64]"@);
                let b = entry_if(keep_field(*trav, "score"@), "score"@, "f64"@);
                lemma_extends_trans(o2, o3, out@, a, b);
                lemma_extends_trans(o0, o2, out@, entry_if(keep_field(*trav, "id"@), "id"@, str_ref()) + entry_if(keep_field(*trav, "label"@), "label"@, str_ref()), a + b);
            }
        },
        ItemKind::Node => {
            proof {
                let p = entry_if(keep_field(*trav, "id"@), "id"@, str_ref()) + entry_if(keep_field(*trav, "label"@), "label"@, str_ref());
                assert(p + Seq::<(Seq<char>, Seq<char>, bool)>::empty() =~= p);
            }
        },
    }
}

fn is_implicit_text(n: &str) -> (r: bool)
    ensures
        r == is_implicit_name(n@),
{
    text_eq(n, "id") || text_eq(n, "label") || text_eq(n, "from_node") || text_eq(n, "to_node")
        || text_eq(n, "data") || text_eq(n, "score")
}

fn is_accessor_text(n: &str) -> (r: bool)
    ensures
        r == is_accessor_name(n@),
{
    is_implicit_text(n) || text_eq(n, "ID") || text_eq(n, "Label")
}

fn has_nested(trav: &GeneratedTraversal, n: &str) -> (r: bool)
    ensures
        r == nested_has(*trav, n@),
{
    let mut i: usize = 0;
    while i < trav.nested_traversals.len()
        invariant
            i <= trav.nested_traversals@.len(),
            forall|j: int| 0 <= j < i ==> (#[trigger] trav.nested_traversals@[j]).0@ != n@,
        decreases trav.nested_traversals@.len() - i,
    {
        if text_eq(trav.nested_traversals[i].0.as_str(), n) {
            return true;
        }
        i = i + 1;
    }
    false
}

fn declares_name(sf: &Vec<SchemaField>, n: &str) -> (r: bool)
    ensures
        r == declares(sf@, n@),
{
    let mut i: usize = 0;
    while i < sf.len()
        invariant
            i <= sf@.len(),
            forall|j: int| 0 <= j < i ==> (#[trigger] sf@[j]).name@ != n@,
        decreases sf@.len() - i,
    {
        if text_eq(sf[i].name.as_str(), n) {
            return true;
        }
        i = i + 1;
    }
    false
}

fn add_projection_fields(
    out: &mut Vec<ReturnFieldInfo>,
    trav: &GeneratedTraversal,
    sf: &Vec<SchemaField>,
)
    ensures
        extends_with(old(out)@, final(out)@, projection_part(sf@, *trav, trav.object_fields@)),
{
    let ghost o = out@;
    let names = &trav.object_fields;
    let mut i: usize = 0;
    while i < names.len()
        invariant
            i <= names@.len(),
            names == &trav.object_fields,
            extends_with(o, out@, projection_part(sf@, *trav, names@.take(i as int))),
        decreases names@.len() - i,
    {
        let n = names[i].as_str();
        proof {
            assert(names@.take(i + 1).drop_last() =~= names@.take(i as int));
        }
        if !has_nested(trav, n) && !is_implicit_text(n) && declares_name(sf, n) {
            let f = flat_field(n, "Option<&'a Value>", false);
            proof {
                lemma_extends_push(o, out@, projection_part(sf@, *trav, names@.take(i as int)), f, (n@, optional_value(), false));
            }
            out.push(f);
        }
        i = i + 1;
    }
    assert(names@.take(names@.len() as int) =~= names@);
}

fn add_plain_fields(out: &mut Vec<ReturnFieldInfo>, trav: &GeneratedTraversal, sf: &Vec<SchemaField>)
    ensures
        extends_with(old(out)@, final(out)@, plain_part(sf@, *trav)),
{
    let ghost o = out@;
    let mut i: usize = 0;
    while i < sf.len()
        invariant
            i <= sf@.len(),
            extends_with(o, out@, plain_part(sf@.take(i as int), *trav)),
        decreases sf@.len() - i,
    {
        let n = sf[i].name.as_str();
        proof {
            assert(sf@.take(i + 1).drop_last() =~= sf@.take(i as int));
        }
        if !is_implicit_text(n) && !contains_text(&trav.excluded_fields, n) {
            let f = flat_field(n, "Option<&'a Value>", false);
            proof {
                lemma_extends_push(o, out@, plain_part(sf@.take(i as int), *trav), f, (n@, optional_value(), false));
            }
            out.push(f);
        }
        i = i + 1;
    }
    assert(sf@.take(sf@.len() as int) =~= sf@);
}

fn has_field_named(out: &Vec<ReturnFieldInfo>, n: &str) -> (r: bool)
    ensures
        r == exists|j: int| 0 <= j < out@.len() && (#[trigger] out@[j]).name@ == n@,
{
    let mut i: usize = 0;
    while i < out.len()
        invariant
            i <= out@.len(),
            forall|j: int| 0 <= j < i ==> (#[trigger] out@[j]).name@ != n@,
        decreases out@.len() - i,
    {
        if text_eq(out[i].name.as_str(), n) {
            return true;
        }
        i = i + 1;
    }
    false
}

fn spread_type_text(n: &str) -> (r: &'static str)
    ensures
        r@ == spread_type(n@),
{
    if text_eq(n, "data") {
        "&'a [f64]"
    } else if text_eq(n, "score") {
        "f64"
    } else {
        "&'a str"
    }
}

fn add_spread_fields(
    out: &mut Vec<ReturnFieldInfo>,
    trav: &GeneratedTraversal,
    sf: &Vec<SchemaField>,
    Ghost(base): Ghost<Seq<(Seq<char>, Seq<char>, bool)>>,
)
    requires
        flat_matches(old(out)@, base),
    ensures
        extends_with(old(out)@, final(out)@, spread_part(sf@, *trav, base)),
{
    let ghost o = out@;
    let mut i: usize = 0;
    while i < sf.len()
        invariant
            i <= sf@.len(),
            flat_matches(o, base),
            extends_with(o, out@, spread_part(sf@.take(i as int), *trav, base)),
        decreases sf@.len() - i,
    {
        let n = sf[i].name.as_str();
        let ghost prev = spread_part(sf@.take(i as int), *trav, base);
        proof {
            assert(sf@.take(i + 1).drop_last() =~= sf@.take(i as int));
            lemma_extends_matches(o, out@, base, prev);
        }
        let present = has_field_named(out, n);
        proof {
            let exp = base + prev;
            if present {
                let j = choose|j: int| 0 <= j < out@.len() && (#[trigger] out@[j]).name@ == n@;
                assert(flat_of(out@[j]) == Some(exp[j]));
                assert(exp[j].0 == n@);
            }
            if flat_has_name(exp, n@) {
                let j = choose|j: int| 0 <= j < exp.len() && (#[trigger] exp[j]).0 == n@;
                assert(flat_of(out@[j]) == Some(exp[j]));
                assert(out@[j].name@ == n@);
            }
        }
        if !present && !contains_text(&trav.excluded_fields, n) {
            let f = if is_implicit_text(n) {
                flat_field(n, spread_type_text(n), true)
            } else {
                flat_field(n, "Option<&'a Value>", false)
            };
            proof {
                if is_implicit_name(n@) {
                    lemma_extends_push(o, out@, prev, f, (n@, spread_type(n@), true));
                } else {
                    lemma_extends_push(o, out@, prev, f, (n@, optional_value(), false));
                }
            }
            out.push(f);
        }
        i = i + 1;
    }
    assert(sf@.take(sf@.len() as int) =~= sf@);
}

/// A copy of a traversal kind.
pub fn copy_traversal_type(t: &TraversalType) -> (r: TraversalType)
    ensures
        r == *t,
{
    match t {
        TraversalType::Ref => TraversalType::Ref,
        TraversalType::Mut => TraversalType::Mut,
        TraversalType::Nested => TraversalType::Nested,
        TraversalType::FromVar(s) => TraversalType::FromVar(s.clone()),
    }
}

fn scalar_nested_type_text(trav: &GeneratedTraversal) -> (r: &'static str)
    ensures
        r@ == scalar_nested_type(*trav),
{
    if trav.object_fields.len() > 0 {
        let a = trav.object_fields[0].as_str();
        if is_accessor_text(a) {
            spread_type_text(a)
        } else {
            "Option<&'a Value>"
        }
    } else if !trav.has_object_step {
        "&'a str"
    } else {
        "Option<&'a Value>"
    }
}

fn nested_field(ctx: &Ctx, prefix: &str, name: &String, info: &NestedTraversalInfo) -> (f:
    ReturnFieldInfo)
    ensures
        nested_entry_ok(*ctx.schema, prefix@, *name, *info, f),
    decreases info.traversal, info.return_type,
{
    let expr = cat("nested_traversal_", name.as_str());
    match &info.return_type {
        Some(rt) => {
            let (field_type, struct_name, accessed) = match rt {
                Type::Scalar(_) => {
                    let accessed = if info.traversal.object_fields.len() > 0 {
                        Some(info.traversal.object_fields[0].clone())
                    } else {
                        None
                    };
                    (
                        ReturnFieldType::Simple(scalar_nested_type_text(&info.traversal).to_owned()),
                        None,
                        accessed,
                    )
                },
                Type::Node(_)
                | Type::Edge(_)
                | Type::Vector(_)
                | Type::Nodes(_)
                | Type::Edges(_)
                | Type::Vectors(_) => {
                    let cap = capitalize_first(name.as_str());
                    let np = cat(prefix, cap.as_str());
                    let nested = build_return_fields(ctx, rt, &info.traversal, np.as_str());
                    (ReturnFieldType::Nested(nested), Some(cat(np.as_str(), "ReturnType")), None)
                },
                _ => (ReturnFieldType::Simple(String::from_str("Value")), None, None),
            };
            ReturnFieldInfo {
                name: name.clone(),
                field_type,
                source: ReturnFieldSource::NestedTraversal {
                    traversal_expr: expr,
                    traversal_code: Some(info.traversal.steps_code.clone()),
                    nested_struct_name: struct_name,
                    traversal_type: Some(copy_traversal_type(&info.traversal.traversal_type)),
                    closure_param_name: copy_opt_string(&info.closure_param_name),
                    closure_source_var: copy_opt_string(&info.closure_source_var),
                    accessed_field_name: accessed,
                    own_closure_param: copy_opt_string(&info.own_closure_param),
                },
            }
        },
        None => ReturnFieldInfo {
            name: name.clone(),
            field_type: ReturnFieldType::Simple(String::from_str("Value")),
            source: ReturnFieldSource::NestedTraversal {
                traversal_expr: expr,
                traversal_code: None,
                nested_struct_name: None,
                traversal_type: None,
                closure_param_name: None,
                closure_source_var: None,
                accessed_field_name: None,
                own_closure_param: None,
            },
        },
    }
}

/// The fields of the struct returned for a value of type `inferred_type`
/// produced by `traversal`: for an aggregate its key, grouped
/// properties, count and, unless it only counts, its items; for a node,
/// edge or vector type its kept built-in fields and its declared or
/// selected properties; then one field per nested traversal.
pub fn build_return_fields(
    ctx: &Ctx,
    inferred_type: &Type,
    traversal: &GeneratedTraversal,
    struct_name_prefix: &str,
) -> (fields: Vec<ReturnFieldInfo>)
    ensures
        fields_ok(*ctx.schema, *inferred_type, *traversal, struct_name_prefix@, fields@),
    decreases traversal, inferred_type,
{
    let mut fields: Vec<ReturnFieldInfo> = Vec::new();
    if let Type::Aggregate(info) = inferred_type {
        fields.push(flat_field("key", "String", true));
        let props = crate::analyzer::types::names_to_vec(&info.properties);
        let mut i: usize = 0;
        while i < props.len()
            invariant
                props@ == crate::analyzer::types::name_seq(info.properties),
                i <= props@.len(),
                fields@.len() == 1 + i,
                flat_of(fields@[0]) == Some(("key"@, "String"@, true)),
                forall|j: int|
                    0 <= j < i ==> flat_of(#[trigger] fields@[1 + j]) == Some(
                        (props@[j]@, optional_value(), false),
                    ),
            decreases props@.len() - i,
        {
            fields.push(flat_field(props[i].as_str(), "Option<&'a Value>", false));
            i = i + 1;
        }
        fields.push(flat_field("count", "i32", true));
        let ghost base_fields = fields@;
        if !info.is_count {
            let items_prefix = cat(struct_name_prefix, "Items");
            let item_fields = build_return_fields(
                ctx,
                &info.source_type,
                traversal,
                items_prefix.as_str(),
            );
            fields.push(
                ReturnFieldInfo {
                    name: String::from_str("items"),
                    field_type: ReturnFieldType::Nested(item_fields),
                    source: ReturnFieldSource::NestedTraversal {
                        traversal_expr: String::new(),
                        traversal_code: None,
                        nested_struct_name: Some(cat(items_prefix.as_str(), "ReturnType")),
                        traversal_type: None,
                        closure_param_name: None,
                        closure_source_var: None,
                        accessed_field_name: None,
                        own_closure_param: None,
                    },
                },
            );
        }
        proof {
            let base = aggregate_part(*info);
            assert forall|i: int| 0 <= i < base.len() implies flat_of(#[trigger] fields@[i]) == Some(
                base[i],
            ) by {
                assert(fields@[i] == base_fields[i]);
                if 1 <= i < base.len() - 1 {
                    assert(flat_of(base_fields[1 + (i - 1)]) == Some(
                        (props@[i - 1]@, optional_value(), false),
                    ));
                }
            }
        }
        return fields;
    }
    let target: Option<(&String, ItemKind)> = match inferred_type {
        Type::Node(Some(l)) | Type::Nodes(Some(l)) => Some((l, ItemKind::Node)),
        Type::Edge(Some(l)) | Type::Edges(Some(l)) => Some((l, ItemKind::Edge)),
        Type::Vector(Some(l)) | Type::Vectors(Some(l)) => Some((l, ItemKind::Vector)),
        _ => None,
    };
    if let Some((label, kind)) = target {
        let ghost empty_fields = fields@;
        add_implicit_fields(&mut fields, traversal, &kind);
        let ghost imp = implicit_part(*traversal, kind);
        let ghost after_imp = fields@;
        proof {
            lemma_extends_matches(empty_fields, fields@, Seq::empty(), imp);
            assert(Seq::<(Seq<char>, Seq<char>, bool)>::empty() + imp =~= imp);
        }
        match schema_fields(ctx.schema, &kind, label.as_str()) {
            Some(sf) => {
                if traversal.has_object_step {
                    add_projection_fields(&mut fields, traversal, sf);
                    let ghost proj = projection_part(sf@, *traversal, traversal.object_fields@);
                    proof {
                        lemma_extends_matches(after_imp, fields@, imp, proj);
                    }
                    let ghost after_proj = fields@;
                    if traversal.has_spread {
                        add_spread_fields(&mut fields, traversal, sf, Ghost(imp + proj));
                        proof {
                            lemma_extends_matches(after_proj, fields@, imp + proj, spread_part(sf@, *traversal, imp + proj));
                            assert(imp + proj + spread_part(sf@, *traversal, imp + proj) =~= imp + (proj + spread_part(sf@, *traversal, imp + proj)));
                        }
                    } else {
                        proof {
                            assert(proj + Seq::<(Seq<char>, Seq<char>, bool)>::empty() =~= proj);
                        }
                    }
                } else {
                    add_plain_fields(&mut fields, traversal, sf);
                    proof {
                        lemma_extends_matches(after_imp, fields@, imp, plain_part(sf@, *traversal));
                    }
                }
            },
            None => {
                proof {
                    assert(imp + Seq::<(Seq<char>, Seq<char>, bool)>::empty() =~= imp);
                }
            },
        }
    }
    let ghost flat = flat_part(*ctx.schema, *inferred_type, *traversal);
    proof {
        assert(flat_matches(fields@, flat));
    }
    let ghost flat_fields = fields@;
    let flat_len = fields.len();
    let mut k: usize = 0;
    while k < traversal.nested_traversals.len()
        invariant
            k <= traversal.nested_traversals@.len(),
            flat_len == flat.len(),
            flat_fields.len() == flat_len,
            flat_matches(flat_fields, flat),
            fields@.len() == flat_len + k,
            forall|i: int| 0 <= i < flat_len ==> fields@[i] == flat_fields[i],
            forall|j: int|
                0 <= j < k ==> nested_entry_ok(
                    *ctx.schema,
                    struct_name_prefix@,
                    (#[trigger] traversal.nested_traversals@[j]).0,
                    traversal.nested_traversals@[j].1,
                    fields@[flat_len + j],
                ),
        decreases traversal.nested_traversals@.len() - k,
    {
        let entry = &traversal.nested_traversals[k];
        let f = nested_field(ctx, struct_name_prefix, &entry.0, &entry.1);
        fields.push(f);
        k = k + 1;
    }
    proof {
        assert forall|i: int| 0 <= i < flat.len() implies flat_of(#[trigger] fields@[i]) == Some(
            flat[i],
        ) by {
            assert(fields@[i] == flat_fields[i]);
        }
        assert(fields_ok(*ctx.schema, *inferred_type, *traversal, struct_name_prefix@, fields@));
    }
    fields
}

} // verus!
