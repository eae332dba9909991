use vstd::prelude::*;
use vstd::string::*;
use crate::analyzer::types::{
    Schema, Query, ReturnValueStruct, Ctx, Expression, GeneratedQuery, ItemKind, ReturnType,
    ReturnValue, SchemaField, StartNode, Step, Traversal, Type, VariableInfo, ReturnFieldInfo,
    ReturnFieldType, ReturnFieldSource,
};
use crate::analyzer::text::{cat, text_eq};
use crate::analyzer::scope::{lookup, scope_lookup};
use crate::analyzer::return_types::{item_fields, items_of, schema_fields};

verus! {

/// The texts of `list` separated by `sep`.
pub open spec fn seq_join(list: Seq<Seq<char>>, sep: Seq<char>) -> Seq<char>
    decreases list.len(),
{
    if list.len() == 0 {
        Seq::empty()
    } else if list.len() == 1 {
        list[0]
    } else {
        seq_join(list.drop_last(), sep) + sep + list.last()
    }
}

pub open spec fn texts_of(list: Seq<String>) -> Seq<Seq<char>> {
    list.map_values(|s: String| s@)
}

/// Joins the texts of `list` with `sep` between them.
pub fn join_texts(list: &Vec<String>, sep: &str) -> (r: String)
    ensures
        r@ == seq_join(texts_of(list@), sep@),
{
    let mut r = String::new();
    let ghost views = texts_of(list@);
    let mut i: usize = 0;
    while i < list.len()
        invariant
            i <= list@.len(),
            views == texts_of(list@),
            views.len() == list@.len(),
            r@ == seq_join(views.take(i as int), sep@),
        decreases list@.len() - i,
    {
        proof {
            assert(views.take(i + 1).drop_last() =~= views.take(i as int));
        }
        if i != 0 {
            r.append(sep);
        }
        r.append(list[i].as_str());
        i = i + 1;
        proof {
            if i == 1 {
                assert(r@ =~= views.take(1)[0]);
            }
        }
    }
    assert(views.take(list@.len() as int) =~= views);
    r
}

/// The variable a traversal starts from, or `unknown`.
pub open spec fn start_var(t: Traversal) -> Seq<char> {
    match t.start {
        StartNode::Identifier(id) => id@,
        _ => "unknown"@,
    }
}

/// Code that reads property `prop` of the item in variable `var`.
pub open spec fn property_access(var: Seq<char>, prop: Seq<char>) -> Seq<char> {
    if prop == "id"@ {
        "uuid_str("@ + var + ".id(), &arena)"@
    } else if prop == "label"@ {
        var + ".label()"@
    } else {
        var + ".get_property(\""@ + prop + "\")"@
    }
}

/// JSON code for a traversal in an object literal: the first property it
/// projects onto, or its whole starting variable.
pub open spec fn traversal_json(t: Traversal) -> Seq<char> {
    let var = start_var(t);
    if t.steps@.len() > 0 {
        match t.steps@[0] {
            Step::Object(fields) => if fields@.len() > 0 {
                property_access(var, fields@[0]@)
            } else {
                "json!("@ + var + ")"@
            },
            _ => "json!("@ + var + ")"@,
        }
    } else {
        "json!("@ + var + ")"@
    }
}

/// The entries for a node's or edge's declared properties other than
/// `id` and `label`.
pub open spec fn property_entries(var: Seq<char>, fields: Seq<SchemaField>) -> Seq<Seq<char>>
    decreases fields.len(),
{
    if fields.len() == 0 {
        Seq::empty()
    } else {
        let prev = property_entries(var, fields.drop_last());
        let p = fields.last().name@;
        if p == "id"@ || p == "label"@ {
            prev
        } else {
            prev.push("\""@ + p + "\":  "@ + var + ".get_property(\""@ + p + "\")"@)
        }
    }
}

pub open spec fn identifier_entries(var: Seq<char>, fields: Seq<SchemaField>) -> Seq<Seq<char>> {
    seq![
        "\"id\": uuid_str("@ + var + ".id(), &arena)"@,
        "\"label\": "@ + var + ".label()"@,
    ] + property_entries(var, fields)
}

pub open spec fn item_json(var: Seq<char>, found: Option<Seq<SchemaField>>) -> Seq<char> {
    match found {
        Some(fields) => "json!({\n        "@ + seq_join(identifier_entries(var, fields), ",\n        "@)
            + "\n    })"@,
        None => "json!({\"id\": uuid_str("@ + var + ".id(), &arena), \"label\": "@ + var
            + ".label()})"@,
    }
}

/// JSON code for a variable of type `ty`: a node or edge of a declared
/// type with all its properties, anything else as it is.
pub open spec fn identifier_json(schema: Schema, var: Seq<char>, ty: Type) -> Seq<char> {
    match ty {
        Type::Node(Some(label)) => item_json(var, item_fields(items_of(schema, ItemKind::Node), label@)),
        Type::Edge(Some(label)) => item_json(var, item_fields(items_of(schema, ItemKind::Edge), label@)),
        _ => "json!("@ + var + ")"@,
    }
}

/// JSON code for a variable named in an object literal.
pub open spec fn variable_json(schema: Schema, scope: Seq<(String, VariableInfo)>, id: Seq<char>) -> Seq<char> {
    match scope_lookup(scope, id) {
        Some(info) => identifier_json(schema, id, info.ty),
        None => "json!("@ + id + ")"@,
    }
}

pub open spec fn null_json() -> Seq<char> {
    "serde_json::Value::Null"@
}

/// JSON code for the value of one field of an object literal.
pub open spec fn field_json(schema: Schema, scope: Seq<(String, VariableInfo)>, rt: ReturnType) -> Seq<char>
    decreases rt, 0nat,
{
    match rt {
        ReturnType::Expression(e) => match e {
            Expression::Traversal(t) => traversal_json(*t),
            Expression::Identifier(id) => variable_json(schema, scope, id@),
            _ => null_json(),
        },
        ReturnType::Object(fields) => "json!("@ + object_json(schema, scope, fields) + ")"@,
        ReturnType::Array(elems) => "json!(["@ + seq_join(
            element_jsons(schema, scope, elems, elems@.len()),
            ", "@,
        ) + "])"@,
        ReturnType::Empty => null_json(),
    }
}

/// JSON code for the first `n` elements of an array in an object literal.
pub open spec fn element_jsons(
    schema: Schema,
    scope: Seq<(String, VariableInfo)>,
    elems: Vec<ReturnType>,
    n: nat,
) -> Seq<Seq<char>>
    decreases elems, n,
{
    if n == 0 || n > elems@.len() {
        Seq::empty()
    } else {
        let prev = element_jsons(schema, scope, elems, (n - 1) as nat);
        let el = elems@[n - 1];
        prev.push(
            match el {
                ReturnType::Expression(e) => match e {
                    Expression::Identifier(id) => variable_json(schema, scope, id@),
                    Expression::Traversal(t) => traversal_json(*t),
                    _ => null_json(),
                },
                ReturnType::Object(obj) => "json!("@ + object_json(schema, scope, obj) + ")"@,
                _ => null_json(),
            },
        )
    }
}

/// The entries for the first `n` fields of an object literal.
pub open spec fn entry_jsons(
    schema: Schema,
    scope: Seq<(String, VariableInfo)>,
    fields: Vec<(String, ReturnType)>,
    n: nat,
) -> Seq<Seq<char>>
    decreases fields, n,
{
    if n == 0 || n > fields@.len() {
        Seq::empty()
    } else {
        let prev = entry_jsons(schema, scope, fields, (n - 1) as nat);
        let (name, rt) = fields@[n - 1];
        prev.push("\""@ + name@ + "\": "@ + field_json(schema, scope, rt))
    }
}

/// JSON code for an object literal.
pub open spec fn object_json(
    schema: Schema,
    scope: Seq<(String, VariableInfo)>,
    fields: Vec<(String, ReturnType)>,
) -> Seq<char>
    decreases fields, fields@.len() + 1,
{
    "{\n        "@ + seq_join(entry_jsons(schema, scope, fields, fields@.len()), ",\n        "@)
        + "\n    }"@
}

/// Code reading a property reads `id` through the item's id, `label`
/// through its label, and any other property by its name; `id` and
/// `label` are never read as stored properties.
pub proof fn lemma_property_access_reads(var: Seq<char>, prop: Seq<char>)
    ensures
        property_access(var, "id"@) == "uuid_str("@ + var + ".id(), &arena)"@,
        property_access(var, "label"@) == var + ".label()"@,
        prop != "id"@ && prop != "label"@ ==> property_access(var, prop) == var + ".get_property(\""@ + prop
            + "\")"@,
{
    reveal_strlit("id");
    reveal_strlit("label");
    assert(("id"@).len() != ("label"@).len());
}

/// The property entries of an item name every declared property other
/// than `id` and `label`, each read by its name, and nothing else.
pub proof fn lemma_property_entries_read_each_property(var: Seq<char>, fields: Seq<SchemaField>)
    ensures
        forall|k: int|
            0 <= k < fields.len() && (#[trigger] fields[k]).name@ != "id"@ && fields[k].name@ != "label"@
                ==> property_entries(var, fields).contains(
                "\""@ + fields[k].name@ + "\":  "@ + var + ".get_property(\""@ + fields[k].name@ + "\")"@,
            ),
        forall|i: int|
            0 <= i < property_entries(var, fields).len() ==> exists|k: int|
                0 <= k < fields.len() && (#[trigger] fields[k]).name@ != "id"@ && fields[k].name@ != "label"@
                    && #[trigger] property_entries(var, fields)[i] == "\""@ + fields[k].name@ + "\":  "@ + var
                    + ".get_property(\""@ + fields[k].name@ + "\")"@,
    decreases fields.len(),
{
    if fields.len() > 0 {
        let pre = fields.drop_last();
        lemma_property_entries_read_each_property(var, pre);
        let prev = property_entries(var, pre);
        let cur = property_entries(var, fields);
        let p = fields.last().name@;
        assert forall|k: int|
            0 <= k < fields.len() && (#[trigger] fields[k]).name@ != "id"@ && fields[k].name@ != "label"@
                implies cur.contains(
                "\""@ + fields[k].name@ + "\":  "@ + var + ".get_property(\""@ + fields[k].name@ + "\")"@,
            ) by {
            if k < pre.len() {
                assert(pre[k] == fields[k]);
                let x = "\""@ + fields[k].name@ + "\":  "@ + var + ".get_property(\""@ + fields[k].name@ + "\")"@;
                assert(prev.contains(x));
                let t = choose|t: int| 0 <= t < prev.len() && prev[t] == x;
                assert(cur[t] == x);
            } else {
                assert(cur[cur.len() - 1] == "\""@ + p + "\":  "@ + var + ".get_property(\""@ + p + "\")"@);
            }
        }
        assert forall|i: int| 0 <= i < cur.len() implies exists|k: int|
            0 <= k < fields.len() && (#[trigger] fields[k]).name@ != "id"@ && fields[k].name@ != "label"@
                && #[trigger] cur[i] == "\""@ + fields[k].name@ + "\":  "@ + var + ".get_property(\""@
                + fields[k].name@ + "\")"@ by {
            if i < prev.len() {
                assert(cur[i] == prev[i]);
                let k = choose|k: int|
                    0 <= k < pre.len() && (#[trigger] pre[k]).name@ != "id"@ && pre[k].name@ != "label"@
                        && #[trigger] prev[i] == "\""@ + pre[k].name@ + "\":  "@ + var + ".get_property(\""@
                        + pre[k].name@ + "\")"@;
                assert(fields[k] == pre[k]);
            } else {
                assert(fields[fields.len() - 1].name@ == p);
            }
        }
    }
}

/// The JSON code for a variable holding a node of a declared type is an
/// object whose entries are its id, its label, then every declared
/// property other than `id` and `label`, each read by its name.
pub proof fn lemma_node_json_lists_properties(schema: Schema, var: Seq<char>, label: String, fields: Seq<SchemaField>)
    requires
        item_fields(schema.nodes@, label@) == Some(fields),
    ensures
        exists|entries: Seq<Seq<char>>|
            #![trigger seq_join(entries, ",\n        "@)]
            {
                &&& identifier_json(schema, var, Type::Node(Some(label))) == "json!({\n        "@ + seq_join(
                    entries,
                    ",\n        "@,
                ) + "\n    })"@
                &&& entries.len() >= 2
                &&& entries[0] == "\"id\": uuid_str("@ + var + ".id(), &arena)"@
                &&& entries[1] == "\"label\": "@ + var + ".label()"@
                &&& forall|k: int|
                    0 <= k < fields.len() && (#[trigger] fields[k]).name@ != "id"@ && fields[k].name@ != "label"@
                        ==> entries.contains(
                        "\""@ + fields[k].name@ + "\":  "@ + var + ".get_property(\""@ + fields[k].name@
                            + "\")"@,
                    )
            },
{
    lemma_property_entries_read_each_property(var, fields);
    let entries = identifier_entries(var, fields);
    let props = property_entries(var, fields);
    assert forall|k: int|
        0 <= k < fields.len() && (#[trigger] fields[k]).name@ != "id"@ && fields[k].name@ != "label"@
            implies entries.contains(
            "\""@ + fields[k].name@ + "\":  "@ + var + ".get_property(\""@ + fields[k].name@ + "\")"@,
        ) by {
        let x = "\""@ + fields[k].name@ + "\":  "@ + var + ".get_property(\""@ + fields[k].name@ + "\")"@;
        assert(props.contains(x));
        let t = choose|t: int| 0 <= t < props.len() && props[t] == x;
        assert(entries[t + 2] == x);
    }
    assert(items_of(schema, ItemKind::Node) == schema.nodes@);
    assert(identifier_json(schema, var, Type::Node(Some(label))) == "json!({\n        "@ + seq_join(
        entries,
        ",\n        "@,
    ) + "\n    })"@);
    assert(entries[0] == "\"id\": uuid_str("@ + var + ".id(), &arena)"@);
    assert(entries[1] == "\"label\": "@ + var + ".label()"@);
}

/// The JSON code for a variable holding an edge of a declared type is an
/// object whose entries are its id, its label, then every declared
/// property other than `id` and `label`, each read by its name.
pub proof fn lemma_edge_json_lists_properties(schema: Schema, var: Seq<char>, label: String, fields: Seq<SchemaField>)
    requires
        item_fields(schema.edges@, label@) == Some(fields),
    ensures
        exists|entries: Seq<Seq<char>>|
            #![trigger seq_join(entries, ",\n        "@)]
            {
                &&& identifier_json(schema, var, Type::Edge(Some(label))) == "json!({\n        "@ + seq_join(
                    entries,
                    ",\n        "@,
                ) + "\n    })"@
                &&& entries.len() >= 2
                &&& entries[0] == "\"id\": uuid_str("@ + var + ".id(), &arena)"@
                &&& entries[1] == "\"label\": "@ + var + ".label()"@
                &&& forall|k: int|
                    0 <= k < fields.len() && (#[trigger] fields[k]).name@ != "id"@ && fields[k].name@ != "label"@
                        ==> entries.contains(
                        "\""@ + fields[k].name@ + "\":  "@ + var + ".get_property(\""@ + fields[k].name@
                            + "\")"@,
                    )
            },
{
    lemma_property_entries_read_each_property(var, fields);
    let entries = identifier_entries(var, fields);
    let props = property_entries(var, fields);
    assert forall|k: int|
        0 <= k < fields.len() && (#[trigger] fields[k]).name@ != "id"@ && fields[k].name@ != "label"@
            implies entries.contains(
            "\""@ + fields[k].name@ + "\":  "@ + var + ".get_property(\""@ + fields[k].name@ + "\")"@,
        ) by {
        let x = "\""@ + fields[k].name@ + "\":  "@ + var + ".get_property(\""@ + fields[k].name@ + "\")"@;
        assert(props.contains(x));
        let t = choose|t: int| 0 <= t < props.len() && props[t] == x;
        assert(entries[t + 2] == x);
    }
    assert(items_of(schema, ItemKind::Edge) == schema.edges@);
    assert(identifier_json(schema, var, Type::Edge(Some(label))) == "json!({\n        "@ + seq_join(
        entries,
        ",\n        "@,
    ) + "\n    })"@);
    assert(entries[0] == "\"id\": uuid_str("@ + var + ".id(), &arena)"@);
    assert(entries[1] == "\"label\": "@ + var + ".label()"@);
}

} // verus!

verus! {

fn push_text(v: &mut Vec<String>, s: String)
    ensures
        texts_of(final(v)@) == texts_of(old(v)@).push(s@),
        final(v)@.len() == old(v)@.len() + 1,
{
    let ghost o = v@;
    v.push(s);
    assert(texts_of(v@) =~= texts_of(o).push(s@));
}

fn property_access_code(var: &str, prop: &str) -> (r: String)
    ensures
        r@ == property_access(var@, prop@),
{
    if text_eq(prop, "id") {
        let mut r = String::from_str("uuid_str(");
        r.append(var);
        r.append(".id(), &arena)");
        r
    } else if text_eq(prop, "label") {
        cat(var, ".label()")
    } else {
        let mut r = cat(var, ".get_property(\"");
        r.append(prop);
        r.append("\")");
        r
    }
}

fn wrap_json(inner: &str) -> (r: String)
    ensures
        r@ == "json!("@ + inner@ + ")"@,
{
    let mut r = String::from_str("json!(");
    r.append(inner);
    r.append(")");
    r
}

fn traversal_json_code(t: &Traversal) -> (r: String)
    ensures
        r@ == traversal_json(*t),
{
    let var: String = match &t.start {
        StartNode::Identifier(id) => id.clone(),
        _ => String::from_str("unknown"),
    };
    if t.steps.len() > 0 {
        match &t.steps[0] {
            Step::Object(fields) => {
                if fields.len() > 0 {
                    property_access_code(var.as_str(), fields[0].as_str())
                } else {
                    wrap_json(var.as_str())
                }
            },
            _ => wrap_json(var.as_str()),
        }
    } else {
        wrap_json(var.as_str())
    }
}

fn property_entries_code(var: &str, fields: &Vec<SchemaField>) -> (r: Vec<String>)
    ensures
        texts_of(r@) == property_entries(var@, fields@),
{
    let mut r: Vec<String> = Vec::new();
    let mut i: usize = 0;
    while i < fields.len()
        invariant
            i <= fields@.len(),
            texts_of(r@) == property_entries(var@, fields@.take(i as int)),
        decreases fields@.len() - i,
    {
        proof {
            assert(fields@.take(i + 1).drop_last() =~= fields@.take(i as int));
        }
        let p = fields[i].name.as_str();
        if !(text_eq(p, "id") || text_eq(p, "label")) {
            let mut e = String::from_str("\"");
            e.append(p);
            e.append("\":  ");
            e.append(var);
            e.append(".get_property(\"");
            e.append(p);
            e.append("\")");
            push_text(&mut r, e);
        }
        i = i + 1;
    }
    assert(fields@.take(fields@.len() as int) =~= fields@);
    r
}

fn item_json_code(var: &str, found: Option<&Vec<SchemaField>>) -> (r: String)
    ensures
        r@ == item_json(
            var@,
            match found {
                Some(v) => Some(v@),
                None => None,
            },
        ),
{
    match found {
        Some(fields) => {
            let mut entries: Vec<String> = Vec::new();
            let mut id_entry = String::from_str("\"id\": uuid_str(");
            id_entry.append(var);
            id_entry.append(".id(), &arena)");
            push_text(&mut entries, id_entry);
            let mut label_entry = String::from_str("\"label\": ");
            label_entry.append(var);
            label_entry.append(".label()");
            push_text(&mut entries, label_entry);
            let props = property_entries_code(var, fields);
            proof {
                assert(texts_of(entries@) =~= seq![
                    "\"id\": uuid_str("@ + var@ + ".id(), &arena)"@,
                    "\"label\": "@ + var@ + ".label()"@,
                ] + texts_of(props@).take(0));
            }
            let mut i: usize = 0;
            while i < props.len()
                invariant
                    i <= props@.len(),
                    texts_of(entries@) == seq![
                        "\"id\": uuid_str("@ + var@ + ".id(), &arena)"@,
                        "\"label\": "@ + var@ + ".label()"@,
                    ] + texts_of(props@).take(i as int),
                decreases props@.len() - i,
            {
                let ghost before = texts_of(entries@);
                push_text(&mut entries, props[i].clone());
                proof {
                    assert(texts_of(props@).take(i + 1) =~= texts_of(props@).take(i as int).push(
                        props@[i as int]@,
                    ));
                }
                i = i + 1;
            }
            proof {
                assert(texts_of(props@).take(props@.len() as int) =~= texts_of(props@));
            }
            let joined = join_texts(&entries, ",\n        ");
            let mut r = String::from_str("json!({\n        ");
            r.append(joined.as_str());
            r.append("\n    })");
            r
        },
        None => {
            let mut r = String::from_str("json!({\"id\": uuid_str(");
            r.append(var);
            r.append(".id(), &arena), \"label\": ");
            r.append(var);
            r.append(".label()})");
            r
        },
    }
}

/// JSON code for a variable of type `ty`.
fn build_identifier_json(ctx: &Ctx, var_name: &str, ty: &Type) -> (r: String)
    ensures
        r@ == identifier_json(*ctx.schema, var_name@, *ty),
{
    match ty {
        Type::Node(Some(label)) => item_json_code(
            var_name,
            schema_fields(ctx.schema, &ItemKind::Node, label.as_str()),
        ),
        Type::Edge(Some(label)) => item_json_code(
            var_name,
            schema_fields(ctx.schema, &ItemKind::Edge, label.as_str()),
        ),
        _ => wrap_json(var_name),
    }
}

fn variable_json_code(ctx: &Ctx, scope: &Vec<(String, VariableInfo)>, id: &str) -> (r: String)
    ensures
        r@ == variable_json(*ctx.schema, scope@, id@),
{
    match lookup(scope, id) {
        Some(info) => build_identifier_json(ctx, id, &info.ty),
        None => wrap_json(id),
    }
}

fn field_json_code(ctx: &Ctx, scope: &Vec<(String, VariableInfo)>, rt: &ReturnType) -> (r: String)
    ensures
        r@ == field_json(*ctx.schema, scope@, *rt),
    decreases rt, 0nat,
{
    match rt {
        ReturnType::Expression(e) => match e {
            Expression::Traversal(t) => traversal_json_code(t),
            Expression::Identifier(id) => variable_json_code(ctx, scope, id.as_str()),
            _ => String::from_str("serde_json::Value::Null"),
        },
        ReturnType::Object(fields) => {
            let inner = build_json_code(ctx, fields, scope);
            wrap_json(inner.as_str())
        },
        ReturnType::Array(elems) => {
            let mut parts: Vec<String> = Vec::new();
            let mut i: usize = 0;
            while i < elems.len()
                invariant
                    i <= elems@.len(),
                    texts_of(parts@) == element_jsons(*ctx.schema, scope@, *elems, i as nat),
                    *rt == ReturnType::Array(*elems),
                decreases elems@.len() - i,
            {
                let el = &elems[i];
                let part = match el {
                    ReturnType::Expression(e) => match e {
                        Expression::Identifier(id) => variable_json_code(ctx, scope, id.as_str()),
                        Expression::Traversal(t) => traversal_json_code(t),
                        _ => String::from_str("serde_json::Value::Null"),
                    },
                    ReturnType::Object(obj) => {
                        proof {
                            assert(*el == elems@[i as int]);
                            assert(decreases_to!(*rt => (*rt)->Array_0));
                            assert(decreases_to!(*elems => elems@));
                            assert(decreases_to!(elems@ => elems@[i as int]));
                            assert(decreases_to!(*el => *obj));
                            assert(decreases_to!(*rt => *obj));
                        }
                        let inner = build_json_code(ctx, obj, scope);
                        wrap_json(inner.as_str())
                    },
                    _ => String::from_str("serde_json::Value::Null"),
                };
                push_text(&mut parts, part);
                i = i + 1;
            }
            let joined = join_texts(&parts, ", ");
            let mut r = String::from_str("json!([");
            r.append(joined.as_str());
            r.append("])");
            r
        },
        ReturnType::Empty => String::from_str("serde_json::Value::Null"),
    }
}

/// JSON code for an object literal.
fn build_json_code(
    ctx: &Ctx,
    obj_fields: &Vec<(String, ReturnType)>,
    scope: &Vec<(String, VariableInfo)>,
) -> (r: String)
    ensures
        r@ == object_json(*ctx.schema, scope@, *obj_fields),
    decreases obj_fields, obj_fields@.len() + 1,
{
    let mut parts: Vec<String> = Vec::new();
    let mut i: usize = 0;
    while i < obj_fields.len()
        invariant
            i <= obj_fields@.len(),
            texts_of(parts@) == entry_jsons(*ctx.schema, scope@, *obj_fields, i as nat),
        decreases obj_fields@.len() - i,
    {
        let entry = &obj_fields[i];
        let value = field_json_code(ctx, scope, &entry.1);
        let mut part = String::from_str("\"");
        part.append(entry.0.as_str());
        part.append("\": ");
        part.append(value.as_str());
        push_text(&mut parts, part);
        i = i + 1;
    }
    let joined = join_texts(&parts, ",\n        ");
    let mut r = String::from_str("{\n        ");
    r.append(joined.as_str());
    r.append("\n    }");
    r
}

/// The fields of a query other than its return values and the way they
/// are returned are unchanged.
pub open spec fn same_but_returns(a: GeneratedQuery, b: GeneratedQuery) -> bool {
    &&& a.name == b.name
    &&& a.embedding_model_to_use == b.embedding_model_to_use
    &&& a.parameters == b.parameters
    &&& a.statements == b.statements
    &&& a.mcp_handler == b.mcp_handler
}

/// A returned value that nothing but its code describes.
pub open spec fn literal_value_ok(
    entry: (String, ReturnValue),
    name: Seq<char>,
    rust_type: Seq<char>,
    code: Seq<char>,
) -> bool {
    &&& entry.0@ == name
    &&& entry.1.name@ == rust_type
    &&& entry.1.fields@.len() == 0
    &&& entry.1.literal_value matches Some(l) && l@ == code
}

/// The keys of an object literal, in order.
pub open spec fn literal_keys(fields: Seq<(String, ReturnType)>) -> Seq<Seq<char>> {
    fields.map_values(|f: (String, ReturnType)| f.0@)
}

/// `s` is the struct definition of an object literal with `keys`: it is
/// named `name` and has one field per key, named by the key, whose value
/// is a JSON value built in place.
pub open spec fn literal_struct_ok(s: ReturnValueStruct, name: Seq<char>, keys: Seq<Seq<char>>) -> bool {
    &&& s.name@ == name
    &&& s.field_infos@.len() == keys.len()
    &&& forall|i: int|
        0 <= i < keys.len() ==> {
            let f = #[trigger] s.field_infos@[i];
            &&& f.name@ == keys[i]
            &&& f.field_type matches ReturnFieldType::Simple(t) && t@ == "serde_json::Value"@
            &&& f.source is Implicit
        }
    &&& s.source_variable@.len() == 0
    &&& !s.is_collection
    &&& !s.is_reused_variable
    &&& !s.is_aggregate
    &&& !s.is_group_by
    &&& s.aggregate_properties@.len() == 0
    &&& !s.is_count_aggregate
}

/// The struct definition of an object literal whose keys are `keys`.
fn literal_struct(name: String, keys: &Vec<String>) -> (s: ReturnValueStruct)
    ensures
        literal_struct_ok(s, name@, texts_of(keys@)),
{
    let mut field_infos: Vec<ReturnFieldInfo> = Vec::new();
    let mut i: usize = 0;
    while i < keys.len()
        invariant
            i <= keys@.len(),
            field_infos@.len() == i,
            forall|j: int|
                0 <= j < i ==> {
                    let f = #[trigger] field_infos@[j];
                    &&& f.name@ == keys@[j]@
                    &&& f.field_type matches ReturnFieldType::Simple(t) && t@ == "serde_json::Value"@
                    &&& f.source is Implicit
                },
        decreases keys@.len() - i,
    {
        field_infos.push(
            ReturnFieldInfo {
                name: keys[i].clone(),
                field_type: ReturnFieldType::Simple(String::from_str("serde_json::Value")),
                source: ReturnFieldSource::Implicit,
            },
        );
        i = i + 1;
    }
    ReturnValueStruct {
        name,
        field_infos,
        source_variable: String::new(),
        is_collection: false,
        is_reused_variable: false,
        is_aggregate: false,
        is_group_by: false,
        aggregate_properties: Vec::new(),
        is_count_aggregate: false,
    }
}

/// Returns an object literal `{ field: value, ... }` as one JSON value
/// built in place: appends the return value `response` whose code builds
/// that JSON, switches the query from struct returns to that value, and
/// gives back the struct definition of the literal, named `struct_name`.
pub fn process_object_literal(
    ctx: &Ctx,
    _source_query: &Query,
    scope: &Vec<(String, VariableInfo)>,
    query: &mut GeneratedQuery,
    object_fields: &Vec<(String, ReturnType)>,
    struct_name: String,
) -> (literal: ReturnValueStruct)
    ensures
        same_but_returns(*old(query), *final(query)),
        final(query).return_structs == old(query).return_structs,
        !final(query).use_struct_returns,
        final(query).return_values@.len() == old(query).return_values@.len() + 1,
        forall|i: int|
            0 <= i < old(query).return_values@.len() ==> final(query).return_values@[i]
                == old(query).return_values@[i],
        literal_value_ok(
            final(query).return_values@.last(),
            "response"@,
            "serde_json::Value"@,
            "json!("@ + object_json(*ctx.schema, scope@, *object_fields) + ")"@,
        ),
        literal_struct_ok(literal, struct_name@, literal_keys(object_fields@)),
{
    let json_code = build_json_code(ctx, object_fields, scope);
    query.return_values.push(
        (
            String::from_str("response"),
            ReturnValue {
                name: String::from_str("serde_json::Value"),
                fields: Vec::new(),
                literal_value: Some(wrap_json(json_code.as_str())),
            },
        ),
    );
    query.use_struct_returns = false;
    let mut keys: Vec<String> = Vec::new();
    let mut i: usize = 0;
    while i < object_fields.len()
        invariant
            i <= object_fields@.len(),
            texts_of(keys@) == literal_keys(object_fields@).take(i as int),
        decreases object_fields@.len() - i,
    {
        let ghost before = keys@;
        keys.push(object_fields[i].0.clone());
        proof {
            assert(texts_of(keys@) =~= texts_of(before).push(object_fields@[i as int].0@));
            assert(literal_keys(object_fields@).take(i + 1) =~= literal_keys(object_fields@).take(
                i as int,
            ).push(object_fields@[i as int].0@));
        }
        i = i + 1;
    }
    proof {
        assert(literal_keys(object_fields@).take(object_fields@.len() as int) =~= literal_keys(
            object_fields@,
        ));
    }
    literal_struct(struct_name, &keys)
}

} // verus!

verus! {

/// Returns a list that holds more than plain expressions: as the object
/// literal `{ data: [...] }` holding it would be returned, with the struct
/// definition of that literal, named `struct_name`.
pub fn process_array_literal(
    ctx: &Ctx,
    scope: &Vec<(String, VariableInfo)>,
    query: &mut GeneratedQuery,
    array: &ReturnType,
    struct_name: String,
) -> (literal: ReturnValueStruct)
    ensures
        same_but_returns(*old(query), *final(query)),
        final(query).return_structs == old(query).return_structs,
        !final(query).use_struct_returns,
        final(query).return_values@.len() == old(query).return_values@.len() + 1,
        forall|i: int|
            0 <= i < old(query).return_values@.len() ==> final(query).return_values@[i]
                == old(query).return_values@[i],
        literal_value_ok(
            final(query).return_values@.last(),
            "response"@,
            "serde_json::Value"@,
            "json!("@ + ("{\n        \"data\": "@ + field_json(*ctx.schema, scope@, *array) + "\n    }"@)
                + ")"@,
        ),
        literal_struct_ok(literal, struct_name@, seq!["data"@]),
{
    let value = field_json_code(ctx, scope, array);
    let mut json_code = String::from_str("{\n        \"data\": ");
    json_code.append(value.as_str());
    json_code.append("\n    }");
    query.return_values.push(
        (
            String::from_str("response"),
            ReturnValue {
                name: String::from_str("serde_json::Value"),
                fields: Vec::new(),
                literal_value: Some(wrap_json(json_code.as_str())),
            },
        ),
    );
    query.use_struct_returns = false;
    let mut keys: Vec<String> = Vec::new();
    keys.push(String::from_str("data"));
    proof {
        assert(texts_of(keys@) =~= seq!["data"@]);
    }
    literal_struct(struct_name, &keys)
}

} // verus!
