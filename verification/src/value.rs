use vstd::prelude::*;
use crate::analyzer::text::text_eq;

verus! {

/// A property value as the ingest path stores it.
#[derive(Debug)]
pub enum Value {
    String(String),
    U32(u32),
    U64(u64),
    /// A 64-bit float, held as its IEEE-754 bits.
    F64Bits(u64),
}

/// The mathematical form of a property value.
pub enum ValueView {
    Text(Seq<char>),
    U32(u32),
    U64(u64),
    F64Bits(u64),
}

impl View for Value {
    type V = ValueView;

    open spec fn view(&self) -> ValueView {
        match self {
            Value::String(s) => ValueView::Text(s@),
            Value::U32(n) => ValueView::U32(*n),
            Value::U64(n) => ValueView::U64(*n),
            Value::F64Bits(b) => ValueView::F64Bits(*b),
        }
    }
}

/// A named property, by the views of its name and value.
pub type PropView = (Seq<char>, ValueView);

/// The views of a list of named properties.
pub open spec fn props_view(ps: Seq<(String, Value)>) -> Seq<PropView> {
    ps.map_values(|p: (String, Value)| (p.0@, p.1@))
}

/// A copy of `v`.
pub fn copy_value(v: &Value) -> (r: Value)
    ensures
        r@ == v@,
{
    match v {
        Value::String(s) => Value::String(s.clone()),
        Value::U32(n) => Value::U32(*n),
        Value::U64(n) => Value::U64(*n),
        Value::F64Bits(b) => Value::F64Bits(*b),
    }
}

/// Whether two values are the same value.
pub fn value_eq(a: &Value, b: &Value) -> (r: bool)
    ensures
        r == (a@ == b@),
{
    match (a, b) {
        (Value::String(x), Value::String(y)) => text_eq(x.as_str(), y.as_str()),
        (Value::U32(x), Value::U32(y)) => *x == *y,
        (Value::U64(x), Value::U64(y)) => *x == *y,
        (Value::F64Bits(x), Value::F64Bits(y)) => *x == *y,
        _ => false,
    }
}

/// A copy of a property list.
pub fn copy_props(ps: &Vec<(String, Value)>) -> (r: Vec<(String, Value)>)
    ensures
        props_view(r@) == props_view(ps@),
{
    let mut r: Vec<(String, Value)> = Vec::new();
    let mut i: usize = 0;
    while i < ps.len()
        invariant
            i <= ps@.len(),
            props_view(r@) == props_view(ps@.subrange(0, i as int)),
        decreases ps@.len() - i,
    {
        let ghost before = r@;
        let name = ps[i].0.clone();
        let v = copy_value(&ps[i].1);
        r.push((name, v));
        assert(props_view(r@) =~= props_view(before).push((ps@[i as int].0@, ps@[i as int].1@)));
        assert(ps@.subrange(0, i as int + 1) =~= ps@.subrange(0, i as int).push(ps@[i as int]));
        assert(props_view(ps@.subrange(0, i as int + 1)) =~= props_view(ps@.subrange(0, i as int)).push(
            (ps@[i as int].0@, ps@[i as int].1@),
        ));
        i = i + 1;
    }
    assert(ps@.subrange(0, ps@.len() as int) =~= ps@);
    r
}

/// Appends a named property.
pub fn push_prop(ps: &mut Vec<(String, Value)>, name: &str, v: Value)
    ensures
        props_view(final(ps)@) == props_view(old(ps)@).push((name@, v@)),
{
    let ghost o = ps@;
    ps.push((name.to_owned(), v));
    assert(props_view(ps@) =~= props_view(o).push((name@, v@)));
}

} // verus!
