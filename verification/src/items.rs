use vstd::prelude::*;
use crate::analyzer::text::{copy_strings, text_eq};
use crate::value::{copy_props, copy_value, props_view, PropView, Value, ValueView};

verus! {

/// A node of the graph.
#[derive(Debug)]
pub struct Node {
    pub id: u128,
    pub label: String,
    pub properties: Vec<(String, Value)>,
    /// The secondary indices the node was registered under when it was added.
    pub indices: Vec<String>,
}

/// An edge of the graph.
#[derive(Debug)]
pub struct Edge {
    pub id: u128,
    pub label: String,
    pub version: u8,
    pub from_node: u128,
    pub to_node: u128,
    pub properties: Vec<(String, Value)>,
}

/// What a traversal step yields.
#[derive(Debug)]
pub enum TraversalValue {
    Empty,
    Node(Node),
    Edge(Edge),
}

pub struct NodeView {
    pub id: u128,
    pub label: Seq<char>,
    pub props: Seq<PropView>,
    pub indices: Seq<Seq<char>>,
}

pub struct EdgeView {
    pub id: u128,
    pub label: Seq<char>,
    pub version: u8,
    pub from: u128,
    pub to: u128,
    pub props: Seq<PropView>,
}

pub enum TraversalView {
    Empty,
    Node(NodeView),
    Edge(EdgeView),
}

/// The views of a list of texts.
pub open spec fn texts_view(v: Seq<String>) -> Seq<Seq<char>> {
    v.map_values(|s: String| s@)
}

impl View for Node {
    type V = NodeView;

    open spec fn view(&self) -> NodeView {
        NodeView {
            id: self.id,
            label: self.label@,
            props: props_view(self.properties@),
            indices: texts_view(self.indices@),
        }
    }
}

impl View for Edge {
    type V = EdgeView;

    open spec fn view(&self) -> EdgeView {
        EdgeView {
            id: self.id,
            label: self.label@,
            version: self.version,
            from: self.from_node,
            to: self.to_node,
            props: props_view(self.properties@),
        }
    }
}

impl View for TraversalValue {
    type V = TraversalView;

    open spec fn view(&self) -> TraversalView {
        match self {
            TraversalValue::Empty => TraversalView::Empty,
            TraversalValue::Node(n) => TraversalView::Node(n@),
            TraversalValue::Edge(e) => TraversalView::Edge(e@),
        }
    }
}

/// The views of a list of traversal values.
pub open spec fn values_view(v: Seq<TraversalValue>) -> Seq<TraversalView> {
    v.map_values(|t: TraversalValue| t@)
}

/// The value of the first property called `name`, if any.
pub open spec fn prop_get(props: Seq<PropView>, name: Seq<char>) -> Option<ValueView>
    decreases props.len(),
{
    if props.len() == 0 {
        None
    } else if props[0].0 == name {
        Some(props[0].1)
    } else {
        prop_get(props.drop_first(), name)
    }
}

/// Whether some property is called `name`.
pub open spec fn has_prop(props: Seq<PropView>, name: Seq<char>) -> bool {
    exists|i: int| 0 <= i < props.len() && (#[trigger] props[i]).0 == name
}

/// `props` with `name` set to `v`: every property of that name takes the
/// new value, and one is added when there was none.
pub open spec fn set_prop(props: Seq<PropView>, name: Seq<char>, v: ValueView) -> Seq<PropView> {
    if has_prop(props, name) {
        props.map_values(|p: PropView| if p.0 == name { (name, v) } else { p })
    } else {
        props.push((name, v))
    }
}

/// `props` after the updates, applied in order.
pub open spec fn update_props(props: Seq<PropView>, updates: Seq<PropView>) -> Seq<PropView>
    decreases updates.len(),
{
    if updates.len() == 0 {
        props
    } else {
        let before = update_props(props, updates.drop_last());
        set_prop(before, updates.last().0, updates.last().1)
    }
}

/// A property is found where it first occurs.
pub proof fn lemma_prop_get_first(props: Seq<PropView>, name: Seq<char>, i: int)
    requires
        0 <= i < props.len(),
        props[i].0 == name,
        forall|j: int| 0 <= j < i ==> (#[trigger] props[j]).0 != name,
    ensures
        prop_get(props, name) == Some(props[i].1),
    decreases i,
{
    if i > 0 {
        assert forall|j: int| 0 <= j < i - 1 implies (#[trigger] props.drop_first()[j]).0 != name by {
            assert(props.drop_first()[j] == props[j + 1]);
        }
        lemma_prop_get_first(props.drop_first(), name, i - 1);
    }
}

/// No property of that name, no value.
pub proof fn lemma_prop_get_none(props: Seq<PropView>, name: Seq<char>)
    requires
        !has_prop(props, name),
    ensures
        prop_get(props, name) is None,
    decreases props.len(),
{
    if props.len() > 0 {
        assert(props[0].0 != name);
        assert forall|j: int| 0 <= j < props.drop_first().len() implies (
        #[trigger] props.drop_first()[j]).0 != name by {
            assert(props.drop_first()[j] == props[j + 1]);
        }
        lemma_prop_get_none(props.drop_first(), name);
    }
}

/// After a property is set, reading it gives the value that was set.
pub proof fn lemma_get_after_set(props: Seq<PropView>, name: Seq<char>, v: ValueView)
    ensures
        prop_get(set_prop(props, name, v), name) == Some(v),
{
    let out = set_prop(props, name, v);
    if has_prop(props, name) {
        let i = choose|i: int| 0 <= i < props.len() && (#[trigger] props[i]).0 == name;
        let k = first_with_name(props, name, i);
        assert forall|j: int| 0 <= j < k implies (#[trigger] out[j]).0 != name by {
            assert(props[j].0 != name);
        }
        lemma_prop_get_first(out, name, k);
    } else {
        assert forall|j: int| 0 <= j < props.len() implies (#[trigger] out[j]).0 != name by {
            assert(out[j] == props[j]);
        }
        lemma_prop_get_first(out, name, props.len() as int);
    }
}

/// Setting one property leaves every other property as it was.
pub proof fn lemma_get_other_after_set(props: Seq<PropView>, name: Seq<char>, v: ValueView, other: Seq<char>)
    requires
        other != name,
    ensures
        prop_get(set_prop(props, name, v), other) == prop_get(props, other),
    decreases props.len(),
{
    let out = set_prop(props, name, v);
    if has_prop(props, other) {
        let i = choose|i: int| 0 <= i < props.len() && (#[trigger] props[i]).0 == other;
        let k = first_with_name(props, other, i);
        assert forall|j: int| 0 <= j < k implies (#[trigger] out[j]).0 != other by {
            assert(props[j].0 != other);
        }
        assert(out[k] == props[k]);
        lemma_prop_get_first(props, other, k);
        lemma_prop_get_first(out, other, k);
    } else {
        lemma_prop_get_none(props, other);
        assert forall|j: int| 0 <= j < out.len() implies (#[trigger] out[j]).0 != other by {
            if j < props.len() {
                assert(props[j].0 != other);
            }
        }
        lemma_prop_get_none(out, other);
    }
}

/// The value last written to `name` by `updates`, if any.
pub open spec fn last_written(updates: Seq<PropView>, name: Seq<char>) -> Option<ValueView>
    decreases updates.len(),
{
    if updates.len() == 0 {
        None
    } else if updates.last().0 == name {
        Some(updates.last().1)
    } else {
        last_written(updates.drop_last(), name)
    }
}

/// After updates are applied, a property reads back the value last written
/// to it, and a property they do not name reads as before.
pub proof fn lemma_read_after_updates(props: Seq<PropView>, updates: Seq<PropView>, name: Seq<char>)
    ensures
        prop_get(update_props(props, updates), name) == match last_written(updates, name) {
            Some(v) => Some(v),
            None => prop_get(props, name),
        },
    decreases updates.len(),
{
    if updates.len() > 0 {
        lemma_read_after_updates(props, updates.drop_last(), name);
        let before = update_props(props, updates.drop_last());
        if updates.last().0 == name {
            lemma_get_after_set(before, name, updates.last().1);
        } else {
            lemma_get_other_after_set(before, updates.last().0, updates.last().1, name);
        }
    }
}

/// The first position, at or before `i`, of a property called `name`.
proof fn first_with_name(props: Seq<PropView>, name: Seq<char>, i: int) -> (k: int)
    requires
        0 <= i < props.len(),
        props[i].0 == name,
    ensures
        0 <= k <= i,
        props[k].0 == name,
        forall|j: int| 0 <= j < k ==> (#[trigger] props[j]).0 != name,
    decreases i,
{
    if exists|j: int| 0 <= j < i && (#[trigger] props[j]).0 == name {
        let j = choose|j: int| 0 <= j < i && (#[trigger] props[j]).0 == name;
        first_with_name(props, name, j)
    } else {
        i
    }
}

impl Node {
    /// The value of the property `name`, where the node has one.
    pub fn get_property(&self, name: &str) -> (r: Option<&Value>)
        ensures
            match r {
                Some(v) => prop_get(self@.props, name@) == Some(v@),
                None => prop_get(self@.props, name@) is None,
            },
    {
        get_prop_in(&self.properties, name)
    }
}

impl Edge {
    /// The value of the property `name`, where the edge has one.
    pub fn get_property(&self, name: &str) -> (r: Option<&Value>)
        ensures
            match r {
                Some(v) => prop_get(self@.props, name@) == Some(v@),
                None => prop_get(self@.props, name@) is None,
            },
    {
        get_prop_in(&self.properties, name)
    }
}

/// The value of the first property called `name` in `ps`.
pub fn get_prop_in<'a>(ps: &'a Vec<(String, Value)>, name: &str) -> (r: Option<&'a Value>)
    ensures
        match r {
            Some(v) => prop_get(props_view(ps@), name@) == Some(v@),
            None => prop_get(props_view(ps@), name@) is None,
        },
{
    let ghost pv = props_view(ps@);
    let mut i: usize = 0;
    while i < ps.len()
        invariant
            i <= ps@.len(),
            pv == props_view(ps@),
            forall|j: int| 0 <= j < i ==> (#[trigger] pv[j]).0 != name@,
        decreases ps@.len() - i,
    {
        if text_eq(ps[i].0.as_str(), name) {
            proof {
                lemma_prop_get_first(pv, name@, i as int);
            }
            return Some(&ps[i].1);
        }
        i = i + 1;
    }
    proof {
        lemma_prop_get_none(pv, name@);
    }
    None
}

/// Whether some property in `ps` is called `name`.
fn has_prop_in(ps: &Vec<(String, Value)>, name: &str) -> (r: bool)
    ensures
        r == has_prop(props_view(ps@), name@),
{
    let ghost pv = props_view(ps@);
    let mut i: usize = 0;
    while i < ps.len()
        invariant
            i <= ps@.len(),
            pv == props_view(ps@),
            forall|j: int| 0 <= j < i ==> (#[trigger] pv[j]).0 != name@,
        decreases ps@.len() - i,
    {
        if text_eq(ps[i].0.as_str(), name) {
            assert(pv[i as int].0 == name@);
            return true;
        }
        i = i + 1;
    }
    false
}

/// Sets the property `name` of `ps` to `v`.
pub fn set_prop_in(ps: &mut Vec<(String, Value)>, name: &str, v: &Value)
    ensures
        props_view(final(ps)@) == set_prop(props_view(old(ps)@), name@, v@),
{
    let ghost old_pv = props_view(ps@);
    if has_prop_in(ps, name) {
        let mut i: usize = 0;
        while i < ps.len()
            invariant
                i <= ps@.len(),
                ps@.len() == old_pv.len(),
                forall|j: int| 0 <= j < i ==> (#[trigger] props_view(ps@)[j]) == (if old_pv[j].0
                    == name@ {
                    (name@, v@)
                } else {
                    old_pv[j]
                }),
                forall|j: int| i <= j < ps@.len() ==> (#[trigger] props_view(ps@)[j]) == old_pv[j],
            decreases ps@.len() - i,
        {
            let ghost before = ps@;
            if text_eq(ps[i].0.as_str(), name) {
                let nv = copy_value(v);
                let entry = (name.to_owned(), nv);
                ps.set(i, entry);
                assert(props_view(ps@) =~= props_view(before).update(i as int, (name@, v@)));
                assert(old_pv[i as int] == props_view(before)[i as int]);
            } else {
                assert(props_view(ps@)[i as int] == old_pv[i as int]);
            }
            i = i + 1;
        }
        assert(props_view(ps@) =~= old_pv.map_values(
            |p: PropView| if p.0 == name@ { (name@, v@) } else { p },
        ));
    } else {
        let nv = copy_value(v);
        ps.push((name.to_owned(), nv));
        assert(props_view(ps@) =~= old_pv.push((name@, v@)));
    }
}

/// Applies `updates` to `ps` in order.
pub fn update_props_in(ps: &mut Vec<(String, Value)>, updates: &Vec<(String, Value)>)
    ensures
        props_view(final(ps)@) == update_props(props_view(old(ps)@), props_view(updates@)),
{
    let ghost start = props_view(ps@);
    let mut i: usize = 0;
    while i < updates.len()
        invariant
            i <= updates@.len(),
            props_view(ps@) == update_props(start, props_view(updates@.subrange(0, i as int))),
        decreases updates@.len() - i,
    {
        let ghost before = props_view(ps@);
        set_prop_in(ps, updates[i].0.as_str(), &updates[i].1);
        proof {
            let pre = props_view(updates@.subrange(0, i as int + 1));
            assert(pre.drop_last() =~= props_view(updates@.subrange(0, i as int)));
            assert(pre.last() == (updates@[i as int].0@, updates@[i as int].1@));
        }
        i = i + 1;
    }
    assert(updates@.subrange(0, updates@.len() as int) =~= updates@);
}

/// A copy of a node.
pub fn copy_node(n: &Node) -> (r: Node)
    ensures
        r@ == n@,
{
    Node {
        id: n.id,
        label: n.label.clone(),
        properties: copy_props(&n.properties),
        indices: copy_strings(&n.indices),
    }
}

/// A copy of an edge.
pub fn copy_edge(e: &Edge) -> (r: Edge)
    ensures
        r@ == e@,
{
    Edge {
        id: e.id,
        label: e.label.clone(),
        version: e.version,
        from_node: e.from_node,
        to_node: e.to_node,
        properties: copy_props(&e.properties),
    }
}

impl TraversalValue {
    /// The id of the node or edge, and 0 for an empty value.
    pub fn id(&self) -> (r: u128)
        ensures
            r == match self@ {
                TraversalView::Empty => 0,
                TraversalView::Node(n) => n.id,
                TraversalView::Edge(e) => e.id,
            },
    {
        match self {
            TraversalValue::Empty => 0,
            TraversalValue::Node(n) => n.id,
            TraversalValue::Edge(e) => e.id,
        }
    }
}

} // verus!
