use vstd::prelude::*;
use crate::analyzer::text::{contains_text, text_eq};
use crate::errors::GraphError;
use crate::items::{
    copy_node, lemma_get_after_set, prop_get, set_prop, texts_view, update_props, Edge,
    EdgeView, Node, NodeView, TraversalView,
};
use crate::value::{props_view, PropView, Value, ValueView};

verus! {

/// The graph store: its nodes and edges in the order they were written,
/// the secondary indices it keeps over node and edge properties, the
/// latest schema version of each edge label, and the next free id.
pub struct HelixGraphStorage {
    pub nodes: Vec<Node>,
    pub edges: Vec<Edge>,
    pub secondary_indices: Vec<String>,
    pub edge_secondary_indices: Vec<String>,
    pub version_info: Vec<(String, u8)>,
    pub next_id: u128,
}

pub struct GraphView {
    pub nodes: Seq<NodeView>,
    pub edges: Seq<EdgeView>,
    pub node_indices: Seq<Seq<char>>,
    pub edge_indices: Seq<Seq<char>>,
    pub versions: Seq<(Seq<char>, u8)>,
    pub next_id: u128,
}

pub open spec fn nodes_view(v: Seq<Node>) -> Seq<NodeView> {
    v.map_values(|n: Node| n@)
}

pub open spec fn edges_view(v: Seq<Edge>) -> Seq<EdgeView> {
    v.map_values(|e: Edge| e@)
}

pub open spec fn versions_view(v: Seq<(String, u8)>) -> Seq<(Seq<char>, u8)> {
    v.map_values(|p: (String, u8)| (p.0@, p.1))
}

impl View for HelixGraphStorage {
    type V = GraphView;

    open spec fn view(&self) -> GraphView {
        GraphView {
            nodes: nodes_view(self.nodes@),
            edges: edges_view(self.edges@),
            node_indices: texts_view(self.secondary_indices@),
            edge_indices: texts_view(self.edge_secondary_indices@),
            versions: versions_view(self.version_info@),
            next_id: self.next_id,
        }
    }
}

/// A node is found through index `index` under `key` when it carries
/// `label`, was registered under that index, and its property of that
/// name holds `key`.
pub open spec fn node_in_index(label: Seq<char>, index: Seq<char>, key: ValueView) -> spec_fn(
    NodeView,
) -> bool {
    |n: NodeView| n.label == label && n.indices.contains(index) && prop_get(n.props, index) == Some(key)
}

/// An edge is found through index `index` under `key` when it carries
/// `label` and its property of that name holds `key`.
pub open spec fn edge_in_index(label: Seq<char>, index: Seq<char>, key: ValueView) -> spec_fn(
    EdgeView,
) -> bool {
    |e: EdgeView| e.label == label && prop_get(e.props, index) == Some(key)
}

pub open spec fn as_node_values(s: Seq<NodeView>) -> Seq<TraversalView> {
    s.map_values(|n: NodeView| TraversalView::Node(n))
}

pub open spec fn as_edge_values(s: Seq<EdgeView>) -> Seq<TraversalView> {
    s.map_values(|e: EdgeView| TraversalView::Edge(e))
}

/// The nodes that index `index` yields for `key` under `label`.
pub open spec fn index_nodes(g: GraphView, label: Seq<char>, index: Seq<char>, key: ValueView) -> Seq<
    NodeView,
> {
    g.nodes.filter(node_in_index(label, index, key))
}

/// The edges that index `index` yields for `key` under `label`.
pub open spec fn index_edges(g: GraphView, label: Seq<char>, index: Seq<char>, key: ValueView) -> Seq<
    EdgeView,
> {
    g.edges.filter(edge_in_index(label, index, key))
}

/// The latest version recorded for `label`; a label with none is at
/// version 1.
pub open spec fn latest_version(versions: Seq<(Seq<char>, u8)>, label: Seq<char>) -> u8
    decreases versions.len(),
{
    if versions.len() == 0 {
        1
    } else if versions[0].0 == label {
        versions[0].1
    } else {
        latest_version(versions.drop_first(), label)
    }
}

/// The graph after a node is added.
pub open spec fn with_node(g: GraphView, n: NodeView) -> GraphView {
    GraphView { nodes: g.nodes.push(n), next_id: (g.next_id + 1) as u128, ..g }
}

/// The graph after an edge is added.
pub open spec fn with_edge(g: GraphView, e: EdgeView) -> GraphView {
    GraphView { edges: g.edges.push(e), next_id: (g.next_id + 1) as u128, ..g }
}

/// A node with its properties updated.
pub open spec fn updated_node(n: NodeView, updates: Seq<PropView>) -> NodeView {
    NodeView { props: update_props(n.props, updates), ..n }
}

/// An edge with its properties updated.
pub open spec fn updated_edge(e: EdgeView, updates: Seq<PropView>) -> EdgeView {
    EdgeView { props: update_props(e.props, updates), ..e }
}

/// A traversal value with its properties updated; an empty value stays.
pub open spec fn updated_value(t: TraversalView, updates: Seq<PropView>) -> TraversalView {
    match t {
        TraversalView::Node(n) => TraversalView::Node(updated_node(n, updates)),
        TraversalView::Edge(e) => TraversalView::Edge(updated_edge(e, updates)),
        TraversalView::Empty => TraversalView::Empty,
    }
}

/// A node that index `index` lists under `key`, whatever its label.
pub open spec fn in_index_any_label(index: Seq<char>, key: ValueView) -> spec_fn(NodeView) -> bool {
    |n: NodeView| n.indices.contains(index) && prop_get(n.props, index) == Some(key)
}

/// Walks index entries in order: an id seen before is skipped, the node of
/// a new id is kept when it carries `label`, and every new id is noted.
pub open spec fn scan_entries(
    entries: Seq<NodeView>,
    label: Seq<char>,
    out: Seq<NodeView>,
    seen: Set<u128>,
) -> (Seq<NodeView>, Set<u128>)
    decreases entries.len(),
{
    if entries.len() == 0 {
        (out, seen)
    } else {
        let (o, s) = scan_entries(entries.drop_last(), label, out, seen);
        let n = entries.last();
        if s.contains(n.id) {
            (o, s)
        } else if n.label == label {
            (o.push(n), s.insert(n.id))
        } else {
            (o, s.insert(n.id))
        }
    }
}

/// The nodes labelled `label` that index `index` lists under any of
/// `keys`, key by key, each node once, with the ids seen.
pub open spec fn index_in_scan(g: GraphView, label: Seq<char>, index: Seq<char>, keys: Seq<ValueView>) -> (
    Seq<NodeView>,
    Set<u128>,
)
    decreases keys.len(),
{
    if keys.len() == 0 {
        (Seq::empty(), Set::empty())
    } else {
        let (o, s) = index_in_scan(g, label, index, keys.drop_last());
        scan_entries(g.nodes.filter(in_index_any_label(index, keys.last())), label, o, s)
    }
}

/// No two nodes of `s` share an id.
pub open spec fn distinct_ids(s: Seq<NodeView>) -> bool {
    forall|i: int, j: int| 0 <= i < j < s.len() ==> (#[trigger] s[i]).id != (#[trigger] s[j]).id
}

proof fn lemma_scan_distinct(entries: Seq<NodeView>, label: Seq<char>, out: Seq<NodeView>, seen: Set<u128>)
    requires
        distinct_ids(out),
        forall|i: int| 0 <= i < out.len() ==> seen.contains(#[trigger] out[i].id),
    ensures
        distinct_ids(scan_entries(entries, label, out, seen).0),
        forall|i: int|
            0 <= i < scan_entries(entries, label, out, seen).0.len() ==> scan_entries(
                entries,
                label,
                out,
                seen,
            ).1.contains(#[trigger] scan_entries(entries, label, out, seen).0[i].id),
    decreases entries.len(),
{
    if entries.len() > 0 {
        lemma_scan_distinct(entries.drop_last(), label, out, seen);
        let (o, s) = scan_entries(entries.drop_last(), label, out, seen);
        let n = entries.last();
        if !s.contains(n.id) && n.label == label {
            let o2 = o.push(n);
            assert forall|i: int, j: int| 0 <= i < j < o2.len() implies (#[trigger] o2[i]).id != (
            #[trigger] o2[j]).id by {
                if j == o.len() {
                    assert(s.contains(o[i].id));
                } else {
                    assert(o2[i] == o[i] && o2[j] == o[j]);
                }
            }
            assert forall|i: int| 0 <= i < o2.len() implies s.insert(n.id).contains(#[trigger] o2[i].id) by {
                if i < o.len() {
                    assert(o2[i] == o[i]);
                }
            }
        }
    }
}

/// Looking nodes up by several keys yields each node at most once, even
/// where keys repeat.
pub proof fn lemma_index_in_yields_each_node_once(
    g: GraphView,
    label: Seq<char>,
    index: Seq<char>,
    keys: Seq<ValueView>,
)
    ensures
        distinct_ids(index_in_scan(g, label, index, keys).0),
        forall|i: int|
            0 <= i < index_in_scan(g, label, index, keys).0.len() ==> index_in_scan(
                g,
                label,
                index,
                keys,
            ).1.contains(#[trigger] index_in_scan(g, label, index, keys).0[i].id),
    decreases keys.len(),
{
    if keys.len() > 0 {
        lemma_index_in_yields_each_node_once(g, label, index, keys.drop_last());
        let (o, s) = index_in_scan(g, label, index, keys.drop_last());
        lemma_scan_distinct(g.nodes.filter(in_index_any_label(index, keys.last())), label, o, s);
    }
}

/// Whether a node of `s` has id `id`.
pub open spec fn has_node_id(s: Seq<NodeView>, id: u128) -> bool {
    exists|p: int| 0 <= p < s.len() && (#[trigger] s[p]).id == id
}

/// Whether a node of `s` labelled `label` has id `id`.
pub open spec fn has_labelled_node_id(s: Seq<NodeView>, label: Seq<char>, id: u128) -> bool {
    exists|p: int| 0 <= p < s.len() && (#[trigger] s[p]).id == id && s[p].label == label
}

/// Whether looking nodes labelled `label` up in index `index` under one
/// of `keys` alone yields the node with id `id`.
pub open spec fn found_by_some_key(
    g: GraphView,
    label: Seq<char>,
    index: Seq<char>,
    keys: Seq<ValueView>,
    id: u128,
) -> bool {
    exists|j: int| 0 <= j < keys.len() && has_node_id(#[trigger] index_nodes(g, label, index, keys[j]), id)
}

/// Whether index `index` lists a node with id `id`, of any label, under
/// one of `keys`.
pub open spec fn listed_under_some_key(g: GraphView, index: Seq<char>, keys: Seq<ValueView>, id: u128) -> bool {
    exists|j: int|
        0 <= j < keys.len() && has_node_id(#[trigger] g.nodes.filter(in_index_any_label(index, keys[j])), id)
}

proof fn lemma_filter_members(s: Seq<NodeView>, pred: spec_fn(NodeView) -> bool)
    ensures
        forall|i: int|
            0 <= i < s.filter(pred).len() ==> s.contains(#[trigger] s.filter(pred)[i]) && pred(
                s.filter(pred)[i],
            ),
        forall|i: int| 0 <= i < s.len() && pred(s[i]) ==> s.filter(pred).contains(#[trigger] s[i]),
    decreases s.len(),
{
    broadcast use vstd::seq_lib::group_filter_ensures;

    reveal(Seq::filter);
    if s.len() > 0 {
        lemma_filter_members(s.drop_last(), pred);
        let sub = s.drop_last().filter(pred);
        assert forall|i: int| 0 <= i < s.filter(pred).len() implies s.contains(
            #[trigger] s.filter(pred)[i],
        ) by {
            if i < sub.len() {
                assert(s.filter(pred)[i] == sub[i]);
                let k = choose|k: int| 0 <= k < s.drop_last().len() && s.drop_last()[k] == sub[i];
                assert(s[k] == sub[i]);
            } else {
                assert(s.filter(pred)[i] == s.last());
                assert(s[s.len() - 1] == s.last());
            }
        }
        assert forall|i: int| 0 <= i < s.len() && pred(s[i]) implies s.filter(pred).contains(
            #[trigger] s[i],
        ) by {
            s.lemma_filter_contains(pred, i);
        }
    }
}

/// Two nodes of `u` with one id are the same node, where ids in `u` are
/// distinct.
pub proof fn lemma_same_id_same_node(u: Seq<NodeView>, a: NodeView, b: NodeView)
    requires
        distinct_ids(u),
        u.contains(a),
        u.contains(b),
        a.id == b.id,
    ensures
        a == b,
{
    let i = choose|i: int| 0 <= i < u.len() && u[i] == a;
    let j = choose|j: int| 0 <= j < u.len() && u[j] == b;
    if i < j {
        assert(u[i].id != u[j].id);
    } else if j < i {
        assert(u[j].id != u[i].id);
    }
}

proof fn lemma_scan_members(
    u: Seq<NodeView>,
    entries: Seq<NodeView>,
    label: Seq<char>,
    out: Seq<NodeView>,
    seen: Set<u128>,
)
    requires
        distinct_ids(u),
        forall|p: int| 0 <= p < entries.len() ==> u.contains(#[trigger] entries[p]),
    ensures
        forall|id: u128|
            #[trigger] scan_entries(entries, label, out, seen).1.contains(id) <==> (seen.contains(id)
                || has_node_id(entries, id)),
        forall|id: u128|
            #[trigger] has_node_id(scan_entries(entries, label, out, seen).0, id) <==> (has_node_id(out, id)
                || (!seen.contains(id) && has_labelled_node_id(entries, label, id))),
    decreases entries.len(),
{
    if entries.len() > 0 {
        let pre = entries.drop_last();
        assert forall|p: int| 0 <= p < pre.len() implies u.contains(#[trigger] pre[p]) by {
            assert(pre[p] == entries[p]);
        }
        lemma_scan_members(u, pre, label, out, seen);
        let (o, s) = scan_entries(pre, label, out, seen);
        let n = entries.last();
        assert(u.contains(entries[entries.len() - 1]));
        let (o2, s2) = scan_entries(entries, label, out, seen);
        assert forall|id: u128| #[trigger] s2.contains(id) <==> (seen.contains(id) || has_node_id(entries, id)) by {
            if has_node_id(entries, id) {
                let p = choose|p: int| 0 <= p < entries.len() && (#[trigger] entries[p]).id == id;
                if p < pre.len() {
                    assert(pre[p] == entries[p]);
                }
            }
            if has_node_id(pre, id) {
                let p = choose|p: int| 0 <= p < pre.len() && (#[trigger] pre[p]).id == id;
                assert(entries[p] == pre[p]);
            }
        }
        assert forall|id: u128| #[trigger] has_node_id(o2, id) <==> (has_node_id(out, id) || (!seen.contains(id)
            && has_labelled_node_id(entries, label, id))) by {
            if has_labelled_node_id(pre, label, id) {
                let p = choose|p: int| 0 <= p < pre.len() && (#[trigger] pre[p]).id == id && pre[p].label == label;
                assert(entries[p] == pre[p]);
            }
            if has_node_id(pre, id) {
                let p = choose|p: int| 0 <= p < pre.len() && (#[trigger] pre[p]).id == id;
                assert(entries[p] == pre[p]);
            }
            if id != n.id {
                if has_labelled_node_id(entries, label, id) {
                    let p = choose|p: int| 0 <= p < entries.len() && (#[trigger] entries[p]).id == id && entries[p].label == label;
                    assert(p < pre.len());
                    assert(pre[p] == entries[p]);
                }
                if s.contains(n.id) {
                } else if n.label == label {
                    if has_node_id(o.push(n), id) {
                        let p = choose|p: int| 0 <= p < o.push(n).len() && (#[trigger] o.push(n)[p]).id == id;
                        assert(o[p] == o.push(n)[p]);
                    }
                    if has_node_id(o, id) {
                        let p = choose|p: int| 0 <= p < o.len() && (#[trigger] o[p]).id == id;
                        assert(o.push(n)[p] == o[p]);
                    }
                }
            } else {
                if has_node_id(pre, id) {
                    let p = choose|p: int| 0 <= p < pre.len() && (#[trigger] pre[p]).id == id;
                    assert(u.contains(pre[p]));
                    lemma_same_id_same_node(u, pre[p], n);
                    assert(has_labelled_node_id(entries, label, id) ==> n.label == label) by {
                        if has_labelled_node_id(entries, label, id) {
                            let q = choose|q: int| 0 <= q < entries.len() && (#[trigger] entries[q]).id == id && entries[q].label == label;
                            assert(u.contains(entries[q]));
                            lemma_same_id_same_node(u, entries[q], n);
                        }
                    }
                    if n.label == label {
                        assert(has_labelled_node_id(pre, label, id));
                    }
                } else {
                    assert(entries[entries.len() - 1] == n);
                    if n.label == label {
                        assert(has_labelled_node_id(entries, label, id));
                    } else if has_labelled_node_id(entries, label, id) {
                        let q = choose|q: int| 0 <= q < entries.len() && (#[trigger] entries[q]).id == id && entries[q].label == label;
                        assert(u.contains(entries[q]));
                        lemma_same_id_same_node(u, entries[q], n);
                    }
                    if !s.contains(n.id) && n.label == label {
                        assert(o.push(n)[o.len() as int] == n);
                    }
                }
            }
        }
    }
}

proof fn lemma_index_in_members(g: GraphView, label: Seq<char>, index: Seq<char>, keys: Seq<ValueView>)
    requires
        distinct_ids(g.nodes),
    ensures
        forall|id: u128|
            #[trigger] index_in_scan(g, label, index, keys).1.contains(id) <==> listed_under_some_key(
                g,
                index,
                keys,
                id,
            ),
        forall|id: u128|
            #[trigger] has_node_id(index_in_scan(g, label, index, keys).0, id) <==> found_by_some_key(
                g,
                label,
                index,
                keys,
                id,
            ),
    decreases keys.len(),
{
    if keys.len() > 0 {
        let pre = keys.drop_last();
        let k = keys.last();
        lemma_index_in_members(g, label, index, pre);
        let (o, s) = index_in_scan(g, label, index, pre);
        let entries = g.nodes.filter(in_index_any_label(index, k));
        lemma_filter_members(g.nodes, in_index_any_label(index, k));
        lemma_scan_members(g.nodes, entries, label, o, s);
        let (o2, s2) = index_in_scan(g, label, index, keys);
        assert forall|id: u128| #[trigger] s2.contains(id) <==> listed_under_some_key(g, index, keys, id) by {
            if listed_under_some_key(g, index, keys, id) {
                let j = choose|j: int|
                    0 <= j < keys.len() && has_node_id(
                        #[trigger] g.nodes.filter(in_index_any_label(index, keys[j])),
                        id,
                    );
                if j < pre.len() {
                    assert(pre[j] == keys[j]);
                }
            }
            if listed_under_some_key(g, index, pre, id) {
                let j = choose|j: int|
                    0 <= j < pre.len() && has_node_id(
                        #[trigger] g.nodes.filter(in_index_any_label(index, pre[j])),
                        id,
                    );
                assert(keys[j] == pre[j]);
            }
            if has_node_id(entries, id) {
                assert(keys[keys.len() - 1] == k);
            }
        }
        let look = index_nodes(g, label, index, k);
        lemma_filter_members(g.nodes, node_in_index(label, index, k));
        assert forall|id: u128| #[trigger] has_node_id(o2, id) <==> found_by_some_key(g, label, index, keys, id) by {
            if found_by_some_key(g, label, index, pre, id) {
                let j = choose|j: int| 0 <= j < pre.len() && has_node_id(#[trigger] index_nodes(g, label, index, pre[j]), id);
                assert(keys[j] == pre[j]);
            }
            if has_labelled_node_id(entries, label, id) {
                let p = choose|p: int| 0 <= p < entries.len() && (#[trigger] entries[p]).id == id && entries[p].label == label;
                let x = entries[p];
                assert(g.nodes.contains(x));
                let i = choose|i: int| 0 <= i < g.nodes.len() && g.nodes[i] == x;
                assert(look.contains(g.nodes[i]));
                let q = choose|q: int| 0 <= q < look.len() && look[q] == x;
                assert(look[q].id == id);
                assert(has_node_id(look, id));
                assert(keys[keys.len() - 1] == k);
                if s.contains(id) {
                    let j = choose|j: int|
                        0 <= j < pre.len() && has_node_id(
                            #[trigger] g.nodes.filter(in_index_any_label(index, pre[j])),
                            id,
                        );
                    let f = g.nodes.filter(in_index_any_label(index, pre[j]));
                    lemma_filter_members(g.nodes, in_index_any_label(index, pre[j]));
                    let r = choose|r: int| 0 <= r < f.len() && (#[trigger] f[r]).id == id;
                    assert(g.nodes.contains(f[r]));
                    lemma_same_id_same_node(g.nodes, f[r], x);
                    let i2 = choose|i2: int| 0 <= i2 < g.nodes.len() && g.nodes[i2] == x;
                    let look2 = index_nodes(g, label, index, pre[j]);
                    lemma_filter_members(g.nodes, node_in_index(label, index, pre[j]));
                    assert(look2.contains(g.nodes[i2]));
                    let q2 = choose|q2: int| 0 <= q2 < look2.len() && look2[q2] == x;
                    assert(look2[q2].id == id);
                    assert(has_node_id(look2, id));
                }
            }
            if found_by_some_key(g, label, index, keys, id) {
                let j = choose|j: int| 0 <= j < keys.len() && has_node_id(#[trigger] index_nodes(g, label, index, keys[j]), id);
                if j < pre.len() {
                    assert(pre[j] == keys[j]);
                } else {
                    assert(keys[j] == k);
                    let q = choose|q: int| 0 <= q < look.len() && (#[trigger] look[q]).id == id;
                    let x = look[q];
                    assert(g.nodes.contains(x));
                    let i = choose|i: int| 0 <= i < g.nodes.len() && g.nodes[i] == x;
                    assert(in_index_any_label(index, k)(g.nodes[i]));
                    assert(entries.contains(g.nodes[i]));
                    let p = choose|p: int| 0 <= p < entries.len() && entries[p] == x;
                    assert(entries[p].id == id && entries[p].label == label);
                    assert(has_labelled_node_id(entries, label, id));
                    assert(has_node_id(entries, id));
                }
            }
        }
    }
}

/// Looking nodes up by several keys yields exactly the nodes that some
/// key alone yields: a node comes out if and only if looking it up under
/// one of the keys finds it. Which keys are given counts, not their
/// order or how often each is repeated. This holds of a graph whose node
/// ids are distinct, as every graph of this library keeps them.
pub proof fn lemma_index_in_is_union_of_lookups(
    g: GraphView,
    label: Seq<char>,
    index: Seq<char>,
    keys: Seq<ValueView>,
)
    requires
        distinct_ids(g.nodes),
    ensures
        forall|id: u128|
            has_node_id(index_in_scan(g, label, index, keys).0, id) <==> found_by_some_key(
                g,
                label,
                index,
                keys,
                id,
            ),
{
    lemma_index_in_members(g, label, index, keys);
}

/// Two lists holding the same keys find the same nodes, whatever their
/// order and repeats.
pub proof fn lemma_found_by_key_set(
    g: GraphView,
    label: Seq<char>,
    index: Seq<char>,
    keys1: Seq<ValueView>,
    keys2: Seq<ValueView>,
)
    requires
        forall|k: ValueView| keys1.contains(k) <==> keys2.contains(k),
    ensures
        forall|id: u128|
            found_by_some_key(g, label, index, keys1, id) <==> found_by_some_key(g, label, index, keys2, id),
{
    assert forall|id: u128| found_by_some_key(g, label, index, keys1, id) implies found_by_some_key(
        g,
        label,
        index,
        keys2,
        id,
    ) by {
        let j = choose|j: int| 0 <= j < keys1.len() && has_node_id(#[trigger] index_nodes(g, label, index, keys1[j]), id);
        assert(keys1.contains(keys1[j]));
        let j2 = choose|j2: int| 0 <= j2 < keys2.len() && keys2[j2] == keys1[j];
        assert(has_node_id(index_nodes(g, label, index, keys2[j2]), id));
    }
    assert forall|id: u128| found_by_some_key(g, label, index, keys2, id) implies found_by_some_key(
        g,
        label,
        index,
        keys1,
        id,
    ) by {
        let j = choose|j: int| 0 <= j < keys2.len() && has_node_id(#[trigger] index_nodes(g, label, index, keys2[j]), id);
        assert(keys2.contains(keys2[j]));
        let j1 = choose|j1: int| 0 <= j1 < keys1.len() && keys1[j1] == keys2[j];
        assert(has_node_id(index_nodes(g, label, index, keys1[j1]), id));
    }
}

/// Scanning entries notes the id of each of them and forgets no id.
proof fn lemma_scan_sees_all(entries: Seq<NodeView>, label: Seq<char>, out: Seq<NodeView>, seen: Set<u128>)
    ensures
        forall|p: int| 0 <= p < entries.len() ==> scan_entries(entries, label, out, seen).1.contains(#[trigger] entries[p].id),
        forall|id: u128| seen.contains(id) ==> #[trigger] scan_entries(entries, label, out, seen).1.contains(id),
    decreases entries.len(),
{
    if entries.len() > 0 {
        lemma_scan_sees_all(entries.drop_last(), label, out, seen);
        assert forall|id: u128| seen.contains(id) implies #[trigger] scan_entries(entries, label, out, seen).1.contains(id) by {
            assert(scan_entries(entries.drop_last(), label, out, seen).1.contains(id));
        }
        assert forall|p: int| 0 <= p < entries.len() implies scan_entries(entries, label, out, seen).1.contains(
            #[trigger] entries[p].id,
        ) by {
            if p < entries.len() - 1 {
                assert(entries.drop_last()[p] == entries[p]);
            }
        }
    }
}

/// Scanning entries whose ids were all seen before changes nothing.
proof fn lemma_scan_seen_is_noop(entries: Seq<NodeView>, label: Seq<char>, out: Seq<NodeView>, seen: Set<u128>)
    requires
        forall|p: int| 0 <= p < entries.len() ==> seen.contains(#[trigger] entries[p].id),
    ensures
        scan_entries(entries, label, out, seen) == (out, seen),
    decreases entries.len(),
{
    if entries.len() > 0 {
        assert forall|p: int| 0 <= p < entries.drop_last().len() implies seen.contains(
            #[trigger] entries.drop_last()[p].id,
        ) by {
            assert(entries.drop_last()[p] == entries[p]);
        }
        lemma_scan_seen_is_noop(entries.drop_last(), label, out, seen);
        assert(seen.contains(entries[entries.len() - 1].id));
    }
}

/// After looking up `keys`, the id of every node any of them lists is seen.
proof fn lemma_index_in_sees_keys(g: GraphView, label: Seq<char>, index: Seq<char>, keys: Seq<ValueView>)
    ensures
        forall|j: int, p: int|
            0 <= j < keys.len() && 0 <= p < g.nodes.filter(in_index_any_label(index, keys[j])).len()
                ==> index_in_scan(g, label, index, keys).1.contains(
                (#[trigger] g.nodes.filter(in_index_any_label(index, keys[j]))[p]).id,
            ),
    decreases keys.len(),
{
    if keys.len() > 0 {
        let pre = keys.drop_last();
        lemma_index_in_sees_keys(g, label, index, pre);
        let (o, s) = index_in_scan(g, label, index, pre);
        let entries = g.nodes.filter(in_index_any_label(index, keys.last()));
        lemma_scan_sees_all(entries, label, o, s);
        assert forall|j: int, p: int|
            0 <= j < keys.len() && 0 <= p < g.nodes.filter(in_index_any_label(index, keys[j])).len()
                implies index_in_scan(g, label, index, keys).1.contains(
                (#[trigger] g.nodes.filter(in_index_any_label(index, keys[j]))[p]).id,
            ) by {
            if j < pre.len() {
                assert(pre[j] == keys[j]);
                assert(s.contains(g.nodes.filter(in_index_any_label(index, pre[j]))[p].id));
            }
        }
    }
}

/// Looking up a key again that was looked up before yields nothing more:
/// adding a repeated key to the list changes neither the nodes yielded
/// nor their order. In particular `[k, k]` yields what `[k]` yields. This
/// holds of every graph.
pub proof fn lemma_index_in_repeated_key(
    g: GraphView,
    label: Seq<char>,
    index: Seq<char>,
    keys: Seq<ValueView>,
    k: ValueView,
)
    requires
        keys.contains(k),
    ensures
        index_in_scan(g, label, index, keys.push(k)) == index_in_scan(g, label, index, keys),
        index_in_scan(g, label, index, seq![k, k]) == index_in_scan(g, label, index, seq![k]),
{
    let j = choose|j: int| 0 <= j < keys.len() && keys[j] == k;
    lemma_index_in_sees_keys(g, label, index, keys);
    let (o, s) = index_in_scan(g, label, index, keys);
    let entries = g.nodes.filter(in_index_any_label(index, k));
    assert forall|p: int| 0 <= p < entries.len() implies s.contains(#[trigger] entries[p].id) by {
        assert(g.nodes.filter(in_index_any_label(index, keys[j]))[p] == entries[p]);
    }
    lemma_scan_seen_is_noop(entries, label, o, s);
    assert(keys.push(k).drop_last() =~= keys);
    let one = seq![k];
    lemma_index_in_sees_keys(g, label, index, one);
    let (o1, s1) = index_in_scan(g, label, index, one);
    assert forall|p: int| 0 <= p < entries.len() implies s1.contains(#[trigger] entries[p].id) by {
        assert(one[0] == k);
        assert(g.nodes.filter(in_index_any_label(index, one[0]))[p] == entries[p]);
    }
    lemma_scan_seen_is_noop(entries, label, o1, s1);
    assert(seq![k, k].drop_last() =~= one);
    assert(seq![k, k].last() == k);
}

/// Two lists holding the same keys, in any order and with any repeats,
/// yield the same nodes (by id), each once, where node ids are distinct.
pub proof fn lemma_index_in_same_keys(
    g: GraphView,
    label: Seq<char>,
    index: Seq<char>,
    keys1: Seq<ValueView>,
    keys2: Seq<ValueView>,
)
    requires
        distinct_ids(g.nodes),
        forall|k: ValueView| keys1.contains(k) <==> keys2.contains(k),
    ensures
        forall|id: u128|
            has_node_id(index_in_scan(g, label, index, keys1).0, id) <==> has_node_id(
                index_in_scan(g, label, index, keys2).0,
                id,
            ),
        distinct_ids(index_in_scan(g, label, index, keys1).0),
        distinct_ids(index_in_scan(g, label, index, keys2).0),
{
    lemma_index_in_is_union_of_lookups(g, label, index, keys1);
    lemma_index_in_is_union_of_lookups(g, label, index, keys2);
    lemma_found_by_key_set(g, label, index, keys1, keys2);
    lemma_index_in_yields_each_node_once(g, label, index, keys1);
    lemma_index_in_yields_each_node_once(g, label, index, keys2);
    assert forall|id: u128|
        has_node_id(index_in_scan(g, label, index, keys1).0, id) <==> has_node_id(
            index_in_scan(g, label, index, keys2).0,
            id,
        ) by {
        assert(has_node_id(index_in_scan(g, label, index, keys1).0, id) <==> found_by_some_key(g, label, index, keys1, id));
        assert(has_node_id(index_in_scan(g, label, index, keys2).0, id) <==> found_by_some_key(g, label, index, keys2, id));
        assert(found_by_some_key(g, label, index, keys1, id) <==> found_by_some_key(g, label, index, keys2, id));
    }
}

/// A node registered under exactly the given indices.
pub open spec fn registered_under(indices: Seq<Seq<char>>) -> spec_fn(NodeView) -> NodeView {
    |n: NodeView| NodeView { indices, ..n }
}

/// Replaces every node with `n`'s id by `n`.
pub open spec fn replace_node(n: NodeView) -> spec_fn(NodeView) -> NodeView {
    |m: NodeView| if m.id == n.id { n } else { m }
}

/// Replaces every edge with `e`'s id by `e`.
pub open spec fn replace_edge(e: EdgeView) -> spec_fn(EdgeView) -> EdgeView {
    |m: EdgeView| if m.id == e.id { e } else { m }
}

/// The graph after one updated value is written back by its id.
pub open spec fn write_back(g: GraphView, t: TraversalView) -> GraphView {
    match t {
        TraversalView::Node(n) => GraphView { nodes: g.nodes.map_values(replace_node(n)), ..g },
        TraversalView::Edge(e) => GraphView { edges: g.edges.map_values(replace_edge(e)), ..g },
        TraversalView::Empty => g,
    }
}

/// The graph after every value of `values` is updated and written back,
/// in order.
pub open spec fn update_all(g: GraphView, values: Seq<TraversalView>, updates: Seq<PropView>) -> GraphView
    decreases values.len(),
{
    if values.len() == 0 {
        g
    } else {
        write_back(update_all(g, values.drop_last(), updates), updated_value(values.last(), updates))
    }
}

/// Nodes whose id is not `id`.
pub open spec fn node_id_other(id: u128) -> spec_fn(NodeView) -> bool {
    |m: NodeView| m.id != id
}

/// Edges whose id is not `id`.
pub open spec fn edge_id_other(id: u128) -> spec_fn(EdgeView) -> bool {
    |m: EdgeView| m.id != id
}

/// Edges that neither start nor end at node `id`.
pub open spec fn edge_avoids(id: u128) -> spec_fn(EdgeView) -> bool {
    |e: EdgeView| e.from != id && e.to != id
}

/// The graph after one value is dropped: a node goes with every edge that
/// starts or ends at it, an edge goes alone.
pub open spec fn drop_value(g: GraphView, t: TraversalView) -> GraphView {
    match t {
        TraversalView::Node(n) => GraphView {
            nodes: g.nodes.filter(node_id_other(n.id)),
            edges: g.edges.filter(edge_avoids(n.id)),
            ..g
        },
        TraversalView::Edge(e) => GraphView { edges: g.edges.filter(edge_id_other(e.id)), ..g },
        TraversalView::Empty => g,
    }
}

/// The graph after every value of `values` is dropped, in order.
pub open spec fn drop_all(g: GraphView, values: Seq<TraversalView>) -> GraphView
    decreases values.len(),
{
    if values.len() == 0 {
        g
    } else {
        drop_value(drop_all(g, values.drop_last()), values.last())
    }
}

/// Edges labelled `label` that end at node `id`.
pub open spec fn ends_at(id: u128, label: Seq<char>) -> spec_fn(EdgeView) -> bool {
    |e: EdgeView| e.to == id && e.label == label
}

/// Edges labelled `label` that start at node `id`.
pub open spec fn starts_at(id: u128, label: Seq<char>) -> spec_fn(EdgeView) -> bool {
    |e: EdgeView| e.from == id && e.label == label
}

/// The edges labelled `label` that end at node `id`.
pub open spec fn in_edges(g: GraphView, id: u128, label: Seq<char>) -> Seq<EdgeView> {
    g.edges.filter(ends_at(id, label))
}

/// The edges labelled `label` that start at node `id`.
pub open spec fn out_edges(g: GraphView, id: u128, label: Seq<char>) -> Seq<EdgeView> {
    g.edges.filter(starts_at(id, label))
}

/// Names other than `name`.
pub open spec fn text_other(name: Seq<char>) -> spec_fn(Seq<char>) -> bool {
    |x: Seq<char>| x != name
}

/// Whether `names` holds `name`.
fn has_text(names: &Vec<String>, name: &str) -> (r: bool)
    ensures
        r == texts_view(names@).contains(name@),
{
    let r = contains_text(names, name);
    proof {
        if r {
            let i = choose|i: int| 0 <= i < names@.len() && (#[trigger] names@[i])@ == name@;
            assert(texts_view(names@)[i] == name@);
        } else {
            assert forall|i: int| 0 <= i < texts_view(names@).len() implies texts_view(names@)[i]
                != name@ by {
                assert(texts_view(names@)[i] == names@[i]@);
            }
        }
    }
    r
}

/// A copy of a list of names.
fn copy_names(v: &Vec<String>) -> (r: Vec<String>)
    ensures
        texts_view(r@) == texts_view(v@),
{
    let r = crate::analyzer::text::copy_strings(v);
    r
}

impl HelixGraphStorage {
    /// An empty store with the given indices and versions, whose ids start
    /// at `first_id`.
    pub fn new(
        secondary_indices: Vec<String>,
        edge_secondary_indices: Vec<String>,
        version_info: Vec<(String, u8)>,
        first_id: u128,
    ) -> (s: HelixGraphStorage)
        ensures
            s@.nodes.len() == 0,
            s@.edges.len() == 0,
            s@.node_indices == texts_view(secondary_indices@),
            s@.edge_indices == texts_view(edge_secondary_indices@),
            s@.versions == versions_view(version_info@),
            s@.next_id == first_id,
    {
        let s = HelixGraphStorage {
            nodes: Vec::new(),
            edges: Vec::new(),
            secondary_indices,
            edge_secondary_indices,
            version_info,
            next_id: first_id,
        };
        assert(s@.nodes =~= Seq::<NodeView>::empty());
        assert(s@.edges =~= Seq::<EdgeView>::empty());
        s
    }

    /// Whether a node secondary index called `index` exists.
    pub fn has_secondary_index(&self, index: &str) -> (r: bool)
        ensures
            r == self@.node_indices.contains(index@),
    {
        has_text(&self.secondary_indices, index)
    }

    /// Whether an edge secondary index called `index` exists.
    pub fn has_edge_secondary_index(&self, index: &str) -> (r: bool)
        ensures
            r == self@.edge_indices.contains(index@),
    {
        has_text(&self.edge_secondary_indices, index)
    }

    /// A copy of the whole store.
    pub fn copy(&self) -> (r: HelixGraphStorage)
        ensures
            r@ == self@,
    {
        let mut nodes: Vec<Node> = Vec::new();
        let mut i: usize = 0;
        while i < self.nodes.len()
            invariant
                i <= self.nodes@.len(),
                nodes_view(nodes@) == nodes_view(self.nodes@).subrange(0, i as int),
            decreases self.nodes@.len() - i,
        {
            let ghost before = nodes@;
            let n = copy_node(&self.nodes[i]);
            let ghost nv = n@;
            nodes.push(n);
            assert(nodes_view(nodes@) =~= nodes_view(before).push(nv));
            assert(nodes_view(self.nodes@).subrange(0, i as int + 1) =~= nodes_view(self.nodes@).subrange(
                0,
                i as int,
            ).push(nv));
            i = i + 1;
        }
        let mut edges: Vec<Edge> = Vec::new();
        let mut j: usize = 0;
        while j < self.edges.len()
            invariant
                j <= self.edges@.len(),
                edges_view(edges@) == edges_view(self.edges@).subrange(0, j as int),
            decreases self.edges@.len() - j,
        {
            let ghost before = edges@;
            let e = crate::items::copy_edge(&self.edges[j]);
            let ghost ev = e@;
            edges.push(e);
            assert(edges_view(edges@) =~= edges_view(before).push(ev));
            assert(edges_view(self.edges@).subrange(0, j as int + 1) =~= edges_view(self.edges@).subrange(
                0,
                j as int,
            ).push(ev));
            j = j + 1;
        }
        let mut versions: Vec<(String, u8)> = Vec::new();
        let mut k: usize = 0;
        while k < self.version_info.len()
            invariant
                k <= self.version_info@.len(),
                versions_view(versions@) == versions_view(self.version_info@).subrange(0, k as int),
            decreases self.version_info@.len() - k,
        {
            let ghost before = versions@;
            let name = self.version_info[k].0.clone();
            let ver = self.version_info[k].1;
            let ghost pv = (name@, ver);
            versions.push((name, ver));
            assert(versions_view(versions@) =~= versions_view(before).push(pv));
            assert(versions_view(self.version_info@).subrange(0, k as int + 1) =~= versions_view(
                self.version_info@,
            ).subrange(0, k as int).push(pv));
            k = k + 1;
        }
        assert(nodes_view(nodes@) =~= nodes_view(self.nodes@));
        assert(edges_view(edges@) =~= edges_view(self.edges@));
        assert(versions_view(versions@) =~= versions_view(self.version_info@));
        HelixGraphStorage {
            nodes,
            edges,
            secondary_indices: copy_names(&self.secondary_indices),
            edge_secondary_indices: copy_names(&self.edge_secondary_indices),
            version_info: versions,
            next_id: self.next_id,
        }
    }

    /// Rebuilds the secondary indices: the store keeps the given node and
    /// edge indices, and every node is registered under each node index.
    pub fn rebuild_indices(&mut self, node_indices: Vec<String>, edge_indices: Vec<String>)
        ensures
            final(self)@ == (GraphView {
                nodes: old(self)@.nodes.map_values(registered_under(texts_view(node_indices@))),
                node_indices: texts_view(node_indices@),
                edge_indices: texts_view(edge_indices@),
                ..old(self)@
            }),
    {
        let ghost g = self@;
        let ghost ix = texts_view(node_indices@);
        let mut i: usize = 0;
        while i < self.nodes.len()
            invariant
                i <= self.nodes@.len(),
                self.nodes@.len() == g.nodes.len(),
                ix == texts_view(node_indices@),
                self@ == (GraphView { nodes: self@.nodes, ..g }),
                forall|j: int| 0 <= j < i ==> (#[trigger] self@.nodes[j]) == registered_under(ix)(g.nodes[j]),
                forall|j: int| i <= j < g.nodes.len() ==> (#[trigger] self@.nodes[j]) == g.nodes[j],
            decreases self.nodes@.len() - i,
        {
            let ghost before = self.nodes@;
            assert(self@.nodes[i as int] == self.nodes@[i as int]@);
            let mut n = copy_node(&self.nodes[i]);
            n.indices = copy_names(&node_indices);
            let ghost nv = n@;
            self.nodes.set(i, n);
            assert(nodes_view(self.nodes@) =~= nodes_view(before).update(i as int, nv));
            i = i + 1;
        }
        assert(self@.nodes =~= g.nodes.map_values(registered_under(ix)));
        self.secondary_indices = node_indices;
        self.edge_secondary_indices = edge_indices;
    }

    /// Adds a node secondary index called `name`; an existing one stays.
    pub fn create_secondary_index(&mut self, name: &str) -> (r: Result<(), GraphError>)
        ensures
            r is Ok,
            old(self)@.node_indices.contains(name@) ==> final(self)@ == old(self)@,
            !old(self)@.node_indices.contains(name@) ==> final(self)@ == (GraphView {
                node_indices: old(self)@.node_indices.push(name@),
                ..old(self)@
            }),
    {
        if !self.has_secondary_index(name) {
            let ghost before = self.secondary_indices@;
            self.secondary_indices.push(name.to_owned());
            assert(texts_view(self.secondary_indices@) =~= texts_view(before).push(name@));
        }
        Ok(())
    }

    /// Removes the node secondary index called `name`, or reports that
    /// there is none.
    pub fn drop_secondary_index(&mut self, name: &str) -> (r: Result<(), GraphError>)
        ensures
            old(self)@.node_indices.contains(name@) ==> r is Ok && final(self)@ == (GraphView {
                node_indices: old(self)@.node_indices.filter(text_other(name@)),
                ..old(self)@
            }),
            !old(self)@.node_indices.contains(name@) ==> final(self)@ == old(self)@ && (r matches Err(
                GraphError::New(m),
            ) && m@ == crate::indexing::secondary_index_not_found_text(name@)),
    {
        if !self.has_secondary_index(name) {
            return Err(crate::indexing::secondary_index_not_found(name));
        }
        let ghost g = self@;
        let ghost p = text_other(name@);
        let mut kept: Vec<String> = Vec::new();
        let mut i: usize = 0;
        while i < self.secondary_indices.len()
            invariant
                i <= self.secondary_indices@.len(),
                g == self@,
                p == text_other(name@),
                texts_view(kept@) == g.node_indices.subrange(0, i as int).filter(p),
            decreases self.secondary_indices@.len() - i,
        {
            let ghost before = kept@;
            assert(g.node_indices[i as int] == self.secondary_indices@[i as int]@);
            proof {
                g.node_indices.subrange(0, i as int).lemma_filter_push(g.node_indices[i as int], p);
                assert(g.node_indices.subrange(0, i as int + 1) =~= g.node_indices.subrange(0, i as int).push(
                    g.node_indices[i as int],
                ));
            }
            if !text_eq(self.secondary_indices[i].as_str(), name) {
                kept.push(self.secondary_indices[i].clone());
                assert(texts_view(kept@) =~= texts_view(before).push(g.node_indices[i as int]));
            }
            i = i + 1;
        }
        assert(g.node_indices.subrange(0, g.node_indices.len() as int) =~= g.node_indices);
        self.secondary_indices = kept;
        Ok(())
    }

    /// The latest version of edge label `label`.
    pub fn get_latest(&self, label: &str) -> (v: u8)
        ensures
            v == latest_version(self@.versions, label@),
    {
        let ghost vs = self@.versions;
        assert(vs.subrange(0, vs.len() as int) =~= vs);
        let mut i: usize = 0;
        while i < self.version_info.len()
            invariant
                i <= self.version_info@.len(),
                vs == versions_view(self.version_info@),
                latest_version(vs, label@) == latest_version(vs.subrange(i as int, vs.len() as int), label@),
            decreases self.version_info@.len() - i,
        {
            let ghost rest = vs.subrange(i as int, vs.len() as int);
            if text_eq(self.version_info[i].0.as_str(), label) {
                return self.version_info[i].1;
            }
            assert(rest.drop_first() =~= vs.subrange(i as int + 1, vs.len() as int));
            i = i + 1;
        }
        1
    }

    /// Hands out the next free id.
    fn alloc_id(&mut self) -> (id: u128)
        requires
            old(self)@.next_id < u128::MAX,
        ensures
            id == old(self)@.next_id,
            final(self)@ == (GraphView { next_id: (id + 1) as u128, ..old(self)@ }),
    {
        let id = self.next_id;
        self.next_id = self.next_id + 1;
        id
    }

    /// Adds a node labelled `label` with the given properties, registered
    /// under the given indices, and returns it.
    pub fn add_n(&mut self, label: &str, properties: Vec<(String, Value)>, indices: Vec<String>) -> (n:
        Node)
        requires
            old(self)@.next_id < u128::MAX,
        ensures
            n@ == (NodeView {
                id: old(self)@.next_id,
                label: label@,
                props: props_view(properties@),
                indices: texts_view(indices@),
            }),
            final(self)@ == with_node(old(self)@, n@),
            ids_fresh_and_unique(old(self)@) ==> ids_fresh_and_unique(final(self)@),
    {
        proof {
            if ids_fresh_and_unique(self@) {
                lemma_with_node_keeps_ids(
                    self@,
                    NodeView {
                        id: self@.next_id,
                        label: label@,
                        props: props_view(properties@),
                        indices: texts_view(indices@),
                    },
                );
            }
        }
        let id = self.alloc_id();
        let node = Node { id, label: label.to_owned(), properties, indices };
        let stored = copy_node(&node);
        let ghost before = self.nodes@;
        self.nodes.push(stored);
        assert(nodes_view(self.nodes@) =~= nodes_view(before).push(node@));
        node
    }

    /// The position of the first node with id `id`.
    fn node_position(&self, id: u128) -> (r: Option<usize>)
        ensures
            match r {
                Some(i) => i < self@.nodes.len() && self@.nodes[i as int].id == id && forall|j: int|
                    0 <= j < i ==> (#[trigger] self@.nodes[j]).id != id,
                None => forall|j: int| 0 <= j < self@.nodes.len() ==> (#[trigger] self@.nodes[j]).id
                    != id,
            },
    {
        let mut i: usize = 0;
        while i < self.nodes.len()
            invariant
                i <= self.nodes@.len(),
                forall|j: int| 0 <= j < i ==> (#[trigger] self@.nodes[j]).id != id,
            decreases self.nodes@.len() - i,
        {
            assert(self@.nodes[i as int] == self.nodes@[i as int]@);
            if self.nodes[i].id == id {
                return Some(i);
            }
            i = i + 1;
        }
        None
    }

    /// The first node with id `id`.
    pub fn get_node(&self, id: &u128) -> (r: Result<Node, GraphError>)
        ensures
            match r {
                Ok(n) => find_node(self@.nodes, *id) == Some(n@),
                Err(e) => e is NodeNotFound && find_node(self@.nodes, *id) is None,
            },
    {
        match self.node_position(*id) {
            Some(i) => {
                assert(self@.nodes[i as int] == self.nodes@[i as int]@);
                proof {
                    lemma_find_node_first(self@.nodes, *id, i as int);
                }
                Ok(copy_node(&self.nodes[i]))
            },
            None => {
                proof {
                    lemma_find_node_none(self@.nodes, *id);
                }
                Err(GraphError::NodeNotFound)
            },
        }
    }
}

/// The first node with id `id`, if any.
pub open spec fn find_node(nodes: Seq<NodeView>, id: u128) -> Option<NodeView>
    decreases nodes.len(),
{
    if nodes.len() == 0 {
        None
    } else if nodes[0].id == id {
        Some(nodes[0])
    } else {
        find_node(nodes.drop_first(), id)
    }
}

pub proof fn lemma_find_node_first(nodes: Seq<NodeView>, id: u128, i: int)
    requires
        0 <= i < nodes.len(),
        nodes[i].id == id,
        forall|j: int| 0 <= j < i ==> (#[trigger] nodes[j]).id != id,
    ensures
        find_node(nodes, id) == Some(nodes[i]),
    decreases i,
{
    if i > 0 {
        assert forall|j: int| 0 <= j < i - 1 implies (#[trigger] nodes.drop_first()[j]).id != id by {
            assert(nodes.drop_first()[j] == nodes[j + 1]);
        }
        lemma_find_node_first(nodes.drop_first(), id, i - 1);
    }
}

proof fn lemma_find_node_none(nodes: Seq<NodeView>, id: u128)
    requires
        forall|j: int| 0 <= j < nodes.len() ==> (#[trigger] nodes[j]).id != id,
    ensures
        find_node(nodes, id) is None,
    decreases nodes.len(),
{
    if nodes.len() > 0 {
        assert forall|j: int| 0 <= j < nodes.drop_first().len() implies (
        #[trigger] nodes.drop_first()[j]).id != id by {
            assert(nodes.drop_first()[j] == nodes[j + 1]);
        }
        lemma_find_node_none(nodes.drop_first(), id);
    }
}

/// A stored node with id `id` is found by id.
pub proof fn lemma_find_node_some(nodes: Seq<NodeView>, id: u128, k: int)
    requires
        0 <= k < nodes.len(),
        nodes[k].id == id,
    ensures
        find_node(nodes, id) is Some,
    decreases k,
{
    if k > 0 && nodes[0].id != id {
        assert(nodes.drop_first()[k - 1] == nodes[k]);
        lemma_find_node_some(nodes.drop_first(), id, k - 1);
    }
}

/// No two edges of `s` share an id.
pub open spec fn distinct_edge_ids(s: Seq<EdgeView>) -> bool {
    forall|i: int, j: int| 0 <= i < j < s.len() ==> (#[trigger] s[i]).id != (#[trigger] s[j]).id
}

/// Every stored node and edge has an id below the next free id, and no two
/// nodes, nor two edges, share one.
pub open spec fn ids_fresh_and_unique(g: GraphView) -> bool {
    &&& forall|i: int| 0 <= i < g.nodes.len() ==> (#[trigger] g.nodes[i]).id < g.next_id
    &&& forall|i: int| 0 <= i < g.edges.len() ==> (#[trigger] g.edges[i]).id < g.next_id
    &&& distinct_ids(g.nodes)
    &&& distinct_edge_ids(g.edges)
}

/// A node added under the next free id keeps ids fresh and unique.
pub proof fn lemma_with_node_keeps_ids(g: GraphView, n: NodeView)
    requires
        ids_fresh_and_unique(g),
        n.id == g.next_id,
        g.next_id < u128::MAX,
    ensures
        ids_fresh_and_unique(with_node(g, n)),
{
    let g2 = with_node(g, n);
    assert forall|i: int, j: int| 0 <= i < j < g2.nodes.len() implies (#[trigger] g2.nodes[i]).id != (
    #[trigger] g2.nodes[j]).id by {
        if j == g.nodes.len() {
            assert(g2.nodes[i] == g.nodes[i]);
        } else {
            assert(g2.nodes[i] == g.nodes[i] && g2.nodes[j] == g.nodes[j]);
        }
    }
    assert forall|i: int| 0 <= i < g2.nodes.len() implies (#[trigger] g2.nodes[i]).id < g2.next_id by {
        if i < g.nodes.len() {
            assert(g2.nodes[i] == g.nodes[i]);
        }
    }
}

/// An edge added under the next free id keeps ids fresh and unique.
pub proof fn lemma_with_edge_keeps_ids(g: GraphView, e: EdgeView)
    requires
        ids_fresh_and_unique(g),
        e.id == g.next_id,
        g.next_id < u128::MAX,
    ensures
        ids_fresh_and_unique(with_edge(g, e)),
{
    let g2 = with_edge(g, e);
    assert forall|i: int, j: int| 0 <= i < j < g2.edges.len() implies (#[trigger] g2.edges[i]).id != (
    #[trigger] g2.edges[j]).id by {
        if j == g.edges.len() {
            assert(g2.edges[i] == g.edges[i]);
        } else {
            assert(g2.edges[i] == g.edges[i] && g2.edges[j] == g.edges[j]);
        }
    }
    assert forall|i: int| 0 <= i < g2.edges.len() implies (#[trigger] g2.edges[i]).id < g2.next_id by {
        if i < g.edges.len() {
            assert(g2.edges[i] == g.edges[i]);
        }
    }
}

/// Writing a value back by its id changes no stored id.
proof fn lemma_write_back_keeps_ids(g: GraphView, t: TraversalView)
    requires
        ids_fresh_and_unique(g),
    ensures
        ids_fresh_and_unique(write_back(g, t)),
{
    let g2 = write_back(g, t);
    assert forall|i: int| 0 <= i < g2.nodes.len() implies (#[trigger] g2.nodes[i]).id == g.nodes[i].id by {
    }
    assert forall|i: int| 0 <= i < g2.edges.len() implies (#[trigger] g2.edges[i]).id == g.edges[i].id by {
    }
    assert forall|i: int, j: int| 0 <= i < j < g2.nodes.len() implies (#[trigger] g2.nodes[i]).id != (
    #[trigger] g2.nodes[j]).id by {
        assert(g.nodes[i].id != g.nodes[j].id);
    }
    assert forall|i: int, j: int| 0 <= i < j < g2.edges.len() implies (#[trigger] g2.edges[i]).id != (
    #[trigger] g2.edges[j]).id by {
        assert(g.edges[i].id != g.edges[j].id);
    }
    assert forall|i: int| 0 <= i < g2.nodes.len() implies (#[trigger] g2.nodes[i]).id < g2.next_id by {
        assert(g.nodes[i].id < g.next_id);
    }
    assert forall|i: int| 0 <= i < g2.edges.len() implies (#[trigger] g2.edges[i]).id < g2.next_id by {
        assert(g.edges[i].id < g.next_id);
    }
}

/// Keeping some of the nodes keeps their ids distinct.
pub proof fn lemma_filter_nodes_distinct(s: Seq<NodeView>, p: spec_fn(NodeView) -> bool)
    requires
        distinct_ids(s),
    ensures
        distinct_ids(s.filter(p)),
        forall|i: int| 0 <= i < s.filter(p).len() ==> s.contains(#[trigger] s.filter(p)[i]),
    decreases s.len(),
{
    if s.len() > 0 {
        let s1 = s.drop_last();
        assert forall|i: int, j: int| 0 <= i < j < s1.len() implies (#[trigger] s1[i]).id != (
        #[trigger] s1[j]).id by {
            assert(s1[i] == s[i] && s1[j] == s[j]);
        }
        lemma_filter_nodes_distinct(s1, p);
        assert(s =~= s1.push(s.last()));
        s1.lemma_filter_push(s.last(), p);
        let f1 = s1.filter(p);
        let f = s.filter(p);
        assert forall|i: int| 0 <= i < f.len() implies s.contains(#[trigger] f[i]) by {
            if i < f1.len() {
                assert(f[i] == f1[i]);
                assert(s1.contains(f1[i]));
                let k = choose|k: int| 0 <= k < s1.len() && s1[k] == f1[i];
                assert(s[k] == f1[i]);
            } else {
                assert(s[s.len() - 1] == f[i]);
            }
        }
        if p(s.last()) {
            assert forall|i: int, j: int| 0 <= i < j < f.len() implies (#[trigger] f[i]).id != (
            #[trigger] f[j]).id by {
                if j == f1.len() {
                    assert(s1.contains(f1[i]));
                    let k = choose|k: int| 0 <= k < s1.len() && s1[k] == f1[i];
                    assert(s[k] == f1[i]);
                    assert(s[k].id != s[s.len() - 1].id);
                } else {
                    assert(f[i] == f1[i] && f[j] == f1[j]);
                }
            }
        }
    }
}

/// Keeping some of the edges keeps their ids distinct.
proof fn lemma_filter_edges_distinct(s: Seq<EdgeView>, p: spec_fn(EdgeView) -> bool)
    requires
        distinct_edge_ids(s),
    ensures
        distinct_edge_ids(s.filter(p)),
        forall|i: int| 0 <= i < s.filter(p).len() ==> s.contains(#[trigger] s.filter(p)[i]),
    decreases s.len(),
{
    if s.len() > 0 {
        let s1 = s.drop_last();
        assert forall|i: int, j: int| 0 <= i < j < s1.len() implies (#[trigger] s1[i]).id != (
        #[trigger] s1[j]).id by {
            assert(s1[i] == s[i] && s1[j] == s[j]);
        }
        lemma_filter_edges_distinct(s1, p);
        assert(s =~= s1.push(s.last()));
        s1.lemma_filter_push(s.last(), p);
        let f1 = s1.filter(p);
        let f = s.filter(p);
        assert forall|i: int| 0 <= i < f.len() implies s.contains(#[trigger] f[i]) by {
            if i < f1.len() {
                assert(f[i] == f1[i]);
                assert(s1.contains(f1[i]));
                let k = choose|k: int| 0 <= k < s1.len() && s1[k] == f1[i];
                assert(s[k] == f1[i]);
            } else {
                assert(s[s.len() - 1] == f[i]);
            }
        }
        if p(s.last()) {
            assert forall|i: int, j: int| 0 <= i < j < f.len() implies (#[trigger] f[i]).id != (
            #[trigger] f[j]).id by {
                if j == f1.len() {
                    assert(s1.contains(f1[i]));
                    let k = choose|k: int| 0 <= k < s1.len() && s1[k] == f1[i];
                    assert(s[k] == f1[i]);
                    assert(s[k].id != s[s.len() - 1].id);
                } else {
                    assert(f[i] == f1[i] && f[j] == f1[j]);
                }
            }
        }
    }
}

/// Dropping a value keeps ids fresh and unique.
proof fn lemma_drop_value_keeps_ids(g: GraphView, t: TraversalView)
    requires
        ids_fresh_and_unique(g),
    ensures
        ids_fresh_and_unique(drop_value(g, t)),
{
    let g2 = drop_value(g, t);
    match t {
        TraversalView::Node(n) => {
            lemma_filter_nodes_distinct(g.nodes, node_id_other(n.id));
            lemma_filter_edges_distinct(g.edges, edge_avoids(n.id));
        },
        TraversalView::Edge(e) => {
            lemma_filter_edges_distinct(g.edges, edge_id_other(e.id));
        },
        TraversalView::Empty => {},
    }
    assert forall|i: int| 0 <= i < g2.nodes.len() implies (#[trigger] g2.nodes[i]).id < g2.next_id by {
        assert(g.nodes.contains(g2.nodes[i]));
    }
    assert forall|i: int| 0 <= i < g2.edges.len() implies (#[trigger] g2.edges[i]).id < g2.next_id by {
        assert(g.edges.contains(g2.edges[i]));
    }
}

/// Updating values changes no index, version or id counter of the store,
/// and keeps ids fresh and unique.
pub proof fn lemma_update_all_shape(g: GraphView, values: Seq<TraversalView>, updates: Seq<PropView>)
    ensures
        update_all(g, values, updates).node_indices == g.node_indices,
        update_all(g, values, updates).edge_indices == g.edge_indices,
        update_all(g, values, updates).versions == g.versions,
        update_all(g, values, updates).next_id == g.next_id,
        ids_fresh_and_unique(g) ==> ids_fresh_and_unique(update_all(g, values, updates)),
    decreases values.len(),
{
    if values.len() > 0 {
        lemma_update_all_shape(g, values.drop_last(), updates);
        if ids_fresh_and_unique(g) {
            lemma_write_back_keeps_ids(
                update_all(g, values.drop_last(), updates),
                updated_value(values.last(), updates),
            );
        }
    }
}

/// Dropping values changes no index, version or id counter of the store,
/// and keeps ids fresh and unique.
pub proof fn lemma_drop_all_shape(g: GraphView, values: Seq<TraversalView>)
    ensures
        drop_all(g, values).node_indices == g.node_indices,
        drop_all(g, values).edge_indices == g.edge_indices,
        drop_all(g, values).versions == g.versions,
        drop_all(g, values).next_id == g.next_id,
        ids_fresh_and_unique(g) ==> ids_fresh_and_unique(drop_all(g, values)),
    decreases values.len(),
{
    if values.len() > 0 {
        lemma_drop_all_shape(g, values.drop_last());
        if ids_fresh_and_unique(g) {
            lemma_drop_value_keeps_ids(drop_all(g, values.drop_last()), values.last());
        }
    }
}

/// An edge that is added is found through an edge index under the value
/// of its property of that name, after the edges found before.
pub proof fn lemma_added_edge_is_indexed(
    g: GraphView,
    e: EdgeView,
    index: Seq<char>,
    key: ValueView,
)
    requires
        prop_get(e.props, index) == Some(key),
    ensures
        index_edges(with_edge(g, e), e.label, index, key) == index_edges(g, e.label, index, key).push(e),
{
    g.edges.lemma_filter_push(e, edge_in_index(e.label, index, key));
}

/// When a stored edge has one property set to a new value and is written
/// back, the index finds it under the new value and no longer finds any
/// edge with its id under the old value.
pub proof fn lemma_updated_edge_is_reindexed(
    g: GraphView,
    e: EdgeView,
    index: Seq<char>,
    old_key: ValueView,
    new_key: ValueView,
)
    requires
        g.edges.contains(e),
        old_key != new_key,
    ensures
        ({
            let e2 = updated_edge(e, seq![(index, new_key)]);
            let g2 = write_back(g, TraversalView::Edge(e2));
            &&& index_edges(g2, e.label, index, new_key).contains(e2)
            &&& forall|i: int|
                0 <= i < index_edges(g2, e.label, index, old_key).len() ==> (#[trigger] index_edges(
                    g2,
                    e.label,
                    index,
                    old_key,
                )[i]).id != e.id
        }),
{
    let u = seq![(index, new_key)];
    let e2 = updated_edge(e, u);
    let g2 = write_back(g, TraversalView::Edge(e2));
    assert(u.drop_last() =~= Seq::<PropView>::empty());
    assert(update_props(e.props, u.drop_last()) == e.props);
    assert(u.last() == (index, new_key));
    assert(update_props(e.props, u) == set_prop(e.props, index, new_key));
    lemma_get_after_set(e.props, index, new_key);
    let i = choose|i: int| 0 <= i < g.edges.len() && g.edges[i] == e;
    assert(g2.edges[i] == e2);
    g2.edges.lemma_filter_contains(edge_in_index(e.label, index, new_key), i);
    let found = index_edges(g2, e.label, index, old_key);
    assert forall|j: int| 0 <= j < found.len() implies (#[trigger] found[j]).id != e.id by {
        g2.edges.lemma_filter_pred(edge_in_index(e.label, index, old_key), j);
        assert(found.contains(found[j]));
        g2.edges.lemma_filter_contains_rev(edge_in_index(e.label, index, old_key), found[j]);
        let k = choose|k: int| 0 <= k < g2.edges.len() && g2.edges[k] == found[j];
        if found[j].id == e.id {
            assert(g2.edges[k] == e2);
        }
    }
}

/// Once an edge is dropped, no edge index finds an edge with its id.
pub proof fn lemma_dropped_edge_is_unindexed(
    g: GraphView,
    e: EdgeView,
    label: Seq<char>,
    index: Seq<char>,
    key: ValueView,
)
    ensures
        forall|i: int|
            0 <= i < index_edges(drop_value(g, TraversalView::Edge(e)), label, index, key).len()
                ==> (#[trigger] index_edges(drop_value(g, TraversalView::Edge(e)), label, index, key)[i]).id
                != e.id,
{
    let g2 = drop_value(g, TraversalView::Edge(e));
    let found = index_edges(g2, label, index, key);
    assert forall|i: int| 0 <= i < found.len() implies (#[trigger] found[i]).id != e.id by {
        assert(found.contains(found[i]));
        g2.edges.lemma_filter_contains_rev(edge_in_index(label, index, key), found[i]);
        let k = choose|k: int| 0 <= k < g2.edges.len() && g2.edges[k] == found[i];
        g.edges.lemma_filter_pred(edge_id_other(e.id), k);
    }
}

/// Once a node is dropped, no stored edge starts or ends at it, so no edge
/// index finds one.
pub proof fn lemma_dropped_node_leaves_no_edges(g: GraphView, n: NodeView)
    ensures
        forall|i: int|
            0 <= i < drop_value(g, TraversalView::Node(n)).edges.len() ==> (#[trigger] drop_value(
                g,
                TraversalView::Node(n),
            ).edges[i]).from != n.id && drop_value(g, TraversalView::Node(n)).edges[i].to != n.id,
{
    let g2 = drop_value(g, TraversalView::Node(n));
    assert forall|i: int| 0 <= i < g2.edges.len() implies (#[trigger] g2.edges[i]).from != n.id
        && g2.edges[i].to != n.id by {
        g.edges.lemma_filter_pred(edge_avoids(n.id), i);
    }
}

} // verus!
