use vstd::prelude::*;
use crate::analyzer::text::text_eq;

use crate::graph::{
    as_edge_values, as_node_values, in_index_any_label, index_in_scan, scan_entries,
    edge_in_index, index_edges, index_nodes, node_in_index, HelixGraphStorage,
};
use crate::items::{
    copy_edge, copy_node, texts_view, values_view, Edge, Node, NodeView, TraversalValue,
    TraversalView,
};
use crate::value::{Value, ValueView, value_eq};

verus! {

/// Whether node `n` is found through index `index` under `key` with `label`.
fn node_matches(n: &Node, label: &str, index: &str, key: &Value) -> (r: bool)
    ensures
        r == node_in_index(label@, index@, key@)(n@),
{
    if !text_eq(n.label.as_str(), label) {
        return false;
    }
    if !crate::analyzer::text::contains_text(&n.indices, index) {
        proof {
            if texts_view(n.indices@).contains(index@) {
                let i = choose|i: int|
                    0 <= i < texts_view(n.indices@).len() && texts_view(n.indices@)[i] == index@;
                assert(n.indices@[i]@ == index@);
            }
        }
        return false;
    }
    proof {
        let i = choose|i: int| 0 <= i < n.indices@.len() && (#[trigger] n.indices@[i])@ == index@;
        assert(texts_view(n.indices@)[i] == index@);
    }
    match n.get_property(index) {
        Some(v) => value_eq(v, key),
        None => false,
    }
}

/// Whether edge `e` is found through index `index` under `key` with `label`.
fn edge_matches(e: &Edge, label: &str, index: &str, key: &Value) -> (r: bool)
    ensures
        r == edge_in_index(label@, index@, key@)(e@),
{
    if !text_eq(e.label.as_str(), label) {
        return false;
    }
    match e.get_property(index) {
        Some(v) => value_eq(v, key),
        None => false,
    }
}

/// The values a read-only traversal has produced.
pub struct RoTraversalIterator {
    pub inner: Vec<TraversalValue>,
}

impl RoTraversalIterator {
    /// A traversal that has produced nothing yet.
    pub fn new() -> (t: RoTraversalIterator)
        ensures
            t.inner@.len() == 0,
    {
        RoTraversalIterator { inner: Vec::new() }
    }

    /// The values produced.
    pub fn collect_values(self) -> (v: Vec<TraversalValue>)
        ensures
            v@ == self.inner@,
    {
        self.inner
    }
}

/// Source steps that read nodes through a secondary index.
pub trait NFromIndexAdapter: Sized {
    /// The nodes labelled `label` whose property `index` holds `key`, as
    /// the secondary index `index` lists them. The index must exist.
    fn n_from_index(self, storage: &HelixGraphStorage, label: &str, index: &str, key: &Value) -> (r:
        RoTraversalIterator)
        requires
            storage@.node_indices.contains(index@),
        ensures
            values_view(r.inner@) == as_node_values(index_nodes(storage@, label@, index@, key@)),
    ;

    /// The nodes labelled `label` that the secondary index `index` lists
    /// under any of `keys`: key by key, in index order, each node once even
    /// where keys repeat. The index must exist.
    fn n_from_index_in(self, storage: &HelixGraphStorage, label: &str, index: &str, keys: &Vec<Value>) -> (r:
        RoTraversalIterator)
        requires
            storage@.node_indices.contains(index@),
        ensures
            values_view(r.inner@) == as_node_values(
                index_in_scan(storage@, label@, index@, value_views(keys@)).0,
            ),
    ;
}

/// The views of a list of values.
pub open spec fn value_views(v: Seq<Value>) -> Seq<ValueView> {
    v.map_values(|x: Value| x@)
}

/// Whether `ids` holds `id`.
fn seen_contains(ids: &Vec<u128>, id: u128) -> (r: bool)
    ensures
        r == ids@.contains(id),
{
    let mut i: usize = 0;
    while i < ids.len()
        invariant
            i <= ids@.len(),
            forall|j: int| 0 <= j < i ==> ids@[j] != id,
        decreases ids@.len() - i,
    {
        if ids[i] == id {
            assert(ids@[i as int] == id);
            return true;
        }
        i = i + 1;
    }
    false
}

/// Whether node `n` is listed by index `index` under `key`, whatever its label.
fn listed_under(n: &Node, index: &str, key: &Value) -> (r: bool)
    ensures
        r == in_index_any_label(index@, key@)(n@),
{
    if !crate::analyzer::text::contains_text(&n.indices, index) {
        proof {
            if texts_view(n.indices@).contains(index@) {
                let i = choose|i: int|
                    0 <= i < texts_view(n.indices@).len() && texts_view(n.indices@)[i] == index@;
                assert(n.indices@[i]@ == index@);
            }
        }
        return false;
    }
    proof {
        let i = choose|i: int| 0 <= i < n.indices@.len() && (#[trigger] n.indices@[i])@ == index@;
        assert(texts_view(n.indices@)[i] == index@);
    }
    match n.get_property(index) {
        Some(v) => value_eq(v, key),
        None => false,
    }
}

/// Source steps that read edges through a secondary index.
pub trait EFromIndexAdapter: Sized {
    /// The edges labelled `label` whose property `index` holds `key`, as
    /// the edge secondary index `index` lists them. The index must exist.
    fn e_from_index(self, storage: &HelixGraphStorage, label: &str, index: &str, key: &Value) -> (r:
        RoTraversalIterator)
        requires
            storage@.edge_indices.contains(index@),
        ensures
            values_view(r.inner@) == as_edge_values(index_edges(storage@, label@, index@, key@)),
    ;
}

impl NFromIndexAdapter for RoTraversalIterator {
    fn n_from_index(self, storage: &HelixGraphStorage, label: &str, index: &str, key: &Value) -> (r:
        RoTraversalIterator) {
        let ghost g = storage@;
        let ghost p = node_in_index(label@, index@, key@);
        let mut out: Vec<TraversalValue> = Vec::new();
        let mut i: usize = 0;
        while i < storage.nodes.len()
            invariant
                i <= storage.nodes@.len(),
                g == storage@,
                p == node_in_index(label@, index@, key@),
                values_view(out@) == as_node_values(g.nodes.subrange(0, i as int).filter(p)),
            decreases storage.nodes@.len() - i,
        {
            let n = &storage.nodes[i];
            let ghost before = out@;
            assert(g.nodes[i as int] == n@);
            proof {
                g.nodes.subrange(0, i as int).lemma_filter_push(g.nodes[i as int], p);
                assert(g.nodes.subrange(0, i as int + 1) =~= g.nodes.subrange(0, i as int).push(
                    g.nodes[i as int],
                ));
            }
            if node_matches(n, label, index, key) {
                out.push(TraversalValue::Node(copy_node(n)));
                assert(values_view(out@) =~= values_view(before).push(TraversalView::Node(n@)));
                assert(as_node_values(g.nodes.subrange(0, i as int).filter(p).push(n@)) =~= as_node_values(
                    g.nodes.subrange(0, i as int).filter(p),
                ).push(TraversalView::Node(n@)));
            }
            i = i + 1;
        }
        assert(g.nodes.subrange(0, g.nodes.len() as int) =~= g.nodes);
        RoTraversalIterator { inner: out }
    }

    fn n_from_index_in(self, storage: &HelixGraphStorage, label: &str, index: &str, keys: &Vec<Value>) -> (r:
        RoTraversalIterator) {
        let ghost g = storage@;
        let ghost kv = value_views(keys@);
        let mut seen: Vec<u128> = Vec::new();
        let ghost mut seen_set: Set<u128> = Set::empty();
        let mut out: Vec<TraversalValue> = Vec::new();
        let ghost mut out_nodes: Seq<NodeView> = Seq::empty();
        let mut i: usize = 0;
        while i < keys.len()
            invariant
                i <= keys@.len(),
                g == storage@,
                kv == value_views(keys@),
                (out_nodes, seen_set) == index_in_scan(g, label@, index@, kv.subrange(0, i as int)),
                values_view(out@) == as_node_values(out_nodes),
                forall|id: u128| seen_set.contains(id) <==> seen@.contains(id),
            decreases keys@.len() - i,
        {
            let key = &keys[i];
            let ghost p = in_index_any_label(index@, key@);
            let ghost o0 = out_nodes;
            let ghost s0 = seen_set;
            assert(kv.subrange(0, i as int + 1).drop_last() =~= kv.subrange(0, i as int));
            assert(kv.subrange(0, i as int + 1).last() == key@);
            assert(g.nodes.subrange(0, 0) =~= Seq::<NodeView>::empty());
            let mut j: usize = 0;
            while j < storage.nodes.len()
                invariant
                    j <= storage.nodes@.len(),
                    g == storage@,
                    p == in_index_any_label(index@, key@),
                    (out_nodes, seen_set) == scan_entries(
                        g.nodes.subrange(0, j as int).filter(p),
                        label@,
                        o0,
                        s0,
                    ),
                    values_view(out@) == as_node_values(out_nodes),
                    forall|id: u128| seen_set.contains(id) <==> seen@.contains(id),
                decreases storage.nodes@.len() - j,
            {
                let n = &storage.nodes[j];
                assert(g.nodes[j as int] == n@);
                let ghost before_f = g.nodes.subrange(0, j as int).filter(p);
                proof {
                    g.nodes.subrange(0, j as int).lemma_filter_push(g.nodes[j as int], p);
                    assert(g.nodes.subrange(0, j as int + 1) =~= g.nodes.subrange(0, j as int).push(
                        g.nodes[j as int],
                    ));
                }
                if listed_under(n, index, key) {
                    assert(before_f.push(n@).drop_last() =~= before_f);
                    if !seen_contains(&seen, n.id) {
                        let ghost old_seen = seen@;
                        seen.push(n.id);
                        proof {
                            seen_set = seen_set.insert(n.id);
                            assert forall|id: u128| seen_set.contains(id) <==> seen@.contains(id) by {
                                if old_seen.contains(id) {
                                    let k = choose|k: int| 0 <= k < old_seen.len() && old_seen[k] == id;
                                    assert(seen@[k] == id);
                                }
                                if seen@.contains(id) && id != n.id {
                                    let k = choose|k: int| 0 <= k < seen@.len() && seen@[k] == id;
                                    assert(k < old_seen.len());
                                    assert(old_seen[k] == id);
                                }
                                if id == n.id {
                                    assert(seen@[seen@.len() - 1] == id);
                                }
                            }
                        }
                        if text_eq(n.label.as_str(), label) {
                            let ghost before = out@;
                            out.push(TraversalValue::Node(copy_node(n)));
                            proof {
                                out_nodes = out_nodes.push(n@);
                                assert(values_view(out@) =~= values_view(before).push(TraversalView::Node(n@)));
                                assert(as_node_values(out_nodes) =~= as_node_values(out_nodes.drop_last()).push(
                                    TraversalView::Node(n@),
                                ));
                            }
                        }
                    }
                }
                j = j + 1;
            }
            assert(g.nodes.subrange(0, g.nodes.len() as int) =~= g.nodes);
            i = i + 1;
        }
        assert(kv.subrange(0, kv.len() as int) =~= kv);
        RoTraversalIterator { inner: out }
    }
}

impl EFromIndexAdapter for RoTraversalIterator {
    fn e_from_index(self, storage: &HelixGraphStorage, label: &str, index: &str, key: &Value) -> (r:
        RoTraversalIterator) {
        let ghost g = storage@;
        let ghost p = edge_in_index(label@, index@, key@);
        let mut out: Vec<TraversalValue> = Vec::new();
        let mut i: usize = 0;
        while i < storage.edges.len()
            invariant
                i <= storage.edges@.len(),
                g == storage@,
                p == edge_in_index(label@, index@, key@),
                values_view(out@) == as_edge_values(g.edges.subrange(0, i as int).filter(p)),
            decreases storage.edges@.len() - i,
        {
            let e = &storage.edges[i];
            let ghost before = out@;
            assert(g.edges[i as int] == e@);
            proof {
                g.edges.subrange(0, i as int).lemma_filter_push(g.edges[i as int], p);
                assert(g.edges.subrange(0, i as int + 1) =~= g.edges.subrange(0, i as int).push(
                    g.edges[i as int],
                ));
            }
            if edge_matches(e, label, index, key) {
                out.push(TraversalValue::Edge(copy_edge(e)));
                assert(values_view(out@) =~= values_view(before).push(TraversalView::Edge(e@)));
                assert(as_edge_values(g.edges.subrange(0, i as int).filter(p).push(e@)) =~= as_edge_values(
                    g.edges.subrange(0, i as int).filter(p),
                ).push(TraversalView::Edge(e@)));
            }
            i = i + 1;
        }
        assert(g.edges.subrange(0, g.edges.len() as int) =~= g.edges);
        RoTraversalIterator { inner: out }
    }
}

} // verus!
