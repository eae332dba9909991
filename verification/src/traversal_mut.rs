use vstd::prelude::*;
use crate::analyzer::text::text_eq;
use crate::errors::GraphError;
use crate::graph::{
    as_edge_values, drop_all, edge_avoids, edge_id_other, edges_view, ends_at, in_edges,
    node_id_other, nodes_view, out_edges, replace_edge, replace_node, starts_at, update_all,
    updated_value, with_edge, write_back, latest_version, GraphView, HelixGraphStorage,
    ids_fresh_and_unique, lemma_with_edge_keeps_ids,
};
use crate::items::{
    copy_edge, copy_node, update_props_in, values_view, Edge, EdgeView, Node, TraversalValue,
    TraversalView,
};
use crate::storage_keys::adjacency_data;
use crate::value::{props_view, PropView, Value};

verus! {

/// Writes `n` over every stored node that has its id.
fn write_back_node(storage: &mut HelixGraphStorage, n: &Node)
    ensures
        final(storage)@ == write_back(old(storage)@, TraversalView::Node(n@)),
{
    let ghost g = storage@;
    let mut i: usize = 0;
    while i < storage.nodes.len()
        invariant
            i <= storage.nodes@.len(),
            storage.nodes@.len() == g.nodes.len(),
            storage@ == (GraphView { nodes: storage@.nodes, ..g }),
            forall|j: int| 0 <= j < i ==> (#[trigger] storage@.nodes[j]) == replace_node(n@)(g.nodes[j]),
            forall|j: int| i <= j < g.nodes.len() ==> (#[trigger] storage@.nodes[j]) == g.nodes[j],
        decreases storage.nodes@.len() - i,
    {
        let ghost before = storage.nodes@;
        assert(storage@.nodes[i as int] == storage.nodes@[i as int]@);
        if storage.nodes[i].id == n.id {
            let m = copy_node(n);
            storage.nodes.set(i, m);
            assert(nodes_view(storage.nodes@) =~= nodes_view(before).update(i as int, n@));
        }
        i = i + 1;
    }
    assert(storage@.nodes =~= g.nodes.map_values(replace_node(n@)));
}

/// Writes `e` over every stored edge that has its id.
fn write_back_edge(storage: &mut HelixGraphStorage, e: &Edge)
    ensures
        final(storage)@ == write_back(old(storage)@, TraversalView::Edge(e@)),
{
    let ghost g = storage@;
    let mut i: usize = 0;
    while i < storage.edges.len()
        invariant
            i <= storage.edges@.len(),
            storage.edges@.len() == g.edges.len(),
            storage@ == (GraphView { edges: storage@.edges, ..g }),
            forall|j: int| 0 <= j < i ==> (#[trigger] storage@.edges[j]) == replace_edge(e@)(g.edges[j]),
            forall|j: int| i <= j < g.edges.len() ==> (#[trigger] storage@.edges[j]) == g.edges[j],
        decreases storage.edges@.len() - i,
    {
        let ghost before = storage.edges@;
        assert(storage@.edges[i as int] == storage.edges@[i as int]@);
        if storage.edges[i].id == e.id {
            let m = copy_edge(e);
            storage.edges.set(i, m);
            assert(edges_view(storage.edges@) =~= edges_view(before).update(i as int, e@));
        }
        i = i + 1;
    }
    assert(storage@.edges =~= g.edges.map_values(replace_edge(e@)));
}

/// Each value with its properties updated.
pub open spec fn updated_with(updates: Seq<PropView>) -> spec_fn(TraversalView) -> TraversalView {
    |t: TraversalView| updated_value(t, updates)
}

/// Sets `props` on every node and edge of `values`, writes each back to
/// the store by its id, and returns the updated values in order.
pub fn update(storage: &mut HelixGraphStorage, values: Vec<TraversalValue>, props: &Vec<(String, Value)>) -> (r:
    Vec<TraversalValue>)
    ensures
        final(storage)@ == update_all(old(storage)@, values_view(values@), props_view(props@)),
        values_view(r@) == values_view(values@).map_values(updated_with(props_view(props@))),
{
    let ghost g = storage@;
    let ghost uv = props_view(props@);
    let ghost vv = values_view(values@);
    let mut out: Vec<TraversalValue> = Vec::new();
    let mut k: usize = 0;
    while k < values.len()
        invariant
            k <= values@.len(),
            vv == values_view(values@),
            uv == props_view(props@),
            storage@ == update_all(g, vv.subrange(0, k as int), uv),
            values_view(out@) == vv.subrange(0, k as int).map_values(updated_with(uv)),
        decreases values@.len() - k,
    {
        let ghost before = out@;
        let ghost t = vv[k as int];
        assert(vv.subrange(0, k as int + 1).drop_last() =~= vv.subrange(0, k as int));
        assert(vv.subrange(0, k as int + 1).last() == t);
        match &values[k] {
            TraversalValue::Node(n) => {
                let mut m = copy_node(n);
                update_props_in(&mut m.properties, props);
                write_back_node(storage, &m);
                out.push(TraversalValue::Node(m));
            },
            TraversalValue::Edge(e) => {
                let mut m = copy_edge(e);
                update_props_in(&mut m.properties, props);
                write_back_edge(storage, &m);
                out.push(TraversalValue::Edge(m));
            },
            TraversalValue::Empty => {
                out.push(TraversalValue::Empty);
            },
        }
        assert(values_view(out@) =~= values_view(before).push(updated_value(t, uv)));
        assert(vv.subrange(0, k as int + 1).map_values(updated_with(uv)) =~= vv.subrange(
            0,
            k as int,
        ).map_values(updated_with(uv)).push(updated_value(t, uv)));
        k = k + 1;
    }
    assert(vv.subrange(0, vv.len() as int) =~= vv);
    out
}

/// Keeps the stored nodes whose id is not `id`.
fn remove_node_records(storage: &mut HelixGraphStorage, id: u128)
    ensures
        final(storage)@ == (GraphView { nodes: old(storage)@.nodes.filter(node_id_other(id)), ..old(storage)@ }),
{
    let ghost g = storage@;
    let ghost p = node_id_other(id);
    let mut kept: Vec<Node> = Vec::new();
    let mut i: usize = 0;
    while i < storage.nodes.len()
        invariant
            i <= storage.nodes@.len(),
            g == storage@,
            p == node_id_other(id),
            nodes_view(kept@) == g.nodes.subrange(0, i as int).filter(p),
        decreases storage.nodes@.len() - i,
    {
        let ghost before = kept@;
        assert(g.nodes[i as int] == storage.nodes@[i as int]@);
        proof {
            g.nodes.subrange(0, i as int).lemma_filter_push(g.nodes[i as int], p);
            assert(g.nodes.subrange(0, i as int + 1) =~= g.nodes.subrange(0, i as int).push(
                g.nodes[i as int],
            ));
        }
        if storage.nodes[i].id != id {
            kept.push(copy_node(&storage.nodes[i]));
            assert(nodes_view(kept@) =~= nodes_view(before).push(g.nodes[i as int]));
        }
        i = i + 1;
    }
    assert(g.nodes.subrange(0, g.nodes.len() as int) =~= g.nodes);
    storage.nodes = kept;
}

/// Keeps the stored edges that `id` does not name and, where `touching`,
/// that neither start nor end at node `id`.
fn remove_edge_records(storage: &mut HelixGraphStorage, id: u128, touching: bool)
    ensures
        touching ==> final(storage)@ == (GraphView { edges: old(storage)@.edges.filter(edge_avoids(id)), ..old(storage)@ }),
        !touching ==> final(storage)@ == (GraphView { edges: old(storage)@.edges.filter(edge_id_other(id)), ..old(storage)@ }),
{
    let ghost g = storage@;
    let ghost p = if touching { edge_avoids(id) } else { edge_id_other(id) };
    let mut kept: Vec<Edge> = Vec::new();
    let mut i: usize = 0;
    while i < storage.edges.len()
        invariant
            i <= storage.edges@.len(),
            g == storage@,
            p == if touching { edge_avoids(id) } else { edge_id_other(id) },
            edges_view(kept@) == g.edges.subrange(0, i as int).filter(p),
        decreases storage.edges@.len() - i,
    {
        let ghost before = kept@;
        let e = &storage.edges[i];
        assert(g.edges[i as int] == e@);
        proof {
            g.edges.subrange(0, i as int).lemma_filter_push(g.edges[i as int], p);
            assert(g.edges.subrange(0, i as int + 1) =~= g.edges.subrange(0, i as int).push(
                g.edges[i as int],
            ));
        }
        let keep = if touching {
            e.from_node != id && e.to_node != id
        } else {
            e.id != id
        };
        if keep {
            kept.push(copy_edge(e));
            assert(edges_view(kept@) =~= edges_view(before).push(g.edges[i as int]));
        }
        i = i + 1;
    }
    assert(g.edges.subrange(0, g.edges.len() as int) =~= g.edges);
    storage.edges = kept;
}

/// Drops every value of `values` from the store, in order: a node is
/// removed with every edge that starts or ends at it, an edge alone.
pub fn drop_traversal(values: Vec<TraversalValue>, storage: &mut HelixGraphStorage) -> (r: Result<
    (),
    GraphError,
>)
    ensures
        r is Ok,
        final(storage)@ == drop_all(old(storage)@, values_view(values@)),
{
    let ghost g = storage@;
    let ghost vv = values_view(values@);
    let mut k: usize = 0;
    while k < values.len()
        invariant
            k <= values@.len(),
            vv == values_view(values@),
            storage@ == drop_all(g, vv.subrange(0, k as int)),
        decreases values@.len() - k,
    {
        assert(vv.subrange(0, k as int + 1).drop_last() =~= vv.subrange(0, k as int));
        assert(vv.subrange(0, k as int + 1).last() == vv[k as int]);
        match &values[k] {
            TraversalValue::Node(n) => {
                remove_node_records(storage, n.id);
                remove_edge_records(storage, n.id, true);
            },
            TraversalValue::Edge(e) => {
                remove_edge_records(storage, e.id, false);
            },
            TraversalValue::Empty => {},
        }
        k = k + 1;
    }
    assert(vv.subrange(0, vv.len() as int) =~= vv);
    Ok(())
}

/// The edges labelled `label` that end at node `node_id` (`incoming`) or
/// start at it (otherwise), in store order.
fn adjacent_edges(storage: &HelixGraphStorage, node_id: u128, label: &str, incoming: bool) -> (r: Vec<
    TraversalValue,
>)
    ensures
        incoming ==> values_view(r@) == as_edge_values(in_edges(storage@, node_id, label@)),
        !incoming ==> values_view(r@) == as_edge_values(out_edges(storage@, node_id, label@)),
{
    let ghost g = storage@;
    let ghost p = if incoming { ends_at(node_id, label@) } else { starts_at(node_id, label@) };
    let mut out: Vec<TraversalValue> = Vec::new();
    let mut i: usize = 0;
    while i < storage.edges.len()
        invariant
            i <= storage.edges@.len(),
            g == storage@,
            p == if incoming { ends_at(node_id, label@) } else { starts_at(node_id, label@) },
            values_view(out@) == as_edge_values(g.edges.subrange(0, i as int).filter(p)),
        decreases storage.edges@.len() - i,
    {
        let e = &storage.edges[i];
        let ghost before = out@;
        assert(g.edges[i as int] == e@);
        proof {
            g.edges.subrange(0, i as int).lemma_filter_push(g.edges[i as int], p);
            assert(g.edges.subrange(0, i as int + 1) =~= g.edges.subrange(0, i as int).push(
                g.edges[i as int],
            ));
        }
        let end_ok = if incoming {
            e.to_node == node_id
        } else {
            e.from_node == node_id
        };
        if end_ok && text_eq(e.label.as_str(), label) {
            out.push(TraversalValue::Edge(copy_edge(e)));
            assert(values_view(out@) =~= values_view(before).push(TraversalView::Edge(e@)));
            assert(as_edge_values(g.edges.subrange(0, i as int).filter(p).push(e@)) =~= as_edge_values(
                g.edges.subrange(0, i as int).filter(p),
            ).push(TraversalView::Edge(e@)));
        }
        i = i + 1;
    }
    assert(g.edges.subrange(0, g.edges.len() as int) =~= g.edges);
    out
}

/// The edges labelled `label` that end at node `node_id`.
pub fn in_e(storage: &HelixGraphStorage, node_id: u128, label: &str) -> (r: Vec<TraversalValue>)
    ensures
        values_view(r@) == as_edge_values(in_edges(storage@, node_id, label@)),
{
    adjacent_edges(storage, node_id, label, true)
}

/// The edges labelled `label` that start at node `node_id`.
pub fn out_e(storage: &HelixGraphStorage, node_id: u128, label: &str) -> (r: Vec<TraversalValue>)
    ensures
        values_view(r@) == as_edge_values(out_edges(storage@, node_id, label@)),
{
    adjacent_edges(storage, node_id, label, false)
}

/// The values a write traversal has produced.
pub struct RwTraversalIterator {
    pub inner: Vec<Result<TraversalValue, GraphError>>,
}

impl RwTraversalIterator {
    /// A write traversal that has produced nothing yet.
    pub fn new() -> (t: RwTraversalIterator)
        ensures
            t.inner@.len() == 0,
    {
        RwTraversalIterator { inner: Vec::new() }
    }

    /// The single value produced, or the error it carries.
    pub fn collect_to_obj(self) -> (r: Result<TraversalValue, GraphError>)
        requires
            self.inner@.len() == 1,
        ensures
            r == self.inner@[0],
    {
        let mut inner = self.inner;
        inner.remove(0)
    }
}

/// A step that yields one written edge, or the error writing it met.
pub struct AddE {
    pub inner: Option<Result<TraversalValue, GraphError>>,
}

impl AddE {
    /// Yields the result once; afterwards nothing.
    pub fn next(&mut self) -> (r: Option<Result<TraversalValue, GraphError>>)
        ensures
            r == old(self).inner,
            final(self).inner is None,
    {
        self.inner.take()
    }
}

/// The edge that `add_edge` writes into a store with view `g`.
pub open spec fn new_edge(
    g: GraphView,
    label: Seq<char>,
    props: Seq<PropView>,
    from_node: u128,
    to_node: u128,
) -> EdgeView {
    EdgeView {
        id: g.next_id,
        label,
        version: latest_version(g.versions, label),
        from: from_node,
        to: to_node,
        props,
    }
}

/// The outgoing adjacency entries of `node` under `label`: for each edge
/// labelled `label` that starts at `node`, in order, the packed entry of
/// its id and the id of the node it ends at.
pub open spec fn out_adjacency(g: GraphView, node: u128, label: Seq<char>) -> Seq<Seq<u8>> {
    out_edges(g, node, label).map_values(|e: EdgeView| adjacency_data(e.id, e.to))
}

/// The incoming adjacency entries of `node` under `label`: for each edge
/// labelled `label` that ends at `node`, in order, the packed entry of
/// its id and the id of the node it starts at.
pub open spec fn in_adjacency(g: GraphView, node: u128, label: Seq<char>) -> Seq<Seq<u8>> {
    in_edges(g, node, label).map_values(|e: EdgeView| adjacency_data(e.id, e.from))
}

/// Adding an edge appends its entry to the outgoing adjacency of its start
/// node under its label and to the incoming adjacency of its end node,
/// and changes no other adjacency entry.
pub proof fn lemma_added_edge_adjacency(g: GraphView, e: EdgeView)
    ensures
        out_adjacency(with_edge(g, e), e.from, e.label) == out_adjacency(g, e.from, e.label).push(
            adjacency_data(e.id, e.to),
        ),
        in_adjacency(with_edge(g, e), e.to, e.label) == in_adjacency(g, e.to, e.label).push(
            adjacency_data(e.id, e.from),
        ),
        forall|n: u128, l: Seq<char>|
            !(n == e.from && l == e.label) ==> #[trigger] out_adjacency(with_edge(g, e), n, l) == out_adjacency(g, n, l),
        forall|n: u128, l: Seq<char>|
            !(n == e.to && l == e.label) ==> #[trigger] in_adjacency(with_edge(g, e), n, l) == in_adjacency(g, n, l),
{
    let g2 = with_edge(g, e);
    g.edges.lemma_filter_push(e, starts_at(e.from, e.label));
    g.edges.lemma_filter_push(e, ends_at(e.to, e.label));
    assert(out_adjacency(g2, e.from, e.label) =~= out_adjacency(g, e.from, e.label).push(adjacency_data(e.id, e.to)));
    assert(in_adjacency(g2, e.to, e.label) =~= in_adjacency(g, e.to, e.label).push(adjacency_data(e.id, e.from)));
    assert forall|n: u128, l: Seq<char>|
        !(n == e.from && l == e.label) implies #[trigger] out_adjacency(g2, n, l) == out_adjacency(g, n, l) by {
        g.edges.lemma_filter_push(e, starts_at(n, l));
    }
    assert forall|n: u128, l: Seq<char>|
        !(n == e.to && l == e.label) implies #[trigger] in_adjacency(g2, n, l) == in_adjacency(g, n, l) by {
        g.edges.lemma_filter_push(e, ends_at(n, l));
    }
}

/// A source step that writes one edge.
pub trait AddEAdapter: Sized {
    /// Writes an edge labelled `label` from `from_node` to `to_node`, with
    /// a fresh id, the latest version of its label, and the given
    /// properties (none when absent), and yields it. Every edge secondary
    /// index then finds it under the value of its property of that name.
    fn add_edge(
        self,
        storage: &mut HelixGraphStorage,
        label: &str,
        properties: Option<Vec<(String, Value)>>,
        from_node: u128,
        to_node: u128,
        should_check: bool,
    ) -> (r: RwTraversalIterator)
        requires
            old(storage)@.next_id < u128::MAX,
        ensures
            final(storage)@ == with_edge(
                old(storage)@,
                new_edge(
                    old(storage)@,
                    label@,
                    match properties {
                        Some(ps) => props_view(ps@),
                        None => Seq::empty(),
                    },
                    from_node,
                    to_node,
                ),
            ),
            r.inner@.len() == 1,
            r.inner@[0] matches Ok(TraversalValue::Edge(e)) && e@ == final(storage)@.edges.last(),
            ids_fresh_and_unique(old(storage)@) ==> ids_fresh_and_unique(final(storage)@),
            out_adjacency(final(storage)@, from_node, label@) == out_adjacency(old(storage)@, from_node, label@).push(
                adjacency_data(old(storage)@.next_id, to_node),
            ),
            in_adjacency(final(storage)@, to_node, label@) == in_adjacency(old(storage)@, to_node, label@).push(
                adjacency_data(old(storage)@.next_id, from_node),
            ),
            forall|n: u128, l: Seq<char>|
                !(n == from_node && l == label@) ==> #[trigger] out_adjacency(final(storage)@, n, l) == out_adjacency(
                    old(storage)@,
                    n,
                    l,
                ),
            forall|n: u128, l: Seq<char>|
                !(n == to_node && l == label@) ==> #[trigger] in_adjacency(final(storage)@, n, l) == in_adjacency(
                    old(storage)@,
                    n,
                    l,
                ),
    ;
}

impl AddEAdapter for RwTraversalIterator {
    fn add_edge(
        self,
        storage: &mut HelixGraphStorage,
        label: &str,
        properties: Option<Vec<(String, Value)>>,
        from_node: u128,
        to_node: u128,
        should_check: bool,
    ) -> (r: RwTraversalIterator) {
        let ghost g = storage@;
        let version = storage.get_latest(label);
        let ghost wanted = match &properties {
            Some(ps) => props_view(ps@),
            None => Seq::<PropView>::empty(),
        };
        let props = match properties {
            Some(ps) => ps,
            None => Vec::new(),
        };
        assert(props_view(props@) =~= wanted);
        let id = storage.next_id;
        storage.next_id = storage.next_id + 1;
        let edge = Edge { id, label: label.to_owned(), version, from_node, to_node, properties: props };
        let ghost before = storage.edges@;
        storage.edges.push(copy_edge(&edge));
        assert(edges_view(storage.edges@) =~= edges_view(before).push(edge@));
        proof {
            if ids_fresh_and_unique(g) {
                lemma_with_edge_keeps_ids(g, edge@);
            }
            lemma_added_edge_adjacency(g, edge@);
        }
        let mut inner: Vec<Result<TraversalValue, GraphError>> = Vec::new();
        inner.push(Ok(TraversalValue::Edge(edge)));
        RwTraversalIterator { inner }
    }
}

} // verus!
