use vstd::prelude::*;
use crate::analyzer::text::{starts_with};
use crate::batch_props::{
    edge_create_props, edge_props, edge_update, edge_update_props, file_create_props,
    file_props, file_update, file_update_props, ingest_create_props, ingest_props,
    ingest_update, ingest_update_props, site_create_props, site_edge_create_props,
    site_edge_props, site_props, symbol_create_props, symbol_props, symbol_update,
    symbol_update_props,
};
use crate::batch_types::{
    ApplyMutationBatchInput, BatchAck, EdgeDrop, EdgeUpsert, FileUpsert, NodeIdCache, SiteDrop,
    SiteUpsert, SymbolDrop, SymbolUpsert,
};
use crate::errors::GraphError;
use crate::graph::{
    as_edge_values, as_node_values, drop_all, find_node, ids_fresh_and_unique, in_edges,
    index_edges, index_nodes, lemma_drop_all_shape, lemma_update_all_shape, out_edges,
    update_all, with_edge, with_node, GraphView, HelixGraphStorage,
};
use crate::items::{values_view, EdgeView, NodeView, TraversalValue, TraversalView};
use crate::traversal::{EFromIndexAdapter, NFromIndexAdapter, RoTraversalIterator};
use crate::traversal_mut::{
    drop_traversal, in_e, new_edge, out_e, update, AddEAdapter, RwTraversalIterator,
};
use crate::value::{PropView, Value, ValueView};

verus! {

// ---------------------------------------------------------------------
// What a batch does, stated over the store's view.
// ---------------------------------------------------------------------

/// The store and the stable-id cache while a batch runs.
pub type BatchState = (GraphView, Map<Seq<char>, u128>);

/// A state reached, or the message of the error that stopped the batch.
pub type Outcome = Result<BatchState, Seq<char>>;

/// Runs `step` over `items` in order from `s0`, stopping at the first error.
pub open spec fn fold_steps<A>(s0: BatchState, items: Seq<A>, step: spec_fn(BatchState, A) -> Outcome) -> Outcome
    decreases items.len(),
{
    if items.len() == 0 {
        Ok(s0)
    } else {
        match fold_steps(s0, items.drop_last(), step) {
            Ok(s) => step(s, items.last()),
            Err(m) => Err(m),
        }
    }
}

proof fn lemma_fold_extend<A>(
    s0: BatchState,
    items: Seq<A>,
    step: spec_fn(BatchState, A) -> Outcome,
    k: int,
)
    requires
        0 <= k < items.len(),
    ensures
        fold_steps(s0, items.subrange(0, k + 1), step) == match fold_steps(
            s0,
            items.subrange(0, k),
            step,
        ) {
            Ok(s) => step(s, items[k]),
            Err(m) => Err(m),
        },
{
    assert(items.subrange(0, k + 1).drop_last() =~= items.subrange(0, k));
}

proof fn lemma_fold_whole<A>(s0: BatchState, items: Seq<A>, step: spec_fn(BatchState, A) -> Outcome)
    ensures
        fold_steps(s0, items.subrange(0, items.len() as int), step) == fold_steps(s0, items, step),
{
    assert(items.subrange(0, items.len() as int) =~= items);
}

proof fn lemma_fold_err<A>(
    s0: BatchState,
    items: Seq<A>,
    step: spec_fn(BatchState, A) -> Outcome,
    k: int,
)
    requires
        0 <= k <= items.len(),
        fold_steps(s0, items.subrange(0, k), step) is Err,
    ensures
        fold_steps(s0, items, step) == fold_steps(s0, items.subrange(0, k), step),
    decreases items.len() - k,
{
    if k < items.len() {
        lemma_fold_extend(s0, items, step, k);
        lemma_fold_err(s0, items, step, k + 1);
    } else {
        lemma_fold_whole(s0, items, step);
    }
}

/// Key of a stable id in the `stable_id` indices.
pub open spec fn stable_key(id: Seq<char>) -> ValueView {
    ValueView::Text(id)
}

pub open spec fn file_indices() -> Seq<Seq<char>> {
    seq!["stable_id"@, "path"@]
}

pub open spec fn symbol_indices() -> Seq<Seq<char>> {
    seq!["stable_id"@, "fqn"@]
}

pub open spec fn site_indices() -> Seq<Seq<char>> {
    seq!["stable_id"@]
}

pub open spec fn ingest_indices() -> Seq<Seq<char>> {
    seq!["partition"@]
}

/// The id of the first node among `values`.
pub open spec fn first_node(values: Seq<TraversalView>) -> Option<u128>
    decreases values.len(),
{
    if values.len() == 0 {
        None
    } else {
        match values[0] {
            TraversalView::Node(n) => Some(n.id),
            _ => first_node(values.drop_first()),
        }
    }
}

/// The node added to `g` next, with the given label, properties and indices.
pub open spec fn next_node(g: GraphView, label: Seq<char>, props: Seq<PropView>, indices: Seq<Seq<char>>) -> NodeView {
    NodeView { id: g.next_id, label, props, indices }
}

/// An existing file is updated and its id cached; a new one is created.
pub open spec fn upsert_file_effect(g: GraphView, c: Map<Seq<char>, u128>, f: FileUpsert) -> Outcome {
    let existing = index_nodes(g, "File"@, "stable_id"@, stable_key(f.stable_id@));
    if existing.len() == 0 {
        Ok(
            (
                with_node(g, next_node(g, "File"@, file_props(f), file_indices())),
                c.insert(f.stable_id@, g.next_id),
            ),
        )
    } else {
        Ok(
            (
                update_all(g, as_node_values(existing), file_update(f)),
                c.insert(f.stable_id@, existing[0].id),
            ),
        )
    }
}

/// A dropped symbol leaves the cache and the store, with its edges.
pub open spec fn drop_symbol_step() -> spec_fn(BatchState, SymbolDrop) -> Outcome {
    |s: BatchState, d: SymbolDrop|
        Ok(
            (
                drop_all(
                    s.0,
                    as_node_values(index_nodes(s.0, "Symbol"@, "stable_id"@, stable_key(d.stable_id@))),
                ),
                s.1.remove(d.stable_id@),
            ),
        )
}

/// A placeholder symbol is created only when none exists yet.
pub open spec fn placeholder_symbol_effect(g: GraphView, c: Map<Seq<char>, u128>, s: SymbolUpsert) -> Outcome {
    let existing = index_nodes(g, "Symbol"@, "stable_id"@, stable_key(s.stable_id@));
    if existing.len() > 0 {
        Ok((g, c.insert(s.stable_id@, existing[0].id)))
    } else {
        Ok(
            (
                with_node(g, next_node(g, "Symbol"@, symbol_props(s), symbol_indices())),
                c.insert(s.stable_id@, g.next_id),
            ),
        )
    }
}

/// A symbol is updated where it exists and created where it does not.
pub open spec fn update_first_symbol_effect(g: GraphView, c: Map<Seq<char>, u128>, s: SymbolUpsert) -> Outcome {
    let existing = index_nodes(g, "Symbol"@, "stable_id"@, stable_key(s.stable_id@));
    if existing.len() == 0 {
        Ok(
            (
                with_node(g, next_node(g, "Symbol"@, symbol_props(s), symbol_indices())),
                c.insert(s.stable_id@, g.next_id),
            ),
        )
    } else {
        Ok(
            (
                update_all(g, as_node_values(existing), symbol_update(s)),
                c.insert(s.stable_id@, existing[0].id),
            ),
        )
    }
}

/// Names of synthetic symbols begin with this.
pub open spec fn synthetic(fqn: Seq<char>) -> bool {
    "synthetic://"@.is_prefix_of(fqn)
}

pub open spec fn upsert_symbol_step() -> spec_fn(BatchState, SymbolUpsert) -> Outcome {
    |st: BatchState, s: SymbolUpsert|
        if synthetic(s.fqn@) {
            placeholder_symbol_effect(st.0, st.1, s)
        } else {
            update_first_symbol_effect(st.0, st.1, s)
        }
}

/// A dropped edge leaves the store.
pub open spec fn drop_edge_step() -> spec_fn(BatchState, EdgeDrop) -> Outcome {
    |s: BatchState, d: EdgeDrop|
        Ok(
            (
                drop_all(
                    s.0,
                    as_edge_values(index_edges(s.0, d.kind@, "stable_id"@, stable_key(d.stable_id@))),
                ),
                s.1,
            ),
        )
}

/// The label of the node a stable id names, by its prefix.
pub open spec fn endpoint_label(id: Seq<char>) -> Seq<char> {
    if "file:"@.is_prefix_of(id) {
        "File"@
    } else if "site:"@.is_prefix_of(id) {
        "Site"@
    } else {
        "Symbol"@
    }
}

/// The message for an endpoint that no node carries.
pub open spec fn missing_endpoint_text(id: Seq<char>, label: Seq<char>) -> Seq<char> {
    "Missing node endpoint: stable_id="@ + id + " (label="@ + label + ")"@
}

/// The node id of an edge endpoint: from the cache, or else from the
/// index of its label, then cached.
pub open spec fn resolve_effect(g: GraphView, c: Map<Seq<char>, u128>, id: Seq<char>) -> Result<
    (u128, Map<Seq<char>, u128>),
    Seq<char>,
> {
    if c.contains_key(id) {
        Ok((c[id], c))
    } else {
        let found = index_nodes(g, endpoint_label(id), "stable_id"@, stable_key(id));
        if found.len() == 0 {
            Err(missing_endpoint_text(id, endpoint_label(id)))
        } else {
            Ok((found[0].id, c.insert(id, found[0].id)))
        }
    }
}

/// An edge is updated where it exists; otherwise both endpoints are
/// resolved and it is created.
pub open spec fn upsert_edge_effect(g: GraphView, c: Map<Seq<char>, u128>, e: EdgeUpsert) -> Outcome {
    let existing = index_edges(g, e.kind@, "stable_id"@, stable_key(e.stable_id@));
    if existing.len() == 0 {
        match resolve_effect(g, c, e.from_stable_id@) {
            Err(m) => Err(m),
            Ok((from, c1)) => match resolve_effect(g, c1, e.to_stable_id@) {
                Err(m) => Err(m),
                Ok((to, c2)) => Ok((with_edge(g, new_edge(g, e.kind@, edge_props(e), from, to)), c2)),
            },
        }
    } else {
        Ok((update_all(g, as_edge_values(existing), edge_update(e)), c))
    }
}

/// An edge that an edge upsert creates starts at the node resolved from
/// `from_stable_id` and ends at the node resolved from `to_stable_id`
/// (the ids the cache names for them afterwards), carries the edge's kind
/// and properties, and is the only edge added.
pub proof fn lemma_created_edge_joins_its_endpoints(g: GraphView, c: Map<Seq<char>, u128>, e: EdgeUpsert)
    requires
        index_edges(g, e.kind@, "stable_id"@, stable_key(e.stable_id@)).len() == 0,
    ensures
        upsert_edge_effect(g, c, e) matches Ok((g2, c2)) ==> {
            &&& g2.edges.len() == g.edges.len() + 1
            &&& g2.edges.drop_last() == g.edges
            &&& g2.nodes == g.nodes
            &&& c2.contains_key(e.from_stable_id@)
            &&& c2.contains_key(e.to_stable_id@)
            &&& g2.edges.last().from == c2[e.from_stable_id@]
            &&& g2.edges.last().to == c2[e.to_stable_id@]
            &&& resolve_effect(g, c, e.from_stable_id@) matches Ok((from, _)) && g2.edges.last().from == from
            &&& g2.edges.last().label == e.kind@
            &&& g2.edges.last().props == edge_props(e)
        },
{
    if let Ok((g2, c2)) = upsert_edge_effect(g, c, e) {
        let (from, c1) = resolve_effect(g, c, e.from_stable_id@)->Ok_0;
        let (to, c3) = resolve_effect(g, c1, e.to_stable_id@)->Ok_0;
        assert(c1.contains_key(e.from_stable_id@) && c1[e.from_stable_id@] == from);
        assert(c3 == c2);
        assert(c2.contains_key(e.to_stable_id@) && c2[e.to_stable_id@] == to);
        assert(c2[e.from_stable_id@] == from);
        assert(g2.edges.drop_last() =~= g.edges);
    }
}

pub open spec fn upsert_edge_step() -> spec_fn(BatchState, EdgeUpsert) -> Outcome {
    |s: BatchState, e: EdgeUpsert| upsert_edge_effect(s.0, s.1, e)
}

/// The edges of one site node are removed: those that end at it with the
/// containing label, then those that start at it with the using label.
pub open spec fn site_edges_step() -> spec_fn(BatchState, TraversalView) -> Outcome {
    |s: BatchState, t: TraversalView|
        match t {
            TraversalView::Node(n) => {
                let g1 = drop_all(s.0, as_edge_values(in_edges(s.0, n.id, "SiteInSymbol"@)));
                Ok((drop_all(g1, as_edge_values(out_edges(g1, n.id, "SiteUsesSymbol"@))), s.1))
            },
            _ => Ok(s),
        }
}

/// Every site node with the dropped stable id loses its edges.
pub open spec fn drop_site_step() -> spec_fn(BatchState, SiteDrop) -> Outcome {
    |s: BatchState, d: SiteDrop|
        fold_steps(
            s,
            as_node_values(index_nodes(s.0, "Site"@, "stable_id"@, stable_key(d.stable_id@))),
            site_edges_step(),
        )
}

/// A site node is dropped with its edges and created anew; its id is cached.
pub open spec fn site_node_step() -> spec_fn(BatchState, SiteUpsert) -> Outcome {
    |s: BatchState, site: SiteUpsert|
        {
            let g1 = drop_all(
                s.0,
                as_node_values(index_nodes(s.0, "Site"@, "stable_id"@, stable_key(site.stable_id@))),
            );
            Ok(
                (
                    with_node(g1, next_node(g1, "Site"@, site_props(site), site_indices())),
                    s.1.insert(site.stable_id@, g1.next_id),
                ),
            )
        }
}

/// A site with a container gets an edge from the container to it.
pub open spec fn site_in_symbol_step() -> spec_fn(BatchState, SiteUpsert) -> Outcome {
    |s: BatchState, site: SiteUpsert|
        if site.container_stable_id@.len() == 0 || !s.1.contains_key(site.stable_id@) {
            Ok(s)
        } else {
            match resolve_effect(s.0, s.1, site.container_stable_id@) {
                Err(m) => Err(m),
                Ok((container, c1)) => Ok(
                    (
                        with_edge(
                            s.0,
                            new_edge(
                                s.0,
                                "SiteInSymbol"@,
                                site_edge_props(site),
                                container,
                                s.1[site.stable_id@],
                            ),
                        ),
                        c1,
                    ),
                ),
            }
        }
}

/// A site with a source gets an edge from it to the source.
pub open spec fn site_uses_symbol_step() -> spec_fn(BatchState, SiteUpsert) -> Outcome {
    |s: BatchState, site: SiteUpsert|
        if site.source_stable_id@.len() == 0 || !s.1.contains_key(site.stable_id@) {
            Ok(s)
        } else {
            match resolve_effect(s.0, s.1, site.source_stable_id@) {
                Err(m) => Err(m),
                Ok((source, c1)) => Ok(
                    (
                        with_edge(
                            s.0,
                            new_edge(
                                s.0,
                                "SiteUsesSymbol"@,
                                site_edge_props(site),
                                s.1[site.stable_id@],
                                source,
                            ),
                        ),
                        c1,
                    ),
                ),
            }
        }
}

/// All site nodes first, then all containing edges, then all using edges.
pub open spec fn upsert_sites_effect(s: BatchState, sites: Seq<SiteUpsert>) -> Outcome {
    match fold_steps(s, sites, site_node_step()) {
        Err(m) => Err(m),
        Ok(s1) => match fold_steps(s1, sites, site_in_symbol_step()) {
            Err(m) => Err(m),
            Ok(s2) => fold_steps(s2, sites, site_uses_symbol_step()),
        },
    }
}

/// The message for a missing node secondary index.
pub open spec fn missing_index_text(index: Seq<char>) -> Seq<char> {
    "Secondary index not found: "@ + index
}

/// The ids of the given nodes.
pub open spec fn node_ids(s: Seq<NodeView>) -> Seq<u128> {
    s.map_values(|n: NodeView| n.id)
}

/// The nodes an ingest state is stored in, as they are read back by id.
pub open spec fn reread(g: GraphView, found: Seq<NodeView>) -> Seq<TraversalView> {
    found.map_values(|n: NodeView| TraversalView::Node(
        match find_node(g.nodes, n.id) {
            Some(m) => m,
            None => n,
        },
    ))
}

/// The ingest state of a partition is created, or its offset and revision
/// are updated.
pub open spec fn ingest_effect(g: GraphView, partition: u32, offset: u64, to_rev: Seq<char>) -> Result<
    GraphView,
    Seq<char>,
> {
    if !g.node_indices.contains("partition"@) {
        Err(missing_index_text("partition"@))
    } else {
        let found = index_nodes(g, "IngestState"@, "partition"@, ValueView::U32(partition));
        if found.len() == 0 {
            Ok(
                with_node(
                    g,
                    next_node(g, "IngestState"@, ingest_props(partition, offset, to_rev), ingest_indices()),
                ),
            )
        } else {
            Ok(update_all(g, reread(g, found), ingest_update(offset, to_rev)))
        }
    }
}

/// The effect of a whole batch on the store, or the message of the error
/// that stops it.
pub open spec fn batch_effect(g: GraphView, input: ApplyMutationBatchInput) -> Result<GraphView, Seq<char>> {
    let s0: BatchState = (g, Map::empty());
    let s1 = match input.file_upsert {
        Some(f) => upsert_file_effect(g, Map::empty(), f),
        None => Ok(s0),
    };
    match s1 {
        Err(m) => Err(m),
        Ok(s1) => match fold_steps(s1, input.symbol_drops@, drop_symbol_step()) {
            Err(m) => Err(m),
            Ok(s2) => match fold_steps(s2, input.symbol_upserts@, upsert_symbol_step()) {
                Err(m) => Err(m),
                Ok(s3) => match fold_steps(s3, input.edge_drops@, drop_edge_step()) {
                    Err(m) => Err(m),
                    Ok(s4) => match fold_steps(s4, input.edge_upserts@, upsert_edge_step()) {
                        Err(m) => Err(m),
                        Ok(s5) => match fold_steps(s5, input.site_drops@, drop_site_step()) {
                            Err(m) => Err(m),
                            Ok(s6) => match upsert_sites_effect(s6, input.site_upserts@) {
                                Err(m) => Err(m),
                                Ok(s7) => ingest_effect(
                                    s7.0,
                                    input.partition,
                                    input.offset,
                                    input.to_rev@,
                                ),
                            },
                        },
                    },
                },
            },
        },
    }
}

/// Whether the batch reads a node through the `stable_id` index.
pub open spec fn uses_node_stable_id(input: ApplyMutationBatchInput) -> bool {
    input.file_upsert is Some || input.symbol_drops@.len() > 0 || input.symbol_upserts@.len() > 0
        || input.edge_upserts@.len() > 0 || input.site_drops@.len() > 0
        || input.site_upserts@.len() > 0
}

/// Whether the batch reads an edge through the `stable_id` index.
pub open spec fn uses_edge_stable_id(input: ApplyMutationBatchInput) -> bool {
    input.edge_drops@.len() > 0 || input.edge_upserts@.len() > 0
}

/// How many nodes and edges a batch can create at most.
pub open spec fn batch_capacity(input: ApplyMutationBatchInput) -> int {
    (2 + input.symbol_upserts@.len() + input.edge_upserts@.len() + 3 * input.site_upserts@.len()) as int
}

/// Whether the batch reads a node through the `stable_id` index.
pub fn reads_node_stable_id(input: &ApplyMutationBatchInput) -> (r: bool)
    ensures
        r == uses_node_stable_id(*input),
{
    input.file_upsert.is_some() || input.symbol_drops.len() > 0 || input.symbol_upserts.len() > 0
        || input.edge_upserts.len() > 0 || input.site_drops.len() > 0 || input.site_upserts.len() > 0
}

/// Whether the batch reads an edge through the `stable_id` index.
pub fn reads_edge_stable_id(input: &ApplyMutationBatchInput) -> (r: bool)
    ensures
        r == uses_edge_stable_id(*input),
{
    input.edge_drops.len() > 0 || input.edge_upserts.len() > 0
}

/// How many nodes and edges a batch can create at most.
pub fn batch_capacity_of(input: &ApplyMutationBatchInput) -> (r: u128)
    ensures
        r == batch_capacity(*input),
{
    2u128 + input.symbol_upserts.len() as u128 + input.edge_upserts.len() as u128 + 3u128
        * (input.site_upserts.len() as u128)
}

/// Whether an exec result is the outcome `o` with store `g` and cache `c`.
pub open spec fn outcome_is(r: Result<(), GraphError>, g: GraphView, c: Map<Seq<char>, u128>, o: Outcome) -> bool {
    match r {
        Ok(_) => o == Outcome::Ok((g, c)),
        Err(GraphError::New(m)) => o == Outcome::Err(m@),
        Err(_) => false,
    }
}

/// The store keeps its indices and versions, its id counter does not move
/// back, and ids stay fresh and unique where they were.
pub open spec fn same_shape(g1: GraphView, g2: GraphView) -> bool {
    &&& g2.node_indices == g1.node_indices
    &&& g2.edge_indices == g1.edge_indices
    &&& g2.versions == g1.versions
    &&& g1.next_id <= g2.next_id
    &&& ids_fresh_and_unique(g1) ==> ids_fresh_and_unique(g2)
}

// ---------------------------------------------------------------------
// Reading the store.
// ---------------------------------------------------------------------

/// The id of the first node among `values`, or an error when there is none.
pub fn first_node_id(values: &[TraversalValue]) -> (r: Result<u128, GraphError>)
    ensures
        match r {
            Ok(id) => first_node(values_view(values@)) == Some(id),
            Err(GraphError::New(m)) => first_node(values_view(values@)) is None && m@
                == "Expected node traversal value"@,
            Err(_) => false,
        },
{
    let ghost vv = values_view(values@);
    assert(vv.subrange(0, vv.len() as int) =~= vv);
    let mut i: usize = 0;
    while i < values.len()
        invariant
            i <= values@.len(),
            vv == values_view(values@),
            first_node(vv) == first_node(vv.subrange(i as int, vv.len() as int)),
        decreases values@.len() - i,
    {
        let ghost rest = vv.subrange(i as int, vv.len() as int);
        assert(rest[0] == values@[i as int]@);
        match &values[i] {
            TraversalValue::Node(n) => {
                return Ok(n.id);
            },
            _ => {},
        }
        assert(rest.drop_first() =~= vv.subrange(i as int + 1, vv.len() as int));
        i = i + 1;
    }
    Err(GraphError::New(String::from_str("Expected node traversal value")))
}

proof fn lemma_first_of_nodes(s: Seq<NodeView>)
    ensures
        s.len() > 0 ==> first_node(as_node_values(s)) == Some(s[0].id),
{
}

/// Length of the header that precedes a stored label.
pub const LMDB_STRING_HEADER_LENGTH: usize = 8;

/// Whether stored node bytes begin with the given label: an eight-byte
/// little-endian length equal to `label_len`, then that many bytes equal
/// to `label_bytes`.
pub open spec fn has_label(value: Seq<u8>, label_bytes: Seq<u8>, label_len: usize) -> bool {
    &&& value.len() >= 8
    &&& (crate::storage_keys::le_value(value.subrange(0, 8)) as usize) == label_len
    &&& value.len() >= label_len + 8
    &&& value.subrange(8, 8 + label_len) == label_bytes
}

/// Checks the label header of stored node bytes.
pub fn bytes_have_label(value: &[u8], label_bytes: &[u8], label_len: usize) -> (r: bool)
    ensures
        r == has_label(value@, label_bytes@, label_len),
{
    if value.len() < LMDB_STRING_HEADER_LENGTH {
        return false;
    }
    let length_of_label_in_lmdb = crate::storage_keys::u64_from_le(value) as usize;
    if length_of_label_in_lmdb != label_len {
        return false;
    }
    if value.len() - LMDB_STRING_HEADER_LENGTH < length_of_label_in_lmdb {
        return false;
    }
    if label_bytes.len() != length_of_label_in_lmdb {
        assert(value@.subrange(8, 8 + label_len).len() != label_bytes@.len());
        return false;
    }
    let start = LMDB_STRING_HEADER_LENGTH;
    let vlen = value.len();
    let mut i: usize = 0;
    while i < length_of_label_in_lmdb
        invariant
            start == 8,
            vlen == value@.len(),
            i <= length_of_label_in_lmdb,
            length_of_label_in_lmdb == label_len,
            label_bytes@.len() == label_len,
            value@.len() >= label_len + 8,
            forall|j: int| 0 <= j < i ==> value@[8 + j] == label_bytes@[j],
        decreases length_of_label_in_lmdb - i,
    {
        if value[start + i] != label_bytes[i] {
            assert(value@.subrange(8, 8 + label_len)[i as int] != label_bytes@[i as int]);
            return false;
        }
        i = i + 1;
    }
    assert(value@.subrange(8, 8 + label_len) =~= label_bytes@);
    true
}

/// The nodes labelled `label` whose `stable_id` is `id`.
fn nodes_by_stable_id(db: &HelixGraphStorage, label: &str, id: &str) -> (r: Vec<TraversalValue>)
    requires
        db@.node_indices.contains("stable_id"@),
    ensures
        values_view(r@) == as_node_values(index_nodes(db@, label@, "stable_id"@, stable_key(id@))),
{
    let key = Value::String(id.to_owned());
    RoTraversalIterator::new().n_from_index(db, label, "stable_id", &key).collect_values()
}

/// The edges labelled `label` whose `stable_id` is `id`.
fn edges_by_stable_id(db: &HelixGraphStorage, label: &str, id: &str) -> (r: Vec<TraversalValue>)
    requires
        db@.edge_indices.contains("stable_id"@),
    ensures
        values_view(r@) == as_edge_values(index_edges(db@, label@, "stable_id"@, stable_key(id@))),
{
    let key = Value::String(id.to_owned());
    RoTraversalIterator::new().e_from_index(db, label, "stable_id", &key).collect_values()
}

/// The label of the node a stable id names, by its prefix.
fn endpoint_label_of(id: &str) -> (label: &'static str)
    ensures
        label@ == endpoint_label(id@),
{
    if starts_with(id, "file:") {
        "File"
    } else if starts_with(id, "site:") {
        "Site"
    } else {
        "Symbol"
    }
}

/// The node id of an edge endpoint: from the cache, or else through the
/// `stable_id` index of the label its prefix names, then cached.
pub fn resolve_endpoint_node_id(db: &HelixGraphStorage, node_id_cache: &mut NodeIdCache, stable_id: &String) -> (r:
    Result<u128, GraphError>)
    requires
        !old(node_id_cache)@.contains_key(stable_id@) ==> db@.node_indices.contains("stable_id"@),
    ensures
        r is Err ==> final(node_id_cache)@ == old(node_id_cache)@,
        match r {
            Ok(id) => resolve_effect(db@, old(node_id_cache)@, stable_id@) == Ok::<
                (u128, Map<Seq<char>, u128>),
                Seq<char>,
            >((id, final(node_id_cache)@)),
            Err(GraphError::New(m)) => resolve_effect(db@, old(node_id_cache)@, stable_id@) == Err::<
                (u128, Map<Seq<char>, u128>),
                Seq<char>,
            >(m@),
            Err(_) => false,
        },
{
    if let Some(id) = node_id_cache.get(stable_id.as_str()) {
        return Ok(id);
    }
    let label = endpoint_label_of(stable_id.as_str());
    let nodes = nodes_by_stable_id(db, label, stable_id.as_str());
    if nodes.len() == 0 {
        let mut msg = String::from_str("Missing node endpoint: stable_id=");
        msg.append(stable_id.as_str());
        msg.append(" (label=");
        msg.append(label);
        msg.append(")");
        assert(values_view(nodes@).len() == 0);
        return Err(GraphError::New(msg));
    }
    proof {
        lemma_first_of_nodes(index_nodes(db@, label@, "stable_id"@, stable_key(stable_id@)));
    }
    let id = match first_node_id(nodes.as_slice()) {
        Ok(id) => id,
        Err(e) => return Err(e),
    };
    node_id_cache.insert(stable_id.as_str(), id);
    Ok(id)
}

/// The ids of the nodes labelled `label` that the node secondary index
/// `index` lists under the number `key`.
pub fn node_ids_for_index_u32(db: &HelixGraphStorage, label: &str, index: &str, key: u32) -> (r: Result<
    Vec<u128>,
    GraphError,
>)
    ensures
        match r {
            Ok(ids) => db@.node_indices.contains(index@) && ids@ == node_ids(
                index_nodes(db@, label@, index@, ValueView::U32(key)),
            ),
            Err(GraphError::New(m)) => !db@.node_indices.contains(index@) && m@ == missing_index_text(
                index@,
            ),
            Err(_) => false,
        },
{
    if !db.has_secondary_index(index) {
        let mut msg = String::from_str("Secondary index not found: ");
        msg.append(index);
        return Err(GraphError::New(msg));
    }
    let found = RoTraversalIterator::new().n_from_index(db, label, index, &Value::U32(key)).collect_values();
    let ghost want = index_nodes(db@, label@, index@, ValueView::U32(key));
    assert(values_view(found@).len() == found@.len());
    assert(found@.len() == want.len());
    let mut out: Vec<u128> = Vec::new();
    let mut i: usize = 0;
    while i < found.len()
        invariant
            i <= found@.len(),
            found@.len() == want.len(),
            values_view(found@) == as_node_values(want),
            out@ == node_ids(want.subrange(0, i as int)),
        decreases found@.len() - i,
    {
        assert(values_view(found@)[i as int] == found@[i as int]@);
        assert(as_node_values(want)[i as int] == TraversalView::Node(want[i as int]));
        match &found[i] {
            TraversalValue::Node(n) => {
                out.push(n.id);
            },
            _ => {},
        }
        assert(out@ =~= node_ids(want.subrange(0, i as int + 1)));
        i = i + 1;
    }
    assert(want.subrange(0, want.len() as int) =~= want);
    Ok(out)
}

// ---------------------------------------------------------------------
// The steps of a batch.
// ---------------------------------------------------------------------

fn index_names(a: &str, b: Option<&str>) -> (v: Vec<String>)
    ensures
        crate::items::texts_view(v@) == match b {
            Some(b) => seq![a@, b@],
            None => seq![a@],
        },
{
    let mut v: Vec<String> = Vec::new();
    v.push(a.to_owned());
    if let Some(b) = b {
        v.push(b.to_owned());
    }
    assert(crate::items::texts_view(v@) =~= match b {
        Some(b) => seq![a@, b@],
        None => seq![a@],
    });
    v
}

/// Creates the file node, or updates it and caches its id.
fn upsert_file(db: &mut HelixGraphStorage, node_id_cache: &mut NodeIdCache, file: &FileUpsert) -> (r: Result<
    (),
    GraphError,
>)
    requires
        old(db)@.node_indices.contains("stable_id"@),
        old(db)@.next_id + 1 < u128::MAX,
    ensures
        outcome_is(r, final(db)@, final(node_id_cache)@, upsert_file_effect(old(db)@, old(node_id_cache)@, *file)),
        same_shape(old(db)@, final(db)@),
        final(db)@.next_id <= old(db)@.next_id + 1,
{
    let ghost g = db@;
    let existing = nodes_by_stable_id(db, "File", file.stable_id.as_str());
    if existing.len() == 0 {
        let props = file_create_props(file);
        let node = db.add_n("File", props, index_names("stable_id", Some("path")));
        node_id_cache.insert(file.stable_id.as_str(), node.id);
        return Ok(());
    }
    proof {
        lemma_first_of_nodes(index_nodes(g, "File"@, "stable_id"@, stable_key(file.stable_id@)));
    }
    let first = match first_node_id(existing.as_slice()) {
        Ok(id) => id,
        Err(e) => return Err(e),
    };
    node_id_cache.insert(file.stable_id.as_str(), first);
    let ghost vv = values_view(existing@);
    assert(vv.len() > 0);
    let updated = update(db, existing, &file_update_props(file));
    proof {
        lemma_update_all_shape(g, vv, file_update(*file));
        assert(values_view(updated@).len() == vv.len());
    }
    if updated.len() == 0 {
        return Err(GraphError::New(String::from_str("File update produced no results")));
    }
    Ok(())
}

/// Forgets and removes each dropped symbol, with its edges.
fn drop_symbols(db: &mut HelixGraphStorage, node_id_cache: &mut NodeIdCache, drops: &Vec<SymbolDrop>) -> (r:
    Result<(), GraphError>)
    requires
        drops@.len() > 0 ==> old(db)@.node_indices.contains("stable_id"@),
    ensures
        outcome_is(
            r,
            final(db)@,
            final(node_id_cache)@,
            fold_steps((old(db)@, old(node_id_cache)@), drops@, drop_symbol_step()),
        ),
        same_shape(old(db)@, final(db)@),
        final(db)@.next_id == old(db)@.next_id,
{
    let ghost s0: BatchState = (db@, node_id_cache@);
    let mut k: usize = 0;
    while k < drops.len()
        invariant
            k <= drops@.len(),
            drops@.len() > 0 ==> s0.0.node_indices.contains("stable_id"@),
            fold_steps(s0, drops@.subrange(0, k as int), drop_symbol_step()) == Outcome::Ok(
                (db@, node_id_cache@),
            ),
            same_shape(s0.0, db@),
            db@.next_id == s0.0.next_id,
        decreases drops@.len() - k,
    {
        proof {
            lemma_fold_extend(s0, drops@, drop_symbol_step(), k as int);
        }
        let ghost g = db@;
        let drop = &drops[k];
        node_id_cache.remove(drop.stable_id.as_str());
        let nodes = nodes_by_stable_id(db, "Symbol", drop.stable_id.as_str());
        let ghost vv = values_view(nodes@);
        if nodes.len() > 0 {
            let _ = drop_traversal(nodes, db);
        }
        proof {
            lemma_drop_all_shape(g, vv);
        }
        k = k + 1;
    }
    proof {
        lemma_fold_whole(s0, drops@, drop_symbol_step());
    }
    Ok(())
}

/// Creates a symbol, or updates the existing one; caches its id.
fn upsert_symbol_update_first(db: &mut HelixGraphStorage, node_id_cache: &mut NodeIdCache, symbol: &SymbolUpsert) -> (r:
    Result<(), GraphError>)
    requires
        old(db)@.node_indices.contains("stable_id"@),
        old(db)@.next_id < u128::MAX,
    ensures
        outcome_is(
            r,
            final(db)@,
            final(node_id_cache)@,
            update_first_symbol_effect(old(db)@, old(node_id_cache)@, *symbol),
        ),
        same_shape(old(db)@, final(db)@),
        final(db)@.next_id <= old(db)@.next_id + 1,
{
    let ghost g = db@;
    let existing = nodes_by_stable_id(db, "Symbol", symbol.stable_id.as_str());
    if existing.len() == 0 {
        let props = symbol_create_props(symbol);
        let node = db.add_n("Symbol", props, index_names("stable_id", Some("fqn")));
        node_id_cache.insert(symbol.stable_id.as_str(), node.id);
        return Ok(());
    }
    proof {
        lemma_first_of_nodes(index_nodes(g, "Symbol"@, "stable_id"@, stable_key(symbol.stable_id@)));
    }
    let first = match first_node_id(existing.as_slice()) {
        Ok(id) => id,
        Err(e) => return Err(e),
    };
    node_id_cache.insert(symbol.stable_id.as_str(), first);
    let ghost vv = values_view(existing@);
    let _ = update(db, existing, &symbol_update_props(symbol));
    proof {
        lemma_update_all_shape(g, vv, symbol_update(*symbol));
    }
    Ok(())
}

/// Creates a placeholder symbol where none exists; caches its id.
fn upsert_placeholder_symbol(db: &mut HelixGraphStorage, node_id_cache: &mut NodeIdCache, symbol: &SymbolUpsert) -> (r:
    Result<(), GraphError>)
    requires
        old(db)@.node_indices.contains("stable_id"@),
        old(db)@.next_id < u128::MAX,
    ensures
        outcome_is(
            r,
            final(db)@,
            final(node_id_cache)@,
            placeholder_symbol_effect(old(db)@, old(node_id_cache)@, *symbol),
        ),
        same_shape(old(db)@, final(db)@),
        final(db)@.next_id <= old(db)@.next_id + 1,
{
    let ghost g = db@;
    let existing = nodes_by_stable_id(db, "Symbol", symbol.stable_id.as_str());
    if existing.len() > 0 {
        proof {
            lemma_first_of_nodes(index_nodes(g, "Symbol"@, "stable_id"@, stable_key(symbol.stable_id@)));
        }
        let first = match first_node_id(existing.as_slice()) {
            Ok(id) => id,
            Err(e) => return Err(e),
        };
        node_id_cache.insert(symbol.stable_id.as_str(), first);
        return Ok(());
    }
    let props = symbol_create_props(symbol);
    let node = db.add_n("Symbol", props, index_names("stable_id", Some("fqn")));
    node_id_cache.insert(symbol.stable_id.as_str(), node.id);
    Ok(())
}

/// Upserts each symbol: synthetic ones as placeholders, others updated
/// where they exist.
fn upsert_symbols(db: &mut HelixGraphStorage, node_id_cache: &mut NodeIdCache, symbols: &Vec<SymbolUpsert>) -> (r:
    Result<(), GraphError>)
    requires
        symbols@.len() > 0 ==> old(db)@.node_indices.contains("stable_id"@),
        old(db)@.next_id + symbols@.len() < u128::MAX,
    ensures
        outcome_is(
            r,
            final(db)@,
            final(node_id_cache)@,
            fold_steps((old(db)@, old(node_id_cache)@), symbols@, upsert_symbol_step()),
        ),
        same_shape(old(db)@, final(db)@),
        final(db)@.next_id <= old(db)@.next_id + symbols@.len(),
{
    let ghost s0: BatchState = (db@, node_id_cache@);
    let mut k: usize = 0;
    while k < symbols.len()
        invariant
            k <= symbols@.len(),
            symbols@.len() > 0 ==> s0.0.node_indices.contains("stable_id"@),
            s0.0.next_id + symbols@.len() < u128::MAX,
            fold_steps(s0, symbols@.subrange(0, k as int), upsert_symbol_step()) == Outcome::Ok(
                (db@, node_id_cache@),
            ),
            same_shape(s0.0, db@),
            db@.next_id <= s0.0.next_id + k,
        decreases symbols@.len() - k,
    {
        proof {
            lemma_fold_extend(s0, symbols@, upsert_symbol_step(), k as int);
        }
        let symbol = &symbols[k];
        let r = if starts_with(symbol.fqn.as_str(), "synthetic://") {
            upsert_placeholder_symbol(db, node_id_cache, symbol)
        } else {
            upsert_symbol_update_first(db, node_id_cache, symbol)
        };
        match r {
            Ok(()) => {},
            Err(e) => {
                proof {
                    lemma_fold_err(s0, symbols@, upsert_symbol_step(), k as int + 1);
                }
                return Err(e);
            },
        }
        k = k + 1;
    }
    proof {
        lemma_fold_whole(s0, symbols@, upsert_symbol_step());
    }
    Ok(())
}

/// Removes every edge with a dropped stable id.
fn drop_edges(db: &mut HelixGraphStorage, drops: &Vec<EdgeDrop>) -> (r: Result<(), GraphError>)
    requires
        drops@.len() > 0 ==> old(db)@.edge_indices.contains("stable_id"@),
    ensures
        forall|c: Map<Seq<char>, u128>|
            outcome_is(r, final(db)@, c, #[trigger] fold_steps((old(db)@, c), drops@, drop_edge_step())),
        same_shape(old(db)@, final(db)@),
        final(db)@.next_id == old(db)@.next_id,
{
    let ghost g0 = db@;
    let mut k: usize = 0;
    while k < drops.len()
        invariant
            k <= drops@.len(),
            drops@.len() > 0 ==> g0.edge_indices.contains("stable_id"@),
            forall|c: Map<Seq<char>, u128>|
                #[trigger] fold_steps((g0, c), drops@.subrange(0, k as int), drop_edge_step())
                    == Outcome::Ok((db@, c)),
            same_shape(g0, db@),
            db@.next_id == g0.next_id,
        decreases drops@.len() - k,
    {
        let ghost g = db@;
        let drop = &drops[k];
        let edges = edges_by_stable_id(db, drop.kind.as_str(), drop.stable_id.as_str());
        let ghost vv = values_view(edges@);
        if edges.len() > 0 {
            let _ = drop_traversal(edges, db);
        }
        proof {
            lemma_drop_all_shape(g, vv);
            assert forall|c: Map<Seq<char>, u128>|
                #[trigger] fold_steps((g0, c), drops@.subrange(0, k as int + 1), drop_edge_step())
                    == Outcome::Ok((db@, c)) by {
                lemma_fold_extend((g0, c), drops@, drop_edge_step(), k as int);
            }
        }
        k = k + 1;
    }
    proof {
        assert forall|c: Map<Seq<char>, u128>|
            outcome_is(Ok(()), db@, c, #[trigger] fold_steps((g0, c), drops@, drop_edge_step())) by {
            lemma_fold_whole((g0, c), drops@, drop_edge_step());
        }
    }
    Ok(())
}

/// Upserts one edge: an existing one is updated, a new one has both
/// endpoints resolved and is created.
fn upsert_edge(db: &mut HelixGraphStorage, node_id_cache: &mut NodeIdCache, edge: &EdgeUpsert) -> (r: Result<
    (),
    GraphError,
>)
    requires
        old(db)@.node_indices.contains("stable_id"@),
        old(db)@.edge_indices.contains("stable_id"@),
        old(db)@.next_id + 1 < u128::MAX,
    ensures
        outcome_is(
            r,
            final(db)@,
            final(node_id_cache)@,
            upsert_edge_effect(old(db)@, old(node_id_cache)@, *edge),
        ),
        same_shape(old(db)@, final(db)@),
        final(db)@.next_id <= old(db)@.next_id + 1,
{
    let ghost g = db@;
    let existing = edges_by_stable_id(db, edge.kind.as_str(), edge.stable_id.as_str());
    if existing.len() == 0 {
        let from_id = match resolve_endpoint_node_id(db, node_id_cache, &edge.from_stable_id) {
            Ok(id) => id,
            Err(e) => return Err(e),
        };
        let to_id = match resolve_endpoint_node_id(db, node_id_cache, &edge.to_stable_id) {
            Ok(id) => id,
            Err(e) => return Err(e),
        };
        let props = edge_create_props(edge);
        let added = RwTraversalIterator::new().add_edge(
            db,
            edge.kind.as_str(),
            Some(props),
            from_id,
            to_id,
            false,
        ).collect_to_obj();
        match added {
            Ok(_) => {},
            Err(e) => return Err(e),
        }
    } else {
        let ghost vv = values_view(existing@);
        let _ = update(db, existing, &edge_update_props(edge));
        proof {
            lemma_update_all_shape(g, vv, edge_update(*edge));
        }
    }
    Ok(())
}

/// Upserts each edge in order.
fn upsert_edges(db: &mut HelixGraphStorage, node_id_cache: &mut NodeIdCache, edges: &Vec<EdgeUpsert>) -> (r:
    Result<(), GraphError>)
    requires
        edges@.len() > 0 ==> old(db)@.node_indices.contains("stable_id"@),
        edges@.len() > 0 ==> old(db)@.edge_indices.contains("stable_id"@),
        old(db)@.next_id + edges@.len() < u128::MAX,
    ensures
        outcome_is(
            r,
            final(db)@,
            final(node_id_cache)@,
            fold_steps((old(db)@, old(node_id_cache)@), edges@, upsert_edge_step()),
        ),
        same_shape(old(db)@, final(db)@),
        final(db)@.next_id <= old(db)@.next_id + edges@.len(),
{
    let ghost s0: BatchState = (db@, node_id_cache@);
    let mut k: usize = 0;
    while k < edges.len()
        invariant
            k <= edges@.len(),
            s0 == (old(db)@, old(node_id_cache)@),
            edges@.len() > 0 ==> s0.0.node_indices.contains("stable_id"@),
            edges@.len() > 0 ==> s0.0.edge_indices.contains("stable_id"@),
            s0.0.next_id + edges@.len() < u128::MAX,
            fold_steps(s0, edges@.subrange(0, k as int), upsert_edge_step()) == Outcome::Ok(
                (db@, node_id_cache@),
            ),
            same_shape(s0.0, db@),
            db@.next_id <= s0.0.next_id + k,
        decreases edges@.len() - k,
    {
        proof {
            lemma_fold_extend(s0, edges@, upsert_edge_step(), k as int);
        }
        let edge = &edges[k];
        let r = upsert_edge(db, node_id_cache, edge);
        match r {
            Ok(()) => {},
            Err(e) => {
                proof {
                    lemma_fold_err(s0, edges@, upsert_edge_step(), k as int + 1);
                }
                return Err(e);
            },
        }
        k = k + 1;
    }
    proof {
        lemma_fold_whole(s0, edges@, upsert_edge_step());
    }
    Ok(())
}

/// Removes the edges of one site node: those that end at it with the
/// containing label, then those that start at it with the using label.
fn drop_edges_of_site(db: &mut HelixGraphStorage, site_id: u128)
    ensures
        ({
            let g1 = drop_all(old(db)@, as_edge_values(in_edges(old(db)@, site_id, "SiteInSymbol"@)));
            final(db)@ == drop_all(g1, as_edge_values(out_edges(g1, site_id, "SiteUsesSymbol"@)))
        }),
        same_shape(old(db)@, final(db)@),
        final(db)@.next_id == old(db)@.next_id,
{
    let ghost g0 = db@;
    let incoming = in_e(db, site_id, "SiteInSymbol");
    let ghost iv = values_view(incoming@);
    if incoming.len() > 0 {
        let _ = drop_traversal(incoming, db);
    }
    let ghost g1 = db@;
    let outgoing = out_e(db, site_id, "SiteUsesSymbol");
    let ghost ov = values_view(outgoing@);
    if outgoing.len() > 0 {
        let _ = drop_traversal(outgoing, db);
    }
    proof {
        lemma_drop_all_shape(g0, iv);
        lemma_drop_all_shape(g1, ov);
    }
}

/// Removes the edges of every site node with a dropped stable id.
fn drop_site_edges(db: &mut HelixGraphStorage, drops: &Vec<SiteDrop>) -> (r: Result<(), GraphError>)
    requires
        drops@.len() > 0 ==> old(db)@.node_indices.contains("stable_id"@),
    ensures
        forall|c: Map<Seq<char>, u128>|
            outcome_is(r, final(db)@, c, #[trigger] fold_steps((old(db)@, c), drops@, drop_site_step())),
        same_shape(old(db)@, final(db)@),
        final(db)@.next_id == old(db)@.next_id,
{
    let ghost g0 = db@;
    let mut k: usize = 0;
    while k < drops.len()
        invariant
            k <= drops@.len(),
            drops@.len() > 0 ==> g0.node_indices.contains("stable_id"@),
            forall|c: Map<Seq<char>, u128>|
                #[trigger] fold_steps((g0, c), drops@.subrange(0, k as int), drop_site_step())
                    == Outcome::Ok((db@, c)),
            same_shape(g0, db@),
            db@.next_id == g0.next_id,
        decreases drops@.len() - k,
    {
        let ghost gk = db@;
        let drop = &drops[k];
        let sites = nodes_by_stable_id(db, "Site", drop.stable_id.as_str());
        let ghost sv = values_view(sites@);
        let mut j: usize = 0;
        while j < sites.len()
            invariant
                j <= sites@.len(),
                sv == values_view(sites@),
                same_shape(g0, db@),
                db@.next_id == g0.next_id,
                forall|c: Map<Seq<char>, u128>|
                    #[trigger] fold_steps((gk, c), sv.subrange(0, j as int), site_edges_step())
                        == Outcome::Ok((db@, c)),
            decreases sites@.len() - j,
        {
            let ghost gj = db@;
            assert(sv[j as int] == sites@[j as int]@);
            match &sites[j] {
                TraversalValue::Node(node) => {
                    drop_edges_of_site(db, node.id);
                },
                _ => {},
            }
            proof {
                assert forall|c: Map<Seq<char>, u128>|
                    #[trigger] fold_steps((gk, c), sv.subrange(0, j as int + 1), site_edges_step())
                        == Outcome::Ok((db@, c)) by {
                    lemma_fold_extend((gk, c), sv, site_edges_step(), j as int);
                }
            }
            j = j + 1;
        }
        proof {
            assert forall|c: Map<Seq<char>, u128>|
                #[trigger] fold_steps((g0, c), drops@.subrange(0, k as int + 1), drop_site_step())
                    == Outcome::Ok((db@, c)) by {
                lemma_fold_extend((g0, c), drops@, drop_site_step(), k as int);
                lemma_fold_whole((gk, c), sv, site_edges_step());
            }
        }
        k = k + 1;
    }
    proof {
        assert forall|c: Map<Seq<char>, u128>|
            outcome_is(Ok(()), db@, c, #[trigger] fold_steps((g0, c), drops@, drop_site_step())) by {
            lemma_fold_whole((g0, c), drops@, drop_site_step());
        }
    }
    Ok(())
}

/// Drops the site node with this stable id, with its edges, creates it
/// anew and caches its id.
fn upsert_site_node(db: &mut HelixGraphStorage, node_id_cache: &mut NodeIdCache, site: &SiteUpsert) -> (r: Result<
    (),
    GraphError,
>)
    requires
        old(db)@.node_indices.contains("stable_id"@),
        old(db)@.next_id + 1 < u128::MAX,
    ensures
        outcome_is(r, final(db)@, final(node_id_cache)@, site_node_step()((old(db)@, old(node_id_cache)@), *site)),
        same_shape(old(db)@, final(db)@),
        final(db)@.next_id <= old(db)@.next_id + 1,
{
    let ghost g = db@;
    let existing = nodes_by_stable_id(db, "Site", site.stable_id.as_str());
    let ghost vv = values_view(existing@);
    if existing.len() > 0 {
        let _ = drop_traversal(existing, db);
    }
    proof {
        lemma_drop_all_shape(g, vv);
    }
    let props = site_create_props(site);
    let node = db.add_n("Site", props, index_names("stable_id", None));
    node_id_cache.insert(site.stable_id.as_str(), node.id);
    Ok(())
}

/// Adds the edge of one site from its container (`containing`) or to its
/// source (otherwise), when the site names one and its id is cached.
fn upsert_site_edge(db: &mut HelixGraphStorage, node_id_cache: &mut NodeIdCache, site: &SiteUpsert, containing: bool) -> (r:
    Result<(), GraphError>)
    requires
        old(db)@.node_indices.contains("stable_id"@),
        old(db)@.next_id + 1 < u128::MAX,
    ensures
        containing ==> outcome_is(
            r,
            final(db)@,
            final(node_id_cache)@,
            site_in_symbol_step()((old(db)@, old(node_id_cache)@), *site),
        ),
        !containing ==> outcome_is(
            r,
            final(db)@,
            final(node_id_cache)@,
            site_uses_symbol_step()((old(db)@, old(node_id_cache)@), *site),
        ),
        same_shape(old(db)@, final(db)@),
        final(db)@.next_id <= old(db)@.next_id + 1,
{
    let other = if containing {
        &site.container_stable_id
    } else {
        &site.source_stable_id
    };
    if other.as_str().unicode_len() == 0 {
        return Ok(());
    }
    let site_id = match node_id_cache.get(site.stable_id.as_str()) {
        Some(id) => id,
        None => return Ok(()),
    };
    let other_id = match resolve_endpoint_node_id(db, node_id_cache, other) {
        Ok(id) => id,
        Err(e) => return Err(e),
    };
    let props = site_edge_create_props(site);
    let added = if containing {
        RwTraversalIterator::new().add_edge(db, "SiteInSymbol", Some(props), other_id, site_id, false).collect_to_obj()
    } else {
        RwTraversalIterator::new().add_edge(db, "SiteUsesSymbol", Some(props), site_id, other_id, false).collect_to_obj()
    };
    match added {
        Ok(_) => Ok(()),
        Err(e) => Err(e),
    }
}

/// Runs one pass of the sites: node creation (`pass` 0), containing edges
/// (`pass` 1) or using edges (`pass` 2).
fn site_pass(db: &mut HelixGraphStorage, node_id_cache: &mut NodeIdCache, sites: &Vec<SiteUpsert>, pass: u8) -> (r:
    Result<(), GraphError>)
    requires
        pass < 3,
        sites@.len() > 0 ==> old(db)@.node_indices.contains("stable_id"@),
        old(db)@.next_id + sites@.len() < u128::MAX,
    ensures
        outcome_is(
            r,
            final(db)@,
            final(node_id_cache)@,
            fold_steps((old(db)@, old(node_id_cache)@), sites@, site_pass_step(pass)),
        ),
        same_shape(old(db)@, final(db)@),
        final(db)@.next_id <= old(db)@.next_id + sites@.len(),
{
    let ghost s0: BatchState = (db@, node_id_cache@);
    let mut k: usize = 0;
    while k < sites.len()
        invariant
            pass < 3,
            k <= sites@.len(),
            s0 == (old(db)@, old(node_id_cache)@),
            sites@.len() > 0 ==> s0.0.node_indices.contains("stable_id"@),
            s0.0.next_id + sites@.len() < u128::MAX,
            fold_steps(s0, sites@.subrange(0, k as int), site_pass_step(pass)) == Outcome::Ok(
                (db@, node_id_cache@),
            ),
            same_shape(s0.0, db@),
            db@.next_id <= s0.0.next_id + k,
        decreases sites@.len() - k,
    {
        proof {
            lemma_fold_extend(s0, sites@, site_pass_step(pass), k as int);
        }
        let site = &sites[k];
        let r = if pass == 0 {
            upsert_site_node(db, node_id_cache, site)
        } else {
            upsert_site_edge(db, node_id_cache, site, pass == 1)
        };
        match r {
            Ok(()) => {},
            Err(e) => {
                proof {
                    lemma_fold_err(s0, sites@, site_pass_step(pass), k as int + 1);
                }
                return Err(e);
            },
        }
        k = k + 1;
    }
    proof {
        lemma_fold_whole(s0, sites@, site_pass_step(pass));
    }
    Ok(())
}

/// The step of one pass over the sites.
pub open spec fn site_pass_step(pass: u8) -> spec_fn(BatchState, SiteUpsert) -> Outcome {
    if pass == 0 {
        site_node_step()
    } else if pass == 1 {
        site_in_symbol_step()
    } else {
        site_uses_symbol_step()
    }
}

/// Re-creates every site node, then adds every containing edge, then
/// every using edge.
pub fn upsert_sites_and_edges(db: &mut HelixGraphStorage, node_id_cache: &mut NodeIdCache, sites: &Vec<SiteUpsert>) -> (r:
    Result<(), GraphError>)
    requires
        sites@.len() > 0 ==> old(db)@.node_indices.contains("stable_id"@),
        old(db)@.next_id + 3 * sites@.len() < u128::MAX,
    ensures
        outcome_is(
            r,
            final(db)@,
            final(node_id_cache)@,
            upsert_sites_effect((old(db)@, old(node_id_cache)@), sites@),
        ),
        same_shape(old(db)@, final(db)@),
        final(db)@.next_id <= old(db)@.next_id + 3 * sites@.len(),
        r is Ok && batch_state_valid((old(db)@, old(node_id_cache)@)) && site_ids_distinct(sites@) ==> {
            &&& batch_state_valid((final(db)@, final(node_id_cache)@))
            &&& forall|j: int|
                0 <= j < sites@.len() ==> site_in_place(final(db)@, final(node_id_cache)@, #[trigger] sites@[j])
        },
{
    proof {
        if batch_state_valid((db@, node_id_cache@)) && site_ids_distinct(sites@) {
            lemma_upsert_sites_puts_sites_in_place((db@, node_id_cache@), sites@);
        }
    }
    match site_pass(db, node_id_cache, sites, 0) {
        Ok(()) => {},
        Err(e) => return Err(e),
    }
    match site_pass(db, node_id_cache, sites, 1) {
        Ok(()) => {},
        Err(e) => return Err(e),
    }
    site_pass(db, node_id_cache, sites, 2)
}

/// Records how far a partition has been ingested: creates its ingest
/// state, or updates the offset and revision of the existing one.
fn write_ingest_state(db: &mut HelixGraphStorage, partition: u32, offset: u64, to_rev: &str) -> (r: Result<
    (),
    GraphError,
>)
    requires
        old(db)@.next_id + 1 < u128::MAX,
    ensures
        match r {
            Ok(_) => ingest_effect(old(db)@, partition, offset, to_rev@) == Ok::<GraphView, Seq<char>>(final(db)@),
            Err(GraphError::New(m)) => ingest_effect(old(db)@, partition, offset, to_rev@) == Err::<
                GraphView,
                Seq<char>,
            >(m@),
            Err(_) => false,
        },
        same_shape(old(db)@, final(db)@),
        final(db)@.next_id <= old(db)@.next_id + 1,
{
    let ghost g = db@;
    let nodes = match node_ids_for_index_u32(db, "IngestState", "partition", partition) {
        Ok(ids) => ids,
        Err(e) => return Err(e),
    };
    let ghost found = index_nodes(g, "IngestState"@, "partition"@, ValueView::U32(partition));
    if nodes.len() == 0 {
        let props = ingest_create_props(partition, offset, to_rev);
        let _ = db.add_n("IngestState", props, index_names("partition", None));
        return Ok(());
    }
    let mut items: Vec<TraversalValue> = Vec::new();
    let mut i: usize = 0;
    while i < nodes.len()
        invariant
            i <= nodes@.len(),
            db@ == g,
            found == index_nodes(g, "IngestState"@, "partition"@, ValueView::U32(partition)),
            nodes@ == node_ids(found),
            values_view(items@) == reread(g, found).subrange(0, i as int),
        decreases nodes@.len() - i,
    {
        proof {
            lemma_found_node_exists(g, found, "IngestState"@, "partition"@, ValueView::U32(partition), i as int);
        }
        let node = match db.get_node(&nodes[i]) {
            Ok(n) => n,
            Err(e) => return Err(e),
        };
        let ghost before = items@;
        assert(nodes@[i as int] == found[i as int].id);
        let ghost nv = node@;
        assert(reread(g, found)[i as int] == TraversalView::Node(nv));
        items.push(TraversalValue::Node(node));
        assert(values_view(items@) =~= values_view(before).push(TraversalView::Node(nv)));
        assert(reread(g, found).subrange(0, i as int + 1) =~= reread(g, found).subrange(0, i as int).push(
            TraversalView::Node(nv),
        ));
        i = i + 1;
    }
    assert(reread(g, found).subrange(0, found.len() as int) =~= reread(g, found));
    let ghost vv = values_view(items@);
    let _ = update(db, items, &ingest_update_props(offset, to_rev));
    proof {
        lemma_update_all_shape(g, vv, ingest_update(offset, to_rev@));
    }
    Ok(())
}

/// A node that an index lists is stored, so reading it back by id succeeds.
proof fn lemma_found_node_exists(g: GraphView, found: Seq<NodeView>, label: Seq<char>, index: Seq<char>, key: ValueView, i: int)
    requires
        found == index_nodes(g, label, index, key),
        0 <= i < found.len(),
    ensures
        find_node(g.nodes, found[i].id) is Some,
{
    assert(found.contains(found[i]));
    g.nodes.lemma_filter_contains_rev(crate::graph::node_in_index(label, index, key), found[i]);
    let k = choose|k: int| 0 <= k < g.nodes.len() && g.nodes[k] == found[i];
    crate::graph::lemma_find_node_some(g.nodes, found[i].id, k);
}

/// Applies one batch of mutations as a single transaction: the file, the
/// symbol drops and upserts, the edge drops and upserts, the site drops
/// and upserts, then the ingest state of the partition. On the first
/// error nothing is written and the error is returned.
#[allow(non_snake_case)]
pub fn ApplyMutationBatch(db: &mut HelixGraphStorage, data: &ApplyMutationBatchInput) -> (r: Result<
    BatchAck,
    GraphError,
>)
    requires
        uses_node_stable_id(*data) ==> old(db)@.node_indices.contains("stable_id"@),
        uses_edge_stable_id(*data) ==> old(db)@.edge_indices.contains("stable_id"@),
        old(db)@.next_id + batch_capacity(*data) < u128::MAX,
    ensures
        match r {
            Ok(ack) => batch_effect(old(db)@, *data) == Ok::<GraphView, Seq<char>>(final(db)@)
                && ack.partition == data.partition && ack.offset == data.offset && ack.to_rev@
                == data.to_rev@,
            Err(GraphError::New(m)) => batch_effect(old(db)@, *data) == Err::<GraphView, Seq<char>>(
                m@,
            ) && final(db)@ == old(db)@,
            Err(_) => false,
        },
        ids_fresh_and_unique(old(db)@) ==> ids_fresh_and_unique(final(db)@),
{
    let ghost g0 = db@;
    let mut txn = db.copy();
    let mut node_id_cache = NodeIdCache::new();

    if let Some(file) = &data.file_upsert {
        match upsert_file(&mut txn, &mut node_id_cache, file) {
            Ok(()) => {},
            Err(e) => return Err(e),
        }
    }
    let ghost g1 = txn@;
    match drop_symbols(&mut txn, &mut node_id_cache, &data.symbol_drops) {
        Ok(()) => {},
        Err(e) => return Err(e),
    }
    let ghost g2 = txn@;
    match upsert_symbols(&mut txn, &mut node_id_cache, &data.symbol_upserts) {
        Ok(()) => {},
        Err(e) => return Err(e),
    }
    let ghost g3 = txn@;
    let ghost c3 = node_id_cache@;
    match drop_edges(&mut txn, &data.edge_drops) {
        Ok(()) => {},
        Err(e) => return Err(e),
    }
    assert(outcome_is(Ok(()), txn@, c3, fold_steps((g3, c3), data.edge_drops@, drop_edge_step())));
    let ghost g4 = txn@;
    match upsert_edges(&mut txn, &mut node_id_cache, &data.edge_upserts) {
        Ok(()) => {},
        Err(e) => return Err(e),
    }
    let ghost g5 = txn@;
    let ghost c5 = node_id_cache@;
    match drop_site_edges(&mut txn, &data.site_drops) {
        Ok(()) => {},
        Err(e) => return Err(e),
    }
    assert(outcome_is(Ok(()), txn@, c5, fold_steps((g5, c5), data.site_drops@, drop_site_step())));
    let ghost g6 = txn@;
    match upsert_sites_and_edges(&mut txn, &mut node_id_cache, &data.site_upserts) {
        Ok(()) => {},
        Err(e) => return Err(e),
    }
    match write_ingest_state(&mut txn, data.partition, data.offset, data.to_rev.as_str()) {
        Ok(()) => {},
        Err(e) => return Err(e),
    }
    *db = txn;
    Ok(BatchAck { partition: data.partition, offset: data.offset, to_rev: data.to_rev.clone() })
}

// ---------------------------------------------------------------------
// Laws of a batch.
// ---------------------------------------------------------------------

/// Every node left after dropping some nodes was there before, and its id
/// is none of theirs.
proof fn lemma_drop_all_nodes(g: GraphView, vs: Seq<NodeView>)
    ensures
        forall|m: NodeView|
            #[trigger] drop_all(g, as_node_values(vs)).nodes.contains(m) ==> g.nodes.contains(m)
                && forall|t: int| 0 <= t < vs.len() ==> m.id != (#[trigger] vs[t]).id,
    decreases vs.len(),
{
    if vs.len() > 0 {
        lemma_drop_all_nodes(g, vs.drop_last());
        assert(as_node_values(vs).drop_last() =~= as_node_values(vs.drop_last()));
        let g1 = drop_all(g, as_node_values(vs.drop_last()));
        let p = crate::graph::node_id_other(vs.last().id);
        let g2 = drop_all(g, as_node_values(vs));
        assert(g2.nodes == g1.nodes.filter(p));
        assert forall|m: NodeView| #[trigger] g2.nodes.contains(m) implies g.nodes.contains(m)
            && forall|t: int| 0 <= t < vs.len() ==> m.id != (#[trigger] vs[t]).id by {
            g1.nodes.lemma_filter_contains_rev(p, m);
            let i = choose|i: int| 0 <= i < g2.nodes.len() && g2.nodes[i] == m;
            g1.nodes.lemma_filter_pred(p, i);
            assert forall|t: int| 0 <= t < vs.len() implies m.id != (#[trigger] vs[t]).id by {
                if t < vs.len() - 1 {
                    assert(vs.drop_last()[t] == vs[t]);
                }
            }
        }
    }
}

/// Upserting a site leaves exactly one site node with its stable id: the
/// new one, whose id the cache now holds.
pub proof fn lemma_site_upsert_leaves_one_site(s: BatchState, site: SiteUpsert)
    ensures
        site_node_step()(s, site) matches Ok(s2) && index_nodes(
            s2.0,
            "Site"@,
            "stable_id"@,
            stable_key(site.stable_id@),
        ).len() == 1 && index_nodes(s2.0, "Site"@, "stable_id"@, stable_key(site.stable_id@))[0].id
            == s2.1[site.stable_id@],
{
    let g = s.0;
    let key = stable_key(site.stable_id@);
    let p = crate::graph::node_in_index("Site"@, "stable_id"@, key);
    let found = index_nodes(g, "Site"@, "stable_id"@, key);
    let g1 = drop_all(g, as_node_values(found));
    lemma_drop_all_nodes(g, found);
    let left = index_nodes(g1, "Site"@, "stable_id"@, key);
    if left.len() > 0 {
        let x = left[0];
        assert(left.contains(x));
        g1.nodes.lemma_filter_contains_rev(p, x);
        g1.nodes.lemma_filter_pred(p, 0);
        assert(g.nodes.contains(x));
        let k = choose|k: int| 0 <= k < g.nodes.len() && g.nodes[k] == x;
        g.nodes.lemma_filter_contains(p, k);
        let t = choose|t: int| 0 <= t < found.len() && found[t] == x;
        assert(found[t].id == x.id);
        assert(false);
    }
    let n = next_node(g1, "Site"@, site_props(site), site_indices());
    assert(n.indices[0] == "stable_id"@);
    assert(n.indices.contains("stable_id"@));
    assert(n.props[0].0 == "stable_id"@);
    assert(p(n));
    g1.nodes.lemma_filter_push(n, p);
}

/// `n` is the site node of `site`: labelled `Site`, registered under the
/// site indices and carrying the site's properties.
pub open spec fn is_site_node(n: NodeView, site: SiteUpsert) -> bool {
    n.label == "Site"@ && n.props == site_props(site) && n.indices == site_indices()
}

/// The `Site` nodes with `site`'s stable id are exactly one: its site node.
pub open spec fn one_site_node(g: GraphView, site: SiteUpsert) -> bool {
    let found = index_nodes(g, "Site"@, "stable_id"@, stable_key(site.stable_id@));
    found.len() == 1 && is_site_node(found[0], site)
}

/// No two sites share a stable id.
pub open spec fn site_ids_distinct(sites: Seq<SiteUpsert>) -> bool {
    forall|i: int, j: int| 0 <= i < j < sites.len() ==> (#[trigger] sites[i]).stable_id@ != (#[trigger] sites[j]).stable_id@
}

/// The store holds the site node of `site`, and every node found under
/// its stable id is that node.
spec fn sole_site(g: GraphView, site: SiteUpsert) -> bool {
    exists|n: NodeView|
        #![trigger g.nodes.contains(n)]
        g.nodes.contains(n) && is_site_node(n, site) && forall|m: NodeView|
            g.nodes.contains(m) && crate::graph::node_in_index("Site"@, "stable_id"@, stable_key(site.stable_id@))(m)
                ==> m == n
}

/// A site node is found under its stable id.
proof fn lemma_site_node_indexed(n: NodeView, site: SiteUpsert)
    requires
        is_site_node(n, site),
    ensures
        crate::graph::node_in_index("Site"@, "stable_id"@, stable_key(site.stable_id@))(n),
{
    assert(n.indices[0] == "stable_id"@);
    assert(n.indices.contains("stable_id"@));
    assert(n.props[0].0 == "stable_id"@);
}

/// Where the store holds exactly one site node of `site` and ids are
/// distinct, the index finds it and nothing else.
proof fn lemma_sole_site_is_one(g: GraphView, site: SiteUpsert)
    requires
        crate::graph::distinct_ids(g.nodes),
        sole_site(g, site),
    ensures
        one_site_node(g, site),
{
    broadcast use vstd::seq_lib::group_filter_ensures;

    let p = crate::graph::node_in_index("Site"@, "stable_id"@, stable_key(site.stable_id@));
    let n = choose|n: NodeView|
        #![trigger g.nodes.contains(n)]
        g.nodes.contains(n) && is_site_node(n, site) && forall|m: NodeView|
            g.nodes.contains(m) && p(m) ==> m == n;
    lemma_site_node_indexed(n, site);
    crate::graph::lemma_filter_nodes_distinct(g.nodes, p);
    let f = g.nodes.filter(p);
    let k = choose|k: int| 0 <= k < g.nodes.len() && g.nodes[k] == n;
    g.nodes.lemma_filter_contains(p, k);
    assert(f.len() >= 1);
    assert forall|i: int| 0 <= i < f.len() implies f[i] == n by {
        g.nodes.lemma_filter_pred(p, i);
        assert(g.nodes.contains(f[i]));
    }
    if f.len() > 1 {
        assert(f[0] == n && f[1] == n);
        assert(f[0].id != f[1].id);
    }
}

/// Every node of `g` whose id is none of the dropped nodes' ids is left.
proof fn lemma_drop_all_keeps(g: GraphView, vs: Seq<NodeView>, m: NodeView)
    requires
        g.nodes.contains(m),
        forall|t: int| 0 <= t < vs.len() ==> m.id != (#[trigger] vs[t]).id,
    ensures
        drop_all(g, as_node_values(vs)).nodes.contains(m),
    decreases vs.len(),
{
    if vs.len() > 0 {
        assert forall|t: int| 0 <= t < vs.drop_last().len() implies m.id != (#[trigger] vs.drop_last()[t]).id by {
            assert(vs.drop_last()[t] == vs[t]);
        }
        lemma_drop_all_keeps(g, vs.drop_last(), m);
        assert(as_node_values(vs).drop_last() =~= as_node_values(vs.drop_last()));
        let g1 = drop_all(g, as_node_values(vs.drop_last()));
        let p = crate::graph::node_id_other(vs.last().id);
        let k = choose|k: int| 0 <= k < g1.nodes.len() && g1.nodes[k] == m;
        assert(vs.last() == vs[vs.len() - 1]);
        g1.nodes.lemma_filter_contains(p, k);
    }
}

/// Every edge of the store joins ids below its id counter.
pub open spec fn edges_join_old_ids(g: GraphView) -> bool {
    forall|i: int| 0 <= i < g.edges.len() ==> (#[trigger] g.edges[i]).from < g.next_id && g.edges[i].to < g.next_id
}

/// Every id the cache holds is below the store's id counter.
pub open spec fn cache_ids_old(s: BatchState) -> bool {
    forall|k: Seq<char>| #[trigger] s.1.contains_key(k) ==> s.1[k] < s.0.next_id
}

/// The cache holds the id of a site node of `site` in the store.
spec fn site_cached(g: GraphView, c: Map<Seq<char>, u128>, site: SiteUpsert) -> bool {
    &&& c.contains_key(site.stable_id@)
    &&& exists|n: NodeView|
        #![trigger g.nodes.contains(n)]
        g.nodes.contains(n) && is_site_node(n, site) && n.id == c[site.stable_id@]
}

/// Dropping values keeps only edges that were there.
proof fn lemma_drop_all_edges(g: GraphView, vs: Seq<TraversalView>)
    ensures
        forall|e: EdgeView| #[trigger] drop_all(g, vs).edges.contains(e) ==> g.edges.contains(e),
    decreases vs.len(),
{
    if vs.len() > 0 {
        lemma_drop_all_edges(g, vs.drop_last());
        let g1 = drop_all(g, vs.drop_last());
        assert forall|e: EdgeView| #[trigger] drop_all(g, vs).edges.contains(e) implies g.edges.contains(e) by {
            match vs.last() {
                TraversalView::Node(n) => {
                    g1.edges.lemma_filter_contains_rev(crate::graph::edge_avoids(n.id), e);
                },
                TraversalView::Edge(x) => {
                    g1.edges.lemma_filter_contains_rev(crate::graph::edge_id_other(x.id), e);
                },
                TraversalView::Empty => {},
            }
        }
    }
}

/// The site step keeps the edges it does not drop, caches the new node's
/// id, and keeps every earlier site's cached node.
proof fn lemma_site_step_cache(s: BatchState, site: SiteUpsert, earlier: Seq<SiteUpsert>)
    requires
        forall|j: int| 0 <= j < earlier.len() ==> site_cached(s.0, s.1, #[trigger] earlier[j]),
        forall|j: int| 0 <= j < earlier.len() ==> (#[trigger] earlier[j]).stable_id@ != site.stable_id@,
        forall|j: int| 0 <= j < earlier.len() ==> sole_site(s.0, #[trigger] earlier[j]),
        ids_fresh_and_unique(s.0),
    ensures
        site_node_step()(s, site) matches Ok(s2) && {
            &&& forall|e: EdgeView| #[trigger] s2.0.edges.contains(e) ==> s.0.edges.contains(e)
            &&& site_cached(s2.0, s2.1, site)
            &&& forall|j: int| 0 <= j < earlier.len() ==> site_cached(s2.0, s2.1, #[trigger] earlier[j])
        },
{
    let g = s.0;
    let key = stable_key(site.stable_id@);
    let p = crate::graph::node_in_index("Site"@, "stable_id"@, key);
    let found = index_nodes(g, "Site"@, "stable_id"@, key);
    let g1 = drop_all(g, as_node_values(found));
    lemma_drop_all_edges(g, as_node_values(found));
    lemma_drop_all_shape(g, as_node_values(found));
    let n = next_node(g1, "Site"@, site_props(site), site_indices());
    let g2 = with_node(g1, n);
    let c2 = s.1.insert(site.stable_id@, g1.next_id);
    assert(g2.nodes[g1.nodes.len() as int] == n);
    assert(g2.nodes.contains(n));
    assert(site_cached(g2, c2, site));
    crate::graph::lemma_filter_nodes_distinct(g.nodes, p);
    assert forall|j: int| 0 <= j < earlier.len() implies site_cached(g2, c2, #[trigger] earlier[j]) by {
        let e = earlier[j];
        let pe = crate::graph::node_in_index("Site"@, "stable_id"@, stable_key(e.stable_id@));
        let ne = choose|ne: NodeView|
            #![trigger g.nodes.contains(ne)]
            g.nodes.contains(ne) && is_site_node(ne, e) && ne.id == s.1[e.stable_id@];
        lemma_site_node_indexed(ne, e);
        assert forall|t: int| 0 <= t < found.len() implies ne.id != (#[trigger] found[t]).id by {
            g.nodes.lemma_filter_pred(p, t);
            assert(g.nodes.contains(found[t]));
            if ne.id == found[t].id {
                crate::graph::lemma_same_id_same_node(g.nodes, ne, found[t]);
                assert(stable_key(e.stable_id@) == stable_key(site.stable_id@));
            }
        }
        lemma_drop_all_keeps(g, found, ne);
        let k = choose|k: int| 0 <= k < g1.nodes.len() && g1.nodes[k] == ne;
        assert(g2.nodes[k] == ne);
        assert(g2.nodes.contains(ne));
        assert(c2[e.stable_id@] == s.1[e.stable_id@]);
    }
}

/// One site step from a store with fresh, unique ids: the store keeps
/// them, every earlier site whose node was alone stays alone, and the
/// new site's node is alone under its stable id.
proof fn lemma_site_step(s: BatchState, site: SiteUpsert, earlier: Seq<SiteUpsert>)
    requires
        ids_fresh_and_unique(s.0),
        s.0.next_id < u128::MAX,
        forall|j: int| 0 <= j < earlier.len() ==> sole_site(s.0, #[trigger] earlier[j]),
        forall|j: int| 0 <= j < earlier.len() ==> (#[trigger] earlier[j]).stable_id@ != site.stable_id@,
    ensures
        site_node_step()(s, site) matches Ok(s2) && {
            &&& ids_fresh_and_unique(s2.0)
            &&& s2.0.next_id == s.0.next_id + 1
            &&& sole_site(s2.0, site)
            &&& forall|j: int| 0 <= j < earlier.len() ==> sole_site(s2.0, #[trigger] earlier[j])
            &&& s2.1 == s.1.insert(site.stable_id@, s.0.next_id)
        },
{
    let g = s.0;
    let key = stable_key(site.stable_id@);
    let p = crate::graph::node_in_index("Site"@, "stable_id"@, key);
    let found = index_nodes(g, "Site"@, "stable_id"@, key);
    let g1 = drop_all(g, as_node_values(found));
    lemma_drop_all_nodes(g, found);
    lemma_drop_all_shape(g, as_node_values(found));
    crate::graph::lemma_filter_nodes_distinct(g.nodes, p);
    let n = next_node(g1, "Site"@, site_props(site), site_indices());
    crate::graph::lemma_with_node_keeps_ids(g1, n);
    let g2 = with_node(g1, n);
    lemma_site_node_indexed(n, site);
    assert(g2.nodes.contains(n)) by {
        assert(g2.nodes[g1.nodes.len() as int] == n);
    }
    // the new node is the only one found under the site's stable id
    assert forall|m: NodeView| g2.nodes.contains(m) && p(m) implies m == n by {
        if m != n {
            let k = choose|k: int| 0 <= k < g2.nodes.len() && g2.nodes[k] == m;
            if k < g1.nodes.len() {
                assert(g1.nodes[k] == m);
                assert(g1.nodes.contains(m));
                assert(g.nodes.contains(m));
                let i = choose|i: int| 0 <= i < g.nodes.len() && g.nodes[i] == m;
                g.nodes.lemma_filter_contains(p, i);
                let t = choose|t: int| 0 <= t < found.len() && found[t] == m;
                assert(m.id != found[t].id);
            }
        }
    }
    assert(sole_site(g2, site));
    assert forall|j: int| 0 <= j < earlier.len() implies sole_site(g2, #[trigger] earlier[j]) by {
        let e = earlier[j];
        let pe = crate::graph::node_in_index("Site"@, "stable_id"@, stable_key(e.stable_id@));
        let ne = choose|ne: NodeView|
            #![trigger g.nodes.contains(ne)]
            g.nodes.contains(ne) && is_site_node(ne, e) && forall|m: NodeView|
                g.nodes.contains(m) && pe(m) ==> m == ne;
        lemma_site_node_indexed(ne, e);
        assert forall|t: int| 0 <= t < found.len() implies ne.id != (#[trigger] found[t]).id by {
            g.nodes.lemma_filter_pred(p, t);
            assert(g.nodes.contains(found[t]));
            if ne.id == found[t].id {
                crate::graph::lemma_same_id_same_node(g.nodes, ne, found[t]);
                assert(stable_key(e.stable_id@) == stable_key(site.stable_id@));
            }
        }
        lemma_drop_all_keeps(g, found, ne);
        assert(g2.nodes.contains(ne)) by {
            let k = choose|k: int| 0 <= k < g1.nodes.len() && g1.nodes[k] == ne;
            assert(g2.nodes[k] == ne);
        }
        assert forall|m: NodeView| g2.nodes.contains(m) && pe(m) implies m == ne by {
            if m == n {
                assert(stable_key(e.stable_id@) == stable_key(site.stable_id@));
            } else {
                let k = choose|k: int| 0 <= k < g2.nodes.len() && g2.nodes[k] == m;
                if k < g1.nodes.len() {
                    assert(g1.nodes[k] == m);
                    assert(g1.nodes.contains(m));
                }
            }
        }
    }
}

/// The site pass from a store with fresh, unique ids leaves each site of
/// the batch alone under its stable id and cached.
proof fn lemma_site_pass(s: BatchState, sites: Seq<SiteUpsert>)
    requires
        ids_fresh_and_unique(s.0),
        s.0.next_id + sites.len() < u128::MAX,
        site_ids_distinct(sites),
    ensures
        fold_steps(s, sites, site_node_step()) matches Ok(s1) && {
            &&& ids_fresh_and_unique(s1.0)
            &&& s1.0.next_id == s.0.next_id + sites.len()
            &&& forall|j: int| 0 <= j < sites.len() ==> sole_site(s1.0, #[trigger] sites[j])
            &&& forall|j: int| 0 <= j < sites.len() ==> s1.1.contains_key((#[trigger] sites[j]).stable_id@)
            &&& forall|k: Seq<char>| s.1.contains_key(k) ==> #[trigger] s1.1.contains_key(k)
        },
    decreases sites.len(),
{
    if sites.len() > 0 {
        let pre = sites.drop_last();
        let last = sites.last();
        assert forall|i: int, j: int| 0 <= i < j < pre.len() implies (#[trigger] pre[i]).stable_id@
            != (#[trigger] pre[j]).stable_id@ by {
            assert(pre[i] == sites[i] && pre[j] == sites[j]);
        }
        lemma_site_pass(s, pre);
        let s1 = fold_steps(s, pre, site_node_step())->Ok_0;
        assert forall|j: int| 0 <= j < pre.len() implies (#[trigger] pre[j]).stable_id@ != last.stable_id@ by {
            assert(pre[j] == sites[j]);
            assert(last == sites[sites.len() - 1]);
        }
        lemma_site_step(s1, last, pre);
        let s2 = site_node_step()(s1, last)->Ok_0;
        assert forall|j: int| 0 <= j < sites.len() implies sole_site(s2.0, #[trigger] sites[j]) && s2.1.contains_key(
            sites[j].stable_id@,
        ) by {
            if j < pre.len() {
                assert(pre[j] == sites[j]);
            } else {
                assert(sites[j] == last);
            }
        }
    }
}

/// The site pass keeps only edges that were there, caches for each site
/// the id of its site node, a new id, and caches only ids of the store.
proof fn lemma_site_pass_cache(s: BatchState, sites: Seq<SiteUpsert>)
    requires
        ids_fresh_and_unique(s.0),
        s.0.next_id + sites.len() < u128::MAX,
        site_ids_distinct(sites),
        cache_ids_old(s),
    ensures
        fold_steps(s, sites, site_node_step()) matches Ok(s1) && {
            &&& forall|e: EdgeView| #[trigger] s1.0.edges.contains(e) ==> s.0.edges.contains(e)
            &&& forall|j: int| 0 <= j < sites.len() ==> site_cached(s1.0, s1.1, #[trigger] sites[j])
            &&& forall|j: int| 0 <= j < sites.len() ==> s.0.next_id <= s1.1[(#[trigger] sites[j]).stable_id@]
            &&& cache_ids_old(s1)
        },
    decreases sites.len(),
{
    if sites.len() > 0 {
        let pre = sites.drop_last();
        let last = sites.last();
        assert forall|i: int, j: int| 0 <= i < j < pre.len() implies (#[trigger] pre[i]).stable_id@
            != (#[trigger] pre[j]).stable_id@ by {
            assert(pre[i] == sites[i] && pre[j] == sites[j]);
        }
        lemma_site_pass(s, pre);
        lemma_site_pass_cache(s, pre);
        let s1 = fold_steps(s, pre, site_node_step())->Ok_0;
        assert forall|j: int| 0 <= j < pre.len() implies (#[trigger] pre[j]).stable_id@ != last.stable_id@ by {
            assert(pre[j] == sites[j]);
            assert(last == sites[sites.len() - 1]);
        }
        lemma_site_step(s1, last, pre);
        lemma_site_step_cache(s1, last, pre);
        let s2 = site_node_step()(s1, last)->Ok_0;
        assert forall|j: int| 0 <= j < sites.len() implies site_cached(s2.0, s2.1, #[trigger] sites[j])
            && s.0.next_id <= s2.1[sites[j].stable_id@] by {
            if j < pre.len() {
                assert(pre[j] == sites[j]);
                assert(s2.1[sites[j].stable_id@] == s1.1[sites[j].stable_id@]);
            } else {
                assert(sites[j] == last);
            }
        }
        assert forall|k: Seq<char>| #[trigger] s2.1.contains_key(k) implies s2.1[k] < s2.0.next_id by {
            if k != last.stable_id@ {
                assert(s1.1.contains_key(k));
            }
        }
    }
}

/// The containing edges that end at site node `id`: one from the cached
/// container once the site was passed and has a container, else none.
pub open spec fn in_symbol_edges_ok(
    g: GraphView,
    c: Map<Seq<char>, u128>,
    site: SiteUpsert,
    id: u128,
    passed: bool,
) -> bool {
    let ins = in_edges(g, id, "SiteInSymbol"@);
    if passed && site.container_stable_id@.len() != 0 {
        &&& ins.len() == 1
        &&& ins[0].from == c[site.container_stable_id@]
        &&& ins[0].props == site_edge_props(site)
    } else {
        ins.len() == 0
    }
}

/// The using edges that start at site node `id`: one to the cached source
/// once the site was passed and has a source, else none.
pub open spec fn uses_symbol_edges_ok(
    g: GraphView,
    c: Map<Seq<char>, u128>,
    site: SiteUpsert,
    id: u128,
    passed: bool,
) -> bool {
    let outs = out_edges(g, id, "SiteUsesSymbol"@);
    if passed && site.source_stable_id@.len() != 0 {
        &&& outs.len() == 1
        &&& outs[0].to == c[site.source_stable_id@]
        &&& outs[0].props == site_edge_props(site)
    } else {
        outs.len() == 0
    }
}

/// No edge starts or ends at an id at or above `base` where every edge
/// joins ids below it.
proof fn lemma_no_edges_at(g: GraphView, id: u128, base: u128, label: Seq<char>)
    requires
        forall|e: EdgeView| #[trigger] g.edges.contains(e) ==> e.from < base && e.to < base,
        base <= id,
    ensures
        in_edges(g, id, label).len() == 0,
        out_edges(g, id, label).len() == 0,
{
    broadcast use vstd::seq_lib::group_filter_ensures;

    let fi = crate::graph::ends_at(id, label);
    let fo = crate::graph::starts_at(id, label);
    if in_edges(g, id, label).len() > 0 {
        let e = g.edges.filter(fi)[0];
        assert(g.edges.filter(fi).contains(e));
        g.edges.lemma_filter_contains_rev(fi, e);
        g.edges.lemma_filter_pred(fi, 0);
    }
    if out_edges(g, id, label).len() > 0 {
        let e = g.edges.filter(fo)[0];
        assert(g.edges.filter(fo).contains(e));
        g.edges.lemma_filter_contains_rev(fo, e);
        g.edges.lemma_filter_pred(fo, 0);
    }
}

/// The two site edge labels differ.
proof fn lemma_site_edge_labels_differ()
    ensures
        "SiteInSymbol"@ != "SiteUsesSymbol"@,
{
    reveal_strlit("SiteInSymbol");
    reveal_strlit("SiteUsesSymbol");
    assert(("SiteInSymbol"@)[4] != ("SiteUsesSymbol"@)[4]);
}

/// Resolving an endpoint only adds to the cache, and caches the id it
/// gives.
proof fn lemma_resolve_cache(g: GraphView, c: Map<Seq<char>, u128>, id: Seq<char>)
    requires
        ids_fresh_and_unique(g),
        forall|k: Seq<char>| #[trigger] c.contains_key(k) ==> c[k] < g.next_id,
    ensures
        resolve_effect(g, c, id) matches Ok((x, c1)) ==> {
            &&& c1.contains_key(id)
            &&& c1[id] == x
            &&& x < g.next_id
            &&& forall|k: Seq<char>| c.contains_key(k) ==> #[trigger] c1.contains_key(k) && c1[k] == c[k]
            &&& forall|k: Seq<char>| #[trigger] c1.contains_key(k) ==> c1[k] < g.next_id
        },
{
    broadcast use vstd::seq_lib::group_filter_ensures;

    if !c.contains_key(id) {
        let p = crate::graph::node_in_index(endpoint_label(id), "stable_id"@, stable_key(id));
        let found = index_nodes(g, endpoint_label(id), "stable_id"@, stable_key(id));
        if found.len() > 0 {
            assert(found.contains(found[0]));
            g.nodes.lemma_filter_contains_rev(p, found[0]);
            let i = choose|i: int| 0 <= i < g.nodes.len() && g.nodes[i] == found[0];
            assert(g.nodes[i].id < g.next_id);
        }
    }
}

/// What the containing-edge pass over the first `n` sites of `all` did,
/// from `a` to `b`.
spec fn in_symbol_pass_done(a: BatchState, all: Seq<SiteUpsert>, n: int, b: BatchState) -> bool {
    &&& forall|k: Seq<char>| a.1.contains_key(k) ==> #[trigger] b.1.contains_key(k) && b.1[k] == a.1[k]
    &&& forall|j: int|
        0 <= j < all.len() ==> in_symbol_edges_ok(b.0, b.1, #[trigger] all[j], a.1[all[j].stable_id@], j < n)
    &&& forall|id: u128| #[trigger] out_edges(b.0, id, "SiteUsesSymbol"@) == out_edges(a.0, id, "SiteUsesSymbol"@)
    &&& cache_ids_old(b)
    &&& edges_join_old_ids(b.0)
}

/// The containing-edge pass over the first sites of `all` gives each of
/// them one containing edge to its site node, from its cached container,
/// and no other site node one; it adds no using edge.
#[verifier::spinoff_prover]
#[verifier::rlimit(30)]
proof fn lemma_in_symbol_edges(a: BatchState, all: Seq<SiteUpsert>, items: Seq<SiteUpsert>, base: u128)
    requires
        items.len() <= all.len(),
        forall|p: int| 0 <= p < items.len() ==> items[p] == all[p],
        forall|j: int| 0 <= j < all.len() ==> a.1.contains_key((#[trigger] all[j]).stable_id@),
        forall|j: int| 0 <= j < all.len() ==> base <= a.1[(#[trigger] all[j]).stable_id@],
        forall|i: int, j: int|
            0 <= i < j < all.len() ==> a.1[(#[trigger] all[i]).stable_id@] != a.1[(#[trigger] all[j]).stable_id@],
        forall|e: EdgeView| #[trigger] a.0.edges.contains(e) ==> e.from < base && e.to < base,
        ids_fresh_and_unique(a.0),
        cache_ids_old(a),
        edges_join_old_ids(a.0),
        a.0.next_id + items.len() < u128::MAX,
    ensures
        fold_steps(a, items, site_in_symbol_step()) matches Ok(b) ==> in_symbol_pass_done(a, all, items.len() as int, b),
    decreases items.len(),
{
    if items.len() == 0 {
        assert forall|j: int| 0 <= j < all.len() implies in_symbol_edges_ok(
            a.0,
            a.1,
            #[trigger] all[j],
            a.1[all[j].stable_id@],
            j < items.len(),
        ) by {
            lemma_no_edges_at(a.0, a.1[all[j].stable_id@], base, "SiteInSymbol"@);
        }
    } else {
        let pre = items.drop_last();
        let n = items.len() - 1;
        let last = items.last();
        assert(last == all[n]);
        lemma_in_symbol_edges(a, all, pre, base);
        lemma_in_symbol_pass(a, pre);
        if let Ok(bp) = fold_steps(a, pre, site_in_symbol_step()) {
            assert(bp.1.contains_key(last.stable_id@));
            lemma_site_edge_labels_differ();
            if last.container_stable_id@.len() == 0 {
                assert forall|j: int| 0 <= j < all.len() implies in_symbol_edges_ok(
                    bp.0,
                    bp.1,
                    #[trigger] all[j],
                    a.1[all[j].stable_id@],
                    j < items.len(),
                ) by {
                    assert(in_symbol_edges_ok(bp.0, bp.1, all[j], a.1[all[j].stable_id@], j < pre.len()));
                }
                assert(fold_steps(a, items, site_in_symbol_step()) == Ok::<BatchState, Seq<char>>(bp));
                assert(in_symbol_pass_done(a, all, items.len() as int, bp));
            } else {
                lemma_resolve_cache(bp.0, bp.1, last.container_stable_id@);
                if let Ok((from, c1)) = resolve_effect(bp.0, bp.1, last.container_stable_id@) {
                    let e = new_edge(bp.0, "SiteInSymbol"@, site_edge_props(last), from, bp.1[last.stable_id@]);
                    let g2 = with_edge(bp.0, e);
                    assert(bp.1[last.stable_id@] == a.1[all[n].stable_id@]);
                    assert forall|j: int| 0 <= j < all.len() implies in_symbol_edges_ok(
                        g2,
                        c1,
                        #[trigger] all[j],
                        a.1[all[j].stable_id@],
                        j < items.len(),
                    ) by {
                        let id = a.1[all[j].stable_id@];
                        assert(in_symbol_edges_ok(bp.0, bp.1, all[j], id, j < pre.len()));
                        bp.0.edges.lemma_filter_push(e, crate::graph::ends_at(id, "SiteInSymbol"@));
                        if j < n {
                            assert(id != a.1[all[n].stable_id@]);
                            if all[j].container_stable_id@.len() != 0 {
                                assert(pre[j] == all[j]);
                                assert(bp.1.contains_key(all[j].container_stable_id@)) by {
                                    let ins = in_edges(bp.0, id, "SiteInSymbol"@);
                                    assert(ins.len() == 1);
                                }
                            }
                        } else if j > n {
                            assert(id != a.1[all[n].stable_id@]);
                        } else {
                            assert(in_edges(g2, id, "SiteInSymbol"@) == seq![e]);
                        }
                    }
                    assert forall|id: u128| #[trigger] out_edges(g2, id, "SiteUsesSymbol"@) == out_edges(a.0, id, "SiteUsesSymbol"@) by {
                        bp.0.edges.lemma_filter_push(e, crate::graph::starts_at(id, "SiteUsesSymbol"@));
                        assert(out_edges(bp.0, id, "SiteUsesSymbol"@) == out_edges(a.0, id, "SiteUsesSymbol"@));
                    }
                    assert forall|k: Seq<char>| #[trigger] c1.contains_key(k) implies c1[k] < g2.next_id by {
                    }
                    assert forall|i: int| 0 <= i < g2.edges.len() implies (#[trigger] g2.edges[i]).from < g2.next_id
                        && g2.edges[i].to < g2.next_id by {
                        if i < bp.0.edges.len() {
                            assert(g2.edges[i] == bp.0.edges[i]);
                        }
                    }
                    assert(site_in_symbol_step()(bp, last) == Ok::<BatchState, Seq<char>>((g2, c1)));
                    assert(fold_steps(a, items, site_in_symbol_step()) == Ok::<BatchState, Seq<char>>((g2, c1)));
                    assert(forall|k: Seq<char>| a.1.contains_key(k) ==> #[trigger] c1.contains_key(k) && c1[k] == a.1[k]);
                    assert(forall|j: int|
                        0 <= j < all.len() ==> in_symbol_edges_ok(g2, c1, #[trigger] all[j], a.1[all[j].stable_id@], j < items.len()));
                    assert(forall|id: u128| #[trigger] out_edges(g2, id, "SiteUsesSymbol"@) == out_edges(a.0, id, "SiteUsesSymbol"@));
                    assert(cache_ids_old((g2, c1)));
                    assert(edges_join_old_ids(g2));
                    assert(in_symbol_pass_done(a, all, items.len() as int, (g2, c1)));
                }
            }
        }
    }
}

/// What the using-edge pass over the first `n` sites of `all` did, from
/// `a` to `b`.
spec fn uses_symbol_pass_done(a: BatchState, all: Seq<SiteUpsert>, n: int, b: BatchState) -> bool {
    &&& forall|k: Seq<char>| a.1.contains_key(k) ==> #[trigger] b.1.contains_key(k) && b.1[k] == a.1[k]
    &&& forall|j: int|
        0 <= j < all.len() ==> uses_symbol_edges_ok(b.0, b.1, #[trigger] all[j], a.1[all[j].stable_id@], j < n)
    &&& forall|id: u128| #[trigger] in_edges(b.0, id, "SiteInSymbol"@) == in_edges(a.0, id, "SiteInSymbol"@)
    &&& cache_ids_old(b)
    &&& edges_join_old_ids(b.0)
}

/// The using-edge pass over the first sites of `all` gives each of them
/// one using edge from its site node, to its cached source, and no other
/// site node one; it adds no containing edge.
#[verifier::spinoff_prover]
#[verifier::rlimit(30)]
proof fn lemma_uses_symbol_edges(a: BatchState, all: Seq<SiteUpsert>, items: Seq<SiteUpsert>)
    requires
        items.len() <= all.len(),
        forall|p: int| 0 <= p < items.len() ==> items[p] == all[p],
        forall|j: int| 0 <= j < all.len() ==> a.1.contains_key((#[trigger] all[j]).stable_id@),
        forall|i: int, j: int|
            0 <= i < j < all.len() ==> a.1[(#[trigger] all[i]).stable_id@] != a.1[(#[trigger] all[j]).stable_id@],
        forall|j: int|
            0 <= j < all.len() ==> out_edges(a.0, a.1[(#[trigger] all[j]).stable_id@], "SiteUsesSymbol"@).len() == 0,
        ids_fresh_and_unique(a.0),
        cache_ids_old(a),
        edges_join_old_ids(a.0),
        a.0.next_id + items.len() < u128::MAX,
    ensures
        fold_steps(a, items, site_uses_symbol_step()) matches Ok(b) ==> uses_symbol_pass_done(a, all, items.len() as int, b),
    decreases items.len(),
{
    if items.len() == 0 {
        assert(uses_symbol_pass_done(a, all, 0, a));
    } else {
        let pre = items.drop_last();
        let n = items.len() - 1;
        let last = items.last();
        assert(last == all[n]);
        lemma_uses_symbol_edges(a, all, pre);
        lemma_uses_symbol_pass(a, pre);
        if let Ok(bp) = fold_steps(a, pre, site_uses_symbol_step()) {
            assert(bp.1.contains_key(last.stable_id@));
            lemma_site_edge_labels_differ();
            if last.source_stable_id@.len() == 0 {
                assert forall|j: int| 0 <= j < all.len() implies uses_symbol_edges_ok(
                    bp.0,
                    bp.1,
                    #[trigger] all[j],
                    a.1[all[j].stable_id@],
                    j < items.len(),
                ) by {
                    assert(uses_symbol_edges_ok(bp.0, bp.1, all[j], a.1[all[j].stable_id@], j < pre.len()));
                }
                assert(fold_steps(a, items, site_uses_symbol_step()) == Ok::<BatchState, Seq<char>>(bp));
                assert(uses_symbol_pass_done(a, all, items.len() as int, bp));
            } else {
                lemma_resolve_cache(bp.0, bp.1, last.source_stable_id@);
                if let Ok((to, c1)) = resolve_effect(bp.0, bp.1, last.source_stable_id@) {
                    let e = new_edge(bp.0, "SiteUsesSymbol"@, site_edge_props(last), bp.1[last.stable_id@], to);
                    let g2 = with_edge(bp.0, e);
                    assert(bp.1[last.stable_id@] == a.1[all[n].stable_id@]);
                    assert forall|j: int| 0 <= j < all.len() implies uses_symbol_edges_ok(
                        g2,
                        c1,
                        #[trigger] all[j],
                        a.1[all[j].stable_id@],
                        j < items.len(),
                    ) by {
                        let id = a.1[all[j].stable_id@];
                        assert(uses_symbol_edges_ok(bp.0, bp.1, all[j], id, j < pre.len()));
                        bp.0.edges.lemma_filter_push(e, crate::graph::starts_at(id, "SiteUsesSymbol"@));
                        if j < n {
                            assert(id != a.1[all[n].stable_id@]);
                            if all[j].source_stable_id@.len() != 0 {
                                assert(pre[j] == all[j]);
                                assert(bp.1.contains_key(all[j].source_stable_id@)) by {
                                    let outs = out_edges(bp.0, id, "SiteUsesSymbol"@);
                                    assert(outs.len() == 1);
                                }
                            }
                        } else if j > n {
                            assert(id != a.1[all[n].stable_id@]);
                        } else {
                            assert(out_edges(g2, id, "SiteUsesSymbol"@) == seq![e]);
                        }
                    }
                    assert forall|id: u128| #[trigger] in_edges(g2, id, "SiteInSymbol"@) == in_edges(a.0, id, "SiteInSymbol"@) by {
                        bp.0.edges.lemma_filter_push(e, crate::graph::ends_at(id, "SiteInSymbol"@));
                        assert(in_edges(bp.0, id, "SiteInSymbol"@) == in_edges(a.0, id, "SiteInSymbol"@));
                    }
                    assert forall|k: Seq<char>| #[trigger] c1.contains_key(k) implies c1[k] < g2.next_id by {
                    }
                    assert forall|i: int| 0 <= i < g2.edges.len() implies (#[trigger] g2.edges[i]).from < g2.next_id
                        && g2.edges[i].to < g2.next_id by {
                        if i < bp.0.edges.len() {
                            assert(g2.edges[i] == bp.0.edges[i]);
                        }
                    }
                    assert(site_uses_symbol_step()(bp, last) == Ok::<BatchState, Seq<char>>((g2, c1)));
                    assert(fold_steps(a, items, site_uses_symbol_step()) == Ok::<BatchState, Seq<char>>((g2, c1)));
                    assert(forall|k: Seq<char>| a.1.contains_key(k) ==> #[trigger] c1.contains_key(k) && c1[k] == a.1[k]);
                    assert(forall|j: int|
                        0 <= j < all.len() ==> uses_symbol_edges_ok(g2, c1, #[trigger] all[j], a.1[all[j].stable_id@], j < items.len()));
                    assert(forall|id: u128| #[trigger] in_edges(g2, id, "SiteInSymbol"@) == in_edges(a.0, id, "SiteInSymbol"@));
                    assert(cache_ids_old((g2, c1)));
                    assert(uses_symbol_pass_done(a, all, items.len() as int, (g2, c1)));
                }
            }
        }
    }
}

/// The containing-edge pass changes no node, keeps ids fresh and unique,
/// only adds to the cache, and caches the container of every site that
/// was cached.
proof fn lemma_in_symbol_pass(s: BatchState, sites: Seq<SiteUpsert>)
    requires
        ids_fresh_and_unique(s.0),
        s.0.next_id + sites.len() < u128::MAX,
    ensures
        fold_steps(s, sites, site_in_symbol_step()) matches Ok(s2) ==> {
            &&& s2.0.nodes == s.0.nodes
            &&& ids_fresh_and_unique(s2.0)
            &&& s.0.next_id <= s2.0.next_id <= s.0.next_id + sites.len()
            &&& forall|k: Seq<char>| s.1.contains_key(k) ==> #[trigger] s2.1.contains_key(k)
            &&& forall|j: int|
                0 <= j < sites.len() && (#[trigger] sites[j]).container_stable_id@.len() != 0 && s.1.contains_key(
                    sites[j].stable_id@,
                ) ==> s2.1.contains_key(sites[j].container_stable_id@)
        },
    decreases sites.len(),
{
    if sites.len() > 0 {
        let pre = sites.drop_last();
        let last = sites.last();
        lemma_in_symbol_pass(s, pre);
        if let Ok(s1) = fold_steps(s, pre, site_in_symbol_step()) {
            if let Ok(s2) = site_in_symbol_step()(s1, last) {
                if !(last.container_stable_id@.len() == 0 || !s1.1.contains_key(last.stable_id@)) {
                    let e = new_edge(s1.0, "SiteInSymbol"@, site_edge_props(last), s2.0.edges.last().from, s1.1[last.stable_id@]);
                    crate::graph::lemma_with_edge_keeps_ids(s1.0, e);
                }
                assert forall|j: int|
                    0 <= j < sites.len() && (#[trigger] sites[j]).container_stable_id@.len() != 0 && s.1.contains_key(
                        sites[j].stable_id@,
                    ) implies s2.1.contains_key(sites[j].container_stable_id@) by {
                    if j < pre.len() {
                        assert(pre[j] == sites[j]);
                    } else {
                        assert(sites[j] == last);
                    }
                }
            }
        }
    }
}

/// The containing-edge pass succeeds where the cache holds the container
/// of every site that has one.
proof fn lemma_in_symbol_pass_ok(s: BatchState, sites: Seq<SiteUpsert>)
    requires
        forall|j: int|
            0 <= j < sites.len() && (#[trigger] sites[j]).container_stable_id@.len() != 0 ==> s.1.contains_key(
                sites[j].container_stable_id@,
            ),
    ensures
        fold_steps(s, sites, site_in_symbol_step()) matches Ok(s2) && forall|k: Seq<char>|
            s.1.contains_key(k) ==> #[trigger] s2.1.contains_key(k),
    decreases sites.len(),
{
    if sites.len() > 0 {
        let pre = sites.drop_last();
        let last = sites.last();
        assert forall|j: int|
            0 <= j < pre.len() && (#[trigger] pre[j]).container_stable_id@.len() != 0 implies s.1.contains_key(
                pre[j].container_stable_id@,
            ) by {
            assert(pre[j] == sites[j]);
        }
        lemma_in_symbol_pass_ok(s, pre);
        assert(last == sites[sites.len() - 1]);
    }
}

/// The using-edge pass changes no node, keeps ids fresh and unique, only
/// adds to the cache, and caches the source of every site that was
/// cached.
proof fn lemma_uses_symbol_pass(s: BatchState, sites: Seq<SiteUpsert>)
    requires
        ids_fresh_and_unique(s.0),
        s.0.next_id + sites.len() < u128::MAX,
    ensures
        fold_steps(s, sites, site_uses_symbol_step()) matches Ok(s2) ==> {
            &&& s2.0.nodes == s.0.nodes
            &&& ids_fresh_and_unique(s2.0)
            &&& s.0.next_id <= s2.0.next_id <= s.0.next_id + sites.len()
            &&& forall|k: Seq<char>| s.1.contains_key(k) ==> #[trigger] s2.1.contains_key(k)
            &&& forall|j: int|
                0 <= j < sites.len() && (#[trigger] sites[j]).source_stable_id@.len() != 0 && s.1.contains_key(
                    sites[j].stable_id@,
                ) ==> s2.1.contains_key(sites[j].source_stable_id@)
        },
    decreases sites.len(),
{
    if sites.len() > 0 {
        let pre = sites.drop_last();
        let last = sites.last();
        lemma_uses_symbol_pass(s, pre);
        if let Ok(s1) = fold_steps(s, pre, site_uses_symbol_step()) {
            if let Ok(s2) = site_uses_symbol_step()(s1, last) {
                if !(last.source_stable_id@.len() == 0 || !s1.1.contains_key(last.stable_id@)) {
                    let e = new_edge(s1.0, "SiteUsesSymbol"@, site_edge_props(last), s1.1[last.stable_id@], s2.0.edges.last().to);
                    crate::graph::lemma_with_edge_keeps_ids(s1.0, e);
                }
                assert forall|j: int|
                    0 <= j < sites.len() && (#[trigger] sites[j]).source_stable_id@.len() != 0 && s.1.contains_key(
                        sites[j].stable_id@,
                    ) implies s2.1.contains_key(sites[j].source_stable_id@) by {
                    if j < pre.len() {
                        assert(pre[j] == sites[j]);
                    } else {
                        assert(sites[j] == last);
                    }
                }
            }
        }
    }
}

/// The using-edge pass succeeds where the cache holds the source of every
/// site that has one.
proof fn lemma_uses_symbol_pass_ok(s: BatchState, sites: Seq<SiteUpsert>)
    requires
        forall|j: int|
            0 <= j < sites.len() && (#[trigger] sites[j]).source_stable_id@.len() != 0 ==> s.1.contains_key(
                sites[j].source_stable_id@,
            ),
    ensures
        fold_steps(s, sites, site_uses_symbol_step()) matches Ok(s2) && forall|k: Seq<char>|
            s.1.contains_key(k) ==> #[trigger] s2.1.contains_key(k),
    decreases sites.len(),
{
    if sites.len() > 0 {
        let pre = sites.drop_last();
        let last = sites.last();
        assert forall|j: int|
            0 <= j < pre.len() && (#[trigger] pre[j]).source_stable_id@.len() != 0 implies s.1.contains_key(
                pre[j].source_stable_id@,
            ) by {
            assert(pre[j] == sites[j]);
        }
        lemma_uses_symbol_pass_ok(s, pre);
        assert(last == sites[sites.len() - 1]);
    }
}

/// A site is in place: its stable id finds exactly one `Site` node, with
/// the site's properties, whose id the cache holds; that node has one
/// containing edge, from the node the cache names for the container, where
/// the site has a container, and none otherwise; and one using edge, to
/// the node the cache names for the source, where the site has a source,
/// and none otherwise. Both edges carry the site's edge properties.
pub open spec fn site_in_place(g: GraphView, c: Map<Seq<char>, u128>, site: SiteUpsert) -> bool {
    &&& one_site_node(g, site)
    &&& c.contains_key(site.stable_id@)
    &&& index_nodes(g, "Site"@, "stable_id"@, stable_key(site.stable_id@))[0].id == c[site.stable_id@]
    &&& site.container_stable_id@.len() != 0 ==> c.contains_key(site.container_stable_id@)
    &&& site.source_stable_id@.len() != 0 ==> c.contains_key(site.source_stable_id@)
    &&& in_symbol_edges_ok(g, c, site, c[site.stable_id@], true)
    &&& uses_symbol_edges_ok(g, c, site, c[site.stable_id@], true)
}

/// The conditions a store and its cache keep: ids fresh and unique, every
/// edge joining ids given out before, and the cache naming only such ids.
pub open spec fn batch_state_valid(s: BatchState) -> bool {
    &&& ids_fresh_and_unique(s.0)
    &&& edges_join_old_ids(s.0)
    &&& cache_ids_old(s)
}

/// Two sites with one site node share their stable id.
proof fn lemma_site_node_names_one_site(n: NodeView, a: SiteUpsert, b: SiteUpsert)
    requires
        is_site_node(n, a),
        is_site_node(n, b),
    ensures
        a.stable_id@ == b.stable_id@,
{
    lemma_site_node_indexed(n, a);
    lemma_site_node_indexed(n, b);
    assert(stable_key(a.stable_id@) == stable_key(b.stable_id@));
}

/// After the sites of a batch are upserted, every site of the batch is in
/// place, and the store and cache stay valid. This holds where the
/// batch's stable ids are distinct, the store and cache are valid, and the
/// id counter stays below its limit.
pub proof fn lemma_upsert_sites_puts_sites_in_place(s: BatchState, sites: Seq<SiteUpsert>)
    requires
        batch_state_valid(s),
        s.0.next_id + 3 * sites.len() < u128::MAX,
        site_ids_distinct(sites),
    ensures
        upsert_sites_effect(s, sites) matches Ok(s3) ==> {
            &&& batch_state_valid(s3)
            &&& s3.0.next_id <= s.0.next_id + 3 * sites.len()
            &&& forall|j: int| 0 <= j < sites.len() ==> site_in_place(s3.0, s3.1, #[trigger] sites[j])
            &&& forall|k: Seq<char>| s.1.contains_key(k) ==> #[trigger] s3.1.contains_key(k)
        },
{
    let base = s.0.next_id;
    lemma_site_pass(s, sites);
    lemma_site_pass_cache(s, sites);
    let a1 = fold_steps(s, sites, site_node_step())->Ok_0;
    assert forall|e: EdgeView| #[trigger] a1.0.edges.contains(e) implies e.from < base && e.to < base by {
        assert(s.0.edges.contains(e));
        let i = choose|i: int| 0 <= i < s.0.edges.len() && s.0.edges[i] == e;
        assert(s.0.edges[i].from < s.0.next_id);
    }
    assert forall|i: int| 0 <= i < a1.0.edges.len() implies (#[trigger] a1.0.edges[i]).from < a1.0.next_id
        && a1.0.edges[i].to < a1.0.next_id by {
        assert(a1.0.edges.contains(a1.0.edges[i]));
    }
    assert forall|i: int, j: int| 0 <= i < j < sites.len() implies a1.1[(#[trigger] sites[i]).stable_id@]
        != a1.1[(#[trigger] sites[j]).stable_id@] by {
        assert(site_cached(a1.0, a1.1, sites[i]));
        assert(site_cached(a1.0, a1.1, sites[j]));
        let ni = choose|n: NodeView|
            #![trigger a1.0.nodes.contains(n)]
            a1.0.nodes.contains(n) && is_site_node(n, sites[i]) && n.id == a1.1[sites[i].stable_id@];
        let nj = choose|n: NodeView|
            #![trigger a1.0.nodes.contains(n)]
            a1.0.nodes.contains(n) && is_site_node(n, sites[j]) && n.id == a1.1[sites[j].stable_id@];
        if ni.id == nj.id {
            crate::graph::lemma_same_id_same_node(a1.0.nodes, ni, nj);
            lemma_site_node_names_one_site(ni, sites[i], sites[j]);
        }
    }
    lemma_in_symbol_pass(a1, sites);
    lemma_in_symbol_edges(a1, sites, sites, base);
    if let Ok(a2) = fold_steps(a1, sites, site_in_symbol_step()) {
        assert forall|j: int| 0 <= j < sites.len() implies out_edges(
            a2.0,
            a2.1[(#[trigger] sites[j]).stable_id@],
            "SiteUsesSymbol"@,
        ).len() == 0 by {
            assert(a1.1.contains_key(sites[j].stable_id@));
            assert(a2.1.contains_key(sites[j].stable_id@));
            lemma_no_edges_at(a1.0, a1.1[sites[j].stable_id@], base, "SiteUsesSymbol"@);
            assert(out_edges(a2.0, a1.1[sites[j].stable_id@], "SiteUsesSymbol"@) == out_edges(a1.0, a1.1[sites[j].stable_id@], "SiteUsesSymbol"@));
        }
        assert forall|i: int, j: int| 0 <= i < j < sites.len() implies a2.1[(#[trigger] sites[i]).stable_id@]
            != a2.1[(#[trigger] sites[j]).stable_id@] by {
            assert(a1.1.contains_key(sites[i].stable_id@) && a1.1.contains_key(sites[j].stable_id@));
            assert(a2.1.contains_key(sites[i].stable_id@) && a2.1.contains_key(sites[j].stable_id@));
        }
        lemma_uses_symbol_pass(a2, sites);
        lemma_uses_symbol_edges(a2, sites, sites);
        if let Ok(s3) = fold_steps(a2, sites, site_uses_symbol_step()) {
            assert forall|j: int| 0 <= j < sites.len() implies site_in_place(s3.0, s3.1, #[trigger] sites[j]) by {
                let site = sites[j];
                let id = a1.1[site.stable_id@];
                assert(a1.1.contains_key(site.stable_id@));
                assert(a2.1.contains_key(site.stable_id@));
                assert(a2.1[site.stable_id@] == id);
                assert(s3.1.contains_key(site.stable_id@));
                assert(s3.1[site.stable_id@] == id);
                assert(sole_site(a1.0, site));
                lemma_sole_site_is_one(s3.0, site);
                assert(site_cached(a1.0, a1.1, site));
                let n = choose|n: NodeView|
                    #![trigger a1.0.nodes.contains(n)]
                    a1.0.nodes.contains(n) && is_site_node(n, site) && n.id == a1.1[site.stable_id@];
                let p = crate::graph::node_in_index("Site"@, "stable_id"@, stable_key(site.stable_id@));
                lemma_site_node_indexed(n, site);
                let k = choose|k: int| 0 <= k < s3.0.nodes.len() && s3.0.nodes[k] == n;
                s3.0.nodes.lemma_filter_contains(p, k);
                let found = index_nodes(s3.0, "Site"@, "stable_id"@, stable_key(site.stable_id@));
                assert(found.contains(n));
                assert(found[0] == n);
                if site.container_stable_id@.len() != 0 {
                    assert(a2.1.contains_key(site.container_stable_id@));
                    assert(s3.1.contains_key(site.container_stable_id@));
                    assert(s3.1[site.container_stable_id@] == a2.1[site.container_stable_id@]);
                }
                if site.source_stable_id@.len() != 0 {
                    assert(a2.1.contains_key(site.stable_id@));
                }
                assert(in_symbol_edges_ok(a2.0, a2.1, site, id, true));
                assert(in_edges(s3.0, id, "SiteInSymbol"@) == in_edges(a2.0, id, "SiteInSymbol"@));
                assert(uses_symbol_edges_ok(s3.0, s3.1, site, id, true));
            }
        }
    }
}

/// Upserting the same sites a second time, after a first call succeeded,
/// succeeds too and leaves every site in place again: after either call
/// the stable id of each site finds one `Site` node with the site's
/// properties, with one containing and one using edge where the site names
/// a container and a source, carrying the same properties and joining the
/// nodes the cache names; only the ids of the new nodes and edges differ.
/// Conditions as for one call, with room in the id counter for both.
pub proof fn lemma_upsert_sites_twice(s: BatchState, sites: Seq<SiteUpsert>)
    requires
        batch_state_valid(s),
        s.0.next_id + 6 * sites.len() < u128::MAX,
        site_ids_distinct(sites),
        upsert_sites_effect(s, sites) is Ok,
    ensures
        upsert_sites_effect(s, sites) matches Ok(s1) && upsert_sites_effect(s1, sites) matches Ok(s2) && forall|
            j: int,
        |
            0 <= j < sites.len() ==> site_in_place(s1.0, s1.1, #[trigger] sites[j]) && site_in_place(
                s2.0,
                s2.1,
                sites[j],
            ),
{
    lemma_upsert_sites_puts_sites_in_place(s, sites);
    let s1 = upsert_sites_effect(s, sites)->Ok_0;
    lemma_site_pass(s1, sites);
    let b1 = fold_steps(s1, sites, site_node_step())->Ok_0;
    assert forall|j: int|
        0 <= j < sites.len() && (#[trigger] sites[j]).container_stable_id@.len() != 0 implies b1.1.contains_key(
            sites[j].container_stable_id@,
        ) by {
        assert(site_in_place(s1.0, s1.1, sites[j]));
    }
    lemma_in_symbol_pass_ok(b1, sites);
    let b2 = fold_steps(b1, sites, site_in_symbol_step())->Ok_0;
    assert forall|j: int|
        0 <= j < sites.len() && (#[trigger] sites[j]).source_stable_id@.len() != 0 implies b2.1.contains_key(
            sites[j].source_stable_id@,
        ) by {
        assert(site_in_place(s1.0, s1.1, sites[j]));
    }
    lemma_uses_symbol_pass_ok(b2, sites);
    lemma_upsert_sites_puts_sites_in_place(s1, sites);
}

/// Nodes the index found are read back unchanged when ids are unique.
proof fn lemma_reread_is_found(g: GraphView, found: Seq<NodeView>)
    requires
        crate::graph::distinct_ids(g.nodes),
        forall|t: int| 0 <= t < found.len() ==> g.nodes.contains(#[trigger] found[t]),
    ensures
        reread(g, found) == as_node_values(found),
{
    assert forall|t: int| 0 <= t < found.len() implies reread(g, found)[t] == as_node_values(found)[t] by {
        let n = found[t];
        assert(g.nodes.contains(n));
        let i = choose|i: int| 0 <= i < g.nodes.len() && g.nodes[i] == n;
        assert forall|j: int| 0 <= j < i implies (#[trigger] g.nodes[j]).id != n.id by {
            assert(g.nodes[j].id != g.nodes[i].id);
        }
        crate::graph::lemma_find_node_first(g.nodes, n.id, i);
    }
    assert(reread(g, found) =~= as_node_values(found));
}

/// After the first `k` found nodes are updated and written back, each
/// stored node with one of their ids carries the update, and no other
/// node changed.
proof fn lemma_update_found(g: GraphView, found: Seq<NodeView>, u: Seq<PropView>, k: int)
    requires
        crate::graph::distinct_ids(g.nodes),
        forall|t: int| 0 <= t < found.len() ==> g.nodes.contains(#[trigger] found[t]),
        0 <= k <= found.len(),
    ensures
        update_all(g, as_node_values(found.subrange(0, k)), u).nodes.len() == g.nodes.len(),
        forall|i: int|
            0 <= i < g.nodes.len() ==> (#[trigger] update_all(g, as_node_values(found.subrange(0, k)), u).nodes[i])
                == (if exists|t: int| 0 <= t < k && (#[trigger] found[t]).id == g.nodes[i].id {
                crate::graph::updated_node(g.nodes[i], u)
            } else {
                g.nodes[i]
            }),
    decreases k,
{
    if k > 0 {
        lemma_update_found(g, found, u, k - 1);
        let vals = as_node_values(found.subrange(0, k));
        assert(vals.drop_last() =~= as_node_values(found.subrange(0, k - 1)));
        let gk = update_all(g, as_node_values(found.subrange(0, k - 1)), u);
        let n2 = crate::graph::updated_node(found[k - 1], u);
        let g2 = update_all(g, vals, u);
        assert(g2 == crate::graph::write_back(gk, TraversalView::Node(n2)));
        assert forall|i: int| 0 <= i < g.nodes.len() implies (#[trigger] g2.nodes[i]) == (if exists|t: int|
            0 <= t < k && (#[trigger] found[t]).id == g.nodes[i].id {
            crate::graph::updated_node(g.nodes[i], u)
        } else {
            g.nodes[i]
        }) by {
            assert(g2.nodes[i] == crate::graph::replace_node(n2)(gk.nodes[i]));
            if g.nodes[i].id == found[k - 1].id {
                assert(g.nodes.contains(found[k - 1]));
                let j = choose|j: int| 0 <= j < g.nodes.len() && g.nodes[j] == found[k - 1];
                if j != i {
                    if j < i {
                        assert(g.nodes[j].id != g.nodes[i].id);
                    } else {
                        assert(g.nodes[i].id != g.nodes[j].id);
                    }
                }
                assert(g.nodes[i] == found[k - 1]);
            } else {
                if exists|t: int| 0 <= t < k && (#[trigger] found[t]).id == g.nodes[i].id {
                    let t = choose|t: int| 0 <= t < k && (#[trigger] found[t]).id == g.nodes[i].id;
                    assert(t < k - 1);
                }
            }
        }
    }
}

/// Setting the offset and revision leaves them readable, and the partition
/// as it was.
proof fn lemma_ingest_props_read_back(props: Seq<PropView>, offset: u64, to_rev: Seq<char>)
    ensures
        crate::items::prop_get(crate::items::update_props(props, ingest_update(offset, to_rev)), "offset"@)
            == Some(ValueView::U64(offset)),
        crate::items::prop_get(crate::items::update_props(props, ingest_update(offset, to_rev)), "to_rev"@)
            == Some(ValueView::Text(to_rev)),
        crate::items::prop_get(crate::items::update_props(props, ingest_update(offset, to_rev)), "partition"@)
            == crate::items::prop_get(props, "partition"@),
{
    reveal_strlit("offset");
    reveal_strlit("to_rev");
    reveal_strlit("partition");
    assert("to_rev"@[0] != "offset"@[0]);
    assert("partition"@.len() != "offset"@.len());
    assert("partition"@.len() != "to_rev"@.len());
    let u = ingest_update(offset, to_rev);
    assert(u.drop_last().drop_last() =~= Seq::<PropView>::empty());
    assert(crate::items::update_props(props, u.drop_last().drop_last()) == props);
    assert(u.drop_last().last() == ("offset"@, ValueView::U64(offset)));
    let p1 = crate::items::set_prop(props, "offset"@, ValueView::U64(offset));
    assert(crate::items::update_props(props, u.drop_last()) == p1);
    assert(crate::items::update_props(props, u) == crate::items::set_prop(p1, "to_rev"@, ValueView::Text(to_rev)));
    crate::items::lemma_get_after_set(props, "offset"@, ValueView::U64(offset));
    crate::items::lemma_get_other_after_set(p1, "to_rev"@, ValueView::Text(to_rev), "offset"@);
    crate::items::lemma_get_after_set(p1, "to_rev"@, ValueView::Text(to_rev));
    crate::items::lemma_get_other_after_set(props, "offset"@, ValueView::U64(offset), "partition"@);
    crate::items::lemma_get_other_after_set(p1, "to_rev"@, ValueView::Text(to_rev), "partition"@);
}

/// Once the ingest state of a partition is written, the partition has an
/// ingest-state node, and every one it has reads back the offset and
/// revision just written (ids of stored nodes being unique).
pub proof fn lemma_ingest_state_reads_back(g: GraphView, partition: u32, offset: u64, to_rev: Seq<char>)
    requires
        crate::graph::distinct_ids(g.nodes),
    ensures
        ingest_effect(g, partition, offset, to_rev) matches Ok(g2) ==> {
            let states = index_nodes(g2, "IngestState"@, "partition"@, ValueView::U32(partition));
            &&& states.len() > 0
            &&& forall|i: int|
                0 <= i < states.len() ==> crate::items::prop_get((#[trigger] states[i]).props, "offset"@)
                    == Some(ValueView::U64(offset)) && crate::items::prop_get(states[i].props, "to_rev"@)
                    == Some(ValueView::Text(to_rev))
        },
{
    reveal_strlit("offset");
    reveal_strlit("to_rev");
    reveal_strlit("partition");
    if g.node_indices.contains("partition"@) {
        let key = ValueView::U32(partition);
        let p = crate::graph::node_in_index("IngestState"@, "partition"@, key);
        let found = index_nodes(g, "IngestState"@, "partition"@, key);
        if found.len() == 0 {
            let n = next_node(g, "IngestState"@, ingest_props(partition, offset, to_rev), ingest_indices());
            assert(n.indices[0] == "partition"@);
            assert(p(n));
            g.nodes.lemma_filter_push(n, p);
            let states = index_nodes(with_node(g, n), "IngestState"@, "partition"@, key);
            assert(states.len() == 1 && states[0] == n);
            assert(n.props[1].0 == "offset"@);
            assert(n.props[2].0 == "to_rev"@);
            assert("to_rev"@[0] != "offset"@[0]);
            assert("partition"@.len() != "offset"@.len());
            assert("partition"@.len() != "to_rev"@.len());
            crate::items::lemma_prop_get_first(n.props, "offset"@, 1);
            crate::items::lemma_prop_get_first(n.props, "to_rev"@, 2);
        } else {
            let u = ingest_update(offset, to_rev);
            assert forall|t: int| 0 <= t < found.len() implies g.nodes.contains(#[trigger] found[t]) by {
                assert(found.contains(found[t]));
                g.nodes.lemma_filter_contains_rev(p, found[t]);
            }
            lemma_reread_is_found(g, found);
            lemma_update_found(g, found, u, found.len() as int);
            assert(found.subrange(0, found.len() as int) =~= found);
            let g2 = update_all(g, as_node_values(found), u);
            let states = index_nodes(g2, "IngestState"@, "partition"@, key);
            assert forall|i: int| 0 <= i < states.len() implies crate::items::prop_get(
                (#[trigger] states[i]).props,
                "offset"@,
            ) == Some(ValueView::U64(offset)) && crate::items::prop_get(states[i].props, "to_rev"@)
                == Some(ValueView::Text(to_rev)) by {
                assert(states.contains(states[i]));
                g2.nodes.lemma_filter_contains_rev(p, states[i]);
                g2.nodes.lemma_filter_pred(p, i);
                let j = choose|j: int| 0 <= j < g2.nodes.len() && g2.nodes[j] == states[i];
                let m = g.nodes[j];
                if exists|t: int| 0 <= t < found.len() && (#[trigger] found[t]).id == m.id {
                    lemma_ingest_props_read_back(m.props, offset, to_rev);
                } else {
                    assert(g2.nodes[j] == m);
                    g.nodes.lemma_filter_contains(p, j);
                    let t = choose|t: int| 0 <= t < found.len() && found[t] == m;
                    assert(found[t].id == m.id);
                }
            }
            // the first found node still belongs to the partition after its update
            let f0 = found[0];
            assert(g.nodes.contains(f0));
            let j = choose|j: int| 0 <= j < g.nodes.len() && g.nodes[j] == f0;
            assert(exists|t: int| 0 <= t < found.len() && (#[trigger] found[t]).id == g.nodes[j].id);
            lemma_ingest_props_read_back(f0.props, offset, to_rev);
            g.nodes.lemma_filter_pred(p, 0);
            assert(p(f0));
            assert(p(g2.nodes[j]));
            g2.nodes.lemma_filter_contains(p, j);
        }
    }
}

/// Whether properties hold a file's path, hash, language, namespace and repo.
pub open spec fn holds_file_fields(props: Seq<PropView>, f: FileUpsert) -> bool {
    &&& crate::items::prop_get(props, "path"@) == Some(ValueView::Text(f.path@))
    &&& crate::items::prop_get(props, "hash"@) == Some(ValueView::Text(f.hash@))
    &&& crate::items::prop_get(props, "lang"@) == Some(ValueView::Text(f.lang@))
    &&& crate::items::prop_get(props, "namespace"@) == Some(ValueView::Text(f.namespace@))
    &&& crate::items::prop_get(props, "repo"@) == Some(ValueView::Text(f.repo@))
}

proof fn lemma_file_names_differ()
    ensures
        "stable_id"@ != "path"@,
        "stable_id"@ != "hash"@,
        "stable_id"@ != "lang"@,
        "stable_id"@ != "namespace"@,
        "stable_id"@ != "repo"@,
        "path"@ != "hash"@,
        "path"@ != "lang"@,
        "path"@ != "namespace"@,
        "path"@ != "repo"@,
        "hash"@ != "lang"@,
        "hash"@ != "namespace"@,
        "hash"@ != "repo"@,
        "lang"@ != "namespace"@,
        "lang"@ != "repo"@,
        "namespace"@ != "repo"@,
{
    reveal_strlit("stable_id");
    reveal_strlit("path");
    reveal_strlit("hash");
    reveal_strlit("lang");
    reveal_strlit("namespace");
    reveal_strlit("repo");
    assert("stable_id"@[0] != "namespace"@[0]);
    assert("path"@[0] != "hash"@[0]);
    assert("path"@[0] != "lang"@[0]);
    assert("path"@[0] != "repo"@[0]);
    assert("hash"@[0] != "lang"@[0]);
    assert("hash"@[0] != "repo"@[0]);
    assert("lang"@[0] != "repo"@[0]);
}

/// A File node updated with a file's fields holds them, and keeps its
/// stable id.
proof fn lemma_file_update_reads_back(props: Seq<PropView>, f: FileUpsert)
    ensures
        holds_file_fields(crate::items::update_props(props, file_update(f)), f),
        crate::items::prop_get(crate::items::update_props(props, file_update(f)), "stable_id"@)
            == crate::items::prop_get(props, "stable_id"@),
{
    lemma_file_names_differ();
    let u = file_update(f);
    crate::items::lemma_read_after_updates(props, u, "path"@);
    crate::items::lemma_read_after_updates(props, u, "hash"@);
    crate::items::lemma_read_after_updates(props, u, "lang"@);
    crate::items::lemma_read_after_updates(props, u, "namespace"@);
    crate::items::lemma_read_after_updates(props, u, "repo"@);
    crate::items::lemma_read_after_updates(props, u, "stable_id"@);
    reveal_with_fuel(crate::items::last_written, 6);
}

/// After a file is upserted, there is a File node with its stable id, the
/// cache holds the id of one, and every one holds the file's fields (ids
/// of stored nodes being unique).
#[verifier::spinoff_prover]
pub proof fn lemma_file_upsert_reads_back(g: GraphView, c: Map<Seq<char>, u128>, f: FileUpsert)
    requires
        crate::graph::distinct_ids(g.nodes),
    ensures
        upsert_file_effect(g, c, f) matches Ok((g2, c2)) && {
            let files = index_nodes(g2, "File"@, "stable_id"@, stable_key(f.stable_id@));
            &&& files.len() > 0
            &&& exists|i: int| 0 <= i < files.len() && (#[trigger] files[i]).id == c2[f.stable_id@]
            &&& forall|i: int| 0 <= i < files.len() ==> holds_file_fields((#[trigger] files[i]).props, f)
        },
{
    lemma_file_names_differ();
    let key = stable_key(f.stable_id@);
    let p = crate::graph::node_in_index("File"@, "stable_id"@, key);
    let existing = index_nodes(g, "File"@, "stable_id"@, key);
    if existing.len() == 0 {
        let n = next_node(g, "File"@, file_props(f), file_indices());
        assert(n.indices[0] == "stable_id"@);
        assert(p(n));
        g.nodes.lemma_filter_push(n, p);
        let files = index_nodes(with_node(g, n), "File"@, "stable_id"@, key);
        assert(files.len() == 1 && files[0] == n);
        crate::items::lemma_prop_get_first(n.props, "path"@, 1);
        crate::items::lemma_prop_get_first(n.props, "hash"@, 2);
        crate::items::lemma_prop_get_first(n.props, "lang"@, 3);
        crate::items::lemma_prop_get_first(n.props, "namespace"@, 4);
        crate::items::lemma_prop_get_first(n.props, "repo"@, 5);
    } else {
        let u = file_update(f);
        assert forall|t: int| 0 <= t < existing.len() implies g.nodes.contains(#[trigger] existing[t]) by {
            assert(existing.contains(existing[t]));
            g.nodes.lemma_filter_contains_rev(p, existing[t]);
        }
        lemma_update_found(g, existing, u, existing.len() as int);
        assert(existing.subrange(0, existing.len() as int) =~= existing);
        let g2 = update_all(g, as_node_values(existing), u);
        let files = index_nodes(g2, "File"@, "stable_id"@, key);
        assert forall|i: int| 0 <= i < files.len() implies holds_file_fields((#[trigger] files[i]).props, f) by {
            assert(files.contains(files[i]));
            g2.nodes.lemma_filter_contains_rev(p, files[i]);
            let j = choose|j: int| 0 <= j < g2.nodes.len() && g2.nodes[j] == files[i];
            let m = g.nodes[j];
            if exists|t: int| 0 <= t < existing.len() && (#[trigger] existing[t]).id == m.id {
                lemma_file_update_reads_back(m.props, f);
            } else {
                g2.nodes.lemma_filter_pred(p, i);
                assert(g2.nodes[j] == m);
                g.nodes.lemma_filter_contains(p, j);
                let t = choose|t: int| 0 <= t < existing.len() && existing[t] == m;
                assert(existing[t].id == m.id);
            }
        }
        let f0 = existing[0];
        assert(g.nodes.contains(f0));
        let j = choose|j: int| 0 <= j < g.nodes.len() && g.nodes[j] == f0;
        assert(exists|t: int| 0 <= t < existing.len() && (#[trigger] existing[t]).id == g.nodes[j].id);
        lemma_file_update_reads_back(f0.props, f);
        g.nodes.lemma_filter_pred(p, 0);
        assert(p(g2.nodes[j]));
        g2.nodes.lemma_filter_contains(p, j);
        let k = choose|k: int| 0 <= k < files.len() && files[k] == g2.nodes[j];
        assert(files[k].id == f0.id);
    }
}

} // verus!
