use helix_db::batch_apply::{bytes_have_label, first_node_id, node_ids_for_index_u32, resolve_endpoint_node_id, ApplyMutationBatch};
use helix_db::batch_types::{
    ApplyMutationBatchInput, EdgeDrop, EdgeUpsert, FileUpsert, NodeIdCache, SiteDrop, SiteUpsert,
    SymbolDrop, SymbolUpsert,
};
use helix_db::errors::GraphError;
use helix_db::graph::HelixGraphStorage;
use helix_db::items::{Node, TraversalValue};
use helix_db::traversal::{EFromIndexAdapter, NFromIndexAdapter, RoTraversalIterator};
use helix_db::value::Value;

fn store() -> HelixGraphStorage {
    HelixGraphStorage::new(
        vec!["stable_id".to_string(), "path".to_string(), "fqn".to_string(), "partition".to_string()],
        vec!["stable_id".to_string()],
        Vec::new(),
        1,
    )
}

fn empty_batch(partition: u32, offset: u64, to_rev: &str) -> ApplyMutationBatchInput {
    ApplyMutationBatchInput {
        partition,
        offset,
        to_rev: to_rev.to_string(),
        file_upsert: None,
        symbol_upserts: Vec::new(),
        symbol_drops: Vec::new(),
        edge_upserts: Vec::new(),
        edge_drops: Vec::new(),
        site_upserts: Vec::new(),
        site_drops: Vec::new(),
    }
}

fn file(stable_id: &str, path: &str) -> FileUpsert {
    FileUpsert {
        stable_id: stable_id.to_string(),
        path: path.to_string(),
        hash: "h".to_string(),
        lang: "rust".to_string(),
        namespace: "ns".to_string(),
        repo: "repo".to_string(),
    }
}

fn symbol(stable_id: &str, fqn: &str, name: &str) -> SymbolUpsert {
    SymbolUpsert {
        stable_id: stable_id.to_string(),
        fqn: fqn.to_string(),
        kind: "fn".to_string(),
        file_stable_id: "file:a".to_string(),
        span_start: 1,
        span_end: 2,
        range_start_line: 3,
        range_start_character: 4,
        range_end_line: 5,
        range_end_character: 6,
        byte_start: 7,
        byte_end: 8,
        identifier_tokens: "tok".to_string(),
        name: name.to_string(),
        signature: None,
        doc: Some("docs".to_string()),
        file_path: "a.rs".to_string(),
        language: "rust".to_string(),
        visibility: "pub".to_string(),
        namespace: "ns".to_string(),
        repo: "repo".to_string(),
        default_x: 1.5f64.to_bits(),
        default_y: 0,
        default_z: 0,
    }
}

fn edge(kind: &str, stable_id: &str, from: &str, to: &str, payload: Option<&str>) -> EdgeUpsert {
    EdgeUpsert {
        kind: kind.to_string(),
        stable_id: stable_id.to_string(),
        from_stable_id: from.to_string(),
        to_stable_id: to.to_string(),
        payload: payload.map(|p| p.to_string()),
        namespace: "ns".to_string(),
        repo: "repo".to_string(),
    }
}

fn site(stable_id: &str, source: &str, container: &str) -> SiteUpsert {
    SiteUpsert {
        stable_id: stable_id.to_string(),
        kind: "call".to_string(),
        source_stable_id: source.to_string(),
        container_stable_id: container.to_string(),
        file_stable_id: "file:a".to_string(),
        file_path: "a.rs".to_string(),
        uri: "file:///a.rs".to_string(),
        range_start_line: 1,
        range_start_character: 2,
        range_end_line: 3,
        range_end_character: 4,
        byte_start: 5,
        byte_end: 6,
        snippet: None,
        snippet_highlight_start_line: Some(9),
        snippet_highlight_start_character: None,
        snippet_highlight_end_line: None,
        snippet_highlight_end_character: None,
        language: "rust".to_string(),
        is_in_test: true,
        is_conditional: false,
        is_generated: false,
        namespace: "ns".to_string(),
        repo: "repo".to_string(),
    }
}

fn nodes(db: &HelixGraphStorage, label: &str, index: &str, key: Value) -> Vec<TraversalValue> {
    RoTraversalIterator::new().n_from_index(db, label, index, &key).collect_values()
}

fn text(s: &str) -> Value {
    Value::String(s.to_string())
}

fn prop<'a>(t: &'a TraversalValue, name: &str) -> Option<&'a Value> {
    match t {
        TraversalValue::Node(n) => n.get_property(name),
        TraversalValue::Edge(e) => e.get_property(name),
        TraversalValue::Empty => None,
    }
}

fn message(e: GraphError) -> String {
    match e {
        GraphError::New(m) => m,
        other => panic!("unexpected error {:?}", other),
    }
}

#[test]
fn empty_batch_creates_then_updates_ingest_state() {
    let mut db = store();
    let ack = ApplyMutationBatch(&mut db, &empty_batch(3, 10, "r1")).unwrap();
    assert_eq!((ack.partition, ack.offset, ack.to_rev.as_str()), (3, 10, "r1"));
    let state = nodes(&db, "IngestState", "partition", Value::U32(3));
    assert_eq!(state.len(), 1);
    assert!(matches!(prop(&state[0], "offset"), Some(Value::U64(10))));

    ApplyMutationBatch(&mut db, &empty_batch(3, 25, "r2")).unwrap();
    let state = nodes(&db, "IngestState", "partition", Value::U32(3));
    assert_eq!(state.len(), 1);
    assert!(matches!(prop(&state[0], "offset"), Some(Value::U64(25))));
    assert!(matches!(prop(&state[0], "to_rev"), Some(Value::String(s)) if s == "r2"));
    assert!(matches!(prop(&state[0], "partition"), Some(Value::U32(3))));
}

#[test]
fn missing_partition_index_is_reported_and_nothing_is_written() {
    let mut db = HelixGraphStorage::new(vec!["stable_id".to_string()], vec!["stable_id".to_string()], Vec::new(), 1);
    let mut batch = empty_batch(1, 1, "r");
    batch.file_upsert = Some(file("file:a", "a.rs"));
    let err = ApplyMutationBatch(&mut db, &batch).unwrap_err();
    assert_eq!(message(err), "Secondary index not found: partition");
    assert!(db.nodes.is_empty());
    assert_eq!(db.next_id, 1);
}

#[test]
fn file_is_created_then_updated_in_place() {
    let mut db = store();
    let mut batch = empty_batch(0, 1, "r");
    batch.file_upsert = Some(file("file:a", "a.rs"));
    ApplyMutationBatch(&mut db, &batch).unwrap();
    let files = nodes(&db, "File", "stable_id", text("file:a"));
    assert_eq!(files.len(), 1);
    let id = files[0].id();
    assert_eq!(nodes(&db, "File", "path", text("a.rs")).len(), 1);

    batch.file_upsert = Some(file("file:a", "b.rs"));
    ApplyMutationBatch(&mut db, &batch).unwrap();
    let files = nodes(&db, "File", "stable_id", text("file:a"));
    assert_eq!(files.len(), 1);
    assert_eq!(files[0].id(), id);
    assert!(matches!(prop(&files[0], "path"), Some(Value::String(s)) if s == "b.rs"));
    assert!(matches!(prop(&files[0], "stable_id"), Some(Value::String(s)) if s == "file:a"));
}

#[test]
fn symbols_placeholders_edges_and_drops() {
    let mut db = store();
    let mut batch = empty_batch(0, 1, "r");
    batch.symbol_upserts = vec![
        symbol("sym:a", "crate::a", "a"),
        symbol("sym:p", "synthetic://p", "p"),
    ];
    batch.edge_upserts = vec![edge("Calls", "e1", "sym:a", "sym:p", Some("x"))];
    ApplyMutationBatch(&mut db, &batch).unwrap();

    let a = nodes(&db, "Symbol", "stable_id", text("sym:a"));
    assert_eq!(a.len(), 1);
    assert!(matches!(prop(&a[0], "signature"), Some(Value::String(s)) if s.is_empty()));
    assert!(matches!(prop(&a[0], "doc"), Some(Value::String(s)) if s == "docs"));
    assert!(matches!(prop(&a[0], "default_x"), Some(Value::F64Bits(b)) if f64::from_bits(*b) == 1.5));
    match &a[0] {
        TraversalValue::Node(n) => assert_eq!(n.properties.len(), 24),
        _ => panic!("expected a node"),
    }
    let key = text("e1");
    let edges = RoTraversalIterator::new().e_from_index(&db, "Calls", "stable_id", &key).collect_values();
    assert_eq!(edges.len(), 1);
    assert!(matches!(prop(&edges[0], "payload"), Some(Value::String(s)) if s == "x"));

    // A placeholder never overwrites; a real symbol is updated.
    let mut again = empty_batch(0, 2, "r");
    again.symbol_upserts = vec![
        symbol("sym:a", "crate::a", "renamed"),
        symbol("sym:p", "synthetic://p", "renamed"),
    ];
    again.edge_upserts = vec![edge("Calls", "e1", "sym:a", "sym:p", None)];
    ApplyMutationBatch(&mut db, &again).unwrap();
    let a = nodes(&db, "Symbol", "stable_id", text("sym:a"));
    let p = nodes(&db, "Symbol", "stable_id", text("sym:p"));
    assert!(matches!(prop(&a[0], "name"), Some(Value::String(s)) if s == "renamed"));
    assert!(matches!(prop(&p[0], "name"), Some(Value::String(s)) if s == "p"));
    let edges = RoTraversalIterator::new().e_from_index(&db, "Calls", "stable_id", &key).collect_values();
    assert_eq!(edges.len(), 1);
    assert!(matches!(prop(&edges[0], "payload"), Some(Value::String(s)) if s == "x"));

    // Dropping the symbol removes it and the edge that touches it.
    let mut drop = empty_batch(0, 3, "r");
    drop.symbol_drops = vec![SymbolDrop { stable_id: "sym:a".to_string() }];
    ApplyMutationBatch(&mut db, &drop).unwrap();
    assert!(nodes(&db, "Symbol", "stable_id", text("sym:a")).is_empty());
    let edges = RoTraversalIterator::new().e_from_index(&db, "Calls", "stable_id", &key).collect_values();
    assert!(edges.is_empty());
}

#[test]
fn edge_drop_removes_only_matching_kind() {
    let mut db = store();
    let mut batch = empty_batch(0, 1, "r");
    batch.symbol_upserts = vec![symbol("sym:a", "a", "a"), symbol("sym:b", "b", "b")];
    batch.edge_upserts = vec![
        edge("Calls", "e1", "sym:a", "sym:b", None),
        edge("Refs", "e1", "sym:b", "sym:a", None),
    ];
    ApplyMutationBatch(&mut db, &batch).unwrap();
    let mut drop = empty_batch(0, 2, "r");
    drop.edge_drops = vec![EdgeDrop { kind: "Calls".to_string(), stable_id: "e1".to_string() }];
    ApplyMutationBatch(&mut db, &drop).unwrap();
    let key = text("e1");
    assert!(RoTraversalIterator::new().e_from_index(&db, "Calls", "stable_id", &key).collect_values().is_empty());
    assert_eq!(RoTraversalIterator::new().e_from_index(&db, "Refs", "stable_id", &key).collect_values().len(), 1);
}

#[test]
fn missing_endpoint_aborts_the_whole_batch() {
    let mut db = store();
    let mut batch = empty_batch(0, 1, "r");
    batch.file_upsert = Some(file("file:a", "a.rs"));
    batch.edge_upserts = vec![edge("Calls", "e1", "file:a", "site:zzz", None)];
    let err = ApplyMutationBatch(&mut db, &batch).unwrap_err();
    assert_eq!(message(err), "Missing node endpoint: stable_id=site:zzz (label=Site)");
    assert!(db.nodes.is_empty());
    assert!(db.edges.is_empty());
}

#[test]
fn sites_are_recreated_with_both_edges() {
    let mut db = store();
    let mut batch = empty_batch(0, 1, "r");
    batch.symbol_upserts = vec![symbol("sym:src", "s", "s"), symbol("sym:box", "b", "b")];
    batch.site_upserts = vec![site("site:1", "sym:src", "sym:box"), site("site:2", "sym:src", "")];
    ApplyMutationBatch(&mut db, &batch).unwrap();
    let s1 = nodes(&db, "Site", "stable_id", text("site:1"));
    assert_eq!(s1.len(), 1);
    assert!(matches!(prop(&s1[0], "is_in_test"), Some(Value::U32(1))));
    assert!(matches!(prop(&s1[0], "snippet_highlight_start_line"), Some(Value::U32(9))));
    assert!(matches!(prop(&s1[0], "snippet_highlight_end_line"), Some(Value::U32(0))));
    assert!(matches!(prop(&s1[0], "snippet"), Some(Value::String(s)) if s.is_empty()));
    let in_symbol: Vec<_> = db.edges.iter().filter(|e| e.label == "SiteInSymbol").collect();
    let uses: Vec<_> = db.edges.iter().filter(|e| e.label == "SiteUsesSymbol").collect();
    assert_eq!(in_symbol.len(), 1);
    assert_eq!(uses.len(), 2);
    assert_eq!(in_symbol[0].to_node, s1[0].id());

    // Upserting the same site again keeps exactly one node and one edge set.
    let mut again = empty_batch(0, 2, "r");
    again.site_upserts = vec![site("site:1", "sym:src", "sym:box")];
    ApplyMutationBatch(&mut db, &again).unwrap();
    assert_eq!(nodes(&db, "Site", "stable_id", text("site:1")).len(), 1);
    assert_eq!(db.edges.iter().filter(|e| e.label == "SiteInSymbol").count(), 1);
    assert_eq!(db.edges.iter().filter(|e| e.label == "SiteUsesSymbol").count(), 2);

    // Dropping a site's edges keeps the site node.
    let mut drop = empty_batch(0, 3, "r");
    drop.site_drops = vec![SiteDrop { stable_id: "site:1".to_string() }];
    ApplyMutationBatch(&mut db, &drop).unwrap();
    assert_eq!(nodes(&db, "Site", "stable_id", text("site:1")).len(), 1);
    assert_eq!(db.edges.iter().filter(|e| e.label == "SiteInSymbol").count(), 0);
    assert_eq!(db.edges.iter().filter(|e| e.label == "SiteUsesSymbol").count(), 1);
}

#[test]
fn resolve_uses_cache_then_index_by_prefix() {
    let mut db = store();
    let file_node = db.add_n(
        "File",
        vec![("stable_id".to_string(), text("file:x"))],
        vec!["stable_id".to_string()],
    );
    let mut cache = NodeIdCache::new();
    let id = resolve_endpoint_node_id(&db, &mut cache, &"file:x".to_string()).unwrap();
    assert_eq!(id, file_node.id);
    assert_eq!(cache.get("file:x"), Some(file_node.id));
    cache.insert("sym:y", 99);
    assert_eq!(resolve_endpoint_node_id(&db, &mut cache, &"sym:y".to_string()).unwrap(), 99);
    let err = resolve_endpoint_node_id(&db, &mut cache, &"sym:none".to_string()).unwrap_err();
    assert_eq!(message(err), "Missing node endpoint: stable_id=sym:none (label=Symbol)");
    cache.remove("sym:y");
    assert_eq!(cache.get("sym:y"), None);
}

#[test]
fn first_node_id_skips_other_values() {
    let node = Node { id: 5, label: "X".to_string(), properties: Vec::new(), indices: Vec::new() };
    let values = vec![TraversalValue::Empty, TraversalValue::Node(node)];
    assert_eq!(first_node_id(&values).unwrap(), 5);
    let err = first_node_id(&[TraversalValue::Empty]).unwrap_err();
    assert_eq!(message(err), "Expected node traversal value");
}

#[test]
fn label_header_is_checked() {
    let mut value = 4u64.to_le_bytes().to_vec();
    value.extend_from_slice(b"FileTAIL");
    assert!(bytes_have_label(&value, b"File", 4));
    assert!(!bytes_have_label(&value, b"Site", 4));
    assert!(!bytes_have_label(&value, b"Fil", 3));
    assert!(!bytes_have_label(&value[..10], b"File", 4));
    assert!(!bytes_have_label(&value[..5], b"File", 4));
}

#[test]
fn index_ids_or_missing_index() {
    let mut db = store();
    let n = db.add_n(
        "IngestState",
        vec![("partition".to_string(), Value::U32(4))],
        vec!["partition".to_string()],
    );
    assert_eq!(node_ids_for_index_u32(&db, "IngestState", "partition", 4).unwrap(), vec![n.id]);
    assert!(node_ids_for_index_u32(&db, "IngestState", "partition", 5).unwrap().is_empty());
    let err = node_ids_for_index_u32(&db, "IngestState", "offset", 4).unwrap_err();
    assert_eq!(message(err), "Secondary index not found: offset");
}
