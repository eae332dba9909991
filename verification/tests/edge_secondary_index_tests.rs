use helix_db::graph::HelixGraphStorage;
use helix_db::items::TraversalValue;
use helix_db::traversal::{EFromIndexAdapter, NFromIndexAdapter, RoTraversalIterator};
use helix_db::traversal_mut::{drop_traversal, update, AddEAdapter, RwTraversalIterator};
use helix_db::value::Value;

fn setup_indexed_db() -> HelixGraphStorage {
    HelixGraphStorage::new(Vec::new(), vec!["since".to_string()], Vec::new(), 1)
}

fn since(year: &str) -> Option<Vec<(String, Value)>> {
    Some(vec![("since".to_string(), Value::String(year.to_string()))])
}

fn add_works_at(storage: &mut HelixGraphStorage) -> (u128, u128, TraversalValue) {
    let from_id = storage.add_n("person", Vec::new(), Vec::new()).id;
    let to_id = storage.add_n("company", Vec::new(), Vec::new()).id;
    let edge = RwTraversalIterator::new()
        .add_edge(storage, "WorksAt", since("2020"), from_id, to_id, false)
        .collect_to_obj()
        .unwrap();
    (from_id, to_id, edge)
}

fn edges_since(storage: &HelixGraphStorage, year: &str) -> Vec<TraversalValue> {
    let key = Value::String(year.to_string());
    RoTraversalIterator::new()
        .e_from_index(storage, "WorksAt", "since", &key)
        .collect_values()
}

#[test]
fn test_e_from_index_returns_edges() {
    let mut storage = setup_indexed_db();
    let (_, _, edge) = add_works_at(&mut storage);

    let edges = edges_since(&storage, "2020");
    assert_eq!(edges.len(), 1);
    assert_eq!(edges[0].id(), edge.id());
}

#[test]
fn test_update_edge_secondary_indices() {
    let mut storage = setup_indexed_db();
    add_works_at(&mut storage);

    let traversal = edges_since(&storage, "2020");
    update(
        &mut storage,
        traversal,
        &vec![("since".to_string(), Value::String("2021".to_string()))],
    );

    let edges = edges_since(&storage, "2021");
    assert_eq!(edges.len(), 1);

    let edges = edges_since(&storage, "2020");
    assert!(edges.is_empty());
}

#[test]
fn test_drop_edge_removes_index_entries() {
    let mut storage = setup_indexed_db();
    add_works_at(&mut storage);

    let traversal = edges_since(&storage, "2020");
    drop_traversal(traversal, &mut storage).unwrap();

    let edges = edges_since(&storage, "2020");
    assert!(edges.is_empty());
}

#[test]
fn test_drop_node_cleans_incident_edge_indices() {
    let mut storage = setup_indexed_db();
    let (from_id, _, _) = add_works_at(&mut storage);

    let node = storage.get_node(&from_id).unwrap();
    drop_traversal(vec![TraversalValue::Node(node)], &mut storage).unwrap();

    let edges = edges_since(&storage, "2020");
    assert!(edges.is_empty());
}

#[test]
fn edge_takes_latest_label_version_and_fresh_ids() {
    let mut storage = HelixGraphStorage::new(
        Vec::new(),
        vec!["since".to_string()],
        vec![("WorksAt".to_string(), 3)],
        10,
    );
    let (from_id, to_id, edge) = add_works_at(&mut storage);
    assert_eq!((from_id, to_id), (10, 11));
    match edge {
        TraversalValue::Edge(e) => {
            assert_eq!(e.id, 12);
            assert_eq!(e.version, 3);
            assert_eq!(e.from_node, 10);
            assert_eq!(e.to_node, 11);
        }
        _ => panic!("expected an edge"),
    }
    let plain = RwTraversalIterator::new()
        .add_edge(&mut storage, "Knows", None, from_id, to_id, false)
        .collect_to_obj()
        .unwrap();
    match plain {
        TraversalValue::Edge(e) => {
            assert_eq!(e.version, 1);
            assert!(e.properties.is_empty());
        }
        _ => panic!("expected an edge"),
    }
}

#[test]
fn node_index_needs_label_registration_and_value() {
    let mut storage = HelixGraphStorage::new(vec!["name".to_string()], Vec::new(), Vec::new(), 1);
    storage.add_n(
        "User",
        vec![("name".to_string(), Value::String("ann".to_string()))],
        vec!["name".to_string()],
    );
    storage.add_n(
        "User",
        vec![("name".to_string(), Value::String("ann".to_string()))],
        Vec::new(),
    );
    storage.add_n(
        "Team",
        vec![("name".to_string(), Value::String("ann".to_string()))],
        vec!["name".to_string()],
    );
    let key = Value::String("ann".to_string());
    let found = RoTraversalIterator::new()
        .n_from_index(&storage, "User", "name", &key)
        .collect_values();
    assert_eq!(found.len(), 1);
    assert_eq!(found[0].id(), 1);
}

#[test]
fn update_sets_existing_and_new_properties() {
    let mut storage = HelixGraphStorage::new(Vec::new(), Vec::new(), Vec::new(), 1);
    let node = storage.add_n(
        "User",
        vec![("name".to_string(), Value::String("ann".to_string()))],
        Vec::new(),
    );
    let out = update(
        &mut storage,
        vec![TraversalValue::Node(node)],
        &vec![
            ("name".to_string(), Value::String("bob".to_string())),
            ("age".to_string(), Value::U32(7)),
        ],
    );
    assert_eq!(out.len(), 1);
    let stored = storage.get_node(&1).unwrap();
    assert!(matches!(stored.get_property("name"), Some(Value::String(s)) if s == "bob"));
    assert!(matches!(stored.get_property("age"), Some(Value::U32(7))));
    assert_eq!(stored.properties.len(), 2);
}
