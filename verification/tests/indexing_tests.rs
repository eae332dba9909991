use helix_db::analyzer::text::capitalize_first;
use helix_db::errors::GraphError;
use helix_db::graph::HelixGraphStorage;
use helix_db::indexing::{
    edge_secondary_index_db_name, edge_secondary_index_not_found, secondary_index_not_found,
};
use helix_db::traversal::{NFromIndexAdapter, RoTraversalIterator};
use helix_db::value::Value;

fn message(e: GraphError) -> String {
    match e {
        GraphError::New(m) => m,
        other => panic!("unexpected error {:?}", other),
    }
}

#[test]
fn index_names_and_errors() {
    assert_eq!(edge_secondary_index_db_name("since"), "eidx::since");
    assert_eq!(message(secondary_index_not_found("email")), "Secondary Index email not found");
    assert_eq!(
        message(edge_secondary_index_not_found("since")),
        "Edge Secondary Index since not found"
    );
}

#[test]
fn missing_node_is_reported() {
    let storage = HelixGraphStorage::new(Vec::new(), Vec::new(), Vec::new(), 1);
    assert!(matches!(storage.get_node(&42), Err(GraphError::NodeNotFound)));
}

#[test]
fn capitalizes_only_the_first_character() {
    assert_eq!(capitalize_first("hello world"), "Hello world");
    assert_eq!(capitalize_first("éclair"), "Éclair");
    assert_eq!(capitalize_first(""), "");
    assert_eq!(capitalize_first("1abc"), "1abc");
}

#[test]
fn lookup_by_many_keys_yields_each_node_once() {
    let mut storage = HelixGraphStorage::new(vec!["name".to_string()], Vec::new(), Vec::new(), 1);
    for (label, name) in [("User", "ann"), ("User", "bob"), ("Team", "ann"), ("User", "cid")] {
        storage.add_n(
            label,
            vec![("name".to_string(), Value::String(name.to_string()))],
            vec!["name".to_string()],
        );
    }
    let keys = vec![
        Value::String("bob".to_string()),
        Value::String("ann".to_string()),
        Value::String("bob".to_string()),
        Value::String("zed".to_string()),
    ];
    let found = RoTraversalIterator::new()
        .n_from_index_in(&storage, "User", "name", &keys)
        .collect_values();
    let ids: Vec<u128> = found.iter().map(|t| t.id()).collect();
    assert_eq!(ids, vec![2, 1]);
}

#[test]
fn lookup_by_many_keys_is_the_union_of_single_lookups() {
    let mut storage = HelixGraphStorage::new(vec!["name".to_string()], Vec::new(), Vec::new(), 1);
    for (label, name) in [("User", "ann"), ("User", "bob"), ("User", "ann"), ("Team", "cid"), ("User", "cid")] {
        storage.add_n(
            label,
            vec![("name".to_string(), Value::String(name.to_string()))],
            vec!["name".to_string()],
        );
    }
    let key = |s: &str| Value::String(s.to_string());
    let ids_of = |keys: Vec<Value>| -> Vec<u128> {
        let mut ids: Vec<u128> = RoTraversalIterator::new()
            .n_from_index_in(&storage, "User", "name", &keys)
            .collect_values()
            .iter()
            .map(|t| t.id())
            .collect();
        ids.sort();
        ids
    };
    let mut union: Vec<u128> = Vec::new();
    for k in ["ann", "cid"] {
        for t in RoTraversalIterator::new().n_from_index(&storage, "User", "name", &key(k)).collect_values() {
            union.push(t.id());
        }
    }
    union.sort();
    assert_eq!(union, vec![1, 3, 5]);
    assert_eq!(ids_of(vec![key("ann"), key("cid")]), union);
    assert_eq!(ids_of(vec![key("cid"), key("ann"), key("ann")]), union);
    assert!(ids_of(Vec::new()).is_empty());
}

#[test]
fn repeating_a_key_yields_nothing_more() {
    let mut storage = HelixGraphStorage::new(vec!["name".to_string()], Vec::new(), Vec::new(), 1);
    for name in ["ann", "bob", "ann"] {
        storage.add_n(
            "User",
            vec![("name".to_string(), Value::String(name.to_string()))],
            vec!["name".to_string()],
        );
    }
    let ids_of = |keys: Vec<Value>| -> Vec<u128> {
        RoTraversalIterator::new()
            .n_from_index_in(&storage, "User", "name", &keys)
            .collect_values()
            .iter()
            .map(|t| t.id())
            .collect()
    };
    let ann = || Value::String("ann".to_string());
    assert_eq!(ids_of(vec![ann()]), vec![1, 3]);
    assert_eq!(ids_of(vec![ann(), ann()]), vec![1, 3]);
}
