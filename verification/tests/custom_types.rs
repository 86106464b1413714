use rustree::flatten::{flatten, is_leaf, FlattenError};
use rustree::registry::{register_node, unregister_node, PyTreeKind, PyTreeTypeRegistry};
use rustree::tree::TreeValue;

fn leaf(v: u64) -> TreeValue {
    TreeValue::Leaf { type_id: 99, value: v }
}

fn pair_object(x: u64, y: u64) -> TreeValue {
    // a value of a custom type whose flatten callable yields its two fields
    // and no payload
    TreeValue::Object { type_id: 50, children: vec![leaf(x), leaf(y)], node_data: 0, entry_labels: None }
}

#[test]
fn custom_round_trip_with_fresh_leaves() {
    let mut registry = PyTreeTypeRegistry::new();
    register_node(&mut registry, 50, 1, 2, 3, None).unwrap();
    let (leaves, spec) = flatten(&registry, &pair_object(1, 2), None, None, None).unwrap();
    assert_eq!(leaves, vec![leaf(1), leaf(2)]);
    assert_eq!(spec.kind(), PyTreeKind::Custom);
    assert_eq!(spec.root_type(), Some(50));
    let rebuilt = spec.unflatten(vec![leaf(3), leaf(4)]).unwrap();
    assert_eq!(rebuilt, pair_object(3, 4));
}

#[test]
fn unregistered_object_is_one_leaf() {
    let registry = PyTreeTypeRegistry::new();
    let (leaves, spec) = flatten(&registry, &pair_object(1, 2), None, None, None).unwrap();
    assert_eq!(leaves, vec![pair_object(1, 2)]);
    assert_eq!(spec.num_leaves(), 1);
    assert_eq!(spec.kind(), PyTreeKind::Leaf);
}

#[test]
fn registration_round_trip_restores_classification() {
    let mut registry = PyTreeTypeRegistry::new();
    assert!(is_leaf(&registry, &pair_object(1, 2), None, None, None));
    register_node(&mut registry, 50, 1, 2, 3, None).unwrap();
    assert!(!is_leaf(&registry, &pair_object(1, 2), None, None, None));
    unregister_node(&mut registry, 50, None).unwrap();
    assert!(is_leaf(&registry, &pair_object(1, 2), None, None, None));
}

#[test]
fn custom_flatten_found_keeps_namespace() {
    let mut registry = PyTreeTypeRegistry::new();
    register_node(&mut registry, 50, 1, 2, 3, Some("team")).unwrap();
    let tree = TreeValue::List(vec![pair_object(1, 2)]);
    let (_, spec) = flatten(&registry, &tree, None, None, Some("team")).unwrap();
    assert_eq!(spec.namespace(), String::from("team"));
    // without the namespace the type is unregistered and the tree is
    // custom-free, so the namespace normalizes to the global one
    let (_, spec2) = flatten(&registry, &tree, None, None, None).unwrap();
    assert_eq!(spec2.namespace(), String::new());
}

#[test]
fn entry_label_count_must_match_children() {
    let mut registry = PyTreeTypeRegistry::new();
    register_node(&mut registry, 50, 1, 2, 3, None).unwrap();
    let bad = TreeValue::Object {
        type_id: 50,
        children: vec![leaf(1), leaf(2)],
        node_data: 0,
        entry_labels: Some(vec![6]),
    };
    let err = match flatten(&registry, &bad, None, None, None) {
        Err(e) => e,
        Ok(_) => panic!("a label count mismatch must fail"),
    };
    assert_eq!(err, FlattenError::InvalidCustomFlatten);
    let good = TreeValue::Object {
        type_id: 50,
        children: vec![leaf(1), leaf(2)],
        node_data: 0,
        entry_labels: Some(vec![6, 7]),
    };
    let (leaves, spec) = flatten(&registry, &good, None, None, None).unwrap();
    let rebuilt = spec.unflatten(leaves).unwrap();
    assert_eq!(rebuilt, good);
}

#[test]
fn custom_payload_survives_round_trip() {
    let mut registry = PyTreeTypeRegistry::new();
    register_node(&mut registry, 50, 1, 2, 3, None).unwrap();
    let tree = TreeValue::Object {
        type_id: 50,
        children: vec![leaf(1)],
        node_data: 12345,
        entry_labels: None,
    };
    let (leaves, spec) = flatten(&registry, &tree, None, None, None).unwrap();
    let rebuilt = spec.unflatten(leaves).unwrap();
    assert_eq!(rebuilt, tree);
}
