use rustree::flatten::flatten;
use rustree::registry::{register_node, PyTreeTypeRegistry};
use rustree::tree::TreeValue;
use rustree::unflatten::UnflattenError;

fn leaf(v: u64) -> TreeValue {
    TreeValue::Leaf { type_id: 99, value: v }
}

fn mixed_tree() -> TreeValue {
    TreeValue::Tuple(vec![
        leaf(1),
        TreeValue::List(vec![leaf(2), TreeValue::Null]),
        TreeValue::Dict(vec![(5, leaf(3)), (2, leaf(4))]),
        TreeValue::OrderedDict(vec![(9, leaf(5)), (4, leaf(6))]),
        TreeValue::DefaultDict { default_factory: 8, entries: vec![(3, leaf(7))] },
        TreeValue::NamedTuple { type_id: 70, fields: vec![leaf(8), leaf(9)] },
        TreeValue::Deque { max_len: Some(16), items: vec![leaf(10)] },
        TreeValue::StructSequence { type_id: 71, fields: vec![leaf(11)] },
    ])
}

#[test]
fn round_trip_mixed_builtins() {
    let registry = PyTreeTypeRegistry::new();
    let (leaves, spec) = flatten(&registry, &mixed_tree(), None, None, None).unwrap();
    assert_eq!(spec.num_leaves(), leaves.len());
    let rebuilt = spec.unflatten(leaves).unwrap();
    assert_eq!(rebuilt, mixed_tree());
}

#[test]
fn round_trip_empty_containers() {
    let registry = PyTreeTypeRegistry::new();
    let tree = TreeValue::List(vec![
        TreeValue::Tuple(vec![]),
        TreeValue::Dict(vec![]),
        TreeValue::Deque { max_len: None, items: vec![] },
    ]);
    let (leaves, spec) = flatten(&registry, &tree, None, None, None).unwrap();
    assert_eq!(leaves, Vec::<TreeValue>::new());
    let rebuilt = spec.unflatten(leaves).unwrap();
    assert_eq!(rebuilt, tree);
}

#[test]
fn round_trip_registered_object() {
    let mut registry = PyTreeTypeRegistry::new();
    register_node(&mut registry, 80, 1, 2, 3, None).unwrap();
    let tree = TreeValue::List(vec![TreeValue::Object {
        type_id: 80,
        children: vec![leaf(1), TreeValue::Tuple(vec![leaf(2)])],
        node_data: 55,
        entry_labels: Some(vec![6, 7]),
    }]);
    let (leaves, spec) = flatten(&registry, &tree, None, None, None).unwrap();
    assert_eq!(leaves, vec![leaf(1), leaf(2)]);
    let rebuilt = spec.unflatten(leaves).unwrap();
    assert_eq!(rebuilt, tree);
}

#[test]
fn round_trip_none_is_leaf() {
    let registry = PyTreeTypeRegistry::new();
    let tree = TreeValue::Tuple(vec![TreeValue::Null, leaf(1)]);
    let (leaves, spec) = flatten(&registry, &tree, None, Some(true), None).unwrap();
    assert_eq!(leaves, vec![TreeValue::Null, leaf(1)]);
    let rebuilt = spec.unflatten(leaves).unwrap();
    assert_eq!(rebuilt, tree);
}

#[test]
fn unflatten_with_too_few_leaves() {
    let registry = PyTreeTypeRegistry::new();
    let tree = TreeValue::Tuple(vec![leaf(1), leaf(2)]);
    let (_, spec) = flatten(&registry, &tree, None, None, None).unwrap();
    let err = spec.unflatten(vec![leaf(1)]).unwrap_err();
    assert_eq!(err, UnflattenError::LeafCountMismatch);
}

#[test]
fn unflatten_with_leftover_leaves() {
    let registry = PyTreeTypeRegistry::new();
    let tree = TreeValue::Tuple(vec![leaf(1), leaf(2)]);
    let (_, spec) = flatten(&registry, &tree, None, None, None).unwrap();
    let err = spec.unflatten(vec![leaf(1), leaf(2), leaf(3)]).unwrap_err();
    assert_eq!(err, UnflattenError::StructureMismatch);
}

#[test]
fn unflatten_substitutes_fresh_leaves() {
    let registry = PyTreeTypeRegistry::new();
    let tree = TreeValue::List(vec![leaf(1), TreeValue::Tuple(vec![leaf(2), leaf(3)])]);
    let (_, spec) = flatten(&registry, &tree, None, None, None).unwrap();
    let rebuilt = spec.unflatten(vec![leaf(10), leaf(20), leaf(30)]).unwrap();
    assert_eq!(
        rebuilt,
        TreeValue::List(vec![leaf(10), TreeValue::Tuple(vec![leaf(20), leaf(30)])])
    );
}
