use rustree::flatten::{flatten, is_leaf, FlattenError, MAX_RECURSION_DEPTH};
use rustree::registry::{PyTreeKind, PyTreeTypeRegistry};
use rustree::tree::{TreeValue, TYPE_DICT, TYPE_TUPLE};

fn leaf(v: u64) -> TreeValue {
    TreeValue::Leaf { type_id: 99, value: v }
}

#[test]
fn flatten_single_leaf() {
    let registry = PyTreeTypeRegistry::new();
    let (leaves, spec) = flatten(&registry, &leaf(42), None, None, None).unwrap();
    assert_eq!(leaves, vec![leaf(42)]);
    assert_eq!(spec.num_leaves(), 1);
    assert_eq!(spec.num_nodes(), 1);
    assert_eq!(spec.num_children(), 0);
    assert_eq!(spec.kind(), PyTreeKind::Leaf);
    assert_eq!(spec.root_type(), None);
    assert!(!spec.none_is_leaf());
    assert_eq!(spec.namespace(), String::new());
}

#[test]
fn flatten_tuple_of_leaves() {
    let registry = PyTreeTypeRegistry::new();
    let tree = TreeValue::Tuple(vec![leaf(1), leaf(2), leaf(3)]);
    let (leaves, spec) = flatten(&registry, &tree, None, None, None).unwrap();
    assert_eq!(leaves, vec![leaf(1), leaf(2), leaf(3)]);
    assert_eq!(spec.num_leaves(), 3);
    assert_eq!(spec.num_nodes(), 4);
    assert_eq!(spec.num_children(), 3);
    assert_eq!(spec.kind(), PyTreeKind::Tuple);
    assert_eq!(spec.root_type(), Some(TYPE_TUPLE));
}

#[test]
fn flatten_nested_counts() {
    let registry = PyTreeTypeRegistry::new();
    let tree = TreeValue::List(vec![
        TreeValue::Tuple(vec![leaf(1), leaf(2)]),
        leaf(3),
        TreeValue::List(vec![]),
    ]);
    let (leaves, spec) = flatten(&registry, &tree, None, None, None).unwrap();
    assert_eq!(leaves, vec![leaf(1), leaf(2), leaf(3)]);
    // one root, three children, two grandchildren under the tuple
    assert_eq!(spec.num_nodes(), 6);
    assert_eq!(spec.num_leaves(), 3);
    assert_eq!(spec.num_children(), 3);
    assert_eq!(spec.kind(), PyTreeKind::List);
}

#[test]
fn null_is_container_by_default() {
    let registry = PyTreeTypeRegistry::new();
    let (leaves, spec) = flatten(&registry, &TreeValue::Null, None, None, None).unwrap();
    assert_eq!(leaves, Vec::<TreeValue>::new());
    assert_eq!(spec.num_leaves(), 0);
    assert_eq!(spec.num_nodes(), 1);
    assert_eq!(spec.kind(), PyTreeKind::Null);
}

#[test]
fn null_is_leaf_when_asked() {
    let registry = PyTreeTypeRegistry::new();
    let (leaves, spec) = flatten(&registry, &TreeValue::Null, None, Some(true), None).unwrap();
    assert_eq!(leaves, vec![TreeValue::Null]);
    assert_eq!(spec.num_leaves(), 1);
    assert_eq!(spec.kind(), PyTreeKind::Leaf);
    assert!(spec.none_is_leaf());
}

#[test]
fn leaf_predicate_stops_recursion() {
    let registry = PyTreeTypeRegistry::new();
    let inner = TreeValue::Tuple(vec![leaf(1), leaf(2)]);
    let tree = TreeValue::List(vec![inner]);
    let pred = vec![TYPE_TUPLE];
    let (leaves, spec) = flatten(&registry, &tree, Some(&pred), None, None).unwrap();
    assert_eq!(leaves, vec![TreeValue::Tuple(vec![leaf(1), leaf(2)])]);
    assert_eq!(spec.num_leaves(), 1);
    assert_eq!(spec.num_nodes(), 2);
}

#[test]
fn is_leaf_classification() {
    let registry = PyTreeTypeRegistry::new();
    assert!(is_leaf(&registry, &leaf(0), None, None, None));
    assert!(!is_leaf(&registry, &TreeValue::Tuple(vec![]), None, None, None));
    assert!(!is_leaf(&registry, &TreeValue::Dict(vec![]), None, None, None));
    // null follows the mode
    assert!(!is_leaf(&registry, &TreeValue::Null, None, Some(false), None));
    assert!(is_leaf(&registry, &TreeValue::Null, None, Some(true), None));
    // an unregistered record tuple is not a leaf
    let nt = TreeValue::NamedTuple { type_id: 70, fields: vec![leaf(1)] };
    assert!(!is_leaf(&registry, &nt, None, None, None));
    let ss = TreeValue::StructSequence { type_id: 71, fields: vec![leaf(1)] };
    assert!(!is_leaf(&registry, &ss, None, None, None));
    // an unregistered opaque object is a leaf by default
    let obj = TreeValue::Object { type_id: 72, children: vec![], node_data: 0, entry_labels: None };
    assert!(is_leaf(&registry, &obj, None, None, None));
    // a caller predicate overrides everything
    let pred = vec![TYPE_DICT];
    assert!(is_leaf(&registry, &TreeValue::Dict(vec![]), Some(&pred), None, None));
}

#[test]
fn depth_guard() {
    let registry = PyTreeTypeRegistry::new();
    // a chain of MAX_RECURSION_DEPTH nested lists puts the leaf exactly at
    // the ceiling and succeeds
    let mut ok_tree = leaf(7);
    for _ in 0..MAX_RECURSION_DEPTH {
        ok_tree = TreeValue::List(vec![ok_tree]);
    }
    let (leaves, spec) = flatten(&registry, &ok_tree, None, None, None).unwrap();
    assert_eq!(leaves, vec![leaf(7)]);
    assert_eq!(spec.num_nodes(), MAX_RECURSION_DEPTH + 1);
    // one level deeper fails
    let mut deep_tree = leaf(7);
    for _ in 0..(MAX_RECURSION_DEPTH + 1) {
        deep_tree = TreeValue::List(vec![deep_tree]);
    }
    let err = match flatten(&registry, &deep_tree, None, None, None) {
        Err(e) => e,
        Ok(_) => panic!("a nesting past the ceiling must fail"),
    };
    assert_eq!(err, FlattenError::RecursionLimitExceeded);
}

#[test]
fn namespace_normalizes_without_custom_nodes() {
    let registry = PyTreeTypeRegistry::new();
    let tree = TreeValue::Tuple(vec![leaf(1)]);
    let (_, spec) = flatten(&registry, &tree, None, None, Some("team")).unwrap();
    assert_eq!(spec.namespace(), String::new());
}
