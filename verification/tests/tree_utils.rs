use rustree::registry::PyTreeKind;
use rustree::tree::{clone_tree, TreeValue, TYPE_DEQUE, TYPE_DICT, TYPE_NONE, TYPE_TUPLE};
use rustree::treespec::{Node, NodeData, PyTreeSpec};

fn leaf(v: u64) -> TreeValue {
    TreeValue::Leaf { type_id: 99, value: v }
}

#[test]
fn clone_tree_is_structural() {
    let tree = TreeValue::Dict(vec![
        (1, TreeValue::Tuple(vec![leaf(1), TreeValue::Null])),
        (2, TreeValue::Object { type_id: 50, children: vec![leaf(2)], node_data: 3, entry_labels: Some(vec![4]) }),
    ]);
    assert_eq!(clone_tree(&tree), tree);
}

#[test]
fn runtime_type_identities() {
    assert_eq!(leaf(0).type_id(), 99);
    assert_eq!(TreeValue::Null.type_id(), TYPE_NONE);
    assert_eq!(TreeValue::Tuple(vec![]).type_id(), TYPE_TUPLE);
    assert_eq!(TreeValue::Dict(vec![]).type_id(), TYPE_DICT);
    assert_eq!(TreeValue::Deque { max_len: None, items: vec![] }.type_id(), TYPE_DEQUE);
    assert_eq!(TreeValue::NamedTuple { type_id: 70, fields: vec![] }.type_id(), 70);
    assert_eq!(
        TreeValue::Object { type_id: 71, children: vec![], node_data: 0, entry_labels: None }
            .type_id(),
        71
    );
}

#[test]
fn node_assembly_and_default() {
    let node = Node::new(
        PyTreeKind::Deque,
        2,
        NodeData::MaxLen(Some(5)),
        None,
        None,
        2,
        3,
        None,
    );
    assert_eq!(node.kind, PyTreeKind::Deque);
    assert_eq!(node.arity, 2);
    assert_eq!(node.node_data, NodeData::MaxLen(Some(5)));
    assert_eq!(node.num_leaves, 2);
    assert_eq!(node.num_nodes, 3);
    let fresh = Node::default();
    assert_eq!(fresh.kind, PyTreeKind::Leaf);
    assert_eq!(fresh.arity, 0);
    assert_eq!(fresh.node_data, NodeData::Empty);
    assert_eq!(fresh.num_leaves, 0);
    assert_eq!(fresh.num_nodes, 0);
    assert_eq!(fresh.get_type(), None);
}

#[test]
fn treespec_assembly() {
    let node = Node::default();
    let spec = PyTreeSpec::new(vec![node], false, String::new());
    assert_eq!(spec.num_nodes(), 1);
    assert!(!spec.none_is_leaf());
    assert_eq!(spec.namespace(), String::new());
}
