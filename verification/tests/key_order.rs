use rustree::flatten::flatten;
use rustree::registry::{set_dict_insertion_ordered, PyTreeTypeRegistry};
use rustree::tree::TreeValue;

fn leaf(v: u64) -> TreeValue {
    TreeValue::Leaf { type_id: 99, value: v }
}

// key handles ordered like the names they stand for
const KEY_A: u64 = 1;
const KEY_B: u64 = 2;

fn b_then_a_dict() -> TreeValue {
    // the mapping {b: 1, a: 2}, written in insertion order
    TreeValue::Dict(vec![(KEY_B, leaf(1)), (KEY_A, leaf(2))])
}

#[test]
fn default_policy_sorts_keys() {
    let registry = PyTreeTypeRegistry::new();
    let (leaves, spec) = flatten(&registry, &b_then_a_dict(), None, None, None).unwrap();
    // children visit the sorted keys a, b, so their values come out as 2, 1
    assert_eq!(leaves, vec![leaf(2), leaf(1)]);
    // fresh leaves land by sorted key order: a takes 10, b takes 20 — while
    // the mapping itself comes back in its original insertion order
    let rebuilt = spec.unflatten(vec![leaf(10), leaf(20)]).unwrap();
    assert_eq!(rebuilt, TreeValue::Dict(vec![(KEY_B, leaf(20)), (KEY_A, leaf(10))]));
}

#[test]
fn insertion_order_policy_keeps_keys() {
    let mut registry = PyTreeTypeRegistry::new();
    set_dict_insertion_ordered(&mut registry, true, None);
    let (leaves, spec) = flatten(&registry, &b_then_a_dict(), None, None, None).unwrap();
    assert_eq!(leaves, vec![leaf(1), leaf(2)]);
    let rebuilt = spec.unflatten(vec![leaf(10), leaf(20)]).unwrap();
    assert_eq!(rebuilt, TreeValue::Dict(vec![(KEY_B, leaf(10)), (KEY_A, leaf(20))]));
}

#[test]
fn ordered_mapping_never_sorts() {
    let registry = PyTreeTypeRegistry::new();
    let tree = TreeValue::OrderedDict(vec![(KEY_B, leaf(1)), (KEY_A, leaf(2))]);
    let (leaves, spec) = flatten(&registry, &tree, None, None, None).unwrap();
    assert_eq!(leaves, vec![leaf(1), leaf(2)]);
    let rebuilt = spec.unflatten(leaves).unwrap();
    assert_eq!(rebuilt, TreeValue::OrderedDict(vec![(KEY_B, leaf(1)), (KEY_A, leaf(2))]));
}

#[test]
fn default_mapping_sorts_and_keeps_factory() {
    let registry = PyTreeTypeRegistry::new();
    let tree = TreeValue::DefaultDict {
        default_factory: 77,
        entries: vec![(KEY_B, leaf(1)), (KEY_A, leaf(2))],
    };
    let (leaves, spec) = flatten(&registry, &tree, None, None, None).unwrap();
    assert_eq!(leaves, vec![leaf(2), leaf(1)]);
    let rebuilt = spec.unflatten(leaves).unwrap();
    assert_eq!(
        rebuilt,
        TreeValue::DefaultDict {
            default_factory: 77,
            entries: vec![(KEY_B, leaf(1)), (KEY_A, leaf(2))],
        }
    );
}
