use rustree::registry::{
    is_dict_insertion_ordered, register_node, set_dict_insertion_ordered, unregister_node,
    PyTreeKind, PyTreeTypeRegistry, RegistryError,
};
use rustree::tree::{TreeValue, TYPE_LIST};

fn object(type_id: u64) -> TreeValue {
    TreeValue::Object { type_id, children: vec![], node_data: 0, entry_labels: None }
}

#[test]
fn register_then_lookup_custom() {
    let mut registry = PyTreeTypeRegistry::new();
    register_node(&mut registry, 50, 7, 8, 9, None).unwrap();
    let (kind, reg) = registry.lookup(&object(50), None, None);
    assert_eq!(kind, PyTreeKind::Custom);
    let reg = reg.unwrap();
    assert_eq!(reg.type_id, 50);
    assert_eq!(reg.flatten_func, Some(7));
    assert_eq!(reg.unflatten_func, Some(8));
    assert_eq!(reg.path_entry_type, Some(9));
}

#[test]
fn unregister_restores_leaf_classification() {
    let mut registry = PyTreeTypeRegistry::new();
    let (kind_before, _) = registry.lookup(&object(60), None, None);
    assert_eq!(kind_before, PyTreeKind::Leaf);
    register_node(&mut registry, 60, 1, 2, 3, None).unwrap();
    let (kind_mid, _) = registry.lookup(&object(60), None, None);
    assert_eq!(kind_mid, PyTreeKind::Custom);
    unregister_node(&mut registry, 60, None).unwrap();
    let (kind_after, reg_after) = registry.lookup(&object(60), None, None);
    assert_eq!(kind_after, PyTreeKind::Leaf);
    assert!(reg_after.is_none());
}

#[test]
fn protected_builtin_cannot_be_registered() {
    let mut registry = PyTreeTypeRegistry::new();
    let err = register_node(&mut registry, TYPE_LIST, 1, 2, 3, None).unwrap_err();
    assert_eq!(err, RegistryError::ProtectedType);
    // the built-in classification is untouched
    let (kind, _) = registry.lookup(&TreeValue::List(vec![]), None, None);
    assert_eq!(kind, PyTreeKind::List);
}

#[test]
fn protected_builtin_cannot_be_unregistered() {
    let mut registry = PyTreeTypeRegistry::new();
    let err = unregister_node(&mut registry, TYPE_LIST, None).unwrap_err();
    assert_eq!(err, RegistryError::ProtectedType);
}

#[test]
fn duplicate_registration_is_reported() {
    let mut registry = PyTreeTypeRegistry::new();
    register_node(&mut registry, 51, 1, 2, 3, None).unwrap();
    let err = register_node(&mut registry, 51, 4, 5, 6, None).unwrap_err();
    assert_eq!(err, RegistryError::AlreadyRegistered);
    // the first registration still stands
    let (_, reg) = registry.lookup(&object(51), None, None);
    assert_eq!(reg.unwrap().flatten_func, Some(1));
}

#[test]
fn unregistering_missing_type_is_reported() {
    let mut registry = PyTreeTypeRegistry::new();
    let err = unregister_node(&mut registry, 52, None).unwrap_err();
    assert_eq!(err, RegistryError::NotRegistered);
}

#[test]
fn namespaced_registration_shadows_global() {
    let mut registry = PyTreeTypeRegistry::new();
    register_node(&mut registry, 53, 10, 11, 12, None).unwrap();
    register_node(&mut registry, 53, 20, 21, 22, Some("team")).unwrap();
    let (_, global_reg) = registry.lookup(&object(53), None, None);
    assert_eq!(global_reg.unwrap().flatten_func, Some(10));
    let (_, team_reg) = registry.lookup(&object(53), None, Some("team"));
    assert_eq!(team_reg.unwrap().flatten_func, Some(20));
    // an unrelated namespace falls back to the global entry
    let (_, other_reg) = registry.lookup(&object(53), None, Some("other"));
    assert_eq!(other_reg.unwrap().flatten_func, Some(10));
}

#[test]
fn namespaced_only_registration_is_invisible_globally() {
    let mut registry = PyTreeTypeRegistry::new();
    register_node(&mut registry, 54, 1, 2, 3, Some("team")).unwrap();
    let (kind, _) = registry.lookup(&object(54), None, None);
    assert_eq!(kind, PyTreeKind::Leaf);
    let (kind_ns, _) = registry.lookup(&object(54), None, Some("team"));
    assert_eq!(kind_ns, PyTreeKind::Custom);
}

#[test]
fn insertion_order_flag_per_namespace() {
    let mut registry = PyTreeTypeRegistry::new();
    assert!(!is_dict_insertion_ordered(&registry, None, None));
    set_dict_insertion_ordered(&mut registry, true, Some("team"));
    assert!(is_dict_insertion_ordered(&registry, Some("team"), None));
    assert!(!is_dict_insertion_ordered(&registry, None, None));
    assert!(!is_dict_insertion_ordered(&registry, Some("other"), None));
    set_dict_insertion_ordered(&mut registry, false, Some("team"));
    assert!(!is_dict_insertion_ordered(&registry, Some("team"), None));
}

#[test]
fn insertion_order_flag_inherits_global() {
    let mut registry = PyTreeTypeRegistry::new();
    set_dict_insertion_ordered(&mut registry, true, None);
    assert!(is_dict_insertion_ordered(&registry, Some("team"), None));
    assert!(is_dict_insertion_ordered(&registry, Some("team"), Some(true)));
    assert!(!is_dict_insertion_ordered(&registry, Some("team"), Some(false)));
}
