use move_package_analyzer::execution::{unmetered_verifier, ExecutionLayer, VM_REWORK};
use move_package_analyzer::identifiers::IdentifierMap;

#[test]
fn interning_twice_yields_the_same_index() {
    let mut ids = IdentifierMap::new();
    let a = ids.get_identifier_idx(&"coin".to_string());
    let b = ids.get_identifier_idx(&"balance".to_string());
    let a2 = ids.get_identifier_idx(&"coin".to_string());
    assert_eq!(a, 0);
    assert_eq!(b, 1);
    assert_eq!(a2, a);
    assert_eq!(ids.len(), 2);
    assert_eq!(ids.get_identifier(a), "coin");
    assert_eq!(ids.get_identifier(b), "balance");
}

#[test]
fn lookup_does_not_intern() {
    let mut ids = IdentifierMap::new();
    ids.get_identifier_idx(&"x".to_string());
    assert_eq!(ids.lookup(&"x".to_string()), Some(0));
    assert_eq!(ids.lookup(&"y".to_string()), None);
    assert_eq!(ids.len(), 1);
}

#[test]
fn empty_and_unicode_names_are_interned() {
    let mut ids = IdentifierMap::new();
    let e = ids.get_identifier_idx(&String::new());
    let u = ids.get_identifier_idx(&"größe".to_string());
    assert_ne!(e, u);
    assert_eq!(ids.get_identifier_idx(&String::new()), e);
    assert_eq!(ids.identifier_string(u), "größe");
}

#[test]
fn many_names_keep_distinct_indices() {
    let mut ids = IdentifierMap::new();
    for i in 0..500 {
        assert_eq!(ids.get_identifier_idx(&format!("name_{}", i)), i);
    }
    for i in 0..500 {
        assert_eq!(ids.get_identifier_idx(&format!("name_{}", i)), i);
        assert_eq!(ids.get_identifier(i), format!("name_{}", i));
    }
    assert_eq!(ids.len(), 500);
}

#[test]
fn execution_versions_select_their_layer() {
    assert_eq!(unmetered_verifier(0), ExecutionLayer::V0);
    assert_eq!(unmetered_verifier(1), ExecutionLayer::Latest);
    assert_eq!(unmetered_verifier(VM_REWORK), ExecutionLayer::VmRework);
}
