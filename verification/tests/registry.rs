use pixel_canvas::registry::ClientRegistry;

#[test]
fn new_registry_is_empty() {
    let registry = ClientRegistry::new();
    assert_eq!(registry.count(), 0);
    assert!(!registry.contains(1));
    assert_eq!(registry.members(), Vec::<u64>::new());
}

#[test]
fn register_counts_each_client_once() {
    let mut registry = ClientRegistry::new();
    assert_eq!(registry.register(10), 1);
    assert_eq!(registry.register(10), 1);
    assert_eq!(registry.register(20), 2);
    assert_eq!(registry.count(), 2);
    assert!(registry.contains(10));
    assert!(registry.contains(20));
    assert!(!registry.contains(30));
}

#[test]
fn unregister_of_a_stranger_changes_nothing() {
    let mut registry = ClientRegistry::new();
    assert_eq!(registry.unregister(5), 0);
    assert_eq!(registry.register(1), 1);
    assert_eq!(registry.unregister(5), 1);
    assert!(registry.contains(1));
}

#[test]
fn unregister_removes_once() {
    let mut registry = ClientRegistry::new();
    registry.register(1);
    registry.register(2);
    assert_eq!(registry.unregister(1), 1);
    assert_eq!(registry.unregister(1), 1);
    assert!(!registry.contains(1));
    assert!(registry.contains(2));
    assert_eq!(registry.unregister(2), 0);
    assert_eq!(registry.count(), 0);
}

#[test]
fn identifier_can_come_back_after_it_left() {
    let mut registry = ClientRegistry::new();
    assert_eq!(registry.register(7), 1);
    assert_eq!(registry.unregister(7), 0);
    assert_eq!(registry.register(7), 1);
    assert!(registry.contains(7));
}

#[test]
fn members_lists_each_client_once() {
    let mut registry = ClientRegistry::new();
    for client in [3u64, 1, 2, 3, 1] {
        registry.register(client);
    }
    let mut members = registry.members();
    members.sort();
    assert_eq!(members, vec![1, 2, 3]);
}

#[test]
fn count_after_many_connects_is_their_number() {
    let mut registry = ClientRegistry::new();
    for client in 0..1000u64 {
        assert_eq!(registry.register(client), client as usize + 1);
    }
    assert_eq!(registry.count(), 1000);
    assert_eq!(registry.members().len(), 1000);
}
