use grf::registry::{RegistryError, TopicRegistry};

#[test]
fn seeded_registry_lists_finish_and_info() {
    let reg = TopicRegistry::seeded();
    let listing = reg.list();
    assert_eq!(listing.len(), 2);
    assert_eq!(listing[0], ("finish".to_string(), None));
    assert_eq!(listing[1], ("info".to_string(), None));
}

#[test]
fn ensure_creates_once_and_is_idempotent() {
    // two calls with identical arguments: both succeed, one record results
    let mut reg = TopicRegistry::new();
    let first = reg.ensure("temp".to_string(), Some("Float".to_string()));
    assert_eq!(first, Ok(true));
    let second = reg.ensure("temp".to_string(), Some("Float".to_string()));
    assert_eq!(second, Ok(false));
    let listing = reg.list();
    assert_eq!(listing.len(), 1);
    assert_eq!(listing[0], ("temp".to_string(), Some("Float".to_string())));
}

#[test]
fn ensure_refuses_a_conflicting_type() {
    // racing creations with different types: exactly one succeeds
    let mut reg = TopicRegistry::new();
    assert_eq!(reg.ensure("temp".to_string(), Some("Float".to_string())), Ok(true));
    let conflict = reg.ensure("temp".to_string(), Some("Int".to_string()));
    assert_eq!(conflict, Err(RegistryError::TypeConflict));
    let untyped_conflict = reg.ensure("temp".to_string(), None);
    assert_eq!(untyped_conflict, Err(RegistryError::TypeConflict));
    let listing = reg.list();
    assert_eq!(listing.len(), 1);
    assert_eq!(listing[0], ("temp".to_string(), Some("Float".to_string())));
}

#[test]
fn subscribers_are_kept_per_topic_in_order() {
    let mut reg = TopicRegistry::seeded();
    assert_eq!(reg.ensure("temp".to_string(), None), Ok(true));
    assert!(reg.add_subscriber(&"temp".to_string(), 7));
    assert!(reg.add_subscriber(&"temp".to_string(), 9));
    assert!(!reg.add_subscriber(&"nowhere".to_string(), 1));
    assert_eq!(reg.publish(&"temp".to_string()), Some(vec![7, 9]));
    assert_eq!(reg.publish(&"info".to_string()), Some(vec![]));
    assert_eq!(reg.publish(&"nowhere".to_string()), None);
}

#[test]
fn removing_a_subscriber_leaves_the_others() {
    let mut reg = TopicRegistry::new();
    assert_eq!(reg.ensure("a".to_string(), None), Ok(true));
    assert_eq!(reg.ensure("b".to_string(), None), Ok(true));
    assert!(reg.add_subscriber(&"a".to_string(), 1));
    assert!(reg.add_subscriber(&"a".to_string(), 2));
    assert!(reg.add_subscriber(&"b".to_string(), 2));
    reg.remove_subscriber(2);
    assert_eq!(reg.publish(&"a".to_string()), Some(vec![1]));
    assert_eq!(reg.publish(&"b".to_string()), Some(vec![]));
}

#[test]
fn snapshot_text_is_exact() {
    let mut reg = TopicRegistry::seeded();
    assert_eq!(reg.ensure("temp".to_string(), Some("Float".to_string())), Ok(true));
    assert_eq!(
        reg.topics_snapshot_json(),
        "{\"finish\":null,\"info\":null,\"temp\":\"Float\"}"
    );
}
