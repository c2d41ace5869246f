use grf::handler::{
    handle_connection, handle_message_kind_list, handle_message_kind_pub, handle_message_kind_sub,
    Outcome,
};
use grf::json::Json;
use grf::registry::TopicRegistry;
use grf::schema::SchemaStore;

fn chars(s: &str) -> Vec<char> {
    s.chars().collect()
}

fn float_store() -> SchemaStore {
    let mut store = SchemaStore::new();
    assert!(store.add("Float".to_string(), "{\"type\":\"number\"}".to_string()));
    store
}

#[test]
fn schema_store_refuses_bad_documents_and_duplicates() {
    let mut store = SchemaStore::new();
    assert!(!store.add("Broken".to_string(), "not json at all".to_string()));
    assert!(store.add("Float".to_string(), "{\"type\":\"number\"}".to_string()));
    assert!(!store.add("Float".to_string(), "{\"type\":\"string\"}".to_string()));
}

#[test]
fn subscribe_creates_the_topic_and_registers_the_connection() {
    let mut reg = TopicRegistry::seeded();
    let outcome = handle_message_kind_sub(&mut reg, 7, "temp".to_string(), Some("Float".to_string()));
    match outcome {
        Outcome::Subscribed { ack, created } => {
            assert_eq!(ack, "HTTP/1.1 200 OK");
            assert!(created);
        }
        other => panic!("expected a subscription, got {:?}", other),
    }
    assert_eq!(reg.publish(&"temp".to_string()), Some(vec![7]));
}

#[test]
fn subscribe_with_conflicting_type_is_rejected() {
    let mut reg = TopicRegistry::seeded();
    handle_message_kind_sub(&mut reg, 7, "temp".to_string(), Some("Float".to_string()));
    let outcome = handle_message_kind_sub(&mut reg, 8, "temp".to_string(), None);
    match outcome {
        Outcome::Rejected { response } => assert_eq!(response, "HTTP/1.1 400 BAD REQUEST"),
        other => panic!("expected a rejection, got {:?}", other),
    }
    // the earlier subscriber list is untouched
    assert_eq!(reg.publish(&"temp".to_string()), Some(vec![7]));
}

#[test]
fn publish_delivers_the_same_bytes_to_every_subscriber() {
    let mut reg = TopicRegistry::seeded();
    let store = float_store();
    handle_message_kind_sub(&mut reg, 1, "temp".to_string(), Some("Float".to_string()));
    handle_message_kind_sub(&mut reg, 2, "temp".to_string(), Some("Float".to_string()));
    handle_message_kind_sub(&mut reg, 3, "temp".to_string(), Some("Float".to_string()));
    let outcome =
        handle_message_kind_pub(&reg, &store, "temp".to_string(), Some(Json::Num(chars("3.14"))));
    match outcome {
        Outcome::Published { recipients, payload, ack, shutdown } => {
            assert_eq!(recipients, vec![1, 2, 3]);
            assert_eq!(payload, "3.14");
            assert_eq!(ack, "HTTP/1.1 200 OK");
            assert!(!shutdown);
        }
        other => panic!("expected a publication, got {:?}", other),
    }
}

#[test]
fn publish_with_zero_subscribers_succeeds_with_zero_deliveries() {
    let mut reg = TopicRegistry::seeded();
    let store = float_store();
    assert_eq!(reg.ensure("temp".to_string(), Some("Float".to_string())), Ok(true));
    let outcome =
        handle_message_kind_pub(&reg, &store, "temp".to_string(), Some(Json::Num(chars("1"))));
    match outcome {
        Outcome::Published { recipients, .. } => assert_eq!(recipients, Vec::<u64>::new()),
        other => panic!("expected a publication, got {:?}", other),
    }
}

#[test]
fn publish_with_schema_invalid_payload_is_rejected_with_zero_deliveries() {
    let mut reg = TopicRegistry::seeded();
    let store = float_store();
    handle_message_kind_sub(&mut reg, 1, "temp".to_string(), Some("Float".to_string()));
    // the string "hello" fails the Float schema
    let outcome =
        handle_message_kind_pub(&reg, &store, "temp".to_string(), Some(Json::Str(chars("hello"))));
    match outcome {
        Outcome::Rejected { response } => assert_eq!(response, "HTTP/1.1 400 BAD REQUEST"),
        other => panic!("expected a rejection, got {:?}", other),
    }
}

#[test]
fn publish_to_an_unknown_topic_is_rejected() {
    let reg = TopicRegistry::seeded();
    let store = float_store();
    let outcome = handle_message_kind_pub(&reg, &store, "nowhere".to_string(), None);
    assert!(matches!(outcome, Outcome::Rejected { .. }));
}

#[test]
fn publish_payload_rules_for_untyped_topics() {
    let reg = TopicRegistry::seeded();
    let store = float_store();
    // a payload on an untyped topic is refused
    let outcome =
        handle_message_kind_pub(&reg, &store, "info".to_string(), Some(Json::Num(chars("1"))));
    assert!(matches!(outcome, Outcome::Rejected { .. }));
    // no payload is fine
    let outcome = handle_message_kind_pub(&reg, &store, "info".to_string(), None);
    match outcome {
        Outcome::Published { recipients, payload, shutdown, .. } => {
            assert_eq!(recipients, Vec::<u64>::new());
            assert_eq!(payload, "");
            assert!(!shutdown);
        }
        other => panic!("expected a publication, got {:?}", other),
    }
}

#[test]
fn publishing_finish_signals_shutdown() {
    let reg = TopicRegistry::seeded();
    let store = SchemaStore::new();
    let outcome = handle_message_kind_pub(&reg, &store, "finish".to_string(), None);
    match outcome {
        Outcome::Published { shutdown, .. } => assert!(shutdown),
        other => panic!("expected a publication, got {:?}", other),
    }
}

#[test]
fn list_before_any_creation_returns_exactly_finish_and_info() {
    let reg = TopicRegistry::seeded();
    assert_eq!(handle_message_kind_list(&reg), "- finish\n- info\n");
}

fn frame_lines(content: &str) -> Vec<String> {
    vec![
        "HTTP/1.1 200 OK".to_string(),
        format!("Content-Length: {}", content.len()),
        format!("Content: {}", content),
    ]
}

#[test]
fn connection_handles_a_framed_list_request() {
    let mut reg = TopicRegistry::seeded();
    let store = SchemaStore::new();
    let lines = frame_lines(
        "{\"kind\":\"list\",\"topic\":null,\"message_type\":null,\"message\":null}",
    );
    let outcome = handle_connection(&mut reg, &store, 5, &lines);
    assert_eq!(outcome, Outcome::List { body: "- finish\n- info\n".to_string() });
}

#[test]
fn connection_handles_a_framed_subscribe_then_publish() {
    let mut reg = TopicRegistry::seeded();
    let store = float_store();
    let sub = frame_lines(
        "{\"kind\":\"sub\",\"topic\":\"temp\",\"message_type\":\"Float\",\"message\":null}",
    );
    let outcome = handle_connection(&mut reg, &store, 5, &sub);
    assert_eq!(
        outcome,
        Outcome::Subscribed { ack: "HTTP/1.1 200 OK".to_string(), created: true }
    );
    let publish = frame_lines(
        "{\"kind\":\"pub\",\"topic\":\"temp\",\"message_type\":\"Float\",\"message\":3.14}",
    );
    let outcome = handle_connection(&mut reg, &store, 6, &publish);
    match outcome {
        Outcome::Published { recipients, payload, .. } => {
            assert_eq!(recipients, vec![5]);
            assert_eq!(payload, "3.14");
        }
        other => panic!("expected a publication, got {:?}", other),
    }
}

#[test]
fn malformed_requests_are_fatal_to_the_connection_only() {
    let mut reg = TopicRegistry::seeded();
    let store = SchemaStore::new();
    // bad framing
    let outcome = handle_connection(&mut reg, &store, 5, &vec!["garbage".to_string()]);
    assert_eq!(outcome, Outcome::Protocol);
    // bad envelope
    let outcome = handle_connection(&mut reg, &store, 5, &frame_lines("not json"));
    assert_eq!(outcome, Outcome::Protocol);
    // unknown kind
    let outcome = handle_connection(
        &mut reg,
        &store,
        5,
        &frame_lines("{\"kind\":\"zap\",\"topic\":null,\"message_type\":null,\"message\":null}"),
    );
    assert_eq!(outcome, Outcome::Protocol);
    // a publish without a topic
    let outcome = handle_connection(
        &mut reg,
        &store,
        5,
        &frame_lines("{\"kind\":\"pub\",\"topic\":null,\"message_type\":null,\"message\":null}"),
    );
    assert_eq!(outcome, Outcome::Protocol);
    // the registry is untouched
    assert_eq!(handle_message_kind_list(&reg), "- finish\n- info\n");
}
