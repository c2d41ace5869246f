use grf::client::{check_inbound, plan_publish, plan_subscribe, ClientError};
use grf::envelope::Message;
use grf::frame::message_to_http_request;
use grf::json::Json;
use grf::schema::SchemaStore;
use grf::snapshot::{
    find_topics_with_type, get_message_type, is_message_type_registered, parse_snapshot,
    parse_string_list, string_list_to_json, topic_exists, TopicSnapshot,
};

fn chars(s: &str) -> Vec<char> {
    s.chars().collect()
}

fn sample_snapshot() -> TopicSnapshot {
    TopicSnapshot {
        entries: vec![
            ("finish".to_string(), None),
            ("info".to_string(), None),
            ("temp".to_string(), Some("Float".to_string())),
        ],
    }
}

fn float_store() -> SchemaStore {
    let mut store = SchemaStore::new();
    assert!(store.add("Float".to_string(), "{\"type\":\"number\"}".to_string()));
    store
}

#[test]
fn snapshot_lookups() {
    let snap = sample_snapshot();
    assert!(topic_exists(&snap, &"temp".to_string()));
    assert!(!topic_exists(&snap, &"nowhere".to_string()));
    assert_eq!(
        get_message_type(&snap, &"temp".to_string()),
        Some(Some("Float".to_string()))
    );
    assert_eq!(get_message_type(&snap, &"info".to_string()), Some(None));
    assert_eq!(get_message_type(&snap, &"nowhere".to_string()), None);
}

#[test]
fn snapshot_round_trips_through_its_json_text() {
    let text = "{\"finish\":null,\"info\":null,\"temp\":\"Float\"}";
    let snap = parse_snapshot(text).expect("snapshot");
    assert_eq!(snap.entries, sample_snapshot().entries);
    assert!(parse_snapshot("[1,2]").is_none());
    assert!(parse_snapshot("{\"a\":1}").is_none());
}

#[test]
fn message_type_list_round_trips() {
    let types = vec!["Float".to_string(), "Pose".to_string()];
    let text = string_list_to_json(&types);
    assert_eq!(text, "[\"Float\",\"Pose\"]");
    assert_eq!(parse_string_list(text.as_str()), Some(types.clone()));
    assert!(parse_string_list("{\"a\":null}").is_none());
    assert!(is_message_type_registered(&types, &"Float".to_string()));
    assert!(!is_message_type_registered(&types, &"Int".to_string()));
}

#[test]
fn find_topics_using_a_type() {
    let snap = sample_snapshot();
    assert_eq!(find_topics_with_type(&snap, &"Float".to_string()), vec!["temp".to_string()]);
    assert_eq!(find_topics_with_type(&snap, &"Int".to_string()), Vec::<String>::new());
}

#[test]
fn plan_publish_builds_the_exact_request() {
    let snap = sample_snapshot();
    let store = float_store();
    let req = plan_publish(&snap, &store, &"temp".to_string(), &Some("3.14".to_string()))
        .expect("plan");
    let expected = message_to_http_request(&Message {
        kind: "pub".to_string(),
        topic: Some("temp".to_string()),
        message_type: Some("Float".to_string()),
        message: Some(Json::Num(chars("3.14"))),
    });
    assert_eq!(req, expected);
}

#[test]
fn plan_publish_rejects_what_the_contract_forbids() {
    let snap = sample_snapshot();
    let store = float_store();
    assert_eq!(
        plan_publish(&snap, &store, &"nowhere".to_string(), &None),
        Err(ClientError::TopicNotFound)
    );
    assert_eq!(
        plan_publish(&snap, &store, &"info".to_string(), &Some("1".to_string())),
        Err(ClientError::PayloadNotAllowed)
    );
    assert_eq!(
        plan_publish(&snap, &store, &"temp".to_string(), &None),
        Err(ClientError::PayloadMissing)
    );
    assert_eq!(
        plan_publish(&snap, &store, &"temp".to_string(), &Some("{oops".to_string())),
        Err(ClientError::MessageNotJson)
    );
    assert_eq!(
        plan_publish(&snap, &store, &"temp".to_string(), &Some("\"hello\"".to_string())),
        Err(ClientError::SchemaViolation)
    );
    let empty_store = SchemaStore::new();
    assert_eq!(
        plan_publish(&snap, &empty_store, &"temp".to_string(), &Some("3.14".to_string())),
        Err(ClientError::SchemaUnavailable)
    );
}

#[test]
fn plan_publish_on_an_untyped_topic_sends_no_payload() {
    let snap = sample_snapshot();
    let store = SchemaStore::new();
    let req = plan_publish(&snap, &store, &"info".to_string(), &None).expect("plan");
    let expected = message_to_http_request(&Message {
        kind: "pub".to_string(),
        topic: Some("info".to_string()),
        message_type: None,
        message: None,
    });
    assert_eq!(req, expected);
}

#[test]
fn plan_subscribe_without_create_requires_the_topic() {
    let snap = sample_snapshot();
    let types = vec!["Float".to_string()];
    // subscribing to a nonexistent topic without a type fails
    assert_eq!(
        plan_subscribe(&snap, &types, &"nowhere".to_string(), &None),
        Err(ClientError::TopicNotFound)
    );
    // an existing topic reuses its stored type
    let (req, vt) = plan_subscribe(&snap, &types, &"temp".to_string(), &None).expect("plan");
    assert_eq!(vt, Some("Float".to_string()));
    let expected = message_to_http_request(&Message {
        kind: "sub".to_string(),
        topic: Some("temp".to_string()),
        message_type: Some("Float".to_string()),
        message: None,
    });
    assert_eq!(req, expected);
}

#[test]
fn plan_subscribe_with_create_builds_the_topic_request() {
    let snap = sample_snapshot();
    let types = vec!["Float".to_string()];
    // an explicit registered type creates the topic and succeeds
    let (req, vt) =
        plan_subscribe(&snap, &types, &"fresh".to_string(), &Some(Some("Float".to_string())))
            .expect("plan");
    assert_eq!(vt, Some("Float".to_string()));
    let expected = message_to_http_request(&Message {
        kind: "sub".to_string(),
        topic: Some("fresh".to_string()),
        message_type: Some("Float".to_string()),
        message: None,
    });
    assert_eq!(req, expected);
    // an unregistered type is refused
    assert_eq!(
        plan_subscribe(&snap, &types, &"fresh".to_string(), &Some(Some("Int".to_string()))),
        Err(ClientError::MessageTypeNotRegistered)
    );
    // an untyped creation carries no type
    let (_, vt) =
        plan_subscribe(&snap, &types, &"fresh".to_string(), &Some(None)).expect("plan");
    assert_eq!(vt, None);
}

#[test]
fn inbound_payloads_are_checked_against_the_subscription_type() {
    let store = float_store();
    assert!(check_inbound(&store, &Some("Float".to_string()), "3.14"));
    assert!(!check_inbound(&store, &Some("Float".to_string()), "\"hello\""));
    assert!(!check_inbound(&store, &Some("Missing".to_string()), "3.14"));
    assert!(check_inbound(&store, &None, ""));
    assert!(!check_inbound(&store, &None, "x"));
}
