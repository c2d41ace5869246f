use grf::envelope::{decode_message, encode_message, from_json, Message};
use grf::frame::{
    acknowledgement_http_request, bad_request_http_request, parse_frame_lines,
    string_to_http_request,
};
use grf::json::Json;
use grf::parse::parse_json;

fn chars(s: &str) -> Vec<char> {
    s.chars().collect()
}

fn text_of(v: &Json) -> String {
    v.to_text().iter().collect()
}

fn parse(s: &str) -> Option<Json> {
    parse_json(&chars(s))
}

fn sample_message(kind: &str, payload: Option<Json>) -> Message {
    Message {
        kind: kind.to_string(),
        topic: Some("temp".to_string()),
        message_type: Some("Float".to_string()),
        message: payload,
    }
}

#[test]
fn round_trip_null_payload() {
    let m = sample_message("pub", None);
    let encoded = encode_message(&m);
    let decoded = decode_message(encoded.as_str()).expect("round trip");
    assert_eq!(decoded, sample_message("pub", None));
}

#[test]
fn round_trip_number_payload() {
    let m = sample_message("pub", Some(Json::Num(chars("3.14"))));
    let decoded = decode_message(encode_message(&m).as_str()).expect("round trip");
    assert_eq!(decoded, sample_message("pub", Some(Json::Num(chars("3.14")))));
}

#[test]
fn round_trip_string_payload() {
    let m = sample_message("pub", Some(Json::Str(chars("he\"llo\\wor\nld"))));
    let decoded = decode_message(encode_message(&m).as_str()).expect("round trip");
    assert_eq!(
        decoded,
        sample_message("pub", Some(Json::Str(chars("he\"llo\\wor\nld"))))
    );
}

#[test]
fn round_trip_array_payload() {
    let payload = Json::Arr(vec![
        Json::Num(chars("1")),
        Json::Bool(true),
        Json::Null,
        Json::Str(chars("x")),
    ]);
    let m = sample_message("pub", Some(payload.clone_value()));
    let decoded = decode_message(encode_message(&m).as_str()).expect("round trip");
    assert_eq!(decoded.message, Some(payload));
}

#[test]
fn round_trip_object_payload() {
    let payload = Json::Obj(vec![
        (chars("a"), Json::Num(chars("-2.5e3"))),
        (chars("b"), Json::Arr(vec![])),
        (chars("c"), Json::Obj(vec![])),
    ]);
    let m = sample_message("pub", Some(payload.clone_value()));
    let decoded = decode_message(encode_message(&m).as_str()).expect("round trip");
    assert_eq!(decoded.message, Some(payload));
}

#[test]
fn round_trip_sub_and_list_kinds() {
    for kind in ["sub", "list"] {
        let m = Message {
            kind: kind.to_string(),
            topic: None,
            message_type: None,
            message: None,
        };
        let decoded = decode_message(encode_message(&m).as_str()).expect("round trip");
        assert_eq!(decoded.kind, kind.to_string());
        assert_eq!(decoded.topic, None);
        assert_eq!(decoded.message_type, None);
        assert_eq!(decoded.message, None);
    }
}

#[test]
fn envelope_text_is_exact() {
    let m = sample_message("pub", Some(Json::Num(chars("3.14"))));
    assert_eq!(
        encode_message(&m),
        "{\"kind\":\"pub\",\"topic\":\"temp\",\"message_type\":\"Float\",\"message\":3.14}"
    );
}

#[test]
fn json_number_token_is_preserved_verbatim() {
    let v = parse("3.140").expect("number");
    assert_eq!(text_of(&v), "3.140");
    let v = parse("-0.5e-7").expect("number");
    assert_eq!(text_of(&v), "-0.5e-7");
}

#[test]
fn json_rejects_malformed_text() {
    assert_eq!(parse(""), None);
    assert_eq!(parse("{"), None);
    assert_eq!(parse("[1,]"), None);
    assert_eq!(parse("nul"), None);
    assert_eq!(parse("\"unterminated"), None);
    assert_eq!(parse("{\"a\":1,}"), None);
    assert_eq!(parse("1 2"), None);
}

#[test]
fn json_escapes_round_trip() {
    let v = Json::Str(chars("line\nbreak\ttab\r\"quote\"\\slash"));
    let printed = text_of(&v);
    assert!(!printed.contains('\n'));
    assert!(!printed.contains('\r'));
    let back = parse(printed.as_str()).expect("parse");
    assert_eq!(back, v);
}

#[test]
fn status_lines() {
    assert_eq!(acknowledgement_http_request(), "HTTP/1.1 200 OK");
    assert_eq!(bad_request_http_request(), "HTTP/1.1 400 BAD REQUEST");
}

#[test]
fn frame_layout_is_exact() {
    assert_eq!(
        string_to_http_request("abc".to_string()),
        "HTTP/1.1 200 OK\r\nContent-Length: 3\r\nContent: abc\r\n\r\n"
    );
}

#[test]
fn frame_lines_accept_a_good_frame() {
    let lines = vec![
        "HTTP/1.1 200 OK".to_string(),
        "Content-Length: 2".to_string(),
        "Content: {}".to_string(),
    ];
    let content = parse_frame_lines(&lines).expect("good frame");
    let content: String = content.iter().collect();
    assert_eq!(content, "{}");
}

#[test]
fn frame_lines_reject_bad_frames() {
    let bad_count = vec!["HTTP/1.1 200 OK".to_string(), "Content: {}".to_string()];
    assert!(parse_frame_lines(&bad_count).is_none());
    let bad_status = vec![
        "HTTP/1.0 200 OK".to_string(),
        "Content-Length: 2".to_string(),
        "Content: {}".to_string(),
    ];
    assert!(parse_frame_lines(&bad_status).is_none());
    let bad_prefix = vec![
        "HTTP/1.1 200 OK".to_string(),
        "Content-Length: 2".to_string(),
        "Payload: {}".to_string(),
    ];
    assert!(parse_frame_lines(&bad_prefix).is_none());
}

#[test]
fn from_json_requires_the_exact_envelope_shape() {
    let v = parse("{\"kind\":\"pub\"}").expect("object");
    assert!(from_json(&v).is_none());
    let v = parse("[]").expect("array");
    assert!(from_json(&v).is_none());
}

#[test]
fn object_with_equal_keys_round_trips_both_members() {
    let v = parse("{\"a\":1,\"a\":2}").expect("object");
    match &v {
        Json::Obj(ps) => assert_eq!(ps.len(), 2),
        other => panic!("expected an object, got {:?}", other),
    }
    assert_eq!(text_of(&v), "{\"a\":1,\"a\":2}");
}

#[test]
fn deeply_nested_payload_round_trips() {
    let mut text = String::new();
    for _ in 0..100 {
        text.push('[');
    }
    text.push_str("{\"k\":[true,false,null]}");
    for _ in 0..100 {
        text.push(']');
    }
    let v = parse(text.as_str()).expect("nested");
    assert_eq!(text_of(&v), text);
}
