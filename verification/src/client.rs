//! Client-side operation planning.
//!
//! Each command resolves what it can locally — the topic's type from the
//! snapshot, the payload against the schema — before any network call, so
//! a violated contract aborts client-side without a broker round trip.
//! The planners hand back the exact framed request text to send.

use vstd::prelude::*;
use crate::envelope::{Message, MessageV, msg_jsonv};
use crate::frame::{ok_status, spec_frame, message_to_http_request};
use crate::handler::{sub_kind, pub_kind};
use crate::json::{Json, JsonV, wf, spec_ser};
use crate::parse::parse_json;
use crate::registry::opt_view;
use crate::schema::{SchemaStore, schema_accepts};
use crate::snapshot::{TopicSnapshot, snap_lookup};
use crate::text::string_to_chars;

verus! {

/// Why a client command refuses to send a request.
#[derive(Debug, Clone, Copy, PartialEq, Eq)]
pub enum ClientError {
    /// The topic is not in the local snapshot.
    TopicNotFound,
    /// The requested creation type has not been registered.
    MessageTypeNotRegistered,
    /// The topic is typed, so a payload is mandatory.
    PayloadMissing,
    /// The topic is untyped, so a payload is not allowed.
    PayloadNotAllowed,
    /// The payload text does not parse as JSON.
    MessageNotJson,
    /// The topic's type has no schema in the local store.
    SchemaUnavailable,
    /// The schema rejects the payload.
    SchemaViolation,
}

/// The subscription envelope for a topic and type.
pub open spec fn sub_request(topic: Seq<char>, mt: Option<Seq<char>>) -> MessageV {
    MessageV { kind: sub_kind(), topic: Some(topic), message_type: mt, message: None }
}

/// The publication envelope for a topic, type and payload.
pub open spec fn pub_request(
    topic: Seq<char>,
    mt: Option<Seq<char>>,
    payload: Option<JsonV>,
) -> MessageV {
    MessageV { kind: pub_kind(), topic: Some(topic), message_type: mt, message: payload }
}

/// Plans a publication: the topic must exist; a typed topic takes exactly
/// one schema-valid JSON payload; an untyped topic takes none.  On
/// success the framed request is returned, ready to send.
pub fn plan_publish(
    topics: &TopicSnapshot,
    store: &SchemaStore,
    topic: &String,
    message: &Option<String>,
) -> (r: Result<String, ClientError>)
    ensures
        snap_lookup(topics@, topic@) is None ==> r == Err::<String, ClientError>(
            ClientError::TopicNotFound,
        ),
        snap_lookup(topics@, topic@) == Some(Option::<Seq<char>>::None) ==> match message {
            Some(_) => r == Err::<String, ClientError>(ClientError::PayloadNotAllowed),
            None => r matches Ok(req) && req@ == spec_frame(
                ok_status(),
                spec_ser(msg_jsonv(pub_request(topic@, None, None))),
            ),
        },
        forall|t: Seq<char>|
            snap_lookup(topics@, topic@) == Some(Some(t)) ==> match message {
                None => r == Err::<String, ClientError>(ClientError::PayloadMissing),
                Some(txt) => {
                    &&& (!(exists|w: JsonV| wf(w) && txt@ == spec_ser(w)) ==> r == Err::<
                        String,
                        ClientError,
                    >(ClientError::MessageNotJson))
                    &&& forall|w: JsonV|
                        wf(w) && txt@ == spec_ser(w) ==> {
                            if w == JsonV::Null {
                                r == Err::<String, ClientError>(ClientError::PayloadMissing)
                            } else if !store.has_type(t) {
                                r == Err::<String, ClientError>(ClientError::SchemaUnavailable)
                            } else if !schema_accepts(store.schema_of(t), spec_ser(w)) {
                                r == Err::<String, ClientError>(ClientError::SchemaViolation)
                            } else {
                                r matches Ok(req) && req@ == spec_frame(
                                    ok_status(),
                                    spec_ser(msg_jsonv(pub_request(topic@, Some(t), Some(w)))),
                                )
                            }
                        }
                },
            },
{
    let mt = match crate::snapshot::get_message_type(topics, topic) {
        Some(mt) => mt,
        None => {
            return Err(ClientError::TopicNotFound);
        },
    };
    match (&mt, message) {
        (None, Some(_)) => Err(ClientError::PayloadNotAllowed),
        (None, None) => {
            let data = Message {
                kind: pub_kind_string(),
                topic: Some(topic.clone()),
                message_type: None,
                message: None,
            };
            Ok(message_to_http_request(&data))
        },
        (Some(_), None) => Err(ClientError::PayloadMissing),
        (Some(t), Some(txt)) => {
            let chars = string_to_chars(txt.as_str());
            let payload = match parse_json(&chars) {
                Some(p) => p,
                None => {
                    return Err(ClientError::MessageNotJson);
                },
            };
            if let Json::Null = &payload {
                return Err(ClientError::PayloadMissing);
            }
            let canonical = payload.to_text();
            let canonical_str = crate::text::chars_to_string(&canonical);
            match store.validate(t, canonical_str.as_str()) {
                None => Err(ClientError::SchemaUnavailable),
                Some(false) => Err(ClientError::SchemaViolation),
                Some(true) => {
                    let data = Message {
                        kind: pub_kind_string(),
                        topic: Some(topic.clone()),
                        message_type: Some(t.clone()),
                        message: Some(payload),
                    };
                    Ok(message_to_http_request(&data))
                },
            }
        },
    }
}

/// Plans a subscription.  Without a creation request the topic must
/// already exist and its stored type is reused; `Some(Some(t))` creates
/// the topic with a registered type `t`; `Some(None)` creates it untyped.
/// The returned type is the one inbound payloads are checked against.
pub fn plan_subscribe(
    topics: &TopicSnapshot,
    types: &Vec<String>,
    topic: &String,
    create: &Option<Option<String>>,
) -> (r: Result<(String, Option<String>), ClientError>)
    ensures
        create is None && snap_lookup(topics@, topic@) is None ==> r == Err::<
            (String, Option<String>),
            ClientError,
        >(ClientError::TopicNotFound),
        forall|mt: Option<Seq<char>>|
            create is None && snap_lookup(topics@, topic@) == Some(mt) ==> (r matches Ok(p)
                && opt_view(p.1) == mt && p.0@ == spec_frame(
                ok_status(),
                spec_ser(msg_jsonv(sub_request(topic@, mt))),
            )),
        forall|t: Seq<char>|
            opt_view2(*create) == Some(Some(t)) ==> {
                if types.deep_view().contains(t) {
                    r matches Ok(p) && opt_view(p.1) == Some(t) && p.0@ == spec_frame(
                        ok_status(),
                        spec_ser(msg_jsonv(sub_request(topic@, Some(t)))),
                    )
                } else {
                    r == Err::<(String, Option<String>), ClientError>(
                        ClientError::MessageTypeNotRegistered,
                    )
                }
            },
        opt_view2(*create) == Some(Option::<Seq<char>>::None) ==> (r matches Ok(p) && p.1 is None
            && p.0@ == spec_frame(ok_status(), spec_ser(msg_jsonv(sub_request(topic@, None))))),
{
    match create {
        None => {
            let mt = match crate::snapshot::get_message_type(topics, topic) {
                Some(mt) => mt,
                None => {
                    return Err(ClientError::TopicNotFound);
                },
            };
            let vt = match &mt {
                Some(s) => Some(s.clone()),
                None => None,
            };
            let data = Message {
                kind: sub_kind_string(),
                topic: Some(topic.clone()),
                message_type: mt,
                message: None,
            };
            Ok((message_to_http_request(&data), vt))
        },
        Some(Some(t)) => {
            if !crate::snapshot::is_message_type_registered(types, t) {
                return Err(ClientError::MessageTypeNotRegistered);
            }
            let data = Message {
                kind: sub_kind_string(),
                topic: Some(topic.clone()),
                message_type: Some(t.clone()),
                message: None,
            };
            Ok((message_to_http_request(&data), Some(t.clone())))
        },
        Some(None) => {
            let data = Message {
                kind: sub_kind_string(),
                topic: Some(topic.clone()),
                message_type: None,
                message: None,
            };
            Ok((message_to_http_request(&data), None))
        },
    }
}

pub open spec fn opt_view2(o: Option<Option<String>>) -> Option<Option<Seq<char>>> {
    match o {
        Some(t) => Some(opt_view(t)),
        None => None,
    }
}

/// Checks a payload received on a subscription: against the schema of the
/// subscription's type, or, on an untyped topic, for emptiness.
pub fn check_inbound(store: &SchemaStore, validation_type: &Option<String>, payload: &str) -> (r:
    bool)
    ensures
        r == match opt_view(*validation_type) {
            Some(t) => store.has_type(t) && schema_accepts(store.schema_of(t), payload@),
            None => payload@.len() == 0,
        },
{
    match validation_type {
        Some(t) => match store.validate(t, payload) {
            Some(b) => b,
            None => false,
        },
        None => {
            let chars = string_to_chars(payload);
            chars.len() == 0
        },
    }
}

fn sub_kind_string() -> (r: String)
    ensures
        r@ == sub_kind(),
{
    let s = String::from_str("sub");
    proof {
        reveal_strlit("sub");
        assert(s@ =~= sub_kind());
    }
    s
}

fn pub_kind_string() -> (r: String)
    ensures
        r@ == pub_kind(),
{
    let s = String::from_str("pub");
    proof {
        reveal_strlit("pub");
        assert(s@ =~= pub_kind());
    }
    s
}

} // verus!
