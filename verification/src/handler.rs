//! The per-connection request handler.
//!
//! One request arrives as the lines of a frame; the handler decodes it,
//! validates it against the registry and the schema store, and decides
//! what the connection does next: answer a listing, register a
//! subscription, fan a publication out, reject, or close.  A malformed
//! request is fatal to its own connection only: it leaves the registry
//! untouched.  The caller performs the socket work and must hold the
//! registry lock across the whole call, including the fan-out writes.

use vstd::prelude::*;
use crate::envelope::{Message, MessageV, wf_message, msg_jsonv, decode_message, chars_eq};
use crate::frame::{
    good_frame,
    frame_content,
    ok_status,
    bad_request_status,
    acknowledgement_http_request,
    bad_request_http_request,
    parse_frame_lines,
};
use crate::json::{Json, JsonV, wf, spec_ser};
use crate::registry::{
    TopicRegistry,
    TopicV,
    opt_view,
    has_topic,
    type_of,
    subs_of,
    ensure_ok,
    ensure_post,
    idx_of,
    finish_name,
    RegistryError,
};
use crate::schema::{SchemaStore, schema_accepts};
use crate::text::{string_to_chars, chars_to_string};

verus! {

/// What a handled request asks the connection's owner to do.
#[derive(Debug, PartialEq)]
pub enum Outcome {
    /// The request was malformed: close this connection, touch nothing.
    Protocol,
    /// Write the listing body and close.
    List { body: String },
    /// Write the acknowledgement and keep the connection open as a
    /// fan-out target.  `created` asks for a fresh registry snapshot to
    /// be persisted.
    Subscribed { ack: String, created: bool },
    /// Write `payload` to every recipient connection, then the
    /// acknowledgement to the requester, and close it.  `shutdown` is the
    /// reserved control topic's signal to stop the broker.
    Published { recipients: Vec<u64>, payload: String, ack: String, shutdown: bool },
    /// Write the rejection status and close; nothing was changed and
    /// nothing is delivered.
    Rejected { response: String },
}

pub open spec fn sub_kind() -> Seq<char> {
    seq!['s', 'u', 'b']
}

pub open spec fn pub_kind() -> Seq<char> {
    seq!['p', 'u', 'b']
}

pub open spec fn list_kind() -> Seq<char> {
    seq!['l', 'i', 's', 't']
}

/// The newline-delimited listing of topic names: `- ` before each name.
pub open spec fn list_body(v: Seq<TopicV>) -> Seq<char>
    decreases v.len(),
{
    if v.len() == 0 {
        Seq::empty()
    } else {
        list_body(v.drop_last()) + seq!['-', ' '] + v.last().name + seq!['\n']
    }
}

/// Whether a publication is admissible: the topic exists; a typed topic
/// takes exactly a payload its registered schema accepts; an untyped
/// topic takes none.
pub open spec fn publish_ok(
    v: Seq<TopicV>,
    store: SchemaStore,
    topic: Seq<char>,
    payload: Option<JsonV>,
) -> bool {
    &&& has_topic(v, topic)
    &&& match type_of(v, topic) {
        None => payload is None,
        Some(t) => {
            &&& payload is Some
            &&& store.has_type(t)
            &&& schema_accepts(store.schema_of(t), spec_ser(payload->Some_0))
        },
    }
}

/// The payload text broadcast for a publication: the canonical text of
/// the payload, or nothing for an untyped topic.
pub open spec fn payload_text(payload: Option<JsonV>) -> Seq<char> {
    match payload {
        Some(p) => spec_ser(p),
        None => Seq::empty(),
    }
}

/// Builds the listing reply: one `- name` line per topic, in order.
pub fn handle_message_kind_list(reg: &TopicRegistry) -> (r: String)
    requires
        reg.wf(),
    ensures
        r@ == list_body(reg@),
{
    let topics = reg.list();
    let mut out: Vec<char> = Vec::new();
    let mut i: usize = 0;
    proof {
        assert(reg@.take(0int) =~= Seq::<TopicV>::empty());
    }
    while i < topics.len()
        invariant
            i <= topics@.len(),
            topics@.len() == reg@.len(),
            forall|k: int|
                0 <= k < reg@.len() ==> (#[trigger] topics@[k]).0@ == reg@[k].name,
            out@ == list_body(reg@.take(i as int)),
        decreases topics@.len() - i,
    {
        out.push('-');
        out.push(' ');
        let name_chars = string_to_chars(topics[i].0.as_str());
        let mut k: usize = 0;
        let ghost mid = out@;
        while k < name_chars.len()
            invariant
                k <= name_chars@.len(),
                out@ == mid + name_chars@.take(k as int),
            decreases name_chars@.len() - k,
        {
            out.push(name_chars[k]);
            proof {
                assert(name_chars@.take(k + 1 as int) =~= name_chars@.take(k as int).push(
                    name_chars@[k as int],
                ));
                assert(out@ =~= mid + name_chars@.take(k + 1 as int));
            }
            k = k + 1;
        }
        out.push('\n');
        proof {
            assert(name_chars@.take(name_chars@.len() as int) =~= name_chars@);
            assert(reg@.take(i + 1 as int).drop_last() =~= reg@.take(i as int));
            assert(reg@.take(i + 1 as int).last() == reg@[i as int]);
            assert(out@ =~= list_body(reg@.take(i + 1 as int)));
        }
        i = i + 1;
    }
    proof {
        assert(reg@.take(reg@.len() as int) =~= reg@);
    }
    chars_to_string(&out)
}

/// Handles a subscription: finds or creates the topic with the requested
/// type, refusing a conflicting type, and registers the connection.
pub fn handle_message_kind_sub(
    reg: &mut TopicRegistry,
    conn: u64,
    topic: String,
    message_type: Option<String>,
) -> (r: Outcome)
    requires
        old(reg).wf(),
    ensures
        final(reg).wf(),
        ensure_ok(old(reg)@, topic@, opt_view(message_type)) ==> {
            let v1 = ensure_post(old(reg)@, topic@, opt_view(message_type));
            let i = idx_of(v1, topic@);
            &&& (r matches Outcome::Subscribed { ack, created } ==> ack@ == ok_status()
                && created == !has_topic(old(reg)@, topic@))
            &&& r is Subscribed
            &&& final(reg)@ == v1.update(
                i,
                TopicV {
                    name: v1[i].name,
                    message_type: v1[i].message_type,
                    subscribers: v1[i].subscribers.push(conn),
                },
            )
        },
        !ensure_ok(old(reg)@, topic@, opt_view(message_type)) ==> (r matches Outcome::Rejected {
            response,
        } && response@ == bad_request_status() && final(reg)@ == old(reg)@),
{
    let ghost oldv = reg@;
    match reg.ensure(topic.clone(), message_type) {
        Ok(created) => {
            proof {
                crate::registry::lemma_ensure_wf(oldv, topic@, opt_view(message_type));
                if !has_topic(oldv, topic@) {
                    assert(reg@[oldv.len() as int].name == topic@);
                    crate::registry::lemma_found(reg@, topic@, oldv.len() as int);
                } else {
                    let i = idx_of(oldv, topic@);
                    assert(reg@[i].name == topic@);
                    crate::registry::lemma_found(reg@, topic@, i);
                }
                assert(has_topic(reg@, topic@));
            }
            let added = reg.add_subscriber(&topic, conn);
            proof {
                assert(added);
            }
            Outcome::Subscribed { ack: acknowledgement_http_request(), created }
        },
        Err(RegistryError::TypeConflict) => {
            Outcome::Rejected { response: bad_request_http_request() }
        },
    }
}

/// Handles a publication: checks the topic and, for a typed topic, the
/// payload against the registered schema; on success hands back the
/// recipients and the exact text each of them receives.  A rejected
/// publication delivers to nobody and changes nothing.
pub fn handle_message_kind_pub(
    reg: &TopicRegistry,
    store: &SchemaStore,
    topic: String,
    payload: Option<Json>,
) -> (r: Outcome)
    requires
        reg.wf(),
        payload matches Some(p) ==> wf(p@),
    ensures
        publish_ok(
            reg@,
            *store,
            topic@,
            match payload {
                Some(p) => Some(p@),
                None => None,
            },
        ) ==> (r matches Outcome::Published { recipients, payload: text, ack, shutdown } && {
            &&& recipients@ == subs_of(reg@, topic@)
            &&& text@ == payload_text(
                match payload {
                    Some(p) => Some(p@),
                    None => None,
                },
            )
            &&& ack@ == ok_status()
            &&& shutdown == (topic@ == finish_name())
        }),
        !publish_ok(
            reg@,
            *store,
            topic@,
            match payload {
                Some(p) => Some(p@),
                None => None,
            },
        ) ==> (r matches Outcome::Rejected { response } && response@ == bad_request_status()),
{
    let recipients = match reg.publish(&topic) {
        Some(subs) => subs,
        None => {
            return Outcome::Rejected { response: bad_request_http_request() };
        },
    };
    let ghost i = idx_of(reg@, topic@);
    let mt = match topic_type_of(reg, &topic) {
        Some(mt) => mt,
        None => {
            return Outcome::Rejected { response: bad_request_http_request() };
        },
    };
    let text: String;
    match (&mt, &payload) {
        (None, None) => {
            text = String::new();
        },
        (Some(t), Some(p)) => {
            let chars = p.to_text();
            let candidate = chars_to_string(&chars);
            match store.validate(t, candidate.as_str()) {
                Some(true) => {
                    text = candidate;
                },
                _ => {
                    return Outcome::Rejected { response: bad_request_http_request() };
                },
            }
        },
        _ => {
            return Outcome::Rejected { response: bad_request_http_request() };
        },
    }
    let finish: Vec<char> = vec!['f', 'i', 'n', 'i', 's', 'h'];
    proof {
        assert(finish@ =~= finish_name());
    }
    let topic_chars = string_to_chars(topic.as_str());
    let shutdown = chars_eq(&topic_chars, &finish);
    Outcome::Published {
        recipients,
        payload: text,
        ack: acknowledgement_http_request(),
        shutdown,
    }
}

/// The stored type of an existing topic, or `None` when the topic does
/// not exist (distinguished from an untyped topic by the outer option).
fn topic_type_of(reg: &TopicRegistry, topic: &String) -> (r: Option<Option<String>>)
    requires
        reg.wf(),
    ensures
        r matches Some(mt) ==> has_topic(reg@, topic@) && opt_view(mt) == type_of(reg@, topic@),
        r is None <==> !has_topic(reg@, topic@),
{
    let listing = reg.list();
    let mut i: usize = 0;
    while i < listing.len()
        invariant
            reg.wf(),
            i <= listing@.len(),
            listing@.len() == reg@.len(),
            forall|k: int|
                0 <= k < reg@.len() ==> (#[trigger] listing@[k]).0@ == reg@[k].name && opt_view(
                    listing@[k].1,
                ) == reg@[k].message_type,
            forall|k: int| 0 <= k < i ==> (#[trigger] reg@[k]).name != topic@,
        decreases listing@.len() - i,
    {
        if listing[i].0 == *topic {
            let mt = match &listing[i].1 {
                Some(s) => Some(s.clone()),
                None => None,
            };
            proof {
                crate::registry::lemma_found(reg@, topic@, i as int);
            }
            return Some(mt);
        }
        i = i + 1;
    }
    proof {
        if has_topic(reg@, topic@) {
            let k = idx_of(reg@, topic@);
            assert(0 <= k < reg@.len() && reg@[k].name == topic@);
        }
    }
    None
}

/// What the handling of a decoded envelope `mv` must have done, relating
/// the registry before (`v0`) and after (`v1`) and the outcome `r`.
pub open spec fn req_outcome_ok(
    v0: Seq<TopicV>,
    v1: Seq<TopicV>,
    store: SchemaStore,
    conn: u64,
    mv: MessageV,
    r: Outcome,
) -> bool {
    if mv.kind == sub_kind() {
        match mv.topic {
            Some(t) => {
                &&& (ensure_ok(v0, t, mv.message_type) ==> {
                    let ve = ensure_post(v0, t, mv.message_type);
                    let i = idx_of(ve, t);
                    &&& r is Subscribed
                    &&& (r matches Outcome::Subscribed { ack, created } ==> ack@ == ok_status()
                        && created == !has_topic(v0, t))
                    &&& v1 == ve.update(
                        i,
                        TopicV {
                            name: ve[i].name,
                            message_type: ve[i].message_type,
                            subscribers: ve[i].subscribers.push(conn),
                        },
                    )
                })
                &&& (!ensure_ok(v0, t, mv.message_type) ==> (r matches Outcome::Rejected {
                    response,
                } && response@ == bad_request_status() && v1 == v0))
            },
            None => r is Protocol && v1 == v0,
        }
    } else if mv.kind == pub_kind() {
        match mv.topic {
            Some(t) => {
                &&& v1 == v0
                &&& (publish_ok(v0, store, t, mv.message) ==> (r matches Outcome::Published {
                    recipients,
                    payload,
                    ack,
                    shutdown,
                } && recipients@ == subs_of(v0, t) && payload@ == payload_text(mv.message) && ack@
                    == ok_status() && shutdown == (t == finish_name())))
                &&& (!publish_ok(v0, store, t, mv.message) ==> (r matches Outcome::Rejected {
                    response,
                } && response@ == bad_request_status()))
            },
            None => r is Protocol && v1 == v0,
        }
    } else if mv.kind == list_kind() {
        &&& v1 == v0
        &&& (r matches Outcome::List { body } && body@ == list_body(v0))
    } else {
        r is Protocol && v1 == v0
    }
}

/// Handles one framed request on one connection: decode, validate,
/// dispatch.  A malformed frame or envelope is fatal to this connection
/// alone and leaves the registry exactly as it was.
pub fn handle_connection(
    reg: &mut TopicRegistry,
    store: &SchemaStore,
    conn: u64,
    lines: &Vec<String>,
) -> (r: Outcome)
    requires
        old(reg).wf(),
    ensures
        final(reg).wf(),
        !(r is Subscribed) ==> final(reg)@ == old(reg)@,
        !good_frame(lines.deep_view()) ==> r is Protocol,
        forall|mv: MessageV|
            wf_message(mv) && good_frame(lines.deep_view()) && frame_content(lines.deep_view())
                == spec_ser(msg_jsonv(mv)) ==> req_outcome_ok(
                old(reg)@,
                final(reg)@,
                *store,
                conn,
                mv,
                r,
            ),
{
    let content = match parse_frame_lines(lines) {
        Some(c) => c,
        None => {
            return Outcome::Protocol;
        },
    };
    let content_str = chars_to_string(&content);
    let m = match decode_message(content_str.as_str()) {
        Some(m) => m,
        None => {
            return Outcome::Protocol;
        },
    };
    let kind_chars = string_to_chars(m.kind.as_str());
    let sub_k: Vec<char> = vec!['s', 'u', 'b'];
    let pub_k: Vec<char> = vec!['p', 'u', 'b'];
    let list_k: Vec<char> = vec!['l', 'i', 's', 't'];
    proof {
        assert(sub_k@ =~= sub_kind());
        assert(pub_k@ =~= pub_kind());
        assert(list_k@ =~= list_kind());
    }
    if chars_eq(&kind_chars, &sub_k) {
        match m.topic {
            Some(t) => handle_message_kind_sub(reg, conn, t, m.message_type),
            None => Outcome::Protocol,
        }
    } else if chars_eq(&kind_chars, &pub_k) {
        match m.topic {
            Some(t) => handle_message_kind_pub(reg, store, t, m.message),
            None => Outcome::Protocol,
        }
    } else if chars_eq(&kind_chars, &list_k) {
        Outcome::List { body: handle_message_kind_list(reg) }
    } else {
        Outcome::Protocol
    }
}

} // verus!