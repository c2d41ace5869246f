//! The message envelope exchanged between clients and the broker, and its
//! JSON form: an object with the fields `kind`, `topic`, `message_type` and
//! `message`, in that order.

use vstd::prelude::*;
use crate::json::{
    Json,
    JsonV,
    wf,
    wf_pairs,
    spec_ser,
    jview,
    jview_pairs,
    lemma_jview_pairs,
    lemma_wf_pairs_elem,
};
use crate::parse::parse_json;
use crate::text::{string_to_chars, chars_to_string};

verus! {

/// A protocol envelope.  `topic` is absent only for a listing request;
/// `message_type` accompanies a subscription; `message` carries the payload
/// of a publication.
#[derive(Debug, PartialEq)]
pub struct Message {
    pub kind: String,
    pub topic: Option<String>,
    pub message_type: Option<String>,
    pub message: Option<Json>,
}

/// The mathematical model of a [`Message`].
pub struct MessageV {
    pub kind: Seq<char>,
    pub topic: Option<Seq<char>>,
    pub message_type: Option<Seq<char>>,
    pub message: Option<JsonV>,
}

impl View for Message {
    type V = MessageV;

    open spec fn view(&self) -> MessageV {
        MessageV {
            kind: self.kind@,
            topic: match self.topic {
                Some(t) => Some(t@),
                None => None,
            },
            message_type: match self.message_type {
                Some(t) => Some(t@),
                None => None,
            },
            message: match self.message {
                Some(m) => Some(m@),
                None => None,
            },
        }
    }
}

/// A well-formed envelope: its payload, if any, is well formed, and an
/// absent payload is written as the one JSON `null`, never wrapped.
pub open spec fn wf_message(m: MessageV) -> bool {
    match m.message {
        Some(p) => wf(p) && p != JsonV::Null,
        None => true,
    }
}

pub open spec fn kind_key() -> Seq<char> {
    seq!['k', 'i', 'n', 'd']
}

pub open spec fn topic_key() -> Seq<char> {
    seq!['t', 'o', 'p', 'i', 'c']
}

pub open spec fn message_type_key() -> Seq<char> {
    seq!['m', 'e', 's', 's', 'a', 'g', 'e', '_', 't', 'y', 'p', 'e']
}

pub open spec fn message_key() -> Seq<char> {
    seq!['m', 'e', 's', 's', 'a', 'g', 'e']
}

pub open spec fn opt_str_jsonv(o: Option<Seq<char>>) -> JsonV {
    match o {
        Some(t) => JsonV::Str(t),
        None => JsonV::Null,
    }
}

/// The JSON form of an envelope.
pub open spec fn msg_jsonv(m: MessageV) -> JsonV {
    JsonV::Obj(
        seq![
            (kind_key(), JsonV::Str(m.kind)),
            (topic_key(), opt_str_jsonv(m.topic)),
            (message_type_key(), opt_str_jsonv(m.message_type)),
            (
                message_key(),
                match m.message {
                    Some(p) => p,
                    None => JsonV::Null,
                },
            ),
        ],
    )
}

pub(crate) fn opt_str_json(o: &Option<String>) -> (r: Json)
    ensures
        r@ == opt_str_jsonv(
            match o {
                Some(t) => Some(t@),
                None => None,
            },
        ),
{
    match o {
        Some(t) => Json::Str(string_to_chars(t.as_str())),
        None => Json::Null,
    }
}

impl Message {
    /// The JSON value of this envelope.
    pub fn to_json(&self) -> (r: Json)
        ensures
            r@ == msg_jsonv(self@),
            wf_message(self@) ==> wf(r@),
    {
        let mut pairs: Vec<(Vec<char>, Json)> = Vec::new();
        pairs.push((vec!['k', 'i', 'n', 'd'], Json::Str(string_to_chars(self.kind.as_str()))));
        pairs.push((vec!['t', 'o', 'p', 'i', 'c'], opt_str_json(&self.topic)));
        pairs.push(
            (
                vec!['m', 'e', 's', 's', 'a', 'g', 'e', '_', 't', 'y', 'p', 'e'],
                opt_str_json(&self.message_type),
            ),
        );
        let payload = match &self.message {
            Some(p) => p.clone_value(),
            None => Json::Null,
        };
        pairs.push((vec!['m', 'e', 's', 's', 'a', 'g', 'e'], payload));
        let ghost psv = pairs@;
        let r = Json::Obj(pairs);
        proof {
            lemma_jview_pairs(psv);
            let goal = msg_jsonv(self@)->Obj_0;
            assert(psv.len() == 4);
            assert(psv[0].0@ =~= kind_key());
            assert(psv[1].0@ =~= topic_key());
            assert(psv[2].0@ =~= message_type_key());
            assert(psv[3].0@ =~= message_key());
            assert forall|k: int| 0 <= k < 4 implies jview_pairs(psv)[k] == goal[k] by {
                assert(jview_pairs(psv)[k] == (psv[k].0@, jview(psv[k].1)));
            }
            assert(jview_pairs(psv) =~= goal);
            if wf_message(self@) {
                let t3 = goal.drop_first().drop_first().drop_first();
                let t2 = goal.drop_first().drop_first();
                let t1 = goal.drop_first();
                assert(t3.drop_first() =~= Seq::<(Seq<char>, JsonV)>::empty());
                assert(wf_pairs(t3.drop_first()));
                assert(t3[0] == goal[3]);
                assert(wf(goal[3].1));
                assert(wf_pairs(t3));
                assert(t2.drop_first() =~= t3);
                assert(t2[0] == goal[2]);
                assert(wf(goal[2].1));
                assert(wf_pairs(t2));
                assert(t1.drop_first() =~= t2);
                assert(t1[0] == goal[1]);
                assert(wf(goal[1].1));
                assert(wf_pairs(t1));
                assert(goal.drop_first() =~= t1);
                assert(wf(goal[0].1));
                assert(wf_pairs(goal));
            }
        }
        r
    }
}

/// Character-for-character equality of two vectors.
pub fn chars_eq(a: &Vec<char>, b: &Vec<char>) -> (r: bool)
    ensures
        r == (a@ == b@),
{
    if a.len() != b.len() {
        proof {
            assert(a@ != b@);
        }
        return false;
    }
    let mut i: usize = 0;
    while i < a.len()
        invariant
            i <= a@.len(),
            a@.len() == b@.len(),
            forall|q: int| 0 <= q < i ==> a@[q] == b@[q],
        decreases a@.len() - i,
    {
        if a[i] != b[i] {
            proof {
                assert(a@ != b@);
            }
            return false;
        }
        i = i + 1;
    }
    proof {
        assert(a@ =~= b@);
    }
    true
}

/// Proves that the JSON form of a well-formed envelope is well formed.
pub proof fn lemma_msg_jsonv_wf(mv: MessageV)
    requires
        wf_message(mv),
    ensures
        wf(msg_jsonv(mv)),
{
    let goal = msg_jsonv(mv)->Obj_0;
    let t3 = goal.drop_first().drop_first().drop_first();
    let t2 = goal.drop_first().drop_first();
    let t1 = goal.drop_first();
    assert(t3.drop_first() =~= Seq::<(Seq<char>, JsonV)>::empty());
    assert(wf_pairs(t3.drop_first()));
    assert(t3[0] == goal[3]);
    assert(wf(goal[3].1));
    assert(wf_pairs(t3));
    assert(t2.drop_first() =~= t3);
    assert(t2[0] == goal[2]);
    assert(wf(goal[2].1));
    assert(wf_pairs(t2));
    assert(t1.drop_first() =~= t2);
    assert(t1[0] == goal[1]);
    assert(wf(goal[1].1));
    assert(wf_pairs(t1));
    assert(goal.drop_first() =~= t1);
    assert(wf(goal[0].1));
    assert(wf_pairs(goal));
}

/// Reads an envelope back from its JSON form.  Exactly the objects written
/// by [`Message::to_json`] on well-formed envelopes are accepted.
#[verifier::rlimit(100)]
pub fn from_json(v: &Json) -> (r: Option<Message>)
    ensures
        r matches Some(m) ==> v@ == msg_jsonv(m@) && m@.message != Some(JsonV::Null),
        forall|mv: MessageV|
            wf_message(mv) && v@ == msg_jsonv(mv) ==> (r matches Some(m) && m@ == mv),
    decreases 0int,
{
    let ps = match v {
        Json::Obj(ps) => ps,
        _ => {
            return None;
        },
    };
    proof {
        lemma_jview_pairs(ps@);
    }
    if ps.len() != 4 {
        return None;
    }
    let k0: Vec<char> = vec!['k', 'i', 'n', 'd'];
    let k1: Vec<char> = vec!['t', 'o', 'p', 'i', 'c'];
    let k2: Vec<char> = vec!['m', 'e', 's', 's', 'a', 'g', 'e', '_', 't', 'y', 'p', 'e'];
    let k3: Vec<char> = vec!['m', 'e', 's', 's', 'a', 'g', 'e'];
    proof {
        assert(k0@ =~= kind_key());
        assert(k1@ =~= topic_key());
        assert(k2@ =~= message_type_key());
        assert(k3@ =~= message_key());
    }
    if !chars_eq(&ps[0].0, &k0) || !chars_eq(&ps[1].0, &k1) || !chars_eq(&ps[2].0, &k2)
        || !chars_eq(&ps[3].0, &k3) {
        return None;
    }
    let kind = match &ps[0].1 {
        Json::Str(k) => chars_to_string(k),
        _ => {
            return None;
        },
    };
    let topic = match &ps[1].1 {
        Json::Str(t) => Some(chars_to_string(t)),
        Json::Null => None,
        _ => {
            return None;
        },
    };
    let message_type = match &ps[2].1 {
        Json::Str(t) => Some(chars_to_string(t)),
        Json::Null => None,
        _ => {
            return None;
        },
    };
    let message = match &ps[3].1 {
        Json::Null => None,
        p => Some(p.clone_value()),
    };
    let m = Message { kind, topic, message_type, message };
    proof {
        assert(jview_pairs(ps@) =~= msg_jsonv(m@)->Obj_0);
        assert(v@ == msg_jsonv(m@));
    }
    Some(m)
}

/// Writes an envelope as one line of canonical JSON text.
pub fn encode_message(m: &Message) -> (r: String)
    requires
        wf_message(m@),
    ensures
        r@ == spec_ser(msg_jsonv(m@)),
{
    let j = m.to_json();
    let text = j.to_text();
    chars_to_string(&text)
}

/// Reads an envelope from one line of JSON text.  Decoding what
/// [`encode_message`] wrote returns the original envelope: the codec loses
/// nothing.
pub fn decode_message(s: &str) -> (r: Option<Message>)
    ensures
        r matches Some(m) ==> wf_message(m@) && s@ == spec_ser(msg_jsonv(m@)),
        forall|mv: MessageV|
            wf_message(mv) && s@ == spec_ser(msg_jsonv(mv)) ==> (r matches Some(m) && m@ == mv),
{
    let chars = string_to_chars(s);
    proof {
        assert forall|mv: MessageV| wf_message(mv) implies wf(msg_jsonv(mv)) by {
            lemma_msg_jsonv_wf(mv);
        }
    }
    match parse_json(&chars) {
        Some(v) => {
            let r = from_json(&v);
            proof {
                if let Some(m) = &r {
                    // the payload of a parsed envelope is well formed
                    let goal = msg_jsonv(m@)->Obj_0;
                    assert(wf(v@));
                    assert(wf_pairs(goal));
                    lemma_wf_pairs_elem(goal, 3);
                    assert(goal[3].1 == (match m@.message {
                        Some(p) => p,
                        None => JsonV::Null,
                    }));
                }
            }
            r
        },
        None => None,
    }
}

} // verus!