//! The persisted topic snapshot, as clients read it back.
//!
//! The broker rewrites a JSON object mapping each topic name to its type
//! name or null after every topology change; client commands answer
//! look-ups from this snapshot without a broker round trip.

use vstd::prelude::*;
use crate::json::{Json, JsonV, wf, spec_ser, jview, jview_pairs, lemma_jview_pairs};
use crate::parse::parse_json;
use crate::registry::{opt_view, snap_pairs, TopicV};
use crate::envelope::opt_str_jsonv;
use crate::text::{string_to_chars, chars_to_string};

verus! {

/// The snapshot: topic names with their optional message types, in the
/// order the broker wrote them.
pub struct TopicSnapshot {
    pub entries: Vec<(String, Option<String>)>,
}

pub type SnapEntriesV = Seq<(Seq<char>, Option<Seq<char>>)>;

impl View for TopicSnapshot {
    type V = SnapEntriesV;

    open spec fn view(&self) -> SnapEntriesV {
        Seq::new(self.entries@.len(), |i: int| (self.entries@[i].0@, opt_view(self.entries@[i].1)))
    }
}

/// The first entry carrying the name, if any.
pub open spec fn snap_lookup(v: SnapEntriesV, name: Seq<char>) -> Option<Option<Seq<char>>>
    decreases v.len(),
{
    if v.len() == 0 {
        None
    } else if v[0].0 == name {
        Some(v[0].1)
    } else {
        snap_lookup(v.drop_first(), name)
    }
}

/// The JSON object form of snapshot entries.
pub open spec fn snapshot_pairs(v: SnapEntriesV) -> Seq<(Seq<char>, JsonV)> {
    Seq::new(v.len(), |i: int| (v[i].0, opt_str_jsonv(v[i].1)))
}

pub open spec fn opt2_view(o: Option<Option<String>>) -> Option<Option<Seq<char>>> {
    match o {
        Some(t) => Some(opt_view(t)),
        None => None,
    }
}

/// The message type stored for a topic: `None` when the topic is absent,
/// `Some(None)` when it is untyped.
pub fn get_message_type(topics: &TopicSnapshot, topic_name: &String) -> (r: Option<Option<String>>)
    ensures
        opt2_view(r) == snap_lookup(topics@, topic_name@),
{
    let mut i: usize = 0;
    proof {
        assert(topics@.skip(0int) =~= topics@);
    }
    while i < topics.entries.len()
        invariant
            i <= topics@.len(),
            topics@.len() == topics.entries@.len(),
            snap_lookup(topics@, topic_name@) == snap_lookup(topics@.skip(i as int), topic_name@),
            forall|k: int|
                0 <= k < topics@.len() ==> #[trigger] topics@[k] == (topics.entries@[k].0@,
                opt_view(topics.entries@[k].1)),
        decreases topics@.len() - i,
    {
        if topics.entries[i].0 == *topic_name {
            let mt = match &topics.entries[i].1 {
                Some(s) => Some(s.clone()),
                None => None,
            };
            proof {
                assert(topics@.skip(i as int)[0] == topics@[i as int]);
            }
            return Some(mt);
        }
        proof {
            assert(topics@.skip(i as int)[0] == topics@[i as int]);
            assert(topics@.skip(i as int).drop_first() =~= topics@.skip(i + 1 as int));
        }
        i = i + 1;
    }
    proof {
        assert(topics@.skip(topics@.len() as int) =~= Seq::<(Seq<char>, Option<Seq<char>>)>::empty());
    }
    None
}

/// The message type stored for a topic, read from the snapshot the
/// broker persisted.
pub fn message_type_for_topic(topics: &TopicSnapshot, topic_name: &String) -> (r: Option<
    Option<String>,
>)
    ensures
        opt2_view(r) == snap_lookup(topics@, topic_name@),
{
    get_message_type(topics, topic_name)
}

/// Whether a message type appears in the registered list.
pub fn message_type_is_registered(types: &Vec<String>, message_type: &String) -> (r: bool)
    ensures
        r == types.deep_view().contains(message_type@),
{
    is_message_type_registered(types, message_type)
}

/// Whether a topic appears in the snapshot.
pub fn topic_exists(topics: &TopicSnapshot, topic_name: &String) -> (r: bool)
    ensures
        r == (snap_lookup(topics@, topic_name@) is Some),
{
    get_message_type(topics, topic_name).is_some()
}

/// Whether a message type appears in the registered list.
pub fn is_message_type_registered(types: &Vec<String>, message_type: &String) -> (r: bool)
    ensures
        r == types.deep_view().contains(message_type@),
{
    let mut i: usize = 0;
    while i < types.len()
        invariant
            i <= types@.len(),
            types.deep_view().len() == types@.len(),
            forall|k: int| 0 <= k < types@.len() ==> types.deep_view()[k] == #[trigger] types@[k]@,
            forall|k: int| 0 <= k < i ==> #[trigger] types@[k]@ != message_type@,
        decreases types@.len() - i,
    {
        if types[i] == *message_type {
            proof {
                assert(types.deep_view()[i as int] == message_type@);
            }
            return true;
        }
        i = i + 1;
    }
    proof {
        if types.deep_view().contains(message_type@) {
            let k = choose|k: int|
                0 <= k < types.deep_view().len() && types.deep_view()[k] == message_type@;
            assert(types@[k]@ == message_type@);
        }
    }
    false
}

/// The topics that use a message type, in snapshot order.
pub open spec fn names_with_type(v: SnapEntriesV, mt: Seq<char>) -> Seq<Seq<char>>
    decreases v.len(),
{
    if v.len() == 0 {
        Seq::empty()
    } else {
        names_with_type(v.drop_last(), mt) + if v.last().1 == Some(mt) {
            seq![v.last().0]
        } else {
            Seq::empty()
        }
    }
}

/// Finds every topic whose message type is the given one.
pub fn find_topics_with_type(topics: &TopicSnapshot, message_type: &String) -> (r: Vec<String>)
    ensures
        r.deep_view() == names_with_type(topics@, message_type@),
{
    let mut out: Vec<String> = Vec::new();
    let mut i: usize = 0;
    proof {
        assert(topics@.take(0int) =~= Seq::<(Seq<char>, Option<Seq<char>>)>::empty());
        assert(out.deep_view() =~= names_with_type(topics@.take(0int), message_type@));
    }
    while i < topics.entries.len()
        invariant
            i <= topics@.len(),
            topics@.len() == topics.entries@.len(),
            forall|k: int|
                0 <= k < topics@.len() ==> #[trigger] topics@[k] == (topics.entries@[k].0@,
                opt_view(topics.entries@[k].1)),
            out.deep_view() == names_with_type(topics@.take(i as int), message_type@),
        decreases topics@.len() - i,
    {
        let ghost before = out.deep_view();
        let matched = match &topics.entries[i].1 {
            Some(t) => *t == *message_type,
            None => false,
        };
        if matched {
            out.push(topics.entries[i].0.clone());
        }
        proof {
            assert(topics@.take(i + 1 as int).drop_last() =~= topics@.take(i as int));
            assert(topics@.take(i + 1 as int).last() == topics@[i as int]);
            if matched {
                assert(out.deep_view() =~= before.push(topics@[i as int].0));
                assert(out.deep_view() =~= names_with_type(topics@.take(i + 1 as int), message_type@));
            } else {
                assert(out.deep_view() =~= names_with_type(topics@.take(i + 1 as int), message_type@));
            }
        }
        i = i + 1;
    }
    proof {
        assert(topics@.take(topics@.len() as int) =~= topics@);
    }
    out
}

/// Reads a snapshot back from its JSON text.  Exactly the objects whose
/// members are strings or nulls are accepted, so everything the broker
/// writes parses back to the same entries.
pub fn parse_snapshot(text: &str) -> (r: Option<TopicSnapshot>)
    ensures
        r matches Some(sn) ==> text@ == spec_ser(JsonV::Obj(snapshot_pairs(sn@))),
        forall|es: SnapEntriesV|
            text@ == spec_ser(JsonV::Obj(snapshot_pairs(es))) ==> (r matches Some(sn) && sn@
                == es),
{
    let chars = string_to_chars(text);
    proof {
        assert forall|es: SnapEntriesV|
            text@ == spec_ser(JsonV::Obj(snapshot_pairs(es))) implies wf(
            JsonV::Obj(snapshot_pairs(es)),
        ) by {
            lemma_snapshot_pairs_wf(es);
        }
    }
    let v = match parse_json(&chars) {
        Some(v) => v,
        None => {
            return None;
        },
    };
    let ps = match &v {
        Json::Obj(ps) => ps,
        _ => {
            return None;
        },
    };
    proof {
        lemma_jview_pairs(ps@);
        assert forall|es: SnapEntriesV|
            text@ == spec_ser(JsonV::Obj(snapshot_pairs(es))) implies jview_pairs(ps@)
            == snapshot_pairs(es) by {
            assert(v@ == JsonV::Obj(snapshot_pairs(es)));
        }
    }
    let mut entries: Vec<(String, Option<String>)> = Vec::new();
    let mut i: usize = 0;
    while i < ps.len()
        invariant
            i <= ps@.len(),
            jview_pairs(ps@).len() == ps@.len(),
            forall|k: int|
                0 <= k < ps@.len() ==> jview_pairs(ps@)[k] == ((#[trigger] ps@[k]).0@, jview(
                    ps@[k].1,
                )),
            forall|es: SnapEntriesV|
                text@ == spec_ser(JsonV::Obj(#[trigger] snapshot_pairs(es))) ==> jview_pairs(ps@)
                    == snapshot_pairs(es),
            entries@.len() == i,
            forall|k: int|
                0 <= k < i ==> ((#[trigger] entries@[k]).0@, opt_str_jsonv(
                    opt_view(entries@[k].1),
                )) == jview_pairs(ps@)[k],
        decreases ps@.len() - i,
    {
        let key = chars_to_string(&ps[i].0);
        let mt: Option<String> = match &ps[i].1 {
            Json::Str(t) => Some(chars_to_string(t)),
            Json::Null => None,
            _ => {
                proof {
                    assert forall|es: SnapEntriesV|
                        !(text@ == spec_ser(JsonV::Obj(snapshot_pairs(es)))) by {
                        if text@ == spec_ser(JsonV::Obj(snapshot_pairs(es))) {
                            assert(jview_pairs(ps@)[i as int] == snapshot_pairs(es)[i as int]);
                            assert(jview(ps@[i as int].1) == opt_str_jsonv(es[i as int].1));
                            let x = ps@[i as int].1;
                            match x {
                                Json::Null => {},
                                Json::Bool(_) => {},
                                Json::Num(_) => {},
                                Json::Str(_) => {},
                                Json::Arr(_) => {},
                                Json::Obj(_) => {},
                            }
                        }
                    }
                }
                return None;
            },
        };
        entries.push((key, mt));
        i = i + 1;
    }
    let sn = TopicSnapshot { entries };
    proof {
        assert(snapshot_pairs(sn@) =~= jview_pairs(ps@));
        assert forall|es: SnapEntriesV|
            text@ == spec_ser(JsonV::Obj(snapshot_pairs(es))) implies sn@ == es by {
            assert(v@ == JsonV::Obj(snapshot_pairs(es)));
            assert(jview_pairs(ps@) == snapshot_pairs(es));
            assert(sn@ =~= es) by {
                assert forall|k: int| 0 <= k < sn@.len() implies sn@[k] == es[k] by {
                    assert(snapshot_pairs(sn@)[k] == snapshot_pairs(es)[k]);
                }
            }
        }
    }
    Some(sn)
}

proof fn lemma_snapshot_pairs_wf(es: SnapEntriesV)
    ensures
        wf(JsonV::Obj(snapshot_pairs(es))),
{
    assert forall|k: int|
        0 <= k < snapshot_pairs(es).len() implies wf((#[trigger] snapshot_pairs(es)[k]).1) by {}
    crate::json::lemma_wf_pairs_intro(snapshot_pairs(es));
}

/// The JSON array form of a list of names.
pub open spec fn string_list_jsonv(v: Seq<Seq<char>>) -> JsonV {
    JsonV::Arr(Seq::new(v.len(), |i: int| JsonV::Str(v[i])))
}

/// Writes the registered message-type list as JSON text.
pub fn string_list_to_json(types: &Vec<String>) -> (r: String)
    ensures
        r@ == spec_ser(string_list_jsonv(types.deep_view())),
{
    let mut elems: Vec<Json> = Vec::new();
    let mut i: usize = 0;
    while i < types.len()
        invariant
            i <= types@.len(),
            types.deep_view().len() == types@.len(),
            forall|k: int| 0 <= k < types@.len() ==> types.deep_view()[k] == #[trigger] types@[k]@,
            elems@.len() == i,
            forall|k: int| 0 <= k < i ==> jview(#[trigger] elems@[k]) == JsonV::Str(types@[k]@),
        decreases types@.len() - i,
    {
        elems.push(Json::Str(string_to_chars(types[i].as_str())));
        i = i + 1;
    }
    let ghost ev = elems@;
    let arr = Json::Arr(elems);
    proof {
        crate::json::lemma_jview_seq(ev);
        assert forall|k: int|
            0 <= k < ev.len() implies crate::json::jview_seq(ev)[k] == string_list_jsonv(
            types.deep_view(),
        )->Arr_0[k] by {
            assert(crate::json::jview_seq(ev)[k] == jview(ev[k]));
        }
        assert(crate::json::jview_seq(ev) =~= string_list_jsonv(types.deep_view())->Arr_0);
        let goal = string_list_jsonv(types.deep_view())->Arr_0;
        assert forall|k: int| 0 <= k < goal.len() implies wf(#[trigger] goal[k]) by {}
        crate::json::lemma_wf_list_intro(goal);
    }
    let text = arr.to_text();
    chars_to_string(&text)
}

/// Reads the registered message-type list back from its JSON text.
/// Exactly the arrays of strings are accepted, so everything that
/// [`string_list_to_json`] wrote parses back to the same list.
pub fn parse_string_list(text: &str) -> (r: Option<Vec<String>>)
    ensures
        r matches Some(v) ==> text@ == spec_ser(string_list_jsonv(v.deep_view())),
        forall|names: Seq<Seq<char>>|
            text@ == spec_ser(#[trigger] string_list_jsonv(names)) ==> (r matches Some(v)
                && v.deep_view() == names),
{
    let chars = string_to_chars(text);
    proof {
        assert forall|names: Seq<Seq<char>>|
            text@ == spec_ser(#[trigger] string_list_jsonv(names)) implies wf(
            string_list_jsonv(names),
        ) by {
            let goal = string_list_jsonv(names)->Arr_0;
            assert forall|k: int| 0 <= k < goal.len() implies wf(#[trigger] goal[k]) by {}
            crate::json::lemma_wf_list_intro(goal);
        }
    }
    let v = match parse_json(&chars) {
        Some(v) => v,
        None => {
            return None;
        },
    };
    let es = match &v {
        Json::Arr(es) => es,
        _ => {
            return None;
        },
    };
    proof {
        crate::json::lemma_jview_seq(es@);
        assert forall|names: Seq<Seq<char>>|
            text@ == spec_ser(#[trigger] string_list_jsonv(names)) implies crate::json::jview_seq(
            es@,
        ) == string_list_jsonv(names)->Arr_0 by {
            assert(v@ == string_list_jsonv(names));
        }
    }
    let mut out: Vec<String> = Vec::new();
    let mut i: usize = 0;
    while i < es.len()
        invariant
            i <= es@.len(),
            crate::json::jview_seq(es@).len() == es@.len(),
            forall|k: int|
                0 <= k < es@.len() ==> crate::json::jview_seq(es@)[k] == jview(
                    #[trigger] es@[k],
                ),
            forall|names: Seq<Seq<char>>|
                text@ == spec_ser(#[trigger] string_list_jsonv(names)) ==> crate::json::jview_seq(
                    es@,
                ) == string_list_jsonv(names)->Arr_0,
            out@.len() == i,
            forall|k: int|
                0 <= k < i ==> JsonV::Str((#[trigger] out@[k])@) == crate::json::jview_seq(es@)[k],
        decreases es@.len() - i,
    {
        let name = match &es[i] {
            Json::Str(t) => chars_to_string(t),
            _ => {
                proof {
                    assert forall|names: Seq<Seq<char>>|
                        !(text@ == spec_ser(#[trigger] string_list_jsonv(names))) by {
                        if text@ == spec_ser(string_list_jsonv(names)) {
                            assert(crate::json::jview_seq(es@)[i as int] == string_list_jsonv(
                                names,
                            )->Arr_0[i as int]);
                            assert(jview(es@[i as int]) == JsonV::Str(names[i as int]));
                            let x = es@[i as int];
                            match x {
                                Json::Null => {},
                                Json::Bool(_) => {},
                                Json::Num(_) => {},
                                Json::Str(_) => {},
                                Json::Arr(_) => {},
                                Json::Obj(_) => {},
                            }
                        }
                    }
                }
                return None;
            },
        };
        out.push(name);
        i = i + 1;
    }
    proof {
        assert forall|names: Seq<Seq<char>>|
            text@ == spec_ser(#[trigger] string_list_jsonv(names)) implies out.deep_view()
            == names by {
            assert(out.deep_view() =~= names) by {
                assert forall|k: int| 0 <= k < out@.len() implies out.deep_view()[k]
                    == names[k] by {
                    assert(JsonV::Str(out@[k]@) == crate::json::jview_seq(es@)[k]);
                    assert(crate::json::jview_seq(es@)[k] == JsonV::Str(names[k]));
                    assert(out.deep_view()[k] == out@[k]@);
                }
            }
        }
        assert(crate::json::jview_seq(es@) =~= string_list_jsonv(out.deep_view())->Arr_0) by {
            assert forall|k: int|
                0 <= k < es@.len() implies crate::json::jview_seq(es@)[k] == string_list_jsonv(
                out.deep_view(),
            )->Arr_0[k] by {
                assert(JsonV::Str(out@[k]@) == crate::json::jview_seq(es@)[k]);
                assert(out.deep_view()[k] == out@[k]@);
            }
        }
    }
    Some(out)
}

/// The snapshot entries a registry state writes.
pub open spec fn snap_entries(v: Seq<TopicV>) -> SnapEntriesV {
    Seq::new(v.len(), |i: int| (v[i].name, v[i].message_type))
}

/// The broker's snapshot writer and this reader agree: the JSON object the
/// registry persists for a state is exactly the one that parses back to
/// that state's entries, so a snapshot written after a topology change
/// reads back unchanged.
pub proof fn lemma_snapshot_agreement(v: Seq<TopicV>)
    ensures
        snapshot_pairs(snap_entries(v)) == snap_pairs(v),
{
    assert(snapshot_pairs(snap_entries(v)) =~= snap_pairs(v));
}

} // verus!