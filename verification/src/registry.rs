//! The topic registry: the broker's authoritative set of topics.
//!
//! A topic binds a unique name to an optional message type, fixed at
//! creation, and to the connections subscribed to it.  The registry is
//! meant to live behind one exclusive lock shared by every connection
//! handler; each operation here is the body of one such critical section,
//! so the laws about racing `ensure` calls are stated over consecutive
//! applications of its transition function.

use vstd::prelude::*;
use crate::json::{Json, JsonV, wf, spec_ser, jview, jview_pairs, lemma_jview_pairs, lemma_wf_pairs_intro};
use crate::envelope::{opt_str_jsonv, opt_str_json};
use crate::text::{string_to_chars, chars_to_string};

verus! {

/// One topic: its name, its optional message type, and the identifiers of
/// the connections subscribed to it.
pub struct Topic {
    pub name: String,
    pub message_type: Option<String>,
    pub subscribers: Vec<u64>,
}

/// The mathematical model of a [`Topic`].
pub struct TopicV {
    pub name: Seq<char>,
    pub message_type: Option<Seq<char>>,
    pub subscribers: Seq<u64>,
}

pub open spec fn opt_view(o: Option<String>) -> Option<Seq<char>> {
    match o {
        Some(t) => Some(t@),
        None => None,
    }
}

impl View for Topic {
    type V = TopicV;

    open spec fn view(&self) -> TopicV {
        TopicV {
            name: self.name@,
            message_type: opt_view(self.message_type),
            subscribers: self.subscribers@,
        }
    }
}

/// The registry error: a topic already carries another message type.
#[derive(Debug, Clone, Copy, PartialEq, Eq)]
pub enum RegistryError {
    TypeConflict,
}

/// The registry: the complete set of topics.
pub struct TopicRegistry {
    topics: Vec<Topic>,
}

pub open spec fn has_topic(v: Seq<TopicV>, name: Seq<char>) -> bool {
    exists|i: int| 0 <= i < v.len() && v[i].name == name
}

pub open spec fn idx_of(v: Seq<TopicV>, name: Seq<char>) -> int {
    choose|i: int| 0 <= i < v.len() && v[i].name == name
}

pub open spec fn type_of(v: Seq<TopicV>, name: Seq<char>) -> Option<Seq<char>> {
    v[idx_of(v, name)].message_type
}

pub open spec fn subs_of(v: Seq<TopicV>, name: Seq<char>) -> Seq<u64> {
    v[idx_of(v, name)].subscribers
}

/// Topic names are unique.
pub open spec fn wf_reg(v: Seq<TopicV>) -> bool {
    forall|i: int, j: int|
        0 <= i < v.len() && 0 <= j < v.len() && i != j ==> (#[trigger] v[i]).name != (
        #[trigger] v[j]).name
}

/// How many records carry this name.
pub open spec fn count_name(v: Seq<TopicV>, name: Seq<char>) -> nat
    decreases v.len(),
{
    if v.len() == 0 {
        0
    } else {
        count_name(v.drop_last(), name) + if v.last().name == name {
            1nat
        } else {
            0nat
        }
    }
}

/// Whether an `ensure(name, message_type)` call succeeds on this state.
pub open spec fn ensure_ok(v: Seq<TopicV>, name: Seq<char>, mt: Option<Seq<char>>) -> bool {
    !has_topic(v, name) || type_of(v, name) == mt
}

/// The state after an `ensure(name, message_type)` call: unchanged when
/// the name is present (matching or conflicting type), extended by a fresh
/// subscriber-less record otherwise.
pub open spec fn ensure_post(v: Seq<TopicV>, name: Seq<char>, mt: Option<Seq<char>>) -> Seq<
    TopicV,
> {
    if has_topic(v, name) {
        v
    } else {
        v.push(TopicV { name: name, message_type: mt, subscribers: Seq::empty() })
    }
}

/// At a position holding `name`, the lookup functions read that record.
pub proof fn lemma_found(v: Seq<TopicV>, name: Seq<char>, i: int)
    requires
        wf_reg(v),
        0 <= i < v.len(),
        v[i].name == name,
    ensures
        has_topic(v, name),
        idx_of(v, name) == i,
        type_of(v, name) == v[i].message_type,
        subs_of(v, name) == v[i].subscribers,
{
    assert(has_topic(v, name));
    let j = idx_of(v, name);
    assert(0 <= j < v.len() && v[j].name == name);
    assert(j == i);
}

/// With unique names, a name is carried by exactly one record when it is
/// present, and by none otherwise.
pub proof fn lemma_count_name(v: Seq<TopicV>, name: Seq<char>)
    requires
        wf_reg(v),
    ensures
        count_name(v, name) == if has_topic(v, name) {
            1nat
        } else {
            0nat
        },
    decreases v.len(),
{
    if v.len() > 0 {
        let w = v.drop_last();
        assert(wf_reg(w)) by {
            assert forall|i: int, j: int|
                0 <= i < w.len() && 0 <= j < w.len() && i != j implies (#[trigger] w[i]).name != (
            #[trigger] w[j]).name by {
                assert(w[i] == v[i]);
                assert(w[j] == v[j]);
            }
        }
        lemma_count_name(w, name);
        if v.last().name == name {
            assert(has_topic(v, name)) by {
                assert(v[v.len() - 1].name == name);
            }
            assert(!has_topic(w, name)) by {
                if has_topic(w, name) {
                    let i = idx_of(w, name);
                    assert(0 <= i < w.len() && w[i].name == name);
                    assert(v[i].name == name);
                    assert(v[v.len() - 1].name == name);
                }
            }
        } else {
            assert(has_topic(v, name) <==> has_topic(w, name)) by {
                if has_topic(v, name) {
                    let i = idx_of(v, name);
                    assert(0 <= i < v.len() && v[i].name == name);
                    assert(i < v.len() - 1);
                    assert(w[i].name == name);
                }
                if has_topic(w, name) {
                    let i = idx_of(w, name);
                    assert(v[i].name == name);
                }
            }
        }
    }
}

/// An `ensure` call keeps names unique.
pub proof fn lemma_ensure_wf(v: Seq<TopicV>, name: Seq<char>, mt: Option<Seq<char>>)
    requires
        wf_reg(v),
    ensures
        wf_reg(ensure_post(v, name, mt)),
{
    if !has_topic(v, name) {
        let v1 = ensure_post(v, name, mt);
        assert forall|i: int, j: int|
            0 <= i < v1.len() && 0 <= j < v1.len() && i != j implies (#[trigger] v1[i]).name != (
        #[trigger] v1[j]).name by {
            if i < v.len() && j < v.len() {
                assert(v1[i] == v[i]);
                assert(v1[j] == v[j]);
            } else if i < v.len() {
                assert(v1[j].name == name);
                assert(v1[i] == v[i]);
                assert(!(v[i].name == name)) by {
                    if v[i].name == name {
                        assert(has_topic(v, name));
                    }
                }
            } else {
                assert(v1[i].name == name);
                assert(v1[j] == v[j]);
                assert(!(v[j].name == name)) by {
                    if v[j].name == name {
                        assert(has_topic(v, name));
                    }
                }
            }
        }
    }
}

/// A topic's message type is fixed at creation: however later `ensure`
/// calls are argued, an existing topic keeps its type.
pub proof fn lemma_type_immutable(
    v: Seq<TopicV>,
    name: Seq<char>,
    mt: Option<Seq<char>>,
    other: Seq<char>,
)
    requires
        wf_reg(v),
        has_topic(v, other),
    ensures
        has_topic(ensure_post(v, name, mt), other),
        type_of(ensure_post(v, name, mt), other) == type_of(v, other),
{
    let v1 = ensure_post(v, name, mt);
    lemma_ensure_wf(v, name, mt);
    let i = idx_of(v, other);
    assert(0 <= i < v.len() && v[i].name == other);
    if !has_topic(v, name) {
        assert(v1[i] == v[i]);
        lemma_found(v1, other, i);
    }
}

/// Racing `ensure` calls with identical arguments, run one after the other
/// under the registry lock: the first to run creates or finds the record,
/// the second observes success as well, changes nothing, and exactly one
/// record with that name results.
pub proof fn lemma_ensure_idempotent(v: Seq<TopicV>, name: Seq<char>, mt: Option<Seq<char>>)
    requires
        wf_reg(v),
        ensure_ok(v, name, mt),
    ensures
        ({
            let v1 = ensure_post(v, name, mt);
            &&& wf_reg(v1)
            &&& ensure_ok(v1, name, mt)
            &&& ensure_post(v1, name, mt) == v1
            &&& count_name(v1, name) == 1
        }),
{
    let v1 = ensure_post(v, name, mt);
    lemma_ensure_wf(v, name, mt);
    if has_topic(v, name) {
        lemma_count_name(v, name);
    } else {
        assert(v1[v.len() as int].name == name);
        lemma_found(v1, name, v.len() as int);
        lemma_count_name(v1, name);
    }
}

/// Racing `ensure` calls with the same name and different types, run one
/// after the other under the registry lock on a registry without the name:
/// the first succeeds, the second is refused and changes nothing, and the
/// registry never holds two records for the name.
pub proof fn lemma_ensure_conflict(
    v: Seq<TopicV>,
    name: Seq<char>,
    mt_a: Option<Seq<char>>,
    mt_b: Option<Seq<char>>,
)
    requires
        wf_reg(v),
        !has_topic(v, name),
        mt_a != mt_b,
    ensures
        ({
            let v1 = ensure_post(v, name, mt_a);
            &&& ensure_ok(v, name, mt_a)
            &&& wf_reg(v1)
            &&& !ensure_ok(v1, name, mt_b)
            &&& ensure_post(v1, name, mt_b) == v1
            &&& count_name(v1, name) == 1
        }),
{
    let v1 = ensure_post(v, name, mt_a);
    lemma_ensure_wf(v, name, mt_a);
    assert(v1[v.len() as int].name == name);
    lemma_found(v1, name, v.len() as int);
    lemma_count_name(v1, name);
}

fn opt_eq(a: &Option<String>, b: &Option<String>) -> (r: bool)
    ensures
        r == (opt_view(*a) == opt_view(*b)),
{
    match (a, b) {
        (None, None) => true,
        (Some(x), Some(y)) => *x == *y,
        _ => false,
    }
}

impl TopicRegistry {
    pub closed spec fn view(&self) -> Seq<TopicV> {
        Seq::new(self.topics@.len(), |i: int| self.topics@[i]@)
    }

    /// Names are unique; established by the constructor and kept by every
    /// operation.
    pub open spec fn wf(&self) -> bool {
        wf_reg(self@)
    }

    /// An empty registry.
    pub fn new() -> (r: TopicRegistry)
        ensures
            r.wf(),
            r@ == Seq::<TopicV>::empty(),
    {
        let r = TopicRegistry { topics: Vec::new() };
        proof {
            assert(r@ =~= Seq::<TopicV>::empty());
        }
        r
    }

    /// Finds the position of a topic.
    fn find(&self, name: &String) -> (r: Option<usize>)
        requires
            self.wf(),
        ensures
            r matches Some(i) ==> i < self@.len() && self@[i as int].name == name@ && has_topic(
                self@,
                name@,
            ) && idx_of(self@, name@) == i,
            r is None ==> !has_topic(self@, name@),
    {
        let mut i: usize = 0;
        while i < self.topics.len()
            invariant
                self.wf(),
                i <= self@.len(),
                self@.len() == self.topics@.len(),
                forall|k: int| 0 <= k < i ==> (#[trigger] self@[k]).name != name@,
            decreases self@.len() - i,
        {
            if self.topics[i].name == *name {
                proof {
                    assert(self@[i as int].name == name@);
                    lemma_found(self@, name@, i as int);
                }
                return Some(i);
            }
            i = i + 1;
        }
        proof {
            if has_topic(self@, name@) {
                let k = idx_of(self@, name@);
                assert(0 <= k < self@.len() && self@[k].name == name@);
            }
        }
        None
    }

    /// Returns the existing topic's presence, creates the topic when it is
    /// absent, and refuses a conflicting type.  `Ok(true)` means a fresh
    /// record was added and the snapshot should be rewritten.
    pub fn ensure(&mut self, name: String, message_type: Option<String>) -> (r: Result<
        bool,
        RegistryError,
    >)
        requires
            old(self).wf(),
        ensures
            final(self).wf(),
            r is Ok ==> ensure_ok(old(self)@, name@, opt_view(message_type)) && final(self)@
                == ensure_post(old(self)@, name@, opt_view(message_type)),
            r matches Ok(created) ==> created == !has_topic(old(self)@, name@),
            r is Err <==> !ensure_ok(old(self)@, name@, opt_view(message_type)),
            r is Err ==> final(self)@ == old(self)@,
    {
        proof {
            lemma_ensure_wf(old(self)@, name@, opt_view(message_type));
        }
        match self.find(&name) {
            Some(i) => {
                if opt_eq(&self.topics[i].message_type, &message_type) {
                    proof {
                        assert(type_of(self@, name@) == opt_view(message_type));
                    }
                    Ok(false)
                } else {
                    proof {
                        assert(type_of(self@, name@) != opt_view(message_type));
                    }
                    Err(RegistryError::TypeConflict)
                }
            },
            None => {
                let t = Topic { name, message_type, subscribers: Vec::new() };
                let ghost oldv = self@;
                let ghost tv = t@;
                self.topics.push(t);
                proof {
                    assert(self@ =~= oldv.push(tv));
                    assert(tv.subscribers =~= Seq::<u64>::empty());
                    assert(self@ == ensure_post(oldv, tv.name, tv.message_type));
                }
                Ok(true)
            },
        }
    }

    /// Registers a connection as a subscriber of an existing topic.
    pub fn add_subscriber(&mut self, name: &String, conn: u64) -> (r: bool)
        requires
            old(self).wf(),
        ensures
            final(self).wf(),
            r == has_topic(old(self)@, name@),
            !r ==> final(self)@ == old(self)@,
            r ==> {
                let i = idx_of(old(self)@, name@);
                final(self)@ == old(self)@.update(
                    i,
                    TopicV {
                        name: old(self)@[i].name,
                        message_type: old(self)@[i].message_type,
                        subscribers: old(self)@[i].subscribers.push(conn),
                    },
                )
            },
    {
        match self.find(name) {
            Some(i) => {
                let ghost oldv = self@;
                let mut t = self.topics.remove(i);
                t.subscribers.push(conn);
                let ghost tv = t@;
                self.topics.insert(i, t);
                proof {
                    assert(self@ =~= oldv.update(i as int, tv));
                    assert forall|a: int, b: int|
                        0 <= a < self@.len() && 0 <= b < self@.len() && a != b implies (
                    #[trigger] self@[a]).name != (#[trigger] self@[b]).name by {
                        assert(oldv[a].name != oldv[b].name);
                        assert(self@[a].name == oldv[a].name);
                        assert(self@[b].name == oldv[b].name);
                    }
                }
                true
            },
            None => false,
        }
    }

    /// The recipients of a publication: every current subscriber of the
    /// topic.  Fan-out itself is the caller's work, done while it still
    /// holds the registry lock; the delivered count is the length.
    pub fn publish(&self, name: &String) -> (r: Option<Vec<u64>>)
        requires
            self.wf(),
        ensures
            r matches Some(subs) ==> has_topic(self@, name@) && subs@ == subs_of(self@, name@),
            r is None <==> !has_topic(self@, name@),
    {
        match self.find(name) {
            Some(i) => {
                let t = &self.topics[i];
                let mut out: Vec<u64> = Vec::new();
                let mut k: usize = 0;
                while k < t.subscribers.len()
                    invariant
                        k <= t.subscribers@.len(),
                        out@ == t.subscribers@.take(k as int),
                    decreases t.subscribers@.len() - k,
                {
                    out.push(t.subscribers[k]);
                    proof {
                        assert(t.subscribers@.take(k + 1 as int) =~= t.subscribers@.take(
                            k as int,
                        ).push(t.subscribers@[k as int]));
                    }
                    k = k + 1;
                }
                proof {
                    assert(t.subscribers@.take(t.subscribers@.len() as int) =~= t.subscribers@);
                    assert(subs_of(self@, name@) == self@[i as int].subscribers);
                }
                Some(out)
            },
            None => None,
        }
    }

    /// An ordered snapshot of the topics: each name with its type.
    pub fn list(&self) -> (r: Vec<(String, Option<String>)>)
        ensures
            r@.len() == self@.len(),
            forall|i: int|
                0 <= i < self@.len() ==> (#[trigger] r@[i]).0@ == self@[i].name && opt_view(
                    r@[i].1,
                ) == self@[i].message_type,
    {
        let mut out: Vec<(String, Option<String>)> = Vec::new();
        let mut i: usize = 0;
        while i < self.topics.len()
            invariant
                i <= self.topics@.len(),
                self@.len() == self.topics@.len(),
                out@.len() == i,
                forall|k: int|
                    0 <= k < i ==> (#[trigger] out@[k]).0@ == self@[k].name && opt_view(out@[k].1)
                        == self@[k].message_type,
            decreases self.topics@.len() - i,
        {
            let t = &self.topics[i];
            let name = t.name.clone();
            let mt: Option<String> = match &t.message_type {
                Some(s) => Some(s.clone()),
                None => None,
            };
            out.push((name, mt));
            i = i + 1;
        }
        out
    }
}

pub open spec fn finish_name() -> Seq<char> {
    seq!['f', 'i', 'n', 'i', 's', 'h']
}

pub open spec fn info_name() -> Seq<char> {
    seq!['i', 'n', 'f', 'o']
}

/// The snapshot form of the registry: each topic name mapped to its type
/// name or to null.
pub open spec fn snap_pairs(v: Seq<TopicV>) -> Seq<(Seq<char>, JsonV)> {
    Seq::new(v.len(), |i: int| (v[i].name, opt_str_jsonv(v[i].message_type)))
}

impl TopicRegistry {
    /// The registry a broker starts with: the two built-in untyped topics,
    /// the shutdown control topic and the information topic.
    pub fn seeded() -> (r: TopicRegistry)
        ensures
            r.wf(),
            r@ == seq![
                TopicV { name: finish_name(), message_type: None, subscribers: Seq::empty() },
                TopicV { name: info_name(), message_type: None, subscribers: Seq::empty() },
            ],
    {
        let finish = String::from_str("finish");
        let info = String::from_str("info");
        proof {
            reveal_strlit("finish");
            reveal_strlit("info");
            assert(finish@ =~= finish_name());
            assert(info@ =~= info_name());
        }
        let mut topics: Vec<Topic> = Vec::new();
        topics.push(Topic { name: finish, message_type: None, subscribers: Vec::new() });
        topics.push(Topic { name: info, message_type: None, subscribers: Vec::new() });
        let r = TopicRegistry { topics };
        proof {
            assert(r@ =~= seq![
                TopicV { name: finish_name(), message_type: None, subscribers: Seq::empty() },
                TopicV { name: info_name(), message_type: None, subscribers: Seq::empty() },
            ]);
        }
        r
    }

    /// Drops a connection from every topic, so a closed or broken
    /// subscriber socket cannot accumulate.
    pub fn remove_subscriber(&mut self, conn: u64)
        requires
            old(self).wf(),
        ensures
            final(self).wf(),
            final(self)@.len() == old(self)@.len(),
            forall|i: int|
                0 <= i < old(self)@.len() ==> {
                    &&& (#[trigger] final(self)@[i]).name == old(self)@[i].name
                    &&& final(self)@[i].message_type == old(self)@[i].message_type
                    &&& final(self)@[i].subscribers == old(self)@[i].subscribers.filter(
                        |c: u64| c != conn,
                    )
                },
    {
        let ghost oldv = self@;
        let mut i: usize = 0;
        while i < self.topics.len()
            invariant
                i <= self.topics@.len(),
                self@.len() == self.topics@.len(),
                oldv.len() == self@.len(),
                forall|k: int|
                    i <= k < oldv.len() ==> #[trigger] self@[k] == oldv[k],
                forall|k: int|
                    0 <= k < i ==> (#[trigger] self@[k]).name == oldv[k].name
                        && self@[k].message_type == oldv[k].message_type && self@[k].subscribers
                        == oldv[k].subscribers.filter(|c: u64| c != conn),
            decreases self.topics@.len() - i,
        {
            let ghost prev = self@;
            let mut t = self.topics.remove(i);
            let ghost tv = t@;
            let mut kept: Vec<u64> = Vec::new();
            let mut k: usize = 0;
            proof {
                reveal(Seq::filter);
                assert(tv.subscribers.take(0int) =~= Seq::<u64>::empty());
                assert(kept@ =~= tv.subscribers.take(0int).filter(|c: u64| c != conn));
            }
            while k < t.subscribers.len()
                invariant
                    k <= t.subscribers@.len(),
                    t.subscribers@ == tv.subscribers,
                    kept@ == tv.subscribers.take(k as int).filter(|c: u64| c != conn),
                decreases t.subscribers@.len() - k,
            {
                let c = t.subscribers[k];
                proof {
                    reveal(Seq::filter);
                    assert(tv.subscribers.take(k + 1 as int) =~= tv.subscribers.take(
                        k as int,
                    ).push(tv.subscribers[k as int]));
                    assert(tv.subscribers.take(k + 1 as int).drop_last() =~= tv.subscribers.take(
                        k as int,
                    ));
                }
                if c != conn {
                    kept.push(c);
                }
                k = k + 1;
            }
            proof {
                assert(tv.subscribers.take(tv.subscribers.len() as int) =~= tv.subscribers);
            }
            t.subscribers = kept;
            let ghost tv2 = t@;
            self.topics.insert(i, t);
            proof {
                assert(self@ =~= prev.update(i as int, tv2));
                assert(prev[i as int] == oldv[i as int]);
                assert(tv == oldv[i as int]);
            }
            i = i + 1;
        }
        proof {
            assert forall|a: int, b: int|
                0 <= a < self@.len() && 0 <= b < self@.len() && a != b implies (
            #[trigger] self@[a]).name != (#[trigger] self@[b]).name by {
                assert(oldv[a].name != oldv[b].name);
                assert(self@[a].name == oldv[a].name);
                assert(self@[b].name == oldv[b].name);
            }
        }
    }

    /// The snapshot text that is persisted after each topology change: a
    /// JSON object mapping each topic name to its type name or null.
    pub fn topics_snapshot_json(&self) -> (r: String)
        ensures
            r@ == spec_ser(JsonV::Obj(snap_pairs(self@))),
    {
        let mut pairs: Vec<(Vec<char>, Json)> = Vec::new();
        let mut i: usize = 0;
        while i < self.topics.len()
            invariant
                i <= self.topics@.len(),
                self@.len() == self.topics@.len(),
                pairs@.len() == i,
                forall|k: int|
                    0 <= k < i ==> ((#[trigger] pairs@[k]).0@, jview(pairs@[k].1)) == snap_pairs(
                        self@,
                    )[k],
            decreases self.topics@.len() - i,
        {
            let t = &self.topics[i];
            let key = string_to_chars(t.name.as_str());
            let val = opt_str_json(&t.message_type);
            pairs.push((key, val));
            i = i + 1;
        }
        let ghost psv = pairs@;
        let obj = Json::Obj(pairs);
        proof {
            lemma_jview_pairs(psv);
            assert forall|k: int|
                0 <= k < psv.len() implies jview_pairs(psv)[k] == snap_pairs(self@)[k] by {
                assert(jview_pairs(psv)[k] == (psv[k].0@, jview(psv[k].1)));
            }
            assert(jview_pairs(psv) =~= snap_pairs(self@));
            assert forall|k: int|
                0 <= k < snap_pairs(self@).len() implies wf(
                (#[trigger] snap_pairs(self@)[k]).1,
            ) by {}
            lemma_wf_pairs_intro(snap_pairs(self@));
        }
        let text = obj.to_text();
        chars_to_string(&text)
    }
}

} // verus!