//! The schema store: message-type names bound to JSON Schema documents.
//!
//! Schema compilation and instance validation are the work of the
//! `jsonschema` crate; this module keeps the schema documents as text,
//! admits only documents that compile, and exposes validation as a pure
//! function of the schema text and the payload text.

use vstd::prelude::*;

verus! {

/// Whether a schema document compiles: its text parses as JSON and the
/// parsed document is a valid JSON Schema.
pub uninterp spec fn schema_wf(schema: Seq<char>) -> bool;

/// Whether a schema accepts a payload: the payload text parses as JSON
/// and the parsed instance satisfies the compiled schema.  A payload that
/// does not parse is not accepted.  Both texts alone determine the answer.
pub uninterp spec fn schema_accepts(schema: Seq<char>, payload: Seq<char>) -> bool;

/// Relies on serde_json::from_str and jsonschema::validator_for: a schema
/// document compiles exactly when its text is JSON and the value is a
/// valid schema, which depends on the text alone.
#[verifier::external_body]
fn compiles_schema(schema: &str) -> (r: bool)
    ensures
        r == schema_wf(schema@),
{
    match serde_json::from_str::<serde_json::Value>(schema) {
        Ok(doc) => jsonschema::validator_for(&doc).is_ok(),
        Err(_) => false,
    }
}

/// Relies on serde_json::from_str and jsonschema's Validator::is_valid:
/// for a schema that compiles, whether a payload is accepted depends on
/// the two texts alone; an unparseable payload is rejected.
#[verifier::external_body]
fn validate_payload(schema: &str, payload: &str) -> (r: bool)
    requires
        schema_wf(schema@),
    ensures
        r == schema_accepts(schema@, payload@),
{
    let doc: serde_json::Value = match serde_json::from_str(schema) {
        Ok(d) => d,
        Err(_) => return false,
    };
    let validator = match jsonschema::validator_for(&doc) {
        Ok(v) => v,
        Err(_) => return false,
    };
    match serde_json::from_str::<serde_json::Value>(payload) {
        Ok(instance) => validator.is_valid(&instance),
        Err(_) => false,
    }
}

/// The store: each registered message type's name with its schema text.
/// Every stored document compiles; a document that does not is refused at
/// insertion, a fatal configuration error for the caller.
pub struct SchemaStore {
    entries: Vec<(String, String)>,
}

impl SchemaStore {
    /// The type invariant: names are unique and every schema compiles.
    #[verifier::type_invariant]
    spec fn inv(self) -> bool {
        &&& forall|i: int, j: int|
            0 <= i < self.entries@.len() && 0 <= j < self.entries@.len() && i != j ==> (
            #[trigger] self.entries@[i]).0@ != (#[trigger] self.entries@[j]).0@
        &&& forall|i: int|
            0 <= i < self.entries@.len() ==> schema_wf((#[trigger] self.entries@[i]).1@)
    }

    /// Whether a message type is registered.
    pub closed spec fn has_type(&self, name: Seq<char>) -> bool {
        exists|i: int| 0 <= i < self.entries@.len() && (#[trigger] self.entries@[i]).0@ == name
    }

    /// The schema text of a registered message type.
    pub closed spec fn schema_of(&self, name: Seq<char>) -> Seq<char> {
        self.entries@[choose|i: int|
            0 <= i < self.entries@.len() && (#[trigger] self.entries@[i]).0@ == name].1@
    }

    /// An empty store.
    pub fn new() -> (r: SchemaStore)
        ensures
            forall|n: Seq<char>| !r.has_type(n),
    {
        SchemaStore { entries: Vec::new() }
    }

    /// Registers a message type with its schema document.  Returns false,
    /// and stores nothing, when the name is taken or the document does not
    /// compile.
    pub fn add(&mut self, name: String, schema_text: String) -> (r: bool)
        ensures
            r == (!old(self).has_type(name@) && schema_wf(schema_text@)),
            r ==> final(self).has_type(name@) && final(self).schema_of(name@) == schema_text@,
            forall|n: Seq<char>|
                n != name@ ==> #[trigger] final(self).has_type(n) == old(self).has_type(n),
            forall|n: Seq<char>|
                n != name@ && old(self).has_type(n) ==> #[trigger] final(self).schema_of(n) == old(
                    self,
                ).schema_of(n),
            !r ==> *final(self) == *old(self),
    {
        proof {
            use_type_invariant(&*self);
        }
        if self.contains(&name) {
            return false;
        }
        if !compiles_schema(schema_text.as_str()) {
            return false;
        }
        let ghost oldv = self.entries@;
        let mut es: Vec<(String, String)> = Vec::new();
        core::mem::swap(&mut self.entries, &mut es);
        es.push((name, schema_text));
        core::mem::swap(&mut self.entries, &mut es);
        proof {
            let n = self.entries@.len() - 1;
            assert forall|i: int, j: int|
                0 <= i < self.entries@.len() && 0 <= j < self.entries@.len() && i != j implies (
            #[trigger] self.entries@[i]).0@ != (#[trigger] self.entries@[j]).0@ by {
                if i < n && j < n {
                    assert(self.entries@[i] == oldv[i]);
                    assert(self.entries@[j] == oldv[j]);
                } else if i < n {
                    if self.entries@[i].0@ == self.entries@[j].0@ {
                        assert(old(self).has_type(self.entries@[j].0@));
                    }
                } else {
                    if self.entries@[i].0@ == self.entries@[j].0@ {
                        assert(old(self).has_type(self.entries@[i].0@));
                    }
                }
            }
            assert(self.entries@[n].0@ == self.entries@[n].0@);
            assert(self.has_type(self.entries@[n].0@));
            let w = choose|i: int|
                0 <= i < self.entries@.len() && (#[trigger] self.entries@[i]).0@
                    == self.entries@[n].0@;
            assert(w == n);
            assert forall|nm: Seq<char>|
                nm != self.entries@[n].0@ implies #[trigger] self.has_type(nm) == old(
                self,
            ).has_type(nm) by {
                if self.has_type(nm) {
                    let i = choose|i: int|
                        0 <= i < self.entries@.len() && (#[trigger] self.entries@[i]).0@ == nm;
                    assert(i < n);
                    assert(oldv[i].0@ == nm);
                }
                if old(self).has_type(nm) {
                    let i = choose|i: int|
                        0 <= i < oldv.len() && (#[trigger] oldv[i]).0@ == nm;
                    assert(self.entries@[i].0@ == nm);
                }
            }
            assert forall|nm: Seq<char>|
                nm != self.entries@[n].0@ && old(self).has_type(nm) implies #[trigger] self
                .schema_of(nm) == old(self).schema_of(nm) by {
                let i = choose|i: int|
                    0 <= i < self.entries@.len() && (#[trigger] self.entries@[i]).0@ == nm;
                let j = choose|j: int| 0 <= j < oldv.len() && (#[trigger] oldv[j]).0@ == nm;
                assert(self.entries@[j].0@ == nm);
                assert(i == j);
            }
        }
        true
    }

    /// Whether a message type is registered.
    pub fn contains(&self, name: &String) -> (r: bool)
        ensures
            r == self.has_type(name@),
    {
        proof {
            use_type_invariant(self);
        }
        let mut i: usize = 0;
        while i < self.entries.len()
            invariant
                i <= self.entries@.len(),
                forall|k: int| 0 <= k < i ==> (#[trigger] self.entries@[k]).0@ != name@,
            decreases self.entries@.len() - i,
        {
            if self.entries[i].0 == *name {
                proof {
                    assert(self.has_type(name@));
                }
                return true;
            }
            i = i + 1;
        }
        proof {
            if self.has_type(name@) {
                let k = choose|k: int|
                    0 <= k < self.entries@.len() && (#[trigger] self.entries@[k]).0@ == name@;
                assert(0 <= k < self.entries@.len());
            }
        }
        false
    }

    /// Validates a payload text against the schema of a registered type.
    /// `None` means the type is not registered.
    pub fn validate(&self, name: &String, payload: &str) -> (r: Option<bool>)
        ensures
            r matches Some(b) ==> self.has_type(name@) && b == schema_accepts(
                self.schema_of(name@),
                payload@,
            ),
            r is None <==> !self.has_type(name@),
    {
        proof {
            use_type_invariant(self);
        }
        let mut i: usize = 0;
        while i < self.entries.len()
            invariant
                i <= self.entries@.len(),
                forall|k: int, j: int|
                    0 <= k < self.entries@.len() && 0 <= j < self.entries@.len() && k != j ==> (
                    #[trigger] self.entries@[k]).0@ != (#[trigger] self.entries@[j]).0@,
                forall|k: int| 0 <= k < self.entries@.len() ==> schema_wf(
                    (#[trigger] self.entries@[k]).1@,
                ),
                forall|k: int| 0 <= k < i ==> (#[trigger] self.entries@[k]).0@ != name@,
            decreases self.entries@.len() - i,
        {
            if self.entries[i].0 == *name {
                let b = validate_payload(self.entries[i].1.as_str(), payload);
                proof {
                    assert(self.has_type(name@));
                    let w = choose|k: int|
                        0 <= k < self.entries@.len() && (#[trigger] self.entries@[k]).0@ == name@;
                    assert(w == i);
                }
                return Some(b);
            }
            i = i + 1;
        }
        proof {
            if self.has_type(name@) {
                let k = choose|k: int|
                    0 <= k < self.entries@.len() && (#[trigger] self.entries@[k]).0@ == name@;
                assert(0 <= k < self.entries@.len());
            }
        }
        None
    }
}

} // verus!
