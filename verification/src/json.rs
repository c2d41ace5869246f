//! The JSON payload model and its canonical text codec.
//!
//! Payloads travel on the wire as JSON text inside a line-oriented frame, so
//! the printer guarantees that the text it emits never contains a raw line
//! break: `"`, `\`, newline, carriage return and tab are escaped inside
//! string literals.  A number is kept as its raw token text, which makes the
//! codec exact: printing a decoded value reproduces the original token
//! byte for byte, with no numeric rounding.

use vstd::prelude::*;

verus! {

/// A structured JSON value.  String and key contents and number tokens are
/// held as their character sequences.
#[derive(Debug, PartialEq, Eq)]
pub enum Json {
    Null,
    Bool(bool),
    Num(Vec<char>),
    Str(Vec<char>),
    Arr(Vec<Json>),
    Obj(Vec<(Vec<char>, Json)>),
}

/// The mathematical model of a [`Json`] value.
pub enum JsonV {
    Null,
    Bool(bool),
    Num(Seq<char>),
    Str(Seq<char>),
    Arr(Seq<JsonV>),
    Obj(Seq<(Seq<char>, JsonV)>),
}

pub open spec fn jview_seq(es: Seq<Json>) -> Seq<JsonV>
    decreases es,
{
    if es.len() == 0 {
        Seq::empty()
    } else {
        jview_seq(es.drop_last()).push(jview(es.last()))
    }
}

pub open spec fn jview_pairs(ps: Seq<(Vec<char>, Json)>) -> Seq<(Seq<char>, JsonV)>
    decreases ps,
{
    if ps.len() == 0 {
        Seq::empty()
    } else {
        jview_pairs(ps.drop_last()).push((ps.last().0@, jview(ps.last().1)))
    }
}

pub open spec fn jview(j: Json) -> JsonV
    decreases j,
{
    match j {
        Json::Null => JsonV::Null,
        Json::Bool(b) => JsonV::Bool(b),
        Json::Num(t) => JsonV::Num(t@),
        Json::Str(s) => JsonV::Str(s@),
        Json::Arr(es) => JsonV::Arr(jview_seq(es@)),
        Json::Obj(ps) => JsonV::Obj(jview_pairs(ps@)),
    }
}

impl View for Json {
    type V = JsonV;

    open spec fn view(&self) -> JsonV {
        jview(*self)
    }
}

/// A decimal digit.
pub open spec fn is_digit(c: char) -> bool {
    48 <= c as u32 && c as u32 <= 57
}

/// The characters a number token may contain.
pub open spec fn is_num_char(c: char) -> bool {
    c == '-' || c == '+' || c == '.' || c == 'e' || c == 'E' || is_digit(c)
}

/// A well-formed number token: nonempty, made of number characters only,
/// and opening with a sign or a digit so the parser can recognise it.
pub open spec fn num_token_wf(t: Seq<char>) -> bool {
    &&& t.len() > 0
    &&& forall|i: int| 0 <= i < t.len() ==> is_num_char(#[trigger] t[i])
    &&& (t[0] == '-' || is_digit(t[0]))
}

/// Well-formedness of a value: every number token in it is well formed.
/// Strings are unconstrained; the escaping scheme covers every character.
pub open spec fn wf(v: JsonV) -> bool
    decreases v, 1int,
{
    match v {
        JsonV::Null => true,
        JsonV::Bool(_) => true,
        JsonV::Num(t) => num_token_wf(t),
        JsonV::Str(_) => true,
        JsonV::Arr(es) => wf_list(es),
        JsonV::Obj(ps) => wf_pairs(ps),
    }
}

/// Well-formedness of every element of an array.
pub open spec fn wf_list(es: Seq<JsonV>) -> bool
    decreases es, 0int,
{
    es.len() == 0 || (wf(es[0]) && wf_list(es.drop_first()))
}

/// Well-formedness of every member value of an object.
pub open spec fn wf_pairs(ps: Seq<(Seq<char>, JsonV)>) -> bool
    decreases ps, 0int,
{
    ps.len() == 0 || (wf(ps[0].1) && wf_pairs(ps.drop_first()))
}

/// Every element of a well-formed array is well formed.
pub proof fn lemma_wf_list_elem(es: Seq<JsonV>, k: int)
    requires
        wf_list(es),
        0 <= k < es.len(),
    ensures
        wf(es[k]),
    decreases es.len(),
{
    if k > 0 {
        assert(es.drop_first()[k - 1] == es[k]);
        lemma_wf_list_elem(es.drop_first(), k - 1);
    }
}

/// Every member value of a well-formed object is well formed.
pub proof fn lemma_wf_pairs_elem(ps: Seq<(Seq<char>, JsonV)>, k: int)
    requires
        wf_pairs(ps),
        0 <= k < ps.len(),
    ensures
        wf(ps[k].1),
    decreases ps.len(),
{
    if k > 0 {
        assert(ps.drop_first()[k - 1] == ps[k]);
        lemma_wf_pairs_elem(ps.drop_first(), k - 1);
    }
}

/// An array of well-formed elements is well formed.
pub proof fn lemma_wf_list_intro(es: Seq<JsonV>)
    requires
        forall|i: int| 0 <= i < es.len() ==> wf(#[trigger] es[i]),
    ensures
        wf_list(es),
    decreases es.len(),
{
    if es.len() > 0 {
        assert forall|i: int| 0 <= i < es.drop_first().len() implies wf(
            #[trigger] es.drop_first()[i],
        ) by {
            assert(es.drop_first()[i] == es[i + 1]);
        }
        lemma_wf_list_intro(es.drop_first());
    }
}

/// An object of well-formed member values is well formed.
pub proof fn lemma_wf_pairs_intro(ps: Seq<(Seq<char>, JsonV)>)
    requires
        forall|i: int| 0 <= i < ps.len() ==> wf((#[trigger] ps[i]).1),
    ensures
        wf_pairs(ps),
    decreases ps.len(),
{
    if ps.len() > 0 {
        assert forall|i: int| 0 <= i < ps.drop_first().len() implies wf(
            (#[trigger] ps.drop_first()[i]).1,
        ) by {
            assert(ps.drop_first()[i] == ps[i + 1]);
        }
        lemma_wf_pairs_intro(ps.drop_first());
    }
}

/// How one character of a string is written inside a string literal.
pub open spec fn esc_char(c: char) -> Seq<char> {
    if c == '"' {
        seq!['\\', '"']
    } else if c == '\\' {
        seq!['\\', '\\']
    } else if c == '\n' {
        seq!['\\', 'n']
    } else if c == '\r' {
        seq!['\\', 'r']
    } else if c == '\t' {
        seq!['\\', 't']
    } else {
        seq![c]
    }
}

/// The escaped form of a whole string body.
pub open spec fn esc(s: Seq<char>) -> Seq<char>
    decreases s,
{
    if s.len() == 0 {
        Seq::empty()
    } else {
        esc_char(s[0]) + esc(s.drop_first())
    }
}

/// The canonical text of a value: no whitespace, strings escaped as in
/// [`esc`], numbers printed as their tokens.
pub open spec fn spec_ser(v: JsonV) -> Seq<char>
    decreases v, 1int,
{
    match v {
        JsonV::Null => seq!['n', 'u', 'l', 'l'],
        JsonV::Bool(b) => if b {
            seq!['t', 'r', 'u', 'e']
        } else {
            seq!['f', 'a', 'l', 's', 'e']
        },
        JsonV::Num(t) => t,
        JsonV::Str(s) => seq!['"'] + esc(s) + seq!['"'],
        JsonV::Arr(es) => seq!['['] + spec_ser_list(es) + seq![']'],
        JsonV::Obj(ps) => seq!['{'] + spec_ser_pairs(ps) + seq!['}'],
    }
}

/// Comma-separated canonical texts of the elements of an array.
pub open spec fn spec_ser_list(es: Seq<JsonV>) -> Seq<char>
    decreases es, 0int,
{
    if es.len() == 0 {
        Seq::empty()
    } else if es.len() == 1 {
        spec_ser(es[0])
    } else {
        spec_ser(es[0]) + seq![','] + spec_ser_list(es.drop_first())
    }
}

/// Comma-separated canonical texts of the members of an object.  One member
/// is written as its quoted escaped key, a colon, and its value.
pub open spec fn spec_ser_pairs(ps: Seq<(Seq<char>, JsonV)>) -> Seq<char>
    decreases ps, 0int,
{
    if ps.len() == 0 {
        Seq::empty()
    } else if ps.len() == 1 {
        seq!['"'] + esc(ps[0].0) + seq!['"', ':'] + spec_ser(ps[0].1)
    } else {
        seq!['"'] + esc(ps[0].0) + seq!['"', ':'] + spec_ser(ps[0].1) + seq![',']
            + spec_ser_pairs(ps.drop_first())
    }
}

/// The model of a vector of values, element by element.
pub proof fn lemma_jview_seq(es: Seq<Json>)
    ensures
        jview_seq(es).len() == es.len(),
        forall|i: int| 0 <= i < es.len() ==> jview_seq(es)[i] == jview(#[trigger] es[i]),
    decreases es.len(),
{
    if es.len() > 0 {
        lemma_jview_seq(es.drop_last());
        assert forall|i: int| 0 <= i < es.len() implies jview_seq(es)[i] == jview(
            #[trigger] es[i],
        ) by {
            if i < es.len() - 1 {
                assert(es.drop_last()[i] == es[i]);
                assert(jview_seq(es)[i] == jview_seq(es.drop_last())[i]);
            } else {
                assert(es[i] == es.last());
            }
        }
    }
}

/// The model of a vector of members, member by member.
pub proof fn lemma_jview_pairs(ps: Seq<(Vec<char>, Json)>)
    ensures
        jview_pairs(ps).len() == ps.len(),
        forall|i: int| 0 <= i < ps.len() ==> jview_pairs(ps)[i] == ((#[trigger] ps[i]).0@,
        jview(ps[i].1)),
    decreases ps.len(),
{
    if ps.len() > 0 {
        lemma_jview_pairs(ps.drop_last());
        assert forall|i: int| 0 <= i < ps.len() implies jview_pairs(ps)[i] == ((
        #[trigger] ps[i]).0@, jview(ps[i].1)) by {
            if i < ps.len() - 1 {
                assert(ps.drop_last()[i] == ps[i]);
                assert(jview_pairs(ps)[i] == jview_pairs(ps.drop_last())[i]);
            } else {
                assert(ps[i] == ps.last());
            }
        }
    }
}

/// Escaping distributes over appending one character.
pub proof fn lemma_esc_snoc(s: Seq<char>, c: char)
    ensures
        esc(s.push(c)) == esc(s) + esc_char(c),
    decreases s.len(),
{
    if s.len() == 0 {
        assert(s.push(c).len() == 1);
        assert(s.push(c)[0] == c);
        assert(s.push(c).drop_first() =~= Seq::<char>::empty());
        assert(esc(Seq::<char>::empty()) == Seq::<char>::empty());
        assert(esc(s.push(c)) == esc_char(s.push(c)[0]) + esc(s.push(c).drop_first()));
        assert(esc(s.push(c)) =~= esc_char(c));
        assert(esc(s) + esc_char(c) =~= esc_char(c));
    } else {
        assert(s.push(c)[0] == s[0]);
        assert(s.push(c).drop_first() =~= s.drop_first().push(c));
        lemma_esc_snoc(s.drop_first(), c);
        assert(esc(s.push(c)) =~= esc(s) + esc_char(c));
    }
}

/// The list text grows at the right by a comma and the new element.
pub proof fn lemma_ser_list_snoc(es: Seq<JsonV>, e: JsonV)
    ensures
        es.len() == 0 ==> spec_ser_list(es.push(e)) == spec_ser(e),
        es.len() > 0 ==> spec_ser_list(es.push(e)) == spec_ser_list(es) + seq![','] + spec_ser(e),
    decreases es.len(),
{
    if es.len() == 0 {
        assert(es.push(e)[0] == e);
    } else if es.len() == 1 {
        assert(es.push(e)[0] == es[0]);
        assert(es.push(e).drop_first() =~= seq![e]);
        assert(spec_ser_list(seq![e]) == spec_ser(e));
        assert(spec_ser_list(es.push(e)) =~= spec_ser_list(es) + seq![','] + spec_ser(e));
    } else {
        assert(es.push(e)[0] == es[0]);
        assert(es.push(e).drop_first() =~= es.drop_first().push(e));
        lemma_ser_list_snoc(es.drop_first(), e);
        assert(spec_ser_list(es.push(e)) =~= spec_ser_list(es) + seq![','] + spec_ser(e));
    }
}

/// The member text grows at the right by a comma and the new member.
pub proof fn lemma_ser_pairs_snoc(ps: Seq<(Seq<char>, JsonV)>, p: (Seq<char>, JsonV))
    ensures
        ps.len() == 0 ==> spec_ser_pairs(ps.push(p)) == seq!['"'] + esc(p.0) + seq!['"', ':']
            + spec_ser(p.1),
        ps.len() > 0 ==> spec_ser_pairs(ps.push(p)) == spec_ser_pairs(ps) + seq![','] + seq!['"']
            + esc(p.0) + seq!['"', ':'] + spec_ser(p.1),
    decreases ps.len(),
{
    if ps.len() == 0 {
        assert(ps.push(p)[0] == p);
        assert(spec_ser_pairs(ps.push(p)) =~= seq!['"'] + esc(p.0) + seq!['"', ':'] + spec_ser(
            p.1,
        ));
    } else if ps.len() == 1 {
        assert(ps.push(p)[0] == ps[0]);
        assert(ps.push(p).drop_first() =~= seq![p]);
        assert(seq![p][0] == p);
        assert(spec_ser_pairs(seq![p]) == seq!['"'] + esc(p.0) + seq!['"', ':'] + spec_ser(p.1));
        assert(spec_ser_pairs(ps.push(p)) =~= spec_ser_pairs(ps) + seq![','] + seq!['"'] + esc(
            p.0,
        ) + seq!['"', ':'] + spec_ser(p.1));
    } else {
        assert(ps.push(p)[0] == ps[0]);
        assert(ps.push(p).drop_first() =~= ps.drop_first().push(p));
        lemma_ser_pairs_snoc(ps.drop_first(), p);
        assert(spec_ser_pairs(ps.push(p)) =~= spec_ser_pairs(ps) + seq![','] + seq!['"'] + esc(
            p.0,
        ) + seq!['"', ':'] + spec_ser(p.1));
    }
}

/// Appends the escaped form of the string body `s` to `out`.
fn write_escaped(s: &Vec<char>, out: &mut Vec<char>)
    ensures
        final(out)@ == old(out)@ + esc(s@),
{
    let ghost base = out@;
    let mut i: usize = 0;
    proof {
        assert(out@ =~= base + esc(s@.take(0int)));
    }
    while i < s.len()
        invariant
            i <= s@.len(),
            out@ == base + esc(s@.take(i as int)),
        decreases s@.len() - i,
    {
        let c = s[i];
        if c == '"' {
            out.push('\\');
            out.push('"');
        } else if c == '\\' {
            out.push('\\');
            out.push('\\');
        } else if c == '\n' {
            out.push('\\');
            out.push('n');
        } else if c == '\r' {
            out.push('\\');
            out.push('r');
        } else if c == '\t' {
            out.push('\\');
            out.push('t');
        } else {
            out.push(c);
        }
        proof {
            assert(s@.take(i + 1 as int) =~= s@.take(i as int).push(s@[i as int]));
            lemma_esc_snoc(s@.take(i as int), s@[i as int]);
            assert(out@ =~= base + esc(s@.take(i + 1 as int)));
        }
        i = i + 1;
    }
    proof {
        assert(s@.take(s@.len() as int) =~= s@);
    }
}

impl Json {
    /// Appends the canonical text of this value to `out`.
    pub fn write(&self, out: &mut Vec<char>)
        requires
            wf(self@),
        ensures
            final(out)@ == old(out)@ + spec_ser(self@),
        decreases self@,
    {
        let ghost base = out@;
        match self {
            Json::Null => {
                out.push('n');
                out.push('u');
                out.push('l');
                out.push('l');
                proof {
                    assert(out@ =~= base + spec_ser(self@));
                }
            },
            Json::Bool(b) => {
                if *b {
                    out.push('t');
                    out.push('r');
                    out.push('u');
                    out.push('e');
                } else {
                    out.push('f');
                    out.push('a');
                    out.push('l');
                    out.push('s');
                    out.push('e');
                }
                proof {
                    assert(out@ =~= base + spec_ser(self@));
                }
            },
            Json::Num(t) => {
                let mut i: usize = 0;
                proof {
                    assert(out@ =~= base + t@.take(0int));
                }
                while i < t.len()
                    invariant
                        i <= t@.len(),
                        out@ == base + t@.take(i as int),
                    decreases t@.len() - i,
                {
                    out.push(t[i]);
                    proof {
                        assert(t@.take(i + 1 as int) =~= t@.take(i as int).push(t@[i as int]));
                        assert(out@ =~= base + t@.take(i + 1 as int));
                    }
                    i = i + 1;
                }
                proof {
                    assert(t@.take(t@.len() as int) =~= t@);
                }
            },
            Json::Str(s) => {
                out.push('"');
                write_escaped(s, out);
                out.push('"');
                proof {
                    assert(out@ =~= base + spec_ser(self@));
                }
            },
            Json::Arr(es) => {
                proof {
                    lemma_jview_seq(es@);
                    assert(wf_list(jview_seq(es@)));
                }
                out.push('[');
                let mut i: usize = 0;
                proof {
                    assert(out@ =~= base + seq!['['] + spec_ser_list(jview_seq(es@).take(0int)));
                }
                while i < es.len()
                    invariant
                        i <= es@.len(),
                        self@ == JsonV::Arr(jview_seq(es@)),
                        jview_seq(es@).len() == es@.len(),
                        forall|k: int|
                            0 <= k < es@.len() ==> jview_seq(es@)[k] == jview(#[trigger] es@[k]),
                        wf_list(jview_seq(es@)),
                        out@ == base + seq!['['] + spec_ser_list(jview_seq(es@).take(i as int)),
                    decreases es@.len() - i,
                {
                    if i > 0 {
                        out.push(',');
                    }
                    let elem = &es[i];
                    proof {
                        let av = self@;
                        lemma_wf_list_elem(jview_seq(es@), i as int);
                        assert(jview_seq(es@)[i as int] == jview(es@[i as int]));
                        assert(av->Arr_0 == jview_seq(es@));
                        assert(decreases_to!(av => av->Arr_0));
                        assert(decreases_to!(av->Arr_0 => av->Arr_0[i as int]));
                    }
                    elem.write(out);
                    proof {
                        lemma_ser_list_snoc(jview_seq(es@).take(i as int), jview(es@[i as int]));
                        assert(jview_seq(es@).take(i + 1 as int) =~= jview_seq(es@).take(
                            i as int,
                        ).push(jview(es@[i as int])));
                        assert(out@ =~= base + seq!['['] + spec_ser_list(jview_seq(es@).take(
                            i + 1 as int,
                        )));
                    }
                    i = i + 1;
                }
                out.push(']');
                proof {
                    assert(jview_seq(es@).take(es@.len() as int) =~= jview_seq(es@));
                    assert(out@ =~= base + spec_ser(self@));
                }
            },
            Json::Obj(ps) => {
                proof {
                    lemma_jview_pairs(ps@);
                    assert(wf_pairs(jview_pairs(ps@)));
                }
                out.push('{');
                let mut i: usize = 0;
                proof {
                    assert(out@ =~= base + seq!['{'] + spec_ser_pairs(jview_pairs(ps@).take(0int)));
                }
                while i < ps.len()
                    invariant
                        i <= ps@.len(),
                        self@ == JsonV::Obj(jview_pairs(ps@)),
                        jview_pairs(ps@).len() == ps@.len(),
                        forall|k: int|
                            0 <= k < ps@.len() ==> jview_pairs(ps@)[k] == ((#[trigger] ps@[k]).0@,
                            jview(ps@[k].1)),
                        wf_pairs(jview_pairs(ps@)),
                        out@ == base + seq!['{'] + spec_ser_pairs(jview_pairs(ps@).take(i as int)),
                    decreases ps@.len() - i,
                {
                    if i > 0 {
                        out.push(',');
                    }
                    out.push('"');
                    write_escaped(&ps[i].0, out);
                    out.push('"');
                    out.push(':');
                    let val = &ps[i].1;
                    proof {
                        lemma_wf_pairs_elem(jview_pairs(ps@), i as int);
                        assert(jview_pairs(ps@)[i as int] == (ps@[i as int].0@, jview(
                            ps@[i as int].1,
                        )));
                        let ov = self@;
                        assert(ov->Obj_0 == jview_pairs(ps@));
                        assert(decreases_to!(ov => ov->Obj_0));
                        assert(decreases_to!(ov->Obj_0 => ov->Obj_0[i as int]));
                        assert(decreases_to!(ov->Obj_0[i as int] => ov->Obj_0[i as int].1));
                    }
                    val.write(out);
                    proof {
                        lemma_ser_pairs_snoc(
                            jview_pairs(ps@).take(i as int),
                            (ps@[i as int].0@, jview(ps@[i as int].1)),
                        );
                        assert(jview_pairs(ps@).take(i + 1 as int) =~= jview_pairs(ps@).take(
                            i as int,
                        ).push((ps@[i as int].0@, jview(ps@[i as int].1))));
                        assert(out@ =~= base + seq!['{'] + spec_ser_pairs(jview_pairs(ps@).take(
                            i + 1 as int,
                        )));
                    }
                    i = i + 1;
                }
                out.push('}');
                proof {
                    assert(jview_pairs(ps@).take(ps@.len() as int) =~= jview_pairs(ps@));
                    assert(out@ =~= base + spec_ser(self@));
                }
            },
        }
    }

    /// The canonical text of this value.
    pub fn to_text(&self) -> (r: Vec<char>)
        requires
            wf(self@),
        ensures
            r@ == spec_ser(self@),
    {
        let mut out: Vec<char> = Vec::new();
        self.write(&mut out);
        out
    }
}

impl Json {
    /// A deep copy with the same model.
    pub fn clone_value(&self) -> (r: Json)
        ensures
            r@ == self@,
        decreases self@,
    {
        match self {
            Json::Null => Json::Null,
            Json::Bool(b) => Json::Bool(*b),
            Json::Num(t) => Json::Num(clone_chars(t)),
            Json::Str(s) => Json::Str(clone_chars(s)),
            Json::Arr(es) => {
                proof {
                    lemma_jview_seq(es@);
                }
                let mut out: Vec<Json> = Vec::new();
                let mut i: usize = 0;
                while i < es.len()
                    invariant
                        i <= es@.len(),
                        self@ == JsonV::Arr(jview_seq(es@)),
                        jview_seq(es@).len() == es@.len(),
                        forall|k: int|
                            0 <= k < es@.len() ==> jview_seq(es@)[k] == jview(#[trigger] es@[k]),
                        out@.len() == i,
                        forall|k: int| 0 <= k < i ==> jview(#[trigger] out@[k]) == jview(es@[k]),
                    decreases es@.len() - i,
                {
                    let elem = &es[i];
                    proof {
                        let av = self@;
                        assert(av->Arr_0 == jview_seq(es@));
                        assert(decreases_to!(av => av->Arr_0));
                        assert(decreases_to!(av->Arr_0 => av->Arr_0[i as int]));
                    }
                    let c = elem.clone_value();
                    out.push(c);
                    i = i + 1;
                }
                let ghost outv = out@;
                let r = Json::Arr(out);
                proof {
                    lemma_jview_seq(outv);
                    assert forall|k: int|
                        0 <= k < es@.len() implies jview_seq(outv)[k] == jview_seq(es@)[k] by {
                        assert(jview_seq(outv)[k] == jview(outv[k]));
                        assert(jview(outv[k]) == jview(es@[k]));
                    }
                    assert(jview_seq(outv) =~= jview_seq(es@));
                }
                r
            },
            Json::Obj(ps) => {
                proof {
                    lemma_jview_pairs(ps@);
                }
                let mut out: Vec<(Vec<char>, Json)> = Vec::new();
                let mut i: usize = 0;
                while i < ps.len()
                    invariant
                        i <= ps@.len(),
                        self@ == JsonV::Obj(jview_pairs(ps@)),
                        jview_pairs(ps@).len() == ps@.len(),
                        forall|k: int|
                            0 <= k < ps@.len() ==> jview_pairs(ps@)[k] == ((#[trigger] ps@[k]).0@,
                            jview(ps@[k].1)),
                        out@.len() == i,
                        forall|k: int|
                            0 <= k < i ==> ((#[trigger] out@[k]).0@, jview(out@[k].1)) == (
                            ps@[k].0@, jview(ps@[k].1)),
                    decreases ps@.len() - i,
                {
                    let key = clone_chars(&ps[i].0);
                    let val = &ps[i].1;
                    proof {
                        let ov = self@;
                        assert(ov->Obj_0 == jview_pairs(ps@));
                        assert(decreases_to!(ov => ov->Obj_0));
                        assert(decreases_to!(ov->Obj_0 => ov->Obj_0[i as int]));
                        assert(decreases_to!(ov->Obj_0[i as int] => ov->Obj_0[i as int].1));
                        assert(jview_pairs(ps@)[i as int] == (ps@[i as int].0@, jview(
                            ps@[i as int].1,
                        )));
                    }
                    let c = val.clone_value();
                    out.push((key, c));
                    i = i + 1;
                }
                let ghost outv = out@;
                let r = Json::Obj(out);
                proof {
                    lemma_jview_pairs(outv);
                    assert forall|k: int|
                        0 <= k < ps@.len() implies jview_pairs(outv)[k] == jview_pairs(ps@)[k] by {
                        assert(jview_pairs(outv)[k] == (outv[k].0@, jview(outv[k].1)));
                        assert((outv[k].0@, jview(outv[k].1)) == (ps@[k].0@, jview(ps@[k].1)));
                    }
                    assert(jview_pairs(outv) =~= jview_pairs(ps@));
                }
                r
            },
        }
    }
}

/// A copy of a character vector.
fn clone_chars(v: &Vec<char>) -> (r: Vec<char>)
    ensures
        r@ == v@,
{
    let mut out: Vec<char> = Vec::new();
    let mut i: usize = 0;
    while i < v.len()
        invariant
            i <= v@.len(),
            out@ == v@.take(i as int),
        decreases v@.len() - i,
    {
        out.push(v[i]);
        proof {
            assert(v@.take(i + 1 as int) =~= v@.take(i as int).push(v@[i as int]));
        }
        i = i + 1;
    }
    proof {
        assert(v@.take(v@.len() as int) =~= v@);
    }
    out
}

} // verus!