//! The JSON text parser: the exact inverse of the canonical printer.
//!
//! Each parsing function carries two guarantees.  Soundness: whatever it
//! accepts, the consumed text is exactly the canonical print of the returned
//! value.  Completeness: whenever the input holds the canonical print of a
//! well-formed value at the given position, that value is returned.  The two
//! together make decoding after encoding the identity.

use vstd::prelude::*;
use crate::json::{
    Json,
    JsonV,
    wf,
    wf_list,
    wf_pairs,
    spec_ser,
    spec_ser_list,
    spec_ser_pairs,
    esc,
    esc_char,
    is_digit,
    is_num_char,
    num_token_wf,
    jview,
    jview_seq,
    jview_pairs,
    lemma_jview_seq,
    lemma_jview_pairs,
    lemma_wf_list_elem,
    lemma_wf_pairs_elem,
};

verus! {

/// The canonical print of `w` stands in `s` at position `i`, and is not
/// followed by a character that could extend a number token.
pub open spec fn canon_at(s: Seq<char>, i: int, w: JsonV) -> bool {
    &&& 0 <= i
    &&& i + spec_ser(w).len() <= s.len()
    &&& s.subrange(i, i + spec_ser(w).len()) == spec_ser(w)
    &&& (i + spec_ser(w).len() == s.len() || !is_num_char(s[i + spec_ser(w).len()]))
}

/// The escaped body of string `w` stands at `i`, closed by a quote.
pub open spec fn strbody_at(s: Seq<char>, i: int, w: Seq<char>) -> bool {
    &&& 0 <= i
    &&& i + esc(w).len() + 1 <= s.len()
    &&& s.subrange(i, i + esc(w).len()) == esc(w)
    &&& s[i + esc(w).len()] == '"'
}

/// A character may open the escaped form of some character only as itself
/// (when it needs no escape) or as a backslash.
pub proof fn lemma_esc_head(w: Seq<char>)
    requires
        w.len() > 0,
    ensures
        esc(w).len() > 0,
        esc(w)[0] != '"',
        esc(w)[0] == '\\' || esc(w)[0] == w[0],
        esc(w)[0] == '\\' <==> (w[0] == '"' || w[0] == '\\' || w[0] == '\n' || w[0] == '\r'
            || w[0] == '\t'),
        esc(w)[0] != '\\' ==> esc(w) == seq![w[0]] + esc(w.drop_first()),
        esc(w)[0] == '\\' ==> esc(w).len() >= 2 && esc(w) == esc_char(w[0]) + esc(w.drop_first())
            && esc_char(w[0]).len() == 2,
{
    assert(esc(w) == esc_char(w[0]) + esc(w.drop_first()));
    if !(w[0] == '"' || w[0] == '\\' || w[0] == '\n' || w[0] == '\r' || w[0] == '\t') {
        assert(esc_char(w[0]) == seq![w[0]]);
        assert(esc(w) =~= seq![w[0]] + esc(w.drop_first()));
    }
}

/// Parses the body of a string literal from `i` up to and including the
/// closing quote, returning the unescaped contents.
#[verifier::rlimit(100)]
pub fn parse_str_body(s: &Vec<char>, i: usize) -> (r: Option<(Vec<char>, usize)>)
    requires
        i <= s@.len(),
    ensures
        r matches Some(p) ==> {
            &&& i < p.1 <= s@.len()
            &&& p.1 == i + esc(p.0@).len() + 1
            &&& s@.subrange(i as int, p.1 as int) == esc(p.0@) + seq!['"']
        },
        forall|w: Seq<char>|
            strbody_at(s@, i as int, w) ==> (r matches Some(p) && p.0@ == w && p.1 == i + esc(
                w,
            ).len() + 1),
    decreases s@.len() - i,
{
    if i >= s.len() {
        proof {
            assert forall|w: Seq<char>| !strbody_at(s@, i as int, w) by {
                if strbody_at(s@, i as int, w) {
                    assert(i + esc(w).len() + 1 <= s@.len());
                }
            }
        }
        return None;
    }
    let c = s[i];
    if c == '"' {
        let out: Vec<char> = Vec::new();
        proof {
            assert(esc(out@) == Seq::<char>::empty());
            assert(s@.subrange(i as int, i + 1 as int) =~= esc(out@) + seq!['"']);
            assert forall|w: Seq<char>| strbody_at(s@, i as int, w) implies w == out@ by {
                if w.len() > 0 {
                    lemma_esc_head(w);
                    assert(s@[i as int] == esc(w)[0]);
                }
                assert(w =~= out@);
            }
        }
        return Some((out, i + 1));
    }
    if c == '\\' {
        if i + 1 >= s.len() {
            proof {
                assert forall|w: Seq<char>| !strbody_at(s@, i as int, w) by {
                    if strbody_at(s@, i as int, w) {
                        if w.len() == 0 {
                            assert(s@[i as int] == '"');
                        } else {
                            lemma_esc_head(w);
                            assert(esc(w)[0] == s@[i as int]);
                            assert(esc(w).len() >= 2);
                            assert(i + esc(w).len() + 1 <= s@.len());
                        }
                    }
                }
            }
            return None;
        }
        let e = s[i + 1];
        let d: char;
        if e == '"' {
            d = '"';
        } else if e == '\\' {
            d = '\\';
        } else if e == 'n' {
            d = '\n';
        } else if e == 'r' {
            d = '\r';
        } else if e == 't' {
            d = '\t';
        } else {
            proof {
                assert forall|w: Seq<char>| !strbody_at(s@, i as int, w) by {
                    if strbody_at(s@, i as int, w) {
                        if w.len() == 0 {
                            assert(s@[i as int] == '"');
                        } else {
                            lemma_esc_head(w);
                            assert(esc(w)[0] == s@[i as int]);
                            assert(esc_char(w[0]).len() == 2);
                            assert(esc(w)[1] == esc_char(w[0])[1]);
                            assert(s@[i + 1 as int] == esc_char(w[0])[1]);
                        }
                    }
                }
            }
            return None;
        }
        proof {
            assert(esc_char(d) =~= seq!['\\', e]);
        }
        match parse_str_body(s, i + 2) {
            Some((mut rest, k)) => {
                let ghost restv = rest@;
                rest.insert(0, d);
                proof {
                    assert(rest@ =~= seq![d] + restv);
                    assert(rest@[0] == d);
                    assert(rest@.drop_first() =~= restv);
                    assert(esc(rest@) == esc_char(d) + esc(restv));
                    assert(s@.subrange(i as int, k as int) =~= esc(rest@) + seq!['"']) by {
                        assert(s@.subrange(i + 2 as int, k as int) == esc(restv) + seq!['"']);
                        assert(s@.subrange(i as int, k as int) =~= seq![s@[i as int], s@[i + 1 as int]]
                            + s@.subrange(i + 2 as int, k as int));
                    }
                    assert forall|w: Seq<char>| strbody_at(s@, i as int, w) implies w == rest@ && k
                        == i + esc(w).len() + 1 by {
                        lemma_esc_head(w);
                        if w.len() == 0 {
                            assert(s@[i as int] == '"');
                        }
                        assert(esc(w)[0] == s@[i as int]);
                        assert(esc_char(w[0]).len() == 2);
                        assert(esc(w)[1] == esc_char(w[0])[1]);
                        assert(s@[i + 1 as int] == esc_char(w[0])[1]);
                        assert(w[0] == d);
                        assert(strbody_at(s@, i + 2 as int, w.drop_first())) by {
                            assert(esc(w) == esc_char(w[0]) + esc(w.drop_first()));
                            assert(s@.subrange(i + 2 as int, i + 2 + esc(w.drop_first()).len())
                                =~= esc(w.drop_first())) by {
                                assert forall|q: int|
                                    0 <= q < esc(w.drop_first()).len() implies s@.subrange(
                                    i + 2 as int,
                                    i + 2 + esc(w.drop_first()).len(),
                                )[q] == esc(w.drop_first())[q] by {
                                    assert(s@.subrange(i as int, i + esc(w).len())[q + 2] == esc(
                                        w,
                                    )[q + 2]);
                                }
                            }
                        }
                        assert(w.drop_first() == restv);
                        assert(w =~= seq![d] + restv);
                    }
                }
                Some((rest, k))
            },
            None => {
                proof {
                    assert forall|w: Seq<char>| !strbody_at(s@, i as int, w) by {
                        if strbody_at(s@, i as int, w) {
                            lemma_esc_head(w);
                            if w.len() == 0 {
                                assert(s@[i as int] == '"');
                            }
                            assert(esc(w)[0] == s@[i as int]);
                            assert(esc_char(w[0]).len() == 2);
                            assert(esc(w)[1] == esc_char(w[0])[1]);
                            assert(s@[i + 1 as int] == esc_char(w[0])[1]);
                            assert(w[0] == d);
                            assert(strbody_at(s@, i + 2 as int, w.drop_first())) by {
                                assert(esc(w) == esc_char(w[0]) + esc(w.drop_first()));
                                assert(s@.subrange(i + 2 as int, i + 2 + esc(w.drop_first()).len())
                                    =~= esc(w.drop_first())) by {
                                    assert forall|q: int|
                                        0 <= q < esc(w.drop_first()).len() implies s@.subrange(
                                        i + 2 as int,
                                        i + 2 + esc(w.drop_first()).len(),
                                    )[q] == esc(w.drop_first())[q] by {
                                        assert(s@.subrange(i as int, i + esc(w).len())[q + 2]
                                            == esc(w)[q + 2]);
                                    }
                                }
                            }
                        }
                    }
                }
                None
            },
        }
    } else if c == '\n' || c == '\r' || c == '\t' {
        proof {
            assert forall|w: Seq<char>| !strbody_at(s@, i as int, w) by {
                if strbody_at(s@, i as int, w) {
                    if w.len() == 0 {
                        assert(s@[i as int] == '"');
                    } else {
                        lemma_esc_head(w);
                        assert(esc(w)[0] == s@[i as int]);
                    }
                }
            }
        }
        None
    } else {
        // a plain character that needs no escape
        match parse_str_body(s, i + 1) {
            Some((mut rest, k)) => {
                let ghost restv = rest@;
                rest.insert(0, c);
                proof {
                    assert(rest@ =~= seq![c] + restv);
                    assert(rest@[0] == c);
                    assert(rest@.drop_first() =~= restv);
                    assert(esc_char(c) =~= seq![c]);
                    assert(esc(rest@) == esc_char(c) + esc(restv));
                    assert(s@.subrange(i as int, k as int) =~= esc(rest@) + seq!['"']) by {
                        assert(s@.subrange(i + 1 as int, k as int) == esc(restv) + seq!['"']);
                        assert(s@.subrange(i as int, k as int) =~= seq![s@[i as int]] + s@.subrange(
                            i + 1 as int,
                            k as int,
                        ));
                    }
                    assert forall|w: Seq<char>| strbody_at(s@, i as int, w) implies w == rest@ && k
                        == i + esc(w).len() + 1 by {
                        if w.len() == 0 {
                            assert(s@[i as int] == '"');
                        }
                        lemma_esc_head(w);
                        assert(esc(w)[0] == s@[i as int]);
                        assert(esc(w)[0] != '\\');
                        assert(w[0] == c);
                        assert(esc(w) == seq![w[0]] + esc(w.drop_first()));
                        assert(strbody_at(s@, i + 1 as int, w.drop_first())) by {
                            assert(s@.subrange(i + 1 as int, i + 1 + esc(w.drop_first()).len())
                                =~= esc(w.drop_first())) by {
                                assert forall|q: int|
                                    0 <= q < esc(w.drop_first()).len() implies s@.subrange(
                                    i + 1 as int,
                                    i + 1 + esc(w.drop_first()).len(),
                                )[q] == esc(w.drop_first())[q] by {
                                    assert(s@.subrange(i as int, i + esc(w).len())[q + 1] == esc(
                                        w,
                                    )[q + 1]);
                                }
                            }
                        }
                        assert(w.drop_first() == restv);
                        assert(w =~= seq![c] + restv);
                    }
                }
                Some((rest, k))
            },
            None => {
                proof {
                    assert forall|w: Seq<char>| !strbody_at(s@, i as int, w) by {
                        if strbody_at(s@, i as int, w) {
                            if w.len() == 0 {
                                assert(s@[i as int] == '"');
                            }
                            lemma_esc_head(w);
                            assert(esc(w)[0] == s@[i as int]);
                            assert(esc(w)[0] != '\\');
                            assert(w[0] == c);
                            assert(esc(w) == seq![w[0]] + esc(w.drop_first()));
                            assert(strbody_at(s@, i + 1 as int, w.drop_first())) by {
                                assert(s@.subrange(i + 1 as int, i + 1 + esc(w.drop_first()).len())
                                    =~= esc(w.drop_first())) by {
                                    assert forall|q: int|
                                        0 <= q < esc(w.drop_first()).len() implies s@.subrange(
                                        i + 1 as int,
                                        i + 1 + esc(w.drop_first()).len(),
                                    )[q] == esc(w.drop_first())[q] by {
                                        assert(s@.subrange(i as int, i + esc(w).len())[q + 1]
                                            == esc(w)[q + 1]);
                                    }
                                }
                            }
                        }
                    }
                }
                None
            },
        }
    }
}

/// Reads the maximal run of number characters starting at `i`.
pub fn parse_num_token(s: &Vec<char>, i: usize) -> (r: (Vec<char>, usize))
    requires
        i < s@.len(),
        is_num_char(s@[i as int]),
    ensures
        i < r.1 <= s@.len(),
        r.0@ == s@.subrange(i as int, r.1 as int),
        forall|q: int| i <= q < r.1 ==> is_num_char(#[trigger] s@[q]),
        r.1 == s@.len() || !is_num_char(s@[r.1 as int]),
{
    let mut j: usize = i;
    let mut tok: Vec<char> = Vec::new();
    proof {
        assert(tok@ =~= s@.subrange(i as int, i as int));
    }
    while j < s.len() && is_num_char_x(s[j])
        invariant
            i <= j <= s@.len(),
            i < s@.len(),
            is_num_char(s@[i as int]),
            tok@ == s@.subrange(i as int, j as int),
            forall|q: int| i <= q < j ==> is_num_char(#[trigger] s@[q]),
        decreases s@.len() - j,
    {
        tok.push(s[j]);
        proof {
            assert(tok@ =~= s@.subrange(i as int, j + 1 as int));
        }
        j = j + 1;
    }
    proof {
        assert(j != i);
    }
    (tok, j)
}

/// Decides [`is_num_char`].
fn is_num_char_x(c: char) -> (b: bool)
    ensures
        b == is_num_char(c),
{
    let u = c as u32;
    c == '-' || c == '+' || c == '.' || c == 'e' || c == 'E' || (48 <= u && u <= 57)
}

/// The canonical text of one object member.
pub open spec fn spec_ser_pair1(p: (Seq<char>, JsonV)) -> Seq<char> {
    seq!['"'] + esc(p.0) + seq!['"', ':'] + spec_ser(p.1)
}

/// The comma-separated element texts of a nonempty array stand at `i`,
/// closed by a bracket.
pub open spec fn elems_at(s: Seq<char>, i: int, es: Seq<JsonV>) -> bool {
    &&& 0 <= i
    &&& i + spec_ser_list(es).len() + 1 <= s.len()
    &&& s.subrange(i, i + spec_ser_list(es).len()) == spec_ser_list(es)
    &&& s[i + spec_ser_list(es).len()] == ']'
}

/// The comma-separated member texts of a nonempty object stand at `i`,
/// closed by a brace.
pub open spec fn members_at(s: Seq<char>, i: int, ps: Seq<(Seq<char>, JsonV)>) -> bool {
    &&& 0 <= i
    &&& i + spec_ser_pairs(ps).len() + 1 <= s.len()
    &&& s.subrange(i, i + spec_ser_pairs(ps).len()) == spec_ser_pairs(ps)
    &&& s[i + spec_ser_pairs(ps).len()] == '}'
}

/// A subrange equal to a concatenation splits at the seam.
pub proof fn lemma_subrange_split(s: Seq<char>, i: int, a: Seq<char>, b: Seq<char>)
    requires
        0 <= i,
        i + a.len() + b.len() <= s.len(),
        s.subrange(i, i + a.len() + b.len()) == a + b,
    ensures
        s.subrange(i, i + a.len()) == a,
        s.subrange(i + a.len(), i + a.len() + b.len()) == b,
{
    assert forall|q: int| 0 <= q < a.len() implies s.subrange(i, i + a.len())[q] == a[q] by {
        assert(s.subrange(i, i + a.len() + b.len())[q] == (a + b)[q]);
    }
    assert(s.subrange(i, i + a.len()) =~= a);
    assert forall|q: int|
        0 <= q < b.len() implies s.subrange(i + a.len(), i + a.len() + b.len())[q] == b[q] by {
        assert(s.subrange(i, i + a.len() + b.len())[q + a.len()] == (a + b)[q + a.len()]);
        assert((a + b)[q + a.len()] == b[q]);
    }
    assert(s.subrange(i + a.len(), i + a.len() + b.len()) =~= b);
}

/// Two adjacent subranges join to their concatenation.
pub proof fn lemma_subrange_join(s: Seq<char>, i: int, a: Seq<char>, b: Seq<char>)
    requires
        0 <= i,
        i + a.len() + b.len() <= s.len(),
        s.subrange(i, i + a.len()) == a,
        s.subrange(i + a.len(), i + a.len() + b.len()) == b,
    ensures
        s.subrange(i, i + a.len() + b.len()) == a + b,
{
    assert forall|q: int|
        0 <= q < a.len() + b.len() implies s.subrange(i, i + a.len() + b.len())[q] == (a + b)[q] by {
        if q < a.len() {
            assert(s.subrange(i, i + a.len())[q] == a[q]);
        } else {
            assert(s.subrange(i + a.len(), i + a.len() + b.len())[q - a.len()] == b[q - a.len()]);
        }
    }
    assert(s.subrange(i, i + a.len() + b.len()) =~= a + b);
}

/// The first characters of the canonical texts of the six value forms are
/// distinct, which makes the canonical grammar parseable by one character
/// of lookahead.
pub proof fn lemma_ser_first(w: JsonV)
    requires
        wf(w),
    ensures
        spec_ser(w).len() > 0,
        match w {
            JsonV::Null => spec_ser(w) == seq!['n', 'u', 'l', 'l'],
            JsonV::Bool(b) => spec_ser(w) == if b {
                seq!['t', 'r', 'u', 'e']
            } else {
                seq!['f', 'a', 'l', 's', 'e']
            },
            JsonV::Num(t) => spec_ser(w) == t && t.len() > 0 && (t[0] == '-' || is_digit(t[0])),
            JsonV::Str(_) => spec_ser(w)[0] == '"',
            JsonV::Arr(_) => spec_ser(w)[0] == '[',
            JsonV::Obj(_) => spec_ser(w)[0] == '{',
        },
{
    match w {
        JsonV::Str(st) => {
            assert((seq!['"'] + esc(st) + seq!['"'])[0] == '"');
        },
        JsonV::Arr(es) => {
            assert((seq!['['] + spec_ser_list(es) + seq![']'])[0] == '[');
        },
        JsonV::Obj(ps) => {
            assert((seq!['{'] + spec_ser_pairs(ps) + seq!['}'])[0] == '{');
        },
        _ => {},
    }
}

/// Unfolds the list text at its first element.
pub proof fn lemma_ser_list_cons(e: JsonV, rest: Seq<JsonV>)
    ensures
        rest.len() == 0 ==> spec_ser_list(seq![e] + rest) == spec_ser(e),
        rest.len() > 0 ==> spec_ser_list(seq![e] + rest) == spec_ser(e) + seq![',']
            + spec_ser_list(rest),
{
    let es = seq![e] + rest;
    assert(es[0] == e);
    assert(es.drop_first() =~= rest);
}

/// Unfolds the member text at its first member.
pub proof fn lemma_ser_pairs_cons(p: (Seq<char>, JsonV), rest: Seq<(Seq<char>, JsonV)>)
    ensures
        rest.len() == 0 ==> spec_ser_pairs(seq![p] + rest) == spec_ser_pair1(p),
        rest.len() > 0 ==> spec_ser_pairs(seq![p] + rest) == spec_ser_pair1(p) + seq![',']
            + spec_ser_pairs(rest),
{
    let ps = seq![p] + rest;
    assert(ps[0] == p);
    assert(ps.drop_first() =~= rest);
    if rest.len() == 0 {
        assert(spec_ser_pairs(ps) =~= spec_ser_pair1(p));
    } else {
        assert(spec_ser_pairs(ps) =~= spec_ser_pair1(p) + seq![','] + spec_ser_pairs(rest));
    }
}

/// The model of a vector with an element put in front.
pub proof fn lemma_jview_seq_cons(x: Json, rest: Seq<Json>)
    ensures
        jview_seq(seq![x] + rest) == seq![jview(x)] + jview_seq(rest),
{
    lemma_jview_seq(seq![x] + rest);
    lemma_jview_seq(rest);
    assert forall|q: int|
        0 <= q < rest.len() + 1 implies jview_seq(seq![x] + rest)[q] == (seq![jview(x)]
        + jview_seq(rest))[q] by {
        if q == 0 {
            assert((seq![x] + rest)[0] == x);
        } else {
            assert((seq![x] + rest)[q] == rest[q - 1]);
            assert(jview_seq(rest)[q - 1] == jview(rest[q - 1]));
        }
    }
    assert(jview_seq(seq![x] + rest) =~= seq![jview(x)] + jview_seq(rest));
}

/// The model of a member vector with a member put in front.
pub proof fn lemma_jview_pairs_cons(p: (Vec<char>, Json), rest: Seq<(Vec<char>, Json)>)
    ensures
        jview_pairs(seq![p] + rest) == seq![(p.0@, jview(p.1))] + jview_pairs(rest),
{
    lemma_jview_pairs(seq![p] + rest);
    lemma_jview_pairs(rest);
    assert forall|q: int|
        0 <= q < rest.len() + 1 implies jview_pairs(seq![p] + rest)[q] == (seq![(p.0@, jview(p.1))]
        + jview_pairs(rest))[q] by {
        if q == 0 {
            assert((seq![p] + rest)[0] == p);
        } else {
            assert((seq![p] + rest)[q] == rest[q - 1]);
            assert(jview_pairs(rest)[q - 1] == (rest[q - 1].0@, jview(rest[q - 1].1)));
        }
    }
    assert(jview_pairs(seq![p] + rest) =~= seq![(p.0@, jview(p.1))] + jview_pairs(rest));
}

/// Splits a nonempty element list standing at `i` into its first element,
/// in canonical position, and what follows it.
pub proof fn lemma_elems_at_head(s: Seq<char>, i: int, es: Seq<JsonV>)
    requires
        es.len() > 0,
        wf_list(es),
        elems_at(s, i, es),
    ensures
        canon_at(s, i, es[0]),
        es.len() > 1 ==> s[i + spec_ser(es[0]).len()] == ',' && elems_at(
            s,
            i + spec_ser(es[0]).len() + 1,
            es.drop_first(),
        ),
        es.len() == 1 ==> s[i + spec_ser(es[0]).len()] == ']' && spec_ser_list(es) == spec_ser(
            es[0],
        ),
{
    assert(es =~= seq![es[0]] + es.drop_first());
    lemma_ser_list_cons(es[0], es.drop_first());
    let l0 = spec_ser(es[0]).len() as int;
    if es.len() == 1 {
        assert(spec_ser_list(es) == spec_ser(es[0]));
    } else {
        let tail = seq![','] + spec_ser_list(es.drop_first());
        assert(spec_ser_list(es) == spec_ser(es[0]) + tail);
        lemma_subrange_split(s, i, spec_ser(es[0]), tail);
        assert(s[i + l0] == tail[0]) by {
            assert(s.subrange(i + l0, i + l0 + tail.len())[0] == tail[0]);
        }
        assert forall|q: int|
            0 <= q < spec_ser_list(es.drop_first()).len() implies s.subrange(
            i + l0 + 1,
            i + l0 + 1 + spec_ser_list(es.drop_first()).len(),
        )[q] == spec_ser_list(es.drop_first())[q] by {
            assert(s.subrange(i + l0, i + l0 + tail.len())[q + 1] == tail[q + 1]);
        }
        assert(s.subrange(i + l0 + 1, i + l0 + 1 + spec_ser_list(es.drop_first()).len())
            =~= spec_ser_list(es.drop_first()));
        assert(s[i + l0 + 1 + spec_ser_list(es.drop_first()).len()] == ']');
    }
    // first element in canonical position
    assert(s.subrange(i, i + l0) == spec_ser(es[0])) by {
        if es.len() > 1 {
        } else {
        }
    }
    assert(s[i + l0] == ',' || s[i + l0] == ']');
}

/// Splits one member's text standing at `i` into key, colon and value.
pub proof fn lemma_pair_text_split(s: Seq<char>, i: int, p: (Seq<char>, JsonV))
    requires
        0 <= i,
        i + spec_ser_pair1(p).len() <= s.len(),
        s.subrange(i, i + spec_ser_pair1(p).len()) == spec_ser_pair1(p),
    ensures
        spec_ser_pair1(p).len() == 3 + esc(p.0).len() + spec_ser(p.1).len(),
        s[i] == '"',
        s.subrange(i + 1, i + 1 + esc(p.0).len()) == esc(p.0),
        s[i + 1 + esc(p.0).len()] == '"',
        s[i + 2 + esc(p.0).len()] == ':',
        s.subrange(i + 3 + esc(p.0).len(), i + spec_ser_pair1(p).len()) == spec_ser(p.1),
{
    let a1 = seq!['"'] + esc(p.0);
    let a2 = seq!['"', ':'];
    let b = spec_ser(p.1);
    assert(spec_ser_pair1(p) =~= (a1 + a2) + b);
    lemma_subrange_split(s, i, a1 + a2, b);
    lemma_subrange_split(s, i, a1, a2);
    lemma_subrange_split(s, i, seq!['"'], esc(p.0));
    assert(s[i] == '"') by {
        assert(s.subrange(i, i + 1)[0] == '"');
    }
    assert(s[i + 1 + esc(p.0).len()] == '"') by {
        assert(s.subrange(i + 1 + esc(p.0).len(), i + 3 + esc(p.0).len())[0] == a2[0]);
    }
    assert(s[i + 2 + esc(p.0).len()] == ':') by {
        assert(s.subrange(i + 1 + esc(p.0).len(), i + 3 + esc(p.0).len())[1] == a2[1]);
    }
}

/// Splits a nonempty member list standing at `i` into its first member's
/// key and value, in canonical position, and what follows them.
#[verifier::rlimit(100)]
pub proof fn lemma_members_at_head(s: Seq<char>, i: int, ps: Seq<(Seq<char>, JsonV)>)
    requires
        ps.len() > 0,
        wf_pairs(ps),
        members_at(s, i, ps),
    ensures
        s[i] == '"',
        strbody_at(s, i + 1, ps[0].0),
        s[i + 2 + esc(ps[0].0).len()] == ':',
        canon_at(s, i + 3 + esc(ps[0].0).len(), ps[0].1),
        spec_ser_pairs(ps).len() >= spec_ser_pair1(ps[0]).len(),
        spec_ser_pair1(ps[0]).len() == 3 + esc(ps[0].0).len() + spec_ser(ps[0].1).len(),
        ps.len() > 1 ==> s[i + spec_ser_pair1(ps[0]).len()] == ',' && members_at(
            s,
            i + spec_ser_pair1(ps[0]).len() + 1,
            ps.drop_first(),
        ),
        ps.len() == 1 ==> s[i + spec_ser_pair1(ps[0]).len()] == '}' && spec_ser_pairs(ps)
            == spec_ser_pair1(ps[0]),
{
    assert(ps =~= seq![ps[0]] + ps.drop_first());
    lemma_ser_pairs_cons(ps[0], ps.drop_first());
    let p0 = spec_ser_pair1(ps[0]);
    let le = esc(ps[0].0).len() as int;
    let lv = spec_ser(ps[0].1).len() as int;
    if ps.len() == 1 {
        assert(spec_ser_pairs(ps) == p0);
    } else {
        let tail = seq![','] + spec_ser_pairs(ps.drop_first());
        assert(spec_ser_pairs(ps) == p0 + tail);
        lemma_subrange_split(s, i, p0, tail);
        lemma_subrange_split(s, i + p0.len(), seq![','], spec_ser_pairs(ps.drop_first()));
        assert(s[i + p0.len()] == ',') by {
            assert(s.subrange(i + p0.len(), i + p0.len() + 1)[0] == ',');
        }
        assert(members_at(s, i + p0.len() + 1, ps.drop_first()));
    }
    lemma_pair_text_split(s, i, ps[0]);
    assert(strbody_at(s, i + 1, ps[0].0));
    // the value is followed by a comma or the closing brace, neither a
    // number character
    assert(s[i + 3 + le + lv] == ',' || s[i + 3 + le + lv] == '}');
    assert(canon_at(s, i + 3 + le, ps[0].1));
}

/// Decomposes the canonical text of a string value standing at `i`.
pub proof fn lemma_canon_str(s: Seq<char>, i: int, w: JsonV)
    requires
        wf(w),
        canon_at(s, i, w),
        w is Str,
    ensures
        spec_ser(w).len() == esc(w->Str_0).len() + 2,
        s[i] == '"',
        strbody_at(s, i + 1, w->Str_0),
{
    let b = w->Str_0;
    assert(spec_ser(w) == seq!['"'] + esc(b) + seq!['"']);
    let l = spec_ser(w).len() as int;
    assert forall|q: int| 0 <= q < l implies s[i + q] == spec_ser(w)[q] by {
        assert(s.subrange(i, i + l)[q] == spec_ser(w)[q]);
    }
    assert(s[i] == spec_ser(w)[0]);
    assert(spec_ser(w)[0] == '"');
    assert forall|q: int|
        0 <= q < esc(b).len() implies s.subrange(i + 1, i + 1 + esc(b).len())[q] == esc(b)[q] by {
        assert(s[i + 1 + q] == spec_ser(w)[1 + q]);
        assert(spec_ser(w)[1 + q] == esc(b)[q]);
    }
    assert(s.subrange(i + 1, i + 1 + esc(b).len()) =~= esc(b));
    assert(s[i + 1 + esc(b).len()] == spec_ser(w)[1 + esc(b).len() as int]);
    assert(spec_ser(w)[1 + esc(b).len() as int] == '"');
}

/// Decomposes the canonical text of an array value standing at `i`.
pub proof fn lemma_canon_arr(s: Seq<char>, i: int, w: JsonV)
    requires
        wf(w),
        canon_at(s, i, w),
        w is Arr,
    ensures
        spec_ser(w).len() == spec_ser_list(w->Arr_0).len() + 2,
        s[i] == '[',
        i + 2 <= s.len(),
        w->Arr_0.len() == 0 ==> s[i + 1] == ']',
        w->Arr_0.len() > 0 ==> s[i + 1] != ']' && wf_list(w->Arr_0) && elems_at(
            s,
            i + 1,
            w->Arr_0,
        ),
{
    let es = w->Arr_0;
    let ll = spec_ser_list(es).len() as int;
    assert(spec_ser(w) == seq!['['] + spec_ser_list(es) + seq![']']);
    let l = spec_ser(w).len() as int;
    assert forall|q: int| 0 <= q < l implies s[i + q] == spec_ser(w)[q] by {
        assert(s.subrange(i, i + l)[q] == spec_ser(w)[q]);
    }
    assert(s[i] == spec_ser(w)[0]);
    assert(spec_ser(w)[0] == '[');
    if es.len() == 0 {
        assert(spec_ser_list(es) == Seq::<char>::empty());
        assert(s[i + 1] == spec_ser(w)[1]);
        assert(spec_ser(w)[1] == ']');
    } else {
        assert(wf_list(es));
        assert forall|q: int|
            0 <= q < ll implies s.subrange(i + 1, i + 1 + ll)[q] == spec_ser_list(es)[q] by {
            assert(s[i + 1 + q] == spec_ser(w)[1 + q]);
            assert(spec_ser(w)[1 + q] == spec_ser_list(es)[q]);
        }
        assert(s.subrange(i + 1, i + 1 + ll) =~= spec_ser_list(es));
        assert(s[i + 1 + ll] == spec_ser(w)[1 + ll]);
        assert(spec_ser(w)[1 + ll] == ']');
        assert(elems_at(s, i + 1, es));
        // a nonempty list opens with the first character of its first element
        assert(es =~= seq![es[0]] + es.drop_first());
        lemma_ser_list_cons(es[0], es.drop_first());
        lemma_wf_list_elem(es, 0);
        lemma_ser_first(es[0]);
        assert(spec_ser_list(es)[0] == spec_ser(es[0])[0]);
        assert(s[i + 1] == spec_ser_list(es)[0]);
    }
}

/// Decomposes the canonical text of an object value standing at `i`.
pub proof fn lemma_canon_obj(s: Seq<char>, i: int, w: JsonV)
    requires
        wf(w),
        canon_at(s, i, w),
        w is Obj,
    ensures
        spec_ser(w).len() == spec_ser_pairs(w->Obj_0).len() + 2,
        s[i] == '{',
        i + 2 <= s.len(),
        w->Obj_0.len() == 0 ==> s[i + 1] == '}',
        w->Obj_0.len() > 0 ==> s[i + 1] == '"' && wf_pairs(w->Obj_0) && members_at(
            s,
            i + 1,
            w->Obj_0,
        ),
{
    let ps = w->Obj_0;
    let ll = spec_ser_pairs(ps).len() as int;
    assert(spec_ser(w) == seq!['{'] + spec_ser_pairs(ps) + seq!['}']);
    let l = spec_ser(w).len() as int;
    assert forall|q: int| 0 <= q < l implies s[i + q] == spec_ser(w)[q] by {
        assert(s.subrange(i, i + l)[q] == spec_ser(w)[q]);
    }
    assert(s[i] == spec_ser(w)[0]);
    assert(spec_ser(w)[0] == '{');
    if ps.len() == 0 {
        assert(spec_ser_pairs(ps) == Seq::<char>::empty());
        assert(s[i + 1] == spec_ser(w)[1]);
        assert(spec_ser(w)[1] == '}');
    } else {
        assert(wf_pairs(ps));
        assert forall|q: int|
            0 <= q < ll implies s.subrange(i + 1, i + 1 + ll)[q] == spec_ser_pairs(ps)[q] by {
            assert(s[i + 1 + q] == spec_ser(w)[1 + q]);
            assert(spec_ser(w)[1 + q] == spec_ser_pairs(ps)[q]);
        }
        assert(s.subrange(i + 1, i + 1 + ll) =~= spec_ser_pairs(ps));
        assert(s[i + 1 + ll] == spec_ser(w)[1 + ll]);
        assert(spec_ser(w)[1 + ll] == '}');
        assert(members_at(s, i + 1, ps));
        lemma_members_at_head(s, i + 1, ps);
    }
}

/// Parses one value in canonical form.
#[verifier::rlimit(100)]
pub fn parse_value(s: &Vec<char>, i: usize) -> (r: Option<(Json, usize)>)
    requires
        i <= s@.len(),
    ensures
        r matches Some(p) ==> {
            &&& i < p.1 <= s@.len()
            &&& wf(p.0@)
            &&& s@.subrange(i as int, p.1 as int) == spec_ser(p.0@)
        },
        forall|w: JsonV|
            wf(w) && canon_at(s@, i as int, w) ==> (r matches Some(p) && p.0@ == w && p.1 == i
                + spec_ser(w).len()),
    decreases s@.len() - i, 0int,
{
    if i >= s.len() {
        proof {
            assert forall|w: JsonV| !(wf(w) && canon_at(s@, i as int, w)) by {
                if wf(w) && canon_at(s@, i as int, w) {
                    lemma_ser_first(w);
                }
            }
        }
        return None;
    }
    let c = s[i];
    if c == 'n' || c == 't' {
        if s.len() - i >= 4 && ((c == 'n' && s[i + 1] == 'u' && s[i + 2] == 'l' && s[i + 3] == 'l')
            || (c == 't' && s[i + 1] == 'r' && s[i + 2] == 'u' && s[i + 3] == 'e')) {
            let v = if c == 'n' {
                Json::Null
            } else {
                Json::Bool(true)
            };
            proof {
                assert(s@.subrange(i as int, i + 4 as int) =~= spec_ser(v@));
                assert forall|w: JsonV| wf(w) && canon_at(s@, i as int, w) implies w == v@ && i
                    + spec_ser(w).len() == i + 4 by {
                    lemma_ser_first(w);
                    assert(s@[i as int] == spec_ser(w)[0]) by {
                        assert(s@.subrange(i as int, i + spec_ser(w).len())[0] == spec_ser(w)[0]);
                    }
                }
            }
            return Some((v, i + 4));
        } else {
            proof {
                assert forall|w: JsonV| !(wf(w) && canon_at(s@, i as int, w)) by {
                    if wf(w) && canon_at(s@, i as int, w) {
                        lemma_ser_first(w);
                        let l = spec_ser(w).len() as int;
                        assert forall|q: int| 0 <= q < l implies s@[i + q] == spec_ser(w)[q] by {
                            assert(s@.subrange(i as int, i + l)[q] == spec_ser(w)[q]);
                        }
                        assert(s@[i as int] == spec_ser(w)[0]);
                    }
                }
            }
            return None;
        }
    }
    if c == 'f' {
        if s.len() - i >= 5 && s[i + 1] == 'a' && s[i + 2] == 'l' && s[i + 3] == 's' && s[i + 4]
            == 'e' {
            proof {
                assert(s@.subrange(i as int, i + 5 as int) =~= spec_ser(JsonV::Bool(false)));
                assert forall|w: JsonV| wf(w) && canon_at(s@, i as int, w) implies w
                    == JsonV::Bool(false) && i + spec_ser(w).len() == i + 5 by {
                    lemma_ser_first(w);
                    assert(s@[i as int] == spec_ser(w)[0]) by {
                        assert(s@.subrange(i as int, i + spec_ser(w).len())[0] == spec_ser(w)[0]);
                    }
                }
            }
            return Some((Json::Bool(false), i + 5));
        } else {
            proof {
                assert forall|w: JsonV| !(wf(w) && canon_at(s@, i as int, w)) by {
                    if wf(w) && canon_at(s@, i as int, w) {
                        lemma_ser_first(w);
                        let l = spec_ser(w).len() as int;
                        assert forall|q: int| 0 <= q < l implies s@[i + q] == spec_ser(w)[q] by {
                            assert(s@.subrange(i as int, i + l)[q] == spec_ser(w)[q]);
                        }
                        assert(s@[i as int] == spec_ser(w)[0]);
                    }
                }
            }
            return None;
        }
    }
    if c == '"' {
        let res = parse_str_body(s, i + 1);
        proof {
            assert forall|w: JsonV| wf(w) && canon_at(s@, i as int, w) implies w is Str
                && strbody_at(s@, i + 1 as int, w->Str_0) && spec_ser(w).len() == esc(
                w->Str_0,
            ).len() + 2 by {
                lemma_ser_first(w);
                assert(s@[i as int] == spec_ser(w)[0]) by {
                    assert(s@.subrange(i as int, i + spec_ser(w).len())[0] == spec_ser(w)[0]);
                }
                lemma_canon_str(s@, i as int, w);
            }
        }
        match res {
            Some((cs, j)) => {
                proof {
                    assert(s@.subrange(i as int, j as int) =~= spec_ser(JsonV::Str(cs@))) by {
                        assert(s@.subrange(i + 1 as int, j as int) == esc(cs@) + seq!['"']);
                        assert(s@.subrange(i as int, j as int) =~= seq![s@[i as int]]
                            + s@.subrange(i + 1 as int, j as int));
                    }
                }
                Some((Json::Str(cs), j))
            },
            None => None,
        }
    } else if c == '[' {
        if i + 1 < s.len() && s[i + 1] == ']' {
            let v: Vec<Json> = Vec::new();
            proof {
                assert(jview_seq(v@) =~= Seq::<JsonV>::empty());
                assert(spec_ser(JsonV::Arr(jview_seq(v@))) =~= seq!['[', ']']);
                assert(s@.subrange(i as int, i + 2 as int) =~= seq!['[', ']']);
                assert forall|w: JsonV| wf(w) && canon_at(s@, i as int, w) implies w
                    == JsonV::Arr(jview_seq(v@)) && i + spec_ser(w).len() == i + 2 by {
                    lemma_ser_first(w);
                    assert(s@[i as int] == spec_ser(w)[0]) by {
                        assert(s@.subrange(i as int, i + spec_ser(w).len())[0] == spec_ser(w)[0]);
                    }
                    lemma_canon_arr(s@, i as int, w);
                    assert(w->Arr_0.len() == 0);
                    assert(w->Arr_0 =~= jview_seq(v@));
                }
            }
            return Some((Json::Arr(v), i + 2));
        }
        proof {
            assert forall|w: JsonV| wf(w) && canon_at(s@, i as int, w) implies w is Arr
                && w->Arr_0.len() > 0 && wf_list(w->Arr_0) && elems_at(s@, i + 1 as int, w->Arr_0)
                && spec_ser(w).len() == spec_ser_list(w->Arr_0).len() + 2 by {
                lemma_ser_first(w);
                assert(s@[i as int] == spec_ser(w)[0]) by {
                    assert(s@.subrange(i as int, i + spec_ser(w).len())[0] == spec_ser(w)[0]);
                }
                lemma_canon_arr(s@, i as int, w);
            }
        }
        match parse_elems(s, i + 1) {
            Some((vs, k)) => {
                proof {
                    assert(s@.subrange(i as int, k as int) =~= spec_ser(
                        JsonV::Arr(jview_seq(vs@)),
                    )) by {
                        assert(s@.subrange(i + 1 as int, k as int) == spec_ser_list(jview_seq(vs@))
                            + seq![']']);
                        assert(s@.subrange(i as int, k as int) =~= seq![s@[i as int]]
                            + s@.subrange(i + 1 as int, k as int));
                    }
                }
                Some((Json::Arr(vs), k))
            },
            None => None,
        }
    } else if c == '{' {
        if i + 1 < s.len() && s[i + 1] == '}' {
            let v: Vec<(Vec<char>, Json)> = Vec::new();
            proof {
                assert(jview_pairs(v@) =~= Seq::<(Seq<char>, JsonV)>::empty());
                assert(spec_ser(JsonV::Obj(jview_pairs(v@))) =~= seq!['{', '}']);
                assert(s@.subrange(i as int, i + 2 as int) =~= seq!['{', '}']);
                assert forall|w: JsonV| wf(w) && canon_at(s@, i as int, w) implies w
                    == JsonV::Obj(jview_pairs(v@)) && i + spec_ser(w).len() == i + 2 by {
                    lemma_ser_first(w);
                    assert(s@[i as int] == spec_ser(w)[0]) by {
                        assert(s@.subrange(i as int, i + spec_ser(w).len())[0] == spec_ser(w)[0]);
                    }
                    lemma_canon_obj(s@, i as int, w);
                    assert(w->Obj_0.len() == 0);
                    assert(w->Obj_0 =~= jview_pairs(v@));
                }
            }
            return Some((Json::Obj(v), i + 2));
        }
        proof {
            assert forall|w: JsonV| wf(w) && canon_at(s@, i as int, w) implies w is Obj
                && w->Obj_0.len() > 0 && wf_pairs(w->Obj_0) && members_at(
                s@,
                i + 1 as int,
                w->Obj_0,
            ) && spec_ser(w).len() == spec_ser_pairs(w->Obj_0).len() + 2 by {
                lemma_ser_first(w);
                assert(s@[i as int] == spec_ser(w)[0]) by {
                    assert(s@.subrange(i as int, i + spec_ser(w).len())[0] == spec_ser(w)[0]);
                }
                lemma_canon_obj(s@, i as int, w);
            }
        }
        match parse_members(s, i + 1) {
            Some((vs, k)) => {
                proof {
                    assert(s@.subrange(i as int, k as int) =~= spec_ser(
                        JsonV::Obj(jview_pairs(vs@)),
                    )) by {
                        assert(s@.subrange(i + 1 as int, k as int) == spec_ser_pairs(
                            jview_pairs(vs@),
                        ) + seq!['}']);
                        assert(s@.subrange(i as int, k as int) =~= seq![s@[i as int]]
                            + s@.subrange(i + 1 as int, k as int));
                    }
                }
                Some((Json::Obj(vs), k))
            },
            None => None,
        }
    } else {
        let u = c as u32;
        if c == '-' || (48 <= u && u <= 57) {
            let (tok, j) = parse_num_token(s, i);
            proof {
                assert(tok@[0] == s@[i as int]) by {
                    assert(tok@[0] == s@.subrange(i as int, j as int)[0]);
                }
                assert(num_token_wf(tok@));
                assert forall|w: JsonV| wf(w) && canon_at(s@, i as int, w) implies w
                    == JsonV::Num(tok@) && i + spec_ser(w).len() == j by {
                    lemma_ser_first(w);
                    assert(s@[i as int] == spec_ser(w)[0]) by {
                        assert(s@.subrange(i as int, i + spec_ser(w).len())[0] == spec_ser(w)[0]);
                    }
                    assert(w is Num);
                    let t = w->Num_0;
                    assert(forall|q: int| 0 <= q < t.len() ==> is_num_char(#[trigger] t[q]));
                    assert forall|q: int| 0 <= q < t.len() implies s@[i + q] == t[q] by {
                        assert(s@.subrange(i as int, i + t.len() as int)[q] == t[q]);
                    }
                    assert(j == i + t.len()) by {
                        if j < i + t.len() {
                            assert(s@[j as int] == t[j - i]);
                            assert(is_num_char(t[j - i]));
                        }
                        if j > i + t.len() {
                            assert(is_num_char(s@[i + t.len() as int]));
                        }
                    }
                    assert(tok@ =~= t);
                }
            }
            Some((Json::Num(tok), j))
        } else {
            proof {
                assert forall|w: JsonV| !(wf(w) && canon_at(s@, i as int, w)) by {
                    if wf(w) && canon_at(s@, i as int, w) {
                        lemma_ser_first(w);
                        assert(s@[i as int] == spec_ser(w)[0]) by {
                            assert(s@.subrange(i as int, i + spec_ser(w).len())[0] == spec_ser(
                                w,
                            )[0]);
                        }
                    }
                }
            }
            None
        }
    }
}

/// Parses a nonempty comma-separated element list closed by a bracket.
#[verifier::rlimit(100)]
pub fn parse_elems(s: &Vec<char>, i: usize) -> (r: Option<(Vec<Json>, usize)>)
    requires
        i <= s@.len(),
    ensures
        r matches Some(p) ==> {
            &&& i < p.1 <= s@.len()
            &&& p.0@.len() > 0
            &&& wf_list(jview_seq(p.0@))
            &&& s@.subrange(i as int, p.1 as int) == spec_ser_list(jview_seq(p.0@)) + seq![']']
        },
        forall|es: Seq<JsonV>|
            es.len() > 0 && wf_list(es) && elems_at(s@, i as int, es) ==> (r matches Some(p)
                && jview_seq(p.0@) == es && p.1 == i + spec_ser_list(es).len() + 1),
    decreases s@.len() - i, 1int,
{
    let first = parse_value(s, i);
    proof {
        assert forall|es: Seq<JsonV>|
            es.len() > 0 && wf_list(es) && elems_at(s@, i as int, es) implies canon_at(
            s@,
            i as int,
            es[0],
        ) && wf(es[0]) && spec_ser_list(es).len() >= spec_ser(es[0]).len() by {
            lemma_elems_at_head(s@, i as int, es);
            lemma_wf_list_elem(es, 0);
            assert(es =~= seq![es[0]] + es.drop_first());
            lemma_ser_list_cons(es[0], es.drop_first());
        }
    }
    match first {
        None => None,
        Some((v, j)) => {
            if j == s.len() {
                proof {
                    assert forall|es: Seq<JsonV>|
                        !(es.len() > 0 && wf_list(es) && elems_at(s@, i as int, es)) by {
                        if es.len() > 0 && wf_list(es) && elems_at(s@, i as int, es) {
                            assert(j == i + spec_ser(es[0]).len());
                        }
                    }
                }
                return None;
            }
            let c2 = s[j];
            if c2 == ',' {
                match parse_elems(s, j + 1) {
                    Some((mut vs, k)) => {
                        let ghost vsv = vs@;
                        vs.insert(0, v);
                        proof {
                            assert(vs@ =~= seq![v] + vsv);
                            lemma_jview_seq_cons(v, vsv);
                            let hv = jview(v);
                            let tv = jview_seq(vsv);
                            assert((seq![hv] + tv)[0] == hv);
                            assert((seq![hv] + tv).drop_first() =~= tv);
                            assert(wf(hv));
                            assert(wf_list(tv));
                            assert(jview_seq(vs@) == seq![hv] + tv);
                            assert(wf_list(seq![hv] + tv));
                            assert(wf_list(jview_seq(vs@)));
                            lemma_ser_list_cons2(hv, tv);
                            // assemble the consumed text
                            assert(s@.subrange(j as int, j + 1 as int) =~= seq![',']);
                            lemma_subrange_join(s@, i as int, spec_ser(hv), seq![',']);
                            lemma_subrange_join(
                                s@,
                                i as int,
                                spec_ser(hv) + seq![','],
                                spec_ser_list(tv) + seq![']'],
                            );
                            assert(s@.subrange(i as int, k as int) =~= spec_ser_list(
                                jview_seq(vs@),
                            ) + seq![']']);
                            assert forall|es: Seq<JsonV>|
                                es.len() > 0 && wf_list(es) && elems_at(s@, i as int, es) implies
                                jview_seq(vs@) == es && k == i + spec_ser_list(es).len() + 1 by {
                                lemma_elems_at_head(s@, i as int, es);
                                assert(v@ == es[0]);
                                assert(j == i + spec_ser(es[0]).len());
                                if es.len() == 1 {
                                    assert(s@[j as int] == ']');
                                }
                                assert(es.len() > 1);
                                assert(elems_at(s@, j + 1 as int, es.drop_first()));
                                assert(wf_list(es.drop_first()));
                                assert(jview_seq(vsv) == es.drop_first());
                                assert(k == j + 1 + spec_ser_list(es.drop_first()).len() + 1);
                                assert(es =~= seq![es[0]] + es.drop_first());
                                lemma_ser_list_cons(es[0], es.drop_first());
                                assert(jview_seq(vs@) =~= es);
                            }
                        }
                        Some((vs, k))
                    },
                    None => {
                        proof {
                            assert forall|es: Seq<JsonV>|
                                !(es.len() > 0 && wf_list(es) && elems_at(s@, i as int, es)) by {
                                if es.len() > 0 && wf_list(es) && elems_at(s@, i as int, es) {
                                    lemma_elems_at_head(s@, i as int, es);
                                    assert(v@ == es[0]);
                                    assert(j == i + spec_ser(es[0]).len());
                                    if es.len() == 1 {
                                        assert(s@[j as int] == ']');
                                    }
                                    assert(es.len() > 1);
                                    assert(elems_at(s@, j + 1 as int, es.drop_first()));
                                    assert(wf_list(es.drop_first()));
                                }
                            }
                        }
                        None
                    },
                }
            } else if c2 == ']' {
                let mut vs: Vec<Json> = Vec::new();
                vs.push(v);
                proof {
                    assert(vs@ =~= seq![v] + Seq::<Json>::empty());
                    lemma_jview_seq_cons(v, Seq::<Json>::empty());
                    let hv = jview(v);
                    assert(jview_seq(vs@) =~= seq![hv]);
                    assert(seq![hv][0] == hv);
                    assert(seq![hv].drop_first() =~= Seq::<JsonV>::empty());
                    assert(wf(hv));
                    assert(wf_list(Seq::<JsonV>::empty()));
                    assert(wf_list(seq![hv]));
                    assert(wf_list(jview_seq(vs@)));
                    assert(spec_ser_list(seq![hv]) == spec_ser(hv));
                    assert(s@.subrange(j as int, j + 1 as int) =~= seq![']']);
                    lemma_subrange_join(s@, i as int, spec_ser(hv), seq![']']);
                    assert(s@.subrange(i as int, j + 1 as int) =~= spec_ser_list(jview_seq(vs@))
                        + seq![']']);
                    assert forall|es: Seq<JsonV>|
                        es.len() > 0 && wf_list(es) && elems_at(s@, i as int, es) implies
                        jview_seq(vs@) == es && j + 1 == i + spec_ser_list(es).len() + 1 by {
                        lemma_elems_at_head(s@, i as int, es);
                        assert(v@ == es[0]);
                        assert(j == i + spec_ser(es[0]).len());
                        if es.len() > 1 {
                            assert(s@[j as int] == ',');
                        }
                        assert(es.len() == 1);
                        assert(jview_seq(vs@) =~= es);
                    }
                }
                Some((vs, j + 1))
            } else {
                proof {
                    assert forall|es: Seq<JsonV>|
                        !(es.len() > 0 && wf_list(es) && elems_at(s@, i as int, es)) by {
                        if es.len() > 0 && wf_list(es) && elems_at(s@, i as int, es) {
                            lemma_elems_at_head(s@, i as int, es);
                            assert(v@ == es[0]);
                            assert(j == i + spec_ser(es[0]).len());
                        }
                    }
                }
                None
            }
        },
    }
}

/// Parses a nonempty comma-separated member list closed by a brace.
#[verifier::rlimit(100)]
pub fn parse_members(s: &Vec<char>, i: usize) -> (r: Option<(Vec<(Vec<char>, Json)>, usize)>)
    requires
        i <= s@.len(),
    ensures
        r matches Some(p) ==> {
            &&& i < p.1 <= s@.len()
            &&& p.0@.len() > 0
            &&& wf_pairs(jview_pairs(p.0@))
            &&& s@.subrange(i as int, p.1 as int) == spec_ser_pairs(jview_pairs(p.0@)) + seq!['}']
        },
        forall|ps: Seq<(Seq<char>, JsonV)>|
            ps.len() > 0 && wf_pairs(ps) && members_at(s@, i as int, ps) ==> (r matches Some(p)
                && jview_pairs(p.0@) == ps && p.1 == i + spec_ser_pairs(ps).len() + 1),
    decreases s@.len() - i, 1int,
{
    proof {
        assert forall|ps: Seq<(Seq<char>, JsonV)>|
            ps.len() > 0 && wf_pairs(ps) && members_at(s@, i as int, ps) implies s@[i as int]
            == '"' && i < s@.len() && strbody_at(s@, i + 1 as int, ps[0].0) by {
            lemma_members_at_head(s@, i as int, ps);
        }
    }
    if i >= s.len() {
        return None;
    }
    if s[i] != '"' {
        return None;
    }
    match parse_str_body(s, i + 1) {
        None => None,
        Some((key, j2)) => {
            proof {
                assert forall|ps: Seq<(Seq<char>, JsonV)>|
                    ps.len() > 0 && wf_pairs(ps) && members_at(s@, i as int, ps) implies key@
                    == ps[0].0 && j2 == i + 2 + esc(ps[0].0).len() && j2 < s@.len()
                    && s@[j2 as int] == ':' && canon_at(s@, j2 + 1 as int, ps[0].1) && wf(
                    ps[0].1,
                ) by {
                    lemma_members_at_head(s@, i as int, ps);
                    lemma_wf_pairs_elem(ps, 0);
                }
            }
            if j2 >= s.len() {
                return None;
            }
            if s[j2] != ':' {
                return None;
            }
            match parse_value(s, j2 + 1) {
                None => None,
                Some((v, j3)) => {
                    proof {
                        assert forall|ps: Seq<(Seq<char>, JsonV)>|
                            ps.len() > 0 && wf_pairs(ps) && members_at(s@, i as int, ps) implies v@
                            == ps[0].1 && j3 == i + spec_ser_pair1(ps[0]).len() && j3
                            < s@.len() by {
                            lemma_members_at_head(s@, i as int, ps);
                        }
                        // the member text consumed so far
                        assert(s@.subrange(i as int, i + 1 as int) =~= seq!['"']);
                        assert(s@.subrange(j2 as int, j2 + 1 as int) =~= seq![':']);
                    }
                    if j3 == s.len() {
                        return None;
                    }
                    let ghost pair_text = spec_ser_pair1((key@, jview(v)));
                    proof {
                        // subrange(i, j3) is the canonical member text
                        lemma_subrange_join(s@, i as int, seq!['"'], esc(key@) + seq!['"']);
                        lemma_subrange_join(
                            s@,
                            i as int,
                            seq!['"'] + (esc(key@) + seq!['"']),
                            seq![':'],
                        );
                        lemma_subrange_join(
                            s@,
                            i as int,
                            (seq!['"'] + (esc(key@) + seq!['"'])) + seq![':'],
                            spec_ser(jview(v)),
                        );
                        assert(s@.subrange(i as int, j3 as int) =~= pair_text);
                    }
                    let c3 = s[j3];
                    if c3 == ',' {
                        match parse_members(s, j3 + 1) {
                            Some((mut vs, k)) => {
                                let ghost vsv = vs@;
                                vs.insert(0, (key, v));
                                proof {
                                    assert(vs@ =~= seq![(key, v)] + vsv);
                                    lemma_jview_pairs_cons((key, v), vsv);
                                    let hp = (key@, jview(v));
                                    let tp = jview_pairs(vsv);
                                    assert((seq![hp] + tp)[0] == hp);
                                    assert((seq![hp] + tp).drop_first() =~= tp);
                                    assert(wf(hp.1));
                                    assert(wf_pairs(tp));
                                    assert(jview_pairs(vs@) == seq![hp] + tp);
                                    assert(wf_pairs(seq![hp] + tp));
                                    assert(wf_pairs(jview_pairs(vs@)));
                                    lemma_ser_pairs_cons2(hp, tp);
                                    assert(s@.subrange(j3 as int, j3 + 1 as int) =~= seq![',']);
                                    lemma_subrange_join(s@, i as int, pair_text, seq![',']);
                                    lemma_subrange_join(
                                        s@,
                                        i as int,
                                        pair_text + seq![','],
                                        spec_ser_pairs(tp) + seq!['}'],
                                    );
                                    assert(s@.subrange(i as int, k as int) =~= spec_ser_pairs(
                                        jview_pairs(vs@),
                                    ) + seq!['}']);
                                    assert forall|ps: Seq<(Seq<char>, JsonV)>|
                                        ps.len() > 0 && wf_pairs(ps) && members_at(
                                            s@,
                                            i as int,
                                            ps,
                                        ) implies jview_pairs(vs@) == ps && k == i
                                        + spec_ser_pairs(ps).len() + 1 by {
                                        lemma_members_at_head(s@, i as int, ps);
                                        if ps.len() == 1 {
                                            assert(s@[j3 as int] == '}');
                                        }
                                        assert(ps.len() > 1);
                                        assert(members_at(s@, j3 + 1 as int, ps.drop_first()));
                                        assert(wf_pairs(ps.drop_first()));
                                        assert(jview_pairs(vsv) == ps.drop_first());
                                        assert(ps =~= seq![ps[0]] + ps.drop_first());
                                        lemma_ser_pairs_cons(ps[0], ps.drop_first());
                                        assert(hp == ps[0]);
                                        assert(jview_pairs(vs@) =~= ps);
                                    }
                                }
                                Some((vs, k))
                            },
                            None => {
                                proof {
                                    assert forall|ps: Seq<(Seq<char>, JsonV)>|
                                        !(ps.len() > 0 && wf_pairs(ps) && members_at(
                                            s@,
                                            i as int,
                                            ps,
                                        )) by {
                                        if ps.len() > 0 && wf_pairs(ps) && members_at(
                                            s@,
                                            i as int,
                                            ps,
                                        ) {
                                            lemma_members_at_head(s@, i as int, ps);
                                            if ps.len() == 1 {
                                                assert(s@[j3 as int] == '}');
                                            }
                                            assert(ps.len() > 1);
                                            assert(members_at(s@, j3 + 1 as int, ps.drop_first()));
                                            assert(wf_pairs(ps.drop_first()));
                                        }
                                    }
                                }
                                None
                            },
                        }
                    } else if c3 == '}' {
                        let mut vs: Vec<(Vec<char>, Json)> = Vec::new();
                        vs.push((key, v));
                        proof {
                            assert(vs@ =~= seq![(key, v)] + Seq::<(Vec<char>, Json)>::empty());
                            lemma_jview_pairs_cons((key, v), Seq::<(Vec<char>, Json)>::empty());
                            let hp = (key@, jview(v));
                            assert(jview_pairs(vs@) =~= seq![hp]);
                            assert(seq![hp][0] == hp);
                            assert(seq![hp].drop_first() =~= Seq::<(Seq<char>, JsonV)>::empty());
                            assert(wf(hp.1));
                            assert(wf_pairs(Seq::<(Seq<char>, JsonV)>::empty()));
                            assert(wf_pairs(seq![hp]));
                            assert(wf_pairs(jview_pairs(vs@)));
                            assert(spec_ser_pairs(seq![hp]) =~= pair_text);
                            assert(s@.subrange(j3 as int, j3 + 1 as int) =~= seq!['}']);
                            lemma_subrange_join(s@, i as int, pair_text, seq!['}']);
                            assert(s@.subrange(i as int, j3 + 1 as int) =~= spec_ser_pairs(
                                jview_pairs(vs@),
                            ) + seq!['}']);
                            assert forall|ps: Seq<(Seq<char>, JsonV)>|
                                ps.len() > 0 && wf_pairs(ps) && members_at(s@, i as int, ps)
                                implies jview_pairs(vs@) == ps && j3 + 1 == i + spec_ser_pairs(
                                ps,
                            ).len() + 1 by {
                                lemma_members_at_head(s@, i as int, ps);
                                if ps.len() > 1 {
                                    assert(s@[j3 as int] == ',');
                                }
                                assert(ps.len() == 1);
                                assert(hp == ps[0]);
                                assert(jview_pairs(vs@) =~= ps);
                            }
                        }
                        Some((vs, j3 + 1))
                    } else {
                        proof {
                            assert forall|ps: Seq<(Seq<char>, JsonV)>|
                                !(ps.len() > 0 && wf_pairs(ps) && members_at(s@, i as int, ps)) by {
                                if ps.len() > 0 && wf_pairs(ps) && members_at(s@, i as int, ps) {
                                    lemma_members_at_head(s@, i as int, ps);
                                }
                            }
                        }
                        None
                    }
                },
            }
        },
    }
}

/// Like [`lemma_ser_list_cons`], phrased on a head value and a tail list.
pub proof fn lemma_ser_list_cons2(h: JsonV, t: Seq<JsonV>)
    ensures
        t.len() == 0 ==> spec_ser_list(seq![h] + t) == spec_ser(h),
        t.len() > 0 ==> spec_ser_list(seq![h] + t) == spec_ser(h) + seq![','] + spec_ser_list(t),
{
    lemma_ser_list_cons(h, t);
}

/// Like [`lemma_ser_pairs_cons`], phrased on a head member and a tail list.
pub proof fn lemma_ser_pairs_cons2(h: (Seq<char>, JsonV), t: Seq<(Seq<char>, JsonV)>)
    ensures
        t.len() == 0 ==> spec_ser_pairs(seq![h] + t) == spec_ser_pair1(h),
        t.len() > 0 ==> spec_ser_pairs(seq![h] + t) == spec_ser_pair1(h) + seq![',']
            + spec_ser_pairs(t),
{
    lemma_ser_pairs_cons(h, t);
}

/// Parses a whole text as one canonical value.  Together with
/// [`crate::json::Json::to_text`] this makes the codec a bijection on
/// well-formed values: decoding an encoded value gives the value back.
pub fn parse_json(s: &Vec<char>) -> (r: Option<Json>)
    ensures
        r matches Some(v) ==> wf(v@) && s@ == spec_ser(v@),
        forall|w: JsonV| wf(w) && s@ == spec_ser(w) ==> (r matches Some(v) && v@ == w),
{
    proof {
        assert forall|w: JsonV| wf(w) && s@ == spec_ser(w) implies canon_at(s@, 0int, w) by {
            assert(s@.subrange(0int, spec_ser(w).len() as int) =~= spec_ser(w));
        }
    }
    match parse_value(s, 0) {
        Some((v, j)) => {
            if j == s.len() {
                proof {
                    assert(s@.subrange(0int, j as int) =~= s@);
                }
                Some(v)
            } else {
                proof {
                    assert forall|w: JsonV| !(wf(w) && s@ == spec_ser(w)) by {
                        if wf(w) && s@ == spec_ser(w) {
                            assert(canon_at(s@, 0int, w));
                        }
                    }
                }
                None
            }
        },
        None => {
            proof {
                assert forall|w: JsonV| !(wf(w) && s@ == spec_ser(w)) by {
                    if wf(w) && s@ == spec_ser(w) {
                        assert(canon_at(s@, 0int, w));
                    }
                }
            }
            None
        },
    }
}

} // verus!