//! The line-oriented wire framing.
//!
//! A frame is a fixed status line, a `Content-Length` line, and a
//! `Content:` line carrying the JSON envelope, terminated by a blank line.
//! Decoding reads the lines up to the blank terminator: a frame is well
//! formed exactly when there are three lines, the first is the expected
//! status literal and the third opens with the `Content: ` prefix.  The
//! length line is informational and is not checked.

use vstd::prelude::*;
use crate::envelope::{Message, msg_jsonv, wf_message};
use crate::json::spec_ser;
use crate::text::{string_to_chars, chars_to_string};

verus! {

pub open spec fn ok_status() -> Seq<char> {
    seq!['H', 'T', 'T', 'P', '/', '1', '.', '1', ' ', '2', '0', '0', ' ', 'O', 'K']
}

pub open spec fn bad_request_status() -> Seq<char> {
    seq![
        'H',
        'T',
        'T',
        'P',
        '/',
        '1',
        '.',
        '1',
        ' ',
        '4',
        '0',
        '0',
        ' ',
        'B',
        'A',
        'D',
        ' ',
        'R',
        'E',
        'Q',
        'U',
        'E',
        'S',
        'T',
    ]
}

pub open spec fn content_prefix() -> Seq<char> {
    seq!['C', 'o', 'n', 't', 'e', 'n', 't', ':', ' ']
}

pub open spec fn length_prefix() -> Seq<char> {
    seq!['C', 'o', 'n', 't', 'e', 'n', 't', '-', 'L', 'e', 'n', 'g', 't', 'h', ':', ' ']
}

pub open spec fn crlf() -> Seq<char> {
    seq!['\r', '\n']
}

/// The digit character of one decimal digit value.
pub open spec fn digit_char(d: int) -> char {
    if d == 0 {
        '0'
    } else if d == 1 {
        '1'
    } else if d == 2 {
        '2'
    } else if d == 3 {
        '3'
    } else if d == 4 {
        '4'
    } else if d == 5 {
        '5'
    } else if d == 6 {
        '6'
    } else if d == 7 {
        '7'
    } else if d == 8 {
        '8'
    } else {
        '9'
    }
}

/// The decimal digits of a number, most significant first.
pub open spec fn dec_digits(n: nat) -> Seq<char>
    decreases n,
{
    if n < 10 {
        seq![digit_char(n as int)]
    } else {
        dec_digits(n / 10).push(digit_char((n % 10) as int))
    }
}

/// The full frame text around an envelope text.
pub open spec fn spec_frame(status: Seq<char>, content: Seq<char>) -> Seq<char> {
    status + crlf() + length_prefix() + dec_digits(content.len()) + crlf() + content_prefix()
        + content + crlf() + crlf()
}

/// Appends the decimal digits of `n`.
fn push_dec(n: u64, out: &mut Vec<char>)
    ensures
        final(out)@ == old(out)@ + dec_digits(n as nat),
    decreases n,
{
    if n < 10 {
        let d: char = match n {
            0 => '0',
            1 => '1',
            2 => '2',
            3 => '3',
            4 => '4',
            5 => '5',
            6 => '6',
            7 => '7',
            8 => '8',
            _ => '9',
        };
        out.push(d);
        proof {
            assert(out@ =~= old(out)@ + dec_digits(n as nat));
        }
    } else {
        push_dec(n / 10, out);
        let d: char = match n % 10 {
            0 => '0',
            1 => '1',
            2 => '2',
            3 => '3',
            4 => '4',
            5 => '5',
            6 => '6',
            7 => '7',
            8 => '8',
            _ => '9',
        };
        out.push(d);
        proof {
            assert(out@ =~= old(out)@ + dec_digits(n as nat));
        }
    }
}

/// Appends every character of `s`.
fn push_chars(s: &Vec<char>, out: &mut Vec<char>)
    ensures
        final(out)@ == old(out)@ + s@,
{
    let mut i: usize = 0;
    proof {
        assert(out@ =~= old(out)@ + s@.take(0int));
    }
    while i < s.len()
        invariant
            i <= s@.len(),
            out@ == old(out)@ + s@.take(i as int),
        decreases s@.len() - i,
    {
        out.push(s[i]);
        proof {
            assert(s@.take(i + 1 as int) =~= s@.take(i as int).push(s@[i as int]));
            assert(out@ =~= old(out)@ + s@.take(i + 1 as int));
        }
        i = i + 1;
    }
    proof {
        assert(s@.take(s@.len() as int) =~= s@);
    }
}

/// The acknowledgement status line.
pub fn acknowledgement_http_request() -> (r: String)
    ensures
        r@ == ok_status(),
{
    let v = ok_status_chars();
    chars_to_string(&v)
}

/// The rejection status line.
pub fn bad_request_http_request() -> (r: String)
    ensures
        r@ == bad_request_status(),
{
    let v: Vec<char> = vec![
        'H',
        'T',
        'T',
        'P',
        '/',
        '1',
        '.',
        '1',
        ' ',
        '4',
        '0',
        '0',
        ' ',
        'B',
        'A',
        'D',
        ' ',
        'R',
        'E',
        'Q',
        'U',
        'E',
        'S',
        'T',
    ];
    proof {
        assert(v@ =~= bad_request_status());
    }
    chars_to_string(&v)
}

fn ok_status_chars() -> (r: Vec<char>)
    ensures
        r@ == ok_status(),
{
    let v: Vec<char> = vec![
        'H',
        'T',
        'T',
        'P',
        '/',
        '1',
        '.',
        '1',
        ' ',
        '2',
        '0',
        '0',
        ' ',
        'O',
        'K',
    ];
    proof {
        assert(v@ =~= ok_status());
    }
    v
}

fn content_prefix_chars() -> (r: Vec<char>)
    ensures
        r@ == content_prefix(),
{
    let v: Vec<char> = vec!['C', 'o', 'n', 't', 'e', 'n', 't', ':', ' '];
    proof {
        assert(v@ =~= content_prefix());
    }
    v
}

/// Builds the full frame around an envelope text.
fn frame_chars(content: &Vec<char>) -> (r: Vec<char>)
    ensures
        r@ == spec_frame(ok_status(), content@),
{
    let mut out: Vec<char> = Vec::new();
    let status = ok_status_chars();
    push_chars(&status, &mut out);
    out.push('\r');
    out.push('\n');
    let lp: Vec<char> = vec![
        'C',
        'o',
        'n',
        't',
        'e',
        'n',
        't',
        '-',
        'L',
        'e',
        'n',
        'g',
        't',
        'h',
        ':',
        ' ',
    ];
    proof {
        assert(lp@ =~= length_prefix());
    }
    push_chars(&lp, &mut out);
    push_dec(content.len() as u64, &mut out);
    out.push('\r');
    out.push('\n');
    let cp = content_prefix_chars();
    push_chars(&cp, &mut out);
    push_chars(content, &mut out);
    out.push('\r');
    out.push('\n');
    out.push('\r');
    out.push('\n');
    proof {
        assert(out@ =~= spec_frame(ok_status(), content@));
    }
    out
}

/// Frames an already encoded text as a request.  The length counts
/// characters.
pub fn string_to_http_request(data: String) -> (r: String)
    ensures
        r@ == spec_frame(ok_status(), data@),
{
    let content = string_to_chars(data.as_str());
    let framed = frame_chars(&content);
    chars_to_string(&framed)
}

/// Frames an envelope as a request.
pub fn message_to_http_request(data: &Message) -> (r: String)
    requires
        wf_message(data@),
    ensures
        r@ == spec_frame(ok_status(), spec_ser(msg_jsonv(data@))),
{
    let encoded = crate::envelope::encode_message(data);
    string_to_http_request(encoded)
}

/// A received frame, split into lines with the terminators removed, is
/// well formed when it has exactly three lines, the expected status line
/// and a `Content: `-prefixed third line.
pub open spec fn good_frame(ls: Seq<Seq<char>>) -> bool {
    &&& ls.len() == 3
    &&& ls[0] == ok_status()
    &&& ls[2].len() >= 9
    &&& ls[2].take(9) == content_prefix()
}

/// The envelope text carried by a well-formed frame.
pub open spec fn frame_content(ls: Seq<Seq<char>>) -> Seq<char> {
    ls[2].skip(9)
}

/// Checks the framing of a received request and hands back the envelope
/// text after the `Content: ` prefix.
pub fn parse_frame_lines(lines: &Vec<String>) -> (r: Option<Vec<char>>)
    ensures
        r matches Some(c) ==> good_frame(lines.deep_view()) && c@ == frame_content(
            lines.deep_view(),
        ),
        r is None ==> !good_frame(lines.deep_view()),
{
    if lines.len() != 3 {
        return None;
    }
    let l0 = string_to_chars(lines[0].as_str());
    let status = ok_status_chars();
    proof {
        assert(lines.deep_view().len() == 3);
        assert(lines.deep_view()[0] == lines@[0]@);
        assert(lines.deep_view()[2] == lines@[2]@);
    }
    if !crate::envelope::chars_eq(&l0, &status) {
        return None;
    }
    let l2 = string_to_chars(lines[2].as_str());
    if l2.len() < 9 {
        return None;
    }
    let cp = content_prefix_chars();
    let mut i: usize = 0;
    while i < 9
        invariant
            i <= 9,
            l2@.len() >= 9,
            cp@ == content_prefix(),
            lines.deep_view().len() == 3,
            lines.deep_view()[2] == l2@,
            forall|q: int| 0 <= q < i ==> l2@[q] == content_prefix()[q],
        decreases 9 - i,
    {
        if l2[i] != cp[i] {
            proof {
                assert(l2@.take(9) != content_prefix()) by {
                    assert(l2@.take(9)[i as int] == l2@[i as int]);
                }
            }
            return None;
        }
        i = i + 1;
    }
    proof {
        assert(l2@.take(9) =~= content_prefix());
    }
    let mut content: Vec<char> = Vec::new();
    let mut j: usize = 9;
    while j < l2.len()
        invariant
            9 <= j <= l2@.len(),
            content@ == l2@.subrange(9, j as int),
            lines.deep_view().len() == 3,
            lines.deep_view()[0] == ok_status(),
            lines.deep_view()[2] == l2@,
            l2@.take(9) == content_prefix(),
        decreases l2@.len() - j,
    {
        content.push(l2[j]);
        proof {
            assert(l2@.subrange(9, j + 1 as int) =~= l2@.subrange(9, j as int).push(
                l2@[j as int],
            ));
        }
        j = j + 1;
    }
    proof {
        assert(content@ =~= l2@.skip(9));
    }
    Some(content)
}

} // verus!
