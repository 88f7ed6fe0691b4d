//! The wire codec: each message has one canonical JSON body, carried inside a
//! frame of a two-byte big-endian length header followed by the body.
//!
//! The five bodies are fixed shapes; a `Value` payload is embedded as a JSON
//! string with the canonical escaping (quote, backslash, and the short escapes
//! for backspace, tab, line feed, form feed and carriage return; any other
//! control byte as a lowercase `\u00..` escape). Decoding accepts any JSON
//! text of the required shape: whitespace may stand between tokens, and every
//! string may use any of JSON's escape forms, surrogate pairs included. A body
//! that is not UTF-8 fails with `Utf8`; one that is no such JSON text fails
//! with `Json`.

use vstd::prelude::*;
use vstd::utf8::*;

use crate::frame::{Connection, Message, Session, message_sim};
use crate::request;
use crate::response;

verus! {

broadcast use vstd::seq_lib::group_seq_lib_default, vstd::seq::group_seq_axioms;

// ---------------------------------------------------------------------------
// The canonical escaping of a payload byte sequence inside a JSON string.
// ---------------------------------------------------------------------------

/// The lowercase hex digit of a value below 16.
pub open spec fn hex_digit(n: u8) -> u8
    recommends
        n < 16,
{
    if n < 10 {
        (48 + n) as u8
    } else {
        (87 + n) as u8
    }
}
/// The escape letter of a byte with a short escape form, if any: quote and
/// backslash escape as themselves, and five control bytes have one-letter
/// escapes.
pub open spec fn short_code(b: u8) -> Option<u8> {
    if b == 34 {
        Some(34u8)
    } else if b == 92 {
        Some(92u8)
    } else if b == 8 {
        Some(98u8)
    } else if b == 9 {
        Some(116u8)
    } else if b == 10 {
        Some(110u8)
    } else if b == 12 {
        Some(102u8)
    } else if b == 13 {
        Some(114u8)
    } else {
        None
    }
}

/// The canonical escape of one payload byte.
pub open spec fn escape_byte(b: u8) -> Seq<u8> {
    match short_code(b) {
        Some(c) => seq![92u8, c],
        None => if b < 32 {
            seq![92u8, 117u8, 48u8, 48u8, hex_digit((b / 16) as u8), hex_digit((b % 16) as u8)]
        } else {
            seq![b]
        },
    }
}

/// The canonical escape of a payload byte sequence.
pub open spec fn escape(s: Seq<u8>) -> Seq<u8>
    decreases s.len(),
{
    if s.len() == 0 {
        Seq::empty()
    } else {
        escape_byte(s[0]) + escape(s.drop_first())
    }
}

// ---------------------------------------------------------------------------
// The canonical body of each message, and the frame around a body.
// ---------------------------------------------------------------------------

/// The canonical JSON body of a message.
pub open spec fn spec_encode(m: Message) -> Seq<u8> {
    match m {
        Message::Connection(Connection::End) => conn_end_bytes(),
        Message::Session(Session::End) => sess_end_bytes(),
        Message::Session(Session::Request) => sess_request_bytes(),
        Message::Session(Session::Success) => sess_success_bytes(),
        Message::Session(Session::Value(v)) => value_prefix_bytes() + escape(encode_utf8(v@))
            + value_suffix_bytes(),
    }
}

/// A whole frame: a two-byte big-endian length header followed by the body.
pub open spec fn frame_bytes(body: Seq<u8>) -> Seq<u8>
    recommends
        body.len() <= 0xffff,
{
    seq![(body.len() / 256) as u8, (body.len() % 256) as u8] + body
}

// ---------------------------------------------------------------------------
// Laws of the escaping.
// ---------------------------------------------------------------------------

proof fn lemma_escape_concat(a: Seq<u8>, b: Seq<u8>)
    ensures
        escape(a + b) == escape(a) + escape(b),
    decreases a.len(),
{
    if a.len() == 0 {
        assert(a + b =~= b);
        assert(escape(a) + escape(b) =~= escape(b));
    } else {
        assert((a + b).drop_first() =~= a.drop_first() + b);
        lemma_escape_concat(a.drop_first(), b);
        assert(escape(a + b) =~= escape(a) + escape(b));
    }
}

proof fn lemma_escape_snoc(s: Seq<u8>, b: u8)
    ensures
        escape(s.push(b)) == escape(s) + escape_byte(b),
{
    assert(s.push(b) =~= s + seq![b]);
    lemma_escape_concat(s, seq![b]);
    assert(seq![b].drop_first() =~= Seq::<u8>::empty());
    assert(escape(Seq::<u8>::empty()) =~= Seq::<u8>::empty());
    assert(escape(seq![b]) == escape_byte(seq![b][0]) + escape(seq![b].drop_first()));
    assert(seq![b][0] == b);
    assert(escape(seq![b]) =~= escape_byte(b));
}
/// Escaping leaves a sequence alone when no byte of it needs an escape.
proof fn lemma_escape_plain(s: Seq<u8>)
    requires
        forall|i: int| 0 <= i < s.len() ==> s[i] >= 32 && s[i] != 34 && s[i] != 92,
    ensures
        escape(s) == s,
    decreases s.len(),
{
    if s.len() == 0 {
        assert(escape(s) =~= s);
    } else {
        assert(short_code(s[0]) is None);
        assert(escape_byte(s[0]) =~= seq![s[0]]);
        lemma_escape_plain(s.drop_first());
        assert(escape(s) =~= s);
    }
}

/// A sequence of bytes below 128 is valid UTF-8.
proof fn lemma_ascii_valid(s: Seq<u8>)
    requires
        forall|i: int| 0 <= i < s.len() ==> s[i] < 128,
    ensures
        valid_utf8(s),
{
    assert(s.subrange(0, 0) =~= Seq::<u8>::empty());
    assert(partial_valid_utf8(s, 0));
    partial_valid_utf8_extend_ascii_block(s, 0, s.len() as int);
    assert(s.subrange(0, s.len() as int) =~= s);
}

/// Every byte of the escape of a byte below 128 is below 128.
proof fn lemma_escape_byte_ascii(b: u8)
    requires
        b < 128,
    ensures
        forall|i: int| 0 <= i < escape_byte(b).len() ==> escape_byte(b)[i] < 128,
{
    if short_code(b) is None && b < 32 {
        assert(hex_digit((b / 16) as u8) < 128);
        assert(hex_digit((b % 16) as u8) < 128);
    }
}

/// Every byte of the escape of an all-below-128 sequence is below 128.
proof fn lemma_escape_ascii(s: Seq<u8>)
    requires
        forall|i: int| 0 <= i < s.len() ==> s[i] < 128,
    ensures
        forall|i: int| 0 <= i < escape(s).len() ==> escape(s)[i] < 128,
    decreases s.len(),
{
    if s.len() == 0 {
    } else {
        lemma_escape_byte_ascii(s[0]);
        lemma_escape_ascii(s.drop_first());
        assert(escape(s) == escape_byte(s[0]) + escape(s.drop_first()));
        assert forall|i: int| 0 <= i < escape(s).len() implies escape(s)[i] < 128 by {
            if i < escape_byte(s[0]).len() {
                assert(escape(s)[i] == escape_byte(s[0])[i]);
            } else {
                assert(escape(s)[i] == escape(s.drop_first())[i - escape_byte(s[0]).len()]);
            }
        }
    }
}

/// Every byte of the multi-byte encoding of a scalar at or above 128 is at or
/// above 128.
proof fn lemma_encode_scalar_high(u: u32)
    requires
        u >= 128,
    ensures
        forall|i: int| 0 <= i < encode_scalar(u).len() ==> encode_scalar(u)[i] >= 128,
{
    assert((0xC0u8 | (((u >> 6) & 0x1F) as u8)) >= 128) by (bit_vector);
    assert((0xE0u8 | (((u >> 12) & 0x0F) as u8)) >= 128) by (bit_vector);
    assert((0xF0u8 | (((u >> 18) & 0x7) as u8)) >= 128) by (bit_vector);
    assert((0x80u8 | ((u & 0x3F) as u8)) >= 128) by (bit_vector);
    assert((0x80u8 | (((u >> 6) & 0x3F) as u8)) >= 128) by (bit_vector);
    assert((0x80u8 | (((u >> 12) & 0x3F) as u8)) >= 128) by (bit_vector);
}

/// The escape of the UTF-8 encoding of any character sequence is valid UTF-8.
pub proof fn lemma_escape_encode_valid(cs: Seq<char>)
    ensures
        valid_utf8(escape(encode_utf8(cs))),
    decreases cs.len(),
{
    if cs.len() == 0 {
        assert(escape(encode_utf8(cs)) =~= Seq::<u8>::empty());
        assert(valid_utf8(Seq::<u8>::empty()));
    } else {
        let u = cs[0] as u32;
        char_is_scalar(cs[0]);
        let first = encode_scalar(u);
        let rest = encode_utf8(cs.drop_first());
        assert(encode_utf8(cs) == first + rest);
        lemma_escape_concat(first, rest);
        lemma_escape_encode_valid(cs.drop_first());
        if u < 128 {
            assert(first =~= seq![(u & 0x7F) as u8]);
            assert(((u & 0x7F) as u8) < 128) by (bit_vector);
            lemma_escape_ascii(first);
            lemma_ascii_valid(escape(first));
        } else {
            lemma_encode_scalar_high(u);
            lemma_escape_plain(first);
            encode_utf8_valid_utf8(seq![cs[0]]);
            assert(seq![cs[0]].drop_first() =~= Seq::<char>::empty());
            assert(encode_utf8(Seq::<char>::empty()) =~= Seq::<u8>::empty());
            assert(encode_utf8(seq![cs[0]]) == encode_scalar(seq![cs[0]][0] as u32) + encode_utf8(
                seq![cs[0]].drop_first(),
            ));
            assert(seq![cs[0]][0] == cs[0]);
            assert(encode_utf8(seq![cs[0]]) =~= first);
        }
        valid_utf8_concat(escape(first), escape(rest));
        assert(escape(encode_utf8(cs)) == escape(first) + escape(rest));
    }
}

/// The canonical body of any message is valid UTF-8.
pub proof fn lemma_spec_encode_valid(m: Message)
    ensures
        valid_utf8(spec_encode(m)),
{
    match m {
        Message::Connection(Connection::End) => {
            lemma_ascii_valid(conn_end_bytes());
        },
        Message::Session(Session::End) => {
            lemma_ascii_valid(sess_end_bytes());
        },
        Message::Session(Session::Request) => {
            lemma_ascii_valid(sess_request_bytes());
        },
        Message::Session(Session::Success) => {
            lemma_ascii_valid(sess_success_bytes());
        },
        Message::Session(Session::Value(v)) => {
            lemma_ascii_valid(value_prefix_bytes());
            lemma_ascii_valid(value_suffix_bytes());
            lemma_escape_encode_valid(v@);
            valid_utf8_concat(value_prefix_bytes(), escape(encode_utf8(v@)));
            valid_utf8_concat(
                value_prefix_bytes() + escape(encode_utf8(v@)),
                value_suffix_bytes(),
            );
        },
    }
}

// ---------------------------------------------------------------------------
// The canonical byte sequences, as specification values and as built vectors.
// ---------------------------------------------------------------------------

/// The canonical body of `Connection::End`.
pub open spec fn conn_end_bytes() -> Seq<u8> {
    // {"message":{"Connection":"End"}}
    seq![123u8, 34, 109, 101, 115, 115, 97, 103, 101, 34, 58, 123, 34, 67, 111, 110, 110, 101, 99, 116, 105, 111, 110, 34, 58, 34, 69, 110, 100, 34, 125, 125]
}

fn conn_end_vec() -> (v: Vec<u8>)
    ensures
        v@ == conn_end_bytes(),
{
    let mut v: Vec<u8> = Vec::new();
    v.push(123);
    v.push(34);
    v.push(109);
    v.push(101);
    v.push(115);
    v.push(115);
    v.push(97);
    v.push(103);
    v.push(101);
    v.push(34);
    v.push(58);
    v.push(123);
    v.push(34);
    v.push(67);
    v.push(111);
    v.push(110);
    v.push(110);
    v.push(101);
    v.push(99);
    v.push(116);
    v.push(105);
    v.push(111);
    v.push(110);
    v.push(34);
    v.push(58);
    v.push(34);
    v.push(69);
    v.push(110);
    v.push(100);
    v.push(34);
    v.push(125);
    v.push(125);
    proof {
        assert(v@ =~= conn_end_bytes());
    }
    v
}

/// The canonical body of `Session::End`.
pub open spec fn sess_end_bytes() -> Seq<u8> {
    // {"message":{"Session":"End"}}
    seq![123u8, 34, 109, 101, 115, 115, 97, 103, 101, 34, 58, 123, 34, 83, 101, 115, 115, 105, 111, 110, 34, 58, 34, 69, 110, 100, 34, 125, 125]
}

fn sess_end_vec() -> (v: Vec<u8>)
    ensures
        v@ == sess_end_bytes(),
{
    let mut v: Vec<u8> = Vec::new();
    v.push(123);
    v.push(34);
    v.push(109);
    v.push(101);
    v.push(115);
    v.push(115);
    v.push(97);
    v.push(103);
    v.push(101);
    v.push(34);
    v.push(58);
    v.push(123);
    v.push(34);
    v.push(83);
    v.push(101);
    v.push(115);
    v.push(115);
    v.push(105);
    v.push(111);
    v.push(110);
    v.push(34);
    v.push(58);
    v.push(34);
    v.push(69);
    v.push(110);
    v.push(100);
    v.push(34);
    v.push(125);
    v.push(125);
    proof {
        assert(v@ =~= sess_end_bytes());
    }
    v
}

/// The canonical body of `Session::Request`.
pub open spec fn sess_request_bytes() -> Seq<u8> {
    // {"message":{"Session":"Request"}}
    seq![123u8, 34, 109, 101, 115, 115, 97, 103, 101, 34, 58, 123, 34, 83, 101, 115, 115, 105, 111, 110, 34, 58, 34, 82, 101, 113, 117, 101, 115, 116, 34, 125, 125]
}

fn sess_request_vec() -> (v: Vec<u8>)
    ensures
        v@ == sess_request_bytes(),
{
    let mut v: Vec<u8> = Vec::new();
    v.push(123);
    v.push(34);
    v.push(109);
    v.push(101);
    v.push(115);
    v.push(115);
    v.push(97);
    v.push(103);
    v.push(101);
    v.push(34);
    v.push(58);
    v.push(123);
    v.push(34);
    v.push(83);
    v.push(101);
    v.push(115);
    v.push(115);
    v.push(105);
    v.push(111);
    v.push(110);
    v.push(34);
    v.push(58);
    v.push(34);
    v.push(82);
    v.push(101);
    v.push(113);
    v.push(117);
    v.push(101);
    v.push(115);
    v.push(116);
    v.push(34);
    v.push(125);
    v.push(125);
    proof {
        assert(v@ =~= sess_request_bytes());
    }
    v
}

/// The canonical body of `Session::Success`.
pub open spec fn sess_success_bytes() -> Seq<u8> {
    // {"message":{"Session":"Success"}}
    seq![123u8, 34, 109, 101, 115, 115, 97, 103, 101, 34, 58, 123, 34, 83, 101, 115, 115, 105, 111, 110, 34, 58, 34, 83, 117, 99, 99, 101, 115, 115, 34, 125, 125]
}

fn sess_success_vec() -> (v: Vec<u8>)
    ensures
        v@ == sess_success_bytes(),
{
    let mut v: Vec<u8> = Vec::new();
    v.push(123);
    v.push(34);
    v.push(109);
    v.push(101);
    v.push(115);
    v.push(115);
    v.push(97);
    v.push(103);
    v.push(101);
    v.push(34);
    v.push(58);
    v.push(123);
    v.push(34);
    v.push(83);
    v.push(101);
    v.push(115);
    v.push(115);
    v.push(105);
    v.push(111);
    v.push(110);
    v.push(34);
    v.push(58);
    v.push(34);
    v.push(83);
    v.push(117);
    v.push(99);
    v.push(99);
    v.push(101);
    v.push(115);
    v.push(115);
    v.push(34);
    v.push(125);
    v.push(125);
    proof {
        assert(v@ =~= sess_success_bytes());
    }
    v
}

/// The bytes of a `Session::Value` body, before the escaped payload.
pub open spec fn value_prefix_bytes() -> Seq<u8> {
    // {"message":{"Session":{"Value":"
    seq![123u8, 34, 109, 101, 115, 115, 97, 103, 101, 34, 58, 123, 34, 83, 101, 115, 115, 105, 111, 110, 34, 58, 123, 34, 86, 97, 108, 117, 101, 34, 58, 34]
}

fn value_prefix_vec() -> (v: Vec<u8>)
    ensures
        v@ == value_prefix_bytes(),
{
    let mut v: Vec<u8> = Vec::new();
    v.push(123);
    v.push(34);
    v.push(109);
    v.push(101);
    v.push(115);
    v.push(115);
    v.push(97);
    v.push(103);
    v.push(101);
    v.push(34);
    v.push(58);
    v.push(123);
    v.push(34);
    v.push(83);
    v.push(101);
    v.push(115);
    v.push(115);
    v.push(105);
    v.push(111);
    v.push(110);
    v.push(34);
    v.push(58);
    v.push(123);
    v.push(34);
    v.push(86);
    v.push(97);
    v.push(108);
    v.push(117);
    v.push(101);
    v.push(34);
    v.push(58);
    v.push(34);
    proof {
        assert(v@ =~= value_prefix_bytes());
    }
    v
}

/// The bytes of a `Session::Value` body, after the escaped payload.
pub open spec fn value_suffix_bytes() -> Seq<u8> {
    // "}}}
    seq![34u8, 125, 125, 125]
}

fn value_suffix_vec() -> (v: Vec<u8>)
    ensures
        v@ == value_suffix_bytes(),
{
    let mut v: Vec<u8> = Vec::new();
    v.push(34);
    v.push(125);
    v.push(125);
    v.push(125);
    proof {
        assert(v@ =~= value_suffix_bytes());
    }
    v
}

// ---------------------------------------------------------------------------
// Trusted views of the standard library's UTF-8 validation.
// ---------------------------------------------------------------------------

/// Relies on `core::str::from_utf8`: it accepts a byte slice exactly when the
/// bytes are valid UTF-8.
#[verifier::external_body]
fn utf8_check(v: &[u8]) -> (r: bool)
    ensures
        r == valid_utf8(v@),
{
    core::str::from_utf8(v).is_ok()
}

/// Relies on `alloc::string::String::from_utf8`: it returns the string whose
/// UTF-8 encoding is exactly the given bytes, and fails exactly when the bytes
/// are not valid UTF-8.
#[verifier::external_body]
fn utf8_to_string(v: Vec<u8>) -> (r: Option<String>)
    ensures
        r matches Some(s) ==> encode_utf8(s@) == v@,
        r is None ==> !valid_utf8(v@),
{
    String::from_utf8(v).ok()
}

// ---------------------------------------------------------------------------
// Encoding.
// ---------------------------------------------------------------------------

fn escaped_bytes(src: &Vec<u8>) -> (r: Vec<u8>)
    ensures
        r@ == escape(src@),
{
    let mut out: Vec<u8> = Vec::new();
    let mut i: usize = 0;
    while i < src.len()
        invariant
            i <= src@.len(),
            out@ == escape(src@.take(i as int)),
        decreases src@.len() - i,
    {
        let c = src[i];
        proof {
            assert(src@.take(i as int + 1) =~= src@.take(i as int).push(src@[i as int]));
            lemma_escape_snoc(src@.take(i as int), src@[i as int]);
        }
        let ghost before = out@;
        if c == 34 {
            out.push(92);
            out.push(34);
        } else if c == 92 {
            out.push(92);
            out.push(92);
        } else if c == 8 {
            out.push(92);
            out.push(98);
        } else if c == 9 {
            out.push(92);
            out.push(116);
        } else if c == 10 {
            out.push(92);
            out.push(110);
        } else if c == 12 {
            out.push(92);
            out.push(102);
        } else if c == 13 {
            out.push(92);
            out.push(114);
        } else if c < 32 {
            out.push(92);
            out.push(117);
            out.push(48);
            out.push(48);
            let hi = c / 16;
            let lo = c % 16;
            out.push(48 + hi);
            if lo < 10 {
                out.push(48 + lo);
            } else {
                out.push(87 + lo);
            }
        } else {
            out.push(c);
        }
        proof {
            assert(out@ =~= before + escape_byte(src@[i as int]));
        }
        i += 1;
    }
    proof {
        assert(src@.take(src@.len() as int) =~= src@);
    }
    out
}

/// Builds the canonical JSON body of a message.
pub fn encode_body(m: &Message) -> (r: Vec<u8>)
    ensures
        r@ == spec_encode(*m),
{
    match m {
        Message::Connection(Connection::End) => conn_end_vec(),
        Message::Session(Session::End) => sess_end_vec(),
        Message::Session(Session::Request) => sess_request_vec(),
        Message::Session(Session::Success) => sess_success_vec(),
        Message::Session(Session::Value(v)) => {
            let mut out = value_prefix_vec();
            let payload = v.as_str().as_bytes_vec();
            let mut esc = escaped_bytes(&payload);
            out.append(&mut esc);
            let mut suf = value_suffix_vec();
            out.append(&mut suf);
            out
        },
    }
}

/// Builds a whole frame around the canonical body of a message: the two-byte
/// big-endian length header, then the body. Fails with `Overflow` exactly
/// when the body is longer than 65535 bytes.
pub fn encode_frame(m: &Message) -> (r: Result<Vec<u8>, response::Error>)
    ensures
        spec_encode(*m).len() <= 0xffff ==> (r matches Ok(v) && v@ == frame_bytes(spec_encode(*m))),
        spec_encode(*m).len() > 0xffff ==> (r matches Err(e) && e == response::Error::Overflow),
{
    let mut body = encode_body(m);
    if body.len() > 0xffff {
        Err(response::Error::Overflow)
    } else {
        let n = body.len();
        let mut out: Vec<u8> = Vec::new();
        out.push((n / 256) as u8);
        out.push((n % 256) as u8);
        out.append(&mut body);
        proof {
            assert(out@ =~= frame_bytes(spec_encode(*m)));
        }
        Ok(out)
    }
}

/// The body length announced by a frame's two header bytes.
pub fn body_len(hi: u8, lo: u8) -> (n: u16)
    ensures
        n as int == hi as int * 256 + lo as int,
{
    (hi as u16) * 256 + (lo as u16)
}

// ---------------------------------------------------------------------------
// Decoding.
// ---------------------------------------------------------------------------

fn vec_content_eq(a: &Vec<u8>, b: &Vec<u8>) -> (r: bool)
    ensures
        r == (a@ == b@),
{
    if a.len() != b.len() {
        return false;
    }
    let mut i: usize = 0;
    while i < a.len()
        invariant
            i <= a@.len(),
            a@.len() == b@.len(),
            forall|j: int| 0 <= j < i ==> a@[j] == b@[j],
        decreases a@.len() - i,
    {
        if a[i] != b[i] {
            return false;
        }
        i += 1;
    }
    proof {
        assert(a@ =~= b@);
    }
    true
}
// ---------------------------------------------------------------------------
// The JSON grammar of a frame body.
// ---------------------------------------------------------------------------

/// JSON inter-token whitespace.
pub open spec fn is_ws(c: u8) -> bool {
    c == 32 || c == 9 || c == 10 || c == 13
}

/// The first position at or after `i` holding no whitespace.
pub open spec fn skip_ws(b: Seq<u8>, i: int) -> int
    decreases b.len() - i,
{
    if 0 <= i < b.len() && is_ws(b[i]) {
        skip_ws(b, i + 1)
    } else {
        i
    }
}

/// The value of one hex digit, either case.
pub open spec fn hex_val(c: u8) -> Option<u8> {
    if 48 <= c <= 57 {
        Some((c - 48) as u8)
    } else if 97 <= c <= 102 {
        Some((c - 87) as u8)
    } else if 65 <= c <= 70 {
        Some((c - 55) as u8)
    } else {
        None
    }
}

/// The value of the four hex digits at `i`, when all four are hex digits.
pub open spec fn hex4(b: Seq<u8>, i: int) -> Option<u32> {
    if 0 <= i && i + 4 <= b.len() && hex_val(b[i]) is Some && hex_val(b[i + 1]) is Some && hex_val(
        b[i + 2],
    ) is Some && hex_val(b[i + 3]) is Some {
        Some(
            ((hex_val(b[i]).unwrap() as int) * 4096 + (hex_val(b[i + 1]).unwrap() as int) * 256 + (
            hex_val(b[i + 2]).unwrap() as int) * 16 + (hex_val(b[i + 3]).unwrap() as int)) as u32,
        )
    } else {
        None
    }
}

/// The byte denoted by a one-letter string escape, if the letter has one.
pub open spec fn short_unescape(c: u8) -> Option<u8> {
    if c == 34 {
        Some(34u8)
    } else if c == 92 {
        Some(92u8)
    } else if c == 47 {
        Some(47u8)
    } else if c == 98 {
        Some(8u8)
    } else if c == 102 {
        Some(12u8)
    } else if c == 110 {
        Some(10u8)
    } else if c == 114 {
        Some(13u8)
    } else if c == 116 {
        Some(9u8)
    } else {
        None
    }
}

pub open spec fn is_high_surrogate(v: u32) -> bool {
    0xD800 <= v <= 0xDBFF
}

pub open spec fn is_low_surrogate(v: u32) -> bool {
    0xDC00 <= v <= 0xDFFF
}

/// The scalar a surrogate pair denotes.
pub open spec fn combine_surrogates(hi: u32, lo: u32) -> u32
    recommends
        is_high_surrogate(hi),
        is_low_surrogate(lo),
{
    ((hi as int - 0xD800) * 0x400 + (lo as int - 0xDC00) + 0x10000) as u32
}

/// Joins decoded bytes onto the front of a string parse's remainder.
pub open spec fn str_cons(p: Seq<u8>, rest: Option<(Seq<u8>, int)>) -> Option<(Seq<u8>, int)> {
    match rest {
        Some(t) => Some((p + t.0, t.1)),
        None => None,
    }
}

/// Parses a JSON string from just after its opening quote: the decoded content
/// as UTF-8 bytes, and the position after the closing quote. All of JSON's
/// escape forms are admitted: the one-letter escapes, `\u` with four hex
/// digits of either case, and surrogate pairs for supplementary characters. A
/// lone surrogate or a raw control byte refuses the string.
pub open spec fn parse_string(b: Seq<u8>, i: int) -> Option<(Seq<u8>, int)>
    decreases b.len() - i,
{
    if !(0 <= i < b.len()) {
        None
    } else if b[i] == 34 {
        Some((Seq::empty(), i + 1))
    } else if b[i] == 92 {
        if i + 2 <= b.len() && short_unescape(b[i + 1]) is Some {
            str_cons(seq![short_unescape(b[i + 1]).unwrap()], parse_string(b, i + 2))
        } else if i + 2 <= b.len() && b[i + 1] == 117 && hex4(b, i + 2) is Some {
            let v = hex4(b, i + 2).unwrap();
            if is_low_surrogate(v) {
                None
            } else if is_high_surrogate(v) {
                if i + 8 <= b.len() && b[i + 6] == 92 && b[i + 7] == 117 && hex4(b, i + 8) is Some
                    && is_low_surrogate(hex4(b, i + 8).unwrap()) {
                    str_cons(
                        encode_scalar(combine_surrogates(v, hex4(b, i + 8).unwrap())),
                        parse_string(b, i + 12),
                    )
                } else {
                    None
                }
            } else {
                str_cons(encode_scalar(v), parse_string(b, i + 6))
            }
        } else {
            None
        }
    } else if b[i] < 32 {
        None
    } else {
        str_cons(seq![b[i]], parse_string(b, i + 1))
    }
}

/// The position after a required token character, whitespace skipped first.
pub open spec fn expect_token(b: Seq<u8>, i: int, c: u8) -> Option<int> {
    let j = skip_ws(b, i);
    if 0 <= j < b.len() && b[j] == c {
        Some(j + 1)
    } else {
        None
    }
}

/// A JSON string token, whitespace skipped first.
pub open spec fn parse_token_string(b: Seq<u8>, i: int) -> Option<(Seq<u8>, int)> {
    let j = skip_ws(b, i);
    if 0 <= j < b.len() && b[j] == 34 {
        parse_string(b, j + 1)
    } else {
        None
    }
}

/// What a frame body denotes, with a `Value` payload as the UTF-8 bytes of
/// the carried string.
pub enum ParsedMessage {
    ConnEnd,
    SessEnd,
    SessRequest,
    SessSuccess,
    SessValue(Seq<u8>),
}

/// The session event after the `Session` tag: a bare variant string, or the
/// one-field `Value` object.
pub open spec fn parse_session_value(b: Seq<u8>, i: int) -> Option<(ParsedMessage, int)> {
    let j = skip_ws(b, i);
    if 0 <= j < b.len() && b[j] == 34 {
        match parse_string(b, j + 1) {
            Some(t) => if t.0 == lit_end() {
                Some((ParsedMessage::SessEnd, t.1))
            } else if t.0 == lit_request() {
                Some((ParsedMessage::SessRequest, t.1))
            } else if t.0 == lit_success() {
                Some((ParsedMessage::SessSuccess, t.1))
            } else {
                None
            },
            None => None,
        }
    } else if 0 <= j < b.len() && b[j] == 123 {
        match parse_token_string(b, j + 1) {
            Some(t) => if t.0 == tag_value() {
                match expect_token(b, t.1, 58) {
                    Some(k) => match parse_token_string(b, k) {
                        Some(v) => match expect_token(b, v.1, 125) {
                            Some(q) => Some((ParsedMessage::SessValue(v.0), q)),
                            None => None,
                        },
                        None => None,
                    },
                    None => None,
                }
            } else {
                None
            },
            None => None,
        }
    } else {
        None
    }
}

/// The message object: `{"Connection": "End"}` or `{"Session": <event>}`.
pub open spec fn parse_message_value(b: Seq<u8>, i: int) -> Option<(ParsedMessage, int)> {
    match expect_token(b, i, 123) {
        Some(j) => match parse_token_string(b, j) {
            Some(t) => if t.0 == tag_connection() {
                match expect_token(b, t.1, 58) {
                    Some(k) => match parse_token_string(b, k) {
                        Some(v) => if v.0 == lit_end() {
                            match expect_token(b, v.1, 125) {
                                Some(q) => Some((ParsedMessage::ConnEnd, q)),
                                None => None,
                            }
                        } else {
                            None
                        },
                        None => None,
                    },
                    None => None,
                }
            } else if t.0 == tag_session() {
                match expect_token(b, t.1, 58) {
                    Some(k) => match parse_session_value(b, k) {
                        Some(m) => match expect_token(b, m.1, 125) {
                            Some(q) => Some((m.0, q)),
                            None => None,
                        },
                        None => None,
                    },
                    None => None,
                }
            } else {
                None
            },
            None => None,
        },
        None => None,
    }
}

/// A whole body: `{"message": <message>}` with nothing after it but
/// whitespace. Every string, the key and tag strings included, may use any of
/// JSON's escape forms.
pub open spec fn parse_frame_structure(b: Seq<u8>) -> Option<ParsedMessage> {
    match expect_token(b, 0, 123) {
        Some(i) => match parse_token_string(b, i) {
            Some(t) => if t.0 == key_message() {
                match expect_token(b, t.1, 58) {
                    Some(j) => match parse_message_value(b, j) {
                        Some(m) => match expect_token(b, m.1, 125) {
                            Some(q) => if skip_ws(b, q) == b.len() {
                                Some(m.0)
                            } else {
                                None
                            },
                            None => None,
                        },
                        None => None,
                    },
                    None => None,
                }
            } else {
                None
            },
            None => None,
        },
        None => None,
    }
}

/// The message a body denotes: the JSON shape above, with a `Value` payload
/// whose bytes are well-formed UTF-8 (a payload denotes text).
pub open spec fn spec_parse_body(b: Seq<u8>) -> Option<ParsedMessage> {
    match parse_frame_structure(b) {
        Some(ParsedMessage::SessValue(p)) => if valid_utf8(p) {
            Some(ParsedMessage::SessValue(p))
        } else {
            None
        },
        other => other,
    }
}

/// A message's denotation: its `Value` payload as that string's UTF-8 bytes.
pub open spec fn parsed_of(m: Message) -> ParsedMessage {
    match m {
        Message::Connection(Connection::End) => ParsedMessage::ConnEnd,
        Message::Session(Session::End) => ParsedMessage::SessEnd,
        Message::Session(Session::Request) => ParsedMessage::SessRequest,
        Message::Session(Session::Success) => ParsedMessage::SessSuccess,
        Message::Session(Session::Value(v)) => ParsedMessage::SessValue(encode_utf8(v@)),
    }
}

/// Two messages with the same denotation carry the same content.
pub proof fn lemma_parsed_identifies(a: Message, b: Message)
    requires
        parsed_of(a) == parsed_of(b),
    ensures
        message_sim(a, b),
{
    match (a, b) {
        (Message::Session(Session::Value(u)), Message::Session(Session::Value(w))) => {
            assert(encode_utf8(u@) == encode_utf8(w@));
            encode_utf8_decode_utf8(u@);
            encode_utf8_decode_utf8(w@);
        },
        _ => {
        },
    }
}
/// The characters of the frame object's one field name, `message`.
pub open spec fn key_message() -> Seq<u8> {
    seq![109u8, 101, 115, 115, 97, 103, 101]
}

fn key_message_vec() -> (v: Vec<u8>)
    ensures
        v@ == key_message(),
{
    let mut v: Vec<u8> = Vec::new();
    v.push(109);
    v.push(101);
    v.push(115);
    v.push(115);
    v.push(97);
    v.push(103);
    v.push(101);
    proof {
        assert(v@ =~= key_message());
    }
    v
}

/// The characters of the connection-event tag, `Connection`.
pub open spec fn tag_connection() -> Seq<u8> {
    seq![67u8, 111, 110, 110, 101, 99, 116, 105, 111, 110]
}

fn tag_connection_vec() -> (v: Vec<u8>)
    ensures
        v@ == tag_connection(),
{
    let mut v: Vec<u8> = Vec::new();
    v.push(67);
    v.push(111);
    v.push(110);
    v.push(110);
    v.push(101);
    v.push(99);
    v.push(116);
    v.push(105);
    v.push(111);
    v.push(110);
    proof {
        assert(v@ =~= tag_connection());
    }
    v
}

/// The characters of the session-event tag, `Session`.
pub open spec fn tag_session() -> Seq<u8> {
    seq![83u8, 101, 115, 115, 105, 111, 110]
}

fn tag_session_vec() -> (v: Vec<u8>)
    ensures
        v@ == tag_session(),
{
    let mut v: Vec<u8> = Vec::new();
    v.push(83);
    v.push(101);
    v.push(115);
    v.push(115);
    v.push(105);
    v.push(111);
    v.push(110);
    proof {
        assert(v@ =~= tag_session());
    }
    v
}

/// The characters of the `End` variant name, `End`.
pub open spec fn lit_end() -> Seq<u8> {
    seq![69u8, 110, 100]
}

fn lit_end_vec() -> (v: Vec<u8>)
    ensures
        v@ == lit_end(),
{
    let mut v: Vec<u8> = Vec::new();
    v.push(69);
    v.push(110);
    v.push(100);
    proof {
        assert(v@ =~= lit_end());
    }
    v
}

/// The characters of the `Request` variant name, `Request`.
pub open spec fn lit_request() -> Seq<u8> {
    seq![82u8, 101, 113, 117, 101, 115, 116]
}

fn lit_request_vec() -> (v: Vec<u8>)
    ensures
        v@ == lit_request(),
{
    let mut v: Vec<u8> = Vec::new();
    v.push(82);
    v.push(101);
    v.push(113);
    v.push(117);
    v.push(101);
    v.push(115);
    v.push(116);
    proof {
        assert(v@ =~= lit_request());
    }
    v
}

/// The characters of the `Success` variant name, `Success`.
pub open spec fn lit_success() -> Seq<u8> {
    seq![83u8, 117, 99, 99, 101, 115, 115]
}

fn lit_success_vec() -> (v: Vec<u8>)
    ensures
        v@ == lit_success(),
{
    let mut v: Vec<u8> = Vec::new();
    v.push(83);
    v.push(117);
    v.push(99);
    v.push(99);
    v.push(101);
    v.push(115);
    v.push(115);
    proof {
        assert(v@ =~= lit_success());
    }
    v
}

/// The characters of the `Value` field name, `Value`.
pub open spec fn tag_value() -> Seq<u8> {
    seq![86u8, 97, 108, 117, 101]
}

fn tag_value_vec() -> (v: Vec<u8>)
    ensures
        v@ == tag_value(),
{
    let mut v: Vec<u8> = Vec::new();
    v.push(86);
    v.push(97);
    v.push(108);
    v.push(117);
    v.push(101);
    proof {
        assert(v@ =~= tag_value());
    }
    v
}


// ---------------------------------------------------------------------------
// The canonical encoding lies inside the grammar.
// ---------------------------------------------------------------------------

proof fn lemma_hex_digit_val(n: u8)
    requires
        n < 16,
    ensures
        hex_val(hex_digit(n)) == Some(n),
{
}

/// A string of escape-free characters parses as itself.
proof fn lemma_parse_plain_string(b: Seq<u8>, i: int, s: Seq<u8>)
    requires
        0 <= i,
        i + s.len() < b.len(),
        b.subrange(i, i + s.len()) == s,
        forall|k: int| 0 <= k < s.len() ==> 32 <= #[trigger] s[k] && s[k] != 34 && s[k] != 92,
        b[i + s.len()] == 34,
    ensures
        parse_string(b, i) == Some((s, i + s.len() + 1)),
    decreases s.len(),
{
    if s.len() == 0 {
        assert(b[i] == 34);
        assert(s =~= Seq::<u8>::empty());
    } else {
        assert(b.subrange(i, i + s.len())[0] == b[i]);
        assert(b[i] == s[0]);
        assert forall|k: int|
            0 <= k < s.len() - 1 implies #[trigger] b.subrange(
            i + 1,
            i + 1 + s.drop_first().len(),
        )[k] == s.drop_first()[k] by {
            assert(b.subrange(i, i + s.len())[k + 1] == s[k + 1]);
        }
        assert(b.subrange(i + 1, i + 1 + s.drop_first().len()) =~= s.drop_first());
        lemma_parse_plain_string(b, i + 1, s.drop_first());
        assert(parse_string(b, i) == str_cons(seq![s[0]], parse_string(b, i + 1)));
        assert(seq![s[0]] + s.drop_first() =~= s);
    }
}

/// A canonically escaped payload followed by a closing quote parses back to
/// the payload.
proof fn lemma_parse_escaped(b: Seq<u8>, i: int, x: Seq<u8>)
    requires
        0 <= i,
        i + escape(x).len() < b.len(),
        b.subrange(i, i + escape(x).len()) == escape(x),
        b[i + escape(x).len()] == 34,
    ensures
        parse_string(b, i) == Some((x, i + escape(x).len() + 1)),
    decreases x.len(),
{
    if x.len() == 0 {
        assert(escape(x) =~= Seq::<u8>::empty());
        assert(b[i] == 34);
        assert(x =~= Seq::<u8>::empty());
    } else {
        let b0 = x[0];
        let eb = escape_byte(b0);
        let rest = x.drop_first();
        assert(escape(x) == eb + escape(rest));
        let ln = escape(x).len() as int;
        let i2 = i + eb.len();
        assert forall|k: int|
            0 <= k < escape(rest).len() implies #[trigger] b.subrange(
            i2,
            i2 + escape(rest).len(),
        )[k] == escape(rest)[k] by {
            assert(b.subrange(i, i + ln)[eb.len() + k] == escape(x)[eb.len() + k]);
            assert(escape(x)[eb.len() + k] == escape(rest)[k]);
        }
        assert(b.subrange(i2, i2 + escape(rest).len()) =~= escape(rest));
        lemma_parse_escaped(b, i2, rest);
        assert(seq![b0] + rest =~= x);
        if short_code(b0) is Some {
            let c = short_code(b0).unwrap();
            assert(eb =~= seq![92u8, c]);
            assert(b.subrange(i, i + ln)[0] == b[i] && b.subrange(i, i + ln)[1] == b[i + 1]);
            assert(b[i] == 92 && b[i + 1] == c);
            assert(short_unescape(c) == Some(b0));
            assert(parse_string(b, i) == str_cons(seq![b0], parse_string(b, i + 2)));
        } else if b0 < 32 {
            let hi = (b0 / 16) as u8;
            let lo = (b0 % 16) as u8;
            lemma_hex_digit_val(hi);
            lemma_hex_digit_val(lo);
            assert(eb =~= seq![92u8, 117u8, 48u8, 48u8, hex_digit(hi), hex_digit(lo)]);
            assert(b.subrange(i, i + ln)[0] == b[i] && b.subrange(i, i + ln)[1] == b[i + 1]);
            assert(b.subrange(i, i + ln)[2] == b[i + 2] && b.subrange(i, i + ln)[3] == b[i + 3]);
            assert(b.subrange(i, i + ln)[4] == b[i + 4] && b.subrange(i, i + ln)[5] == b[i + 5]);
            assert(b[i] == 92 && b[i + 1] == 117);
            assert(short_unescape(117u8) is None);
            assert(b[i + 2] == 48 && b[i + 3] == 48);
            assert(b[i + 4] == hex_digit(hi) && b[i + 5] == hex_digit(lo));
            assert(hex_val(48u8) == Some(0u8));
            assert(hex4(b, i + 2) is Some);
            let v = hex4(b, i + 2).unwrap();
            vstd::arithmetic::div_mod::lemma_fundamental_div_mod(b0 as int, 16);
            assert(v == b0 as u32);
            assert(!is_low_surrogate(v) && !is_high_surrogate(v));
            assert(encode_scalar(v) =~= seq![b0]) by {
                assert(((b0 as u32) & 0x7F) as u8 == b0) by (bit_vector)
                    requires
                        b0 < 32,
                ;
            }
            assert(parse_string(b, i) == str_cons(encode_scalar(v), parse_string(b, i + 6)));
        } else {
            assert(eb =~= seq![b0]);
            assert(b.subrange(i, i + ln)[0] == b[i]);
            assert(b[i] == b0 && b0 != 34 && b0 != 92 && b0 >= 32);
            assert(parse_string(b, i) == str_cons(seq![b0], parse_string(b, i + 1)));
        }
    }
}

/// The shared opening of a session body with a bare variant string,
/// `{"message":{"Session":"`.
pub open spec fn sess_prelude_bytes() -> Seq<u8> {
    seq![123u8, 34, 109, 101, 115, 115, 97, 103, 101, 34, 58, 123, 34, 83, 101, 115, 115, 105, 111, 110, 34, 58, 34]
}

/// The canonical `Connection::End` body parses to its denotation.
#[verifier::rlimit(100)]
#[verifier::spinoff_prover]
proof fn lemma_parse_conn_end()
    ensures
        parse_frame_structure(conn_end_bytes()) == Some(ParsedMessage::ConnEnd),
{
    let b = conn_end_bytes();
    assert(expect_token(b, 0, 123) == Some(1int));
    assert(b.subrange(2, 9) =~= key_message());
    lemma_parse_plain_string(b, 2, key_message());
    assert(parse_token_string(b, 1) == Some((key_message(), 10int)));
    assert(expect_token(b, 10, 58) == Some(11int));
    assert(expect_token(b, 11, 123) == Some(12int));
    assert(b.subrange(13, 23) =~= tag_connection());
    lemma_parse_plain_string(b, 13, tag_connection());
    assert(parse_token_string(b, 12) == Some((tag_connection(), 24int)));
    assert(expect_token(b, 24, 58) == Some(25int));
    assert(b.subrange(26, 29) =~= lit_end());
    lemma_parse_plain_string(b, 26, lit_end());
    assert(parse_token_string(b, 25) == Some((lit_end(), 30int)));
    assert(expect_token(b, 30, 125) == Some(31int));
    assert(parse_message_value(b, 11) == Some((ParsedMessage::ConnEnd, 31int)));
    assert(expect_token(b, 31, 125) == Some(32int));
    assert(skip_ws(b, 32) == 32);
    assert(parse_frame_structure(b) == Some(ParsedMessage::ConnEnd));
}

/// A canonical `Session` body with a bare variant string parses to that
/// variant's denotation.
proof fn lemma_parse_sess_unit(b: Seq<u8>, lit: Seq<u8>, p: ParsedMessage)
    requires
        b.len() == 26 + lit.len(),
        b.subrange(0, 23) =~= sess_prelude_bytes(),
        b.subrange(23, 23 + lit.len() as int) == lit,
        forall|k: int| 0 <= k < lit.len() ==> 32 <= #[trigger] lit[k] && lit[k] != 34 && lit[k]
            != 92,
        b[23 + lit.len() as int] == 34,
        b[24 + lit.len() as int] == 125,
        b[25 + lit.len() as int] == 125,
        (if lit == lit_end() {
            p == ParsedMessage::SessEnd
        } else if lit == lit_request() {
            p == ParsedMessage::SessRequest
        } else {
            lit == lit_success() && p == ParsedMessage::SessSuccess
        }),
    ensures
        parse_frame_structure(b) == Some(p),
{
    let n = lit.len() as int;
    assert forall|k: int| 0 <= k < 23 implies b[k] == sess_prelude_bytes()[k] by {
        assert(b.subrange(0, 23)[k] == b[k]);
    }
    assert(expect_token(b, 0, 123) == Some(1int));
    assert(b.subrange(2, 9) =~= key_message());
    lemma_parse_plain_string(b, 2, key_message());
    assert(parse_token_string(b, 1) == Some((key_message(), 10int)));
    assert(expect_token(b, 10, 58) == Some(11int));
    assert(expect_token(b, 11, 123) == Some(12int));
    assert(b.subrange(13, 20) =~= tag_session());
    lemma_parse_plain_string(b, 13, tag_session());
    assert(parse_token_string(b, 12) == Some((tag_session(), 21int)));
    assert(tag_session() != tag_connection());
    assert(expect_token(b, 21, 58) == Some(22int));
    lemma_parse_plain_string(b, 23, lit);
    assert(skip_ws(b, 22) == 22);
    assert(parse_session_value(b, 22) == Some((p, 24 + n)));
    assert(expect_token(b, 24 + n, 125) == Some(25 + n));
    assert(parse_message_value(b, 11) == Some((p, 25 + n)));
    assert(expect_token(b, 25 + n, 125) == Some(26 + n));
    assert(skip_ws(b, 26 + n) == 26 + n);
    assert(parse_frame_structure(b) == Some(p));
}

/// The canonical `Session::Value` body parses to its denotation.
#[verifier::rlimit(60)]
proof fn lemma_parse_value(v: Seq<char>)
    ensures
        parse_frame_structure(value_prefix_bytes() + escape(encode_utf8(v)) + value_suffix_bytes())
            == Some(ParsedMessage::SessValue(encode_utf8(v))),
{
    let e = escape(encode_utf8(v));
    let n = e.len() as int;
    let b = value_prefix_bytes() + e + value_suffix_bytes();
    assert(b.len() == 36 + n);
    assert(expect_token(b, 0, 123) == Some(1int));
    assert(b.subrange(2, 9) =~= key_message());
    lemma_parse_plain_string(b, 2, key_message());
    assert(parse_token_string(b, 1) == Some((key_message(), 10int)));
    assert(expect_token(b, 10, 58) == Some(11int));
    assert(expect_token(b, 11, 123) == Some(12int));
    assert(b.subrange(13, 20) =~= tag_session());
    lemma_parse_plain_string(b, 13, tag_session());
    assert(parse_token_string(b, 12) == Some((tag_session(), 21int)));
    assert(tag_session() != tag_connection());
    assert(expect_token(b, 21, 58) == Some(22int));
    assert(skip_ws(b, 22) == 22 && b[22] == 123);
    assert(skip_ws(b, 23) == 23 && b[23] == 34);
    assert(b.subrange(24, 29) =~= tag_value());
    lemma_parse_plain_string(b, 24, tag_value());
    assert(parse_token_string(b, 23) == Some((tag_value(), 30int)));
    assert(expect_token(b, 30, 58) == Some(31int));
    assert(skip_ws(b, 31) == 31 && b[31] == 34);
    assert(b.subrange(32, 32 + n) =~= e);
    assert(b[32 + n] == 34);
    lemma_parse_escaped(b, 32, encode_utf8(v));
    assert(parse_token_string(b, 31) == Some((encode_utf8(v), 33 + n)));
    assert(b[33 + n] == 125 && b[34 + n] == 125 && b[35 + n] == 125);
    assert(expect_token(b, 33 + n, 125) == Some(34 + n));
    assert(parse_session_value(b, 22) == Some((ParsedMessage::SessValue(encode_utf8(v)), 34 + n)));
    assert(expect_token(b, 34 + n, 125) == Some(35 + n));
    assert(parse_message_value(b, 11) == Some((ParsedMessage::SessValue(encode_utf8(v)), 35 + n)));
    assert(expect_token(b, 35 + n, 125) == Some(36 + n));
    assert(skip_ws(b, 36 + n) == 36 + n);
    assert(parse_frame_structure(b) == Some(ParsedMessage::SessValue(encode_utf8(v))));
}

/// The canonical `Session::End` body parses to its denotation.
#[verifier::rlimit(100)]
#[verifier::spinoff_prover]
proof fn lemma_parse_sess_end()
    ensures
        parse_frame_structure(sess_end_bytes()) == Some(ParsedMessage::SessEnd),
{
    assert(sess_end_bytes().subrange(0, 23) =~= sess_prelude_bytes());
    assert(sess_end_bytes().subrange(23, 26) =~= lit_end());
    lemma_parse_sess_unit(sess_end_bytes(), lit_end(), ParsedMessage::SessEnd);
}

/// The canonical `Session::Request` body parses to its denotation.
#[verifier::rlimit(100)]
#[verifier::spinoff_prover]
proof fn lemma_parse_sess_request()
    ensures
        parse_frame_structure(sess_request_bytes()) == Some(ParsedMessage::SessRequest),
{
    assert(sess_request_bytes().subrange(0, 23) =~= sess_prelude_bytes());
    assert(sess_request_bytes().subrange(23, 30) =~= lit_request());
    lemma_parse_sess_unit(sess_request_bytes(), lit_request(), ParsedMessage::SessRequest);
}

/// The canonical `Session::Success` body parses to its denotation.
#[verifier::rlimit(100)]
#[verifier::spinoff_prover]
proof fn lemma_parse_sess_success()
    ensures
        parse_frame_structure(sess_success_bytes()) == Some(ParsedMessage::SessSuccess),
{
    assert(sess_success_bytes().subrange(0, 23) =~= sess_prelude_bytes());
    assert(sess_success_bytes().subrange(23, 30) =~= lit_success());
    lemma_parse_sess_unit(sess_success_bytes(), lit_success(), ParsedMessage::SessSuccess);
}

/// Round trip, grammar side: a message's canonical body parses back to that
/// message's denotation.
pub proof fn lemma_parse_encoding(m: Message)
    ensures
        spec_parse_body(spec_encode(m)) == Some(parsed_of(m)),
{
    match m {
        Message::Connection(Connection::End) => {
            lemma_parse_conn_end();
        },
        Message::Session(Session::End) => {
            lemma_parse_sess_end();
        },
        Message::Session(Session::Request) => {
            lemma_parse_sess_request();
        },
        Message::Session(Session::Success) => {
            lemma_parse_sess_success();
        },
        Message::Session(Session::Value(v)) => {
            lemma_parse_value(v@);
            encode_utf8_valid_utf8(v@);
        },
    }
}

// ---------------------------------------------------------------------------
// The executable parser, step for step against the grammar.
// ---------------------------------------------------------------------------

fn skip_ws_exec(b: &Vec<u8>, i: usize) -> (j: usize)
    requires
        i <= b@.len(),
    ensures
        j as int == skip_ws(b@, i as int),
        i <= j <= b@.len(),
{
    let mut j = i;
    while j < b.len() && (b[j] == 32 || b[j] == 9 || b[j] == 10 || b[j] == 13)
        invariant
            i <= j <= b@.len(),
            skip_ws(b@, i as int) == skip_ws(b@, j as int),
        decreases b@.len() - j,
    {
        j += 1;
    }
    j
}

fn hex_val_exec(c: u8) -> (r: Option<u8>)
    ensures
        r == hex_val(c),
{
    if c >= 48 && c <= 57 {
        Some(c - 48)
    } else if c >= 97 && c <= 102 {
        Some(c - 87)
    } else if c >= 65 && c <= 70 {
        Some(c - 55)
    } else {
        None
    }
}

fn hex4_exec(b: &Vec<u8>, i: usize) -> (r: Option<u32>)
    requires
        i <= b@.len(),
    ensures
        r == hex4(b@, i as int),
{
    if b.len() - i < 4 {
        return None;
    }
    let v0 = hex_val_exec(b[i]);
    let v1 = hex_val_exec(b[i + 1]);
    let v2 = hex_val_exec(b[i + 2]);
    let v3 = hex_val_exec(b[i + 3]);
    match (v0, v1, v2, v3) {
        (Some(a), Some(c), Some(d), Some(e)) => Some(
            (a as u32) * 4096 + (c as u32) * 256 + (d as u32) * 16 + (e as u32),
        ),
        _ => None,
    }
}

/// Appends the UTF-8 encoding of one Unicode scalar.
fn push_scalar(out: &mut Vec<u8>, v: u32)
    requires
        v <= 0x10FFFF,
        !(0xD800 <= v && v <= 0xDFFF),
    ensures
        final(out)@ == old(out)@ + encode_scalar(v),
{
    if v <= 0x7F {
        out.push((v & 0x7F) as u8);
        proof {
            assert(out@ =~= old(out)@ + encode_scalar(v));
        }
    } else if v <= 0x7FF {
        out.push(0xC0 | (((v >> 6) & 0x1F) as u8));
        out.push(0x80 | ((v & 0x3F) as u8));
        proof {
            assert(out@ =~= old(out)@ + encode_scalar(v));
        }
    } else if v <= 0xFFFF {
        out.push(0xE0 | (((v >> 12) & 0x0F) as u8));
        out.push(0x80 | (((v >> 6) & 0x3F) as u8));
        out.push(0x80 | ((v & 0x3F) as u8));
        proof {
            assert(out@ =~= old(out)@ + encode_scalar(v));
        }
    } else {
        out.push(0xF0 | (((v >> 18) & 0x7) as u8));
        out.push(0x80 | (((v >> 12) & 0x3F) as u8));
        out.push(0x80 | (((v >> 6) & 0x3F) as u8));
        out.push(0x80 | ((v & 0x3F) as u8));
        proof {
            assert(out@ =~= old(out)@ + encode_scalar(v));
        }
    }
}

proof fn lemma_str_cons_join(p: Seq<u8>, q: Seq<u8>, o: Option<(Seq<u8>, int)>)
    ensures
        str_cons(p, str_cons(q, o)) == str_cons(p + q, o),
{
    match o {
        Some(t) => {
            assert(p + (q + t.0) =~= (p + q) + t.0);
        },
        None => {
        },
    }
}

fn parse_string_exec(b: &Vec<u8>, i: usize) -> (r: Option<(Vec<u8>, usize)>)
    requires
        i <= b@.len(),
    ensures
        (r is Some) == (parse_string(b@, i as int) is Some),
        r matches Some(t) ==> (parse_string(b@, i as int) == Some((t.0@, t.1 as int)) && t.1
            <= b@.len()),
{
    let ghost start = i as int;
    let mut out: Vec<u8> = Vec::new();
    let mut j: usize = i;
    proof {
        if parse_string(b@, start) is Some {
            assert(Seq::<u8>::empty() + parse_string(b@, start).unwrap().0 =~= parse_string(
                b@,
                start,
            ).unwrap().0);
        }
        assert(str_cons(Seq::<u8>::empty(), parse_string(b@, start)) == parse_string(b@, start));
    }
    while j < b.len()
        invariant
            i <= j <= b@.len(),
            start == i as int,
            parse_string(b@, start) == str_cons(out@, parse_string(b@, j as int)),
        decreases b@.len() - j,
    {
        let c = b[j];
        let ghost pos = j as int;
        let ghost acc = out@;
        if c == 34 {
            proof {
                assert(parse_string(b@, pos) == Some((Seq::<u8>::empty(), pos + 1)));
                assert(acc + Seq::<u8>::empty() =~= acc);
            }
            return Some((out, j + 1));
        } else if c == 92 {
            if b.len() - j < 2 {
                proof {
                    assert(parse_string(b@, pos) is None);
                }
                return None;
            }
            let d = b[j + 1];
            if d == 34 || d == 92 || d == 47 || d == 98 || d == 102 || d == 110 || d == 114 || d
                == 116 {
                let val: u8 = if d == 34 {
                    34
                } else if d == 92 {
                    92
                } else if d == 47 {
                    47
                } else if d == 98 {
                    8
                } else if d == 102 {
                    12
                } else if d == 110 {
                    10
                } else if d == 114 {
                    13
                } else {
                    9
                };
                proof {
                    assert(short_unescape(d) == Some(val));
                    assert(parse_string(b@, pos) == str_cons(
                        seq![val],
                        parse_string(b@, pos + 2),
                    ));
                    lemma_str_cons_join(acc, seq![val], parse_string(b@, pos + 2));
                    assert(acc.push(val) =~= acc + seq![val]);
                }
                out.push(val);
                j += 2;
            } else if d == 117 {
                match hex4_exec(b, j + 2) {
                    None => {
                        proof {
                            assert(parse_string(b@, pos) is None);
                        }
                        return None;
                    },
                    Some(v) => {
                        if v >= 0xDC00 && v <= 0xDFFF {
                            proof {
                                assert(parse_string(b@, pos) is None);
                            }
                            return None;
                        } else if v >= 0xD800 && v <= 0xDBFF {
                            if b.len() - j >= 8 && b[j + 6] == 92 && b[j + 7] == 117 {
                                match hex4_exec(b, j + 8) {
                                    Some(w) => {
                                        if w >= 0xDC00 && w <= 0xDFFF {
                                            let scalar: u32 = 0x10000 + (v - 0xD800) * 0x400 + (w
                                                - 0xDC00);
                                            proof {
                                                assert(scalar == combine_surrogates(v, w));
                                                assert(parse_string(b@, pos) == str_cons(
                                                    encode_scalar(scalar),
                                                    parse_string(b@, pos + 12),
                                                ));
                                                lemma_str_cons_join(
                                                    acc,
                                                    encode_scalar(scalar),
                                                    parse_string(b@, pos + 12),
                                                );
                                            }
                                            push_scalar(&mut out, scalar);
                                            j += 12;
                                        } else {
                                            proof {
                                                assert(parse_string(b@, pos) is None);
                                            }
                                            return None;
                                        }
                                    },
                                    None => {
                                        proof {
                                            assert(parse_string(b@, pos) is None);
                                        }
                                        return None;
                                    },
                                }
                            } else {
                                proof {
                                    assert(parse_string(b@, pos) is None);
                                }
                                return None;
                            }
                        } else {
                            proof {
                                assert(parse_string(b@, pos) == str_cons(
                                    encode_scalar(v),
                                    parse_string(b@, pos + 6),
                                ));
                                lemma_str_cons_join(acc, encode_scalar(v), parse_string(b@, pos + 6));
                            }
                            push_scalar(&mut out, v);
                            j += 6;
                        }
                    },
                }
            } else {
                proof {
                    assert(short_unescape(d) is None);
                    assert(parse_string(b@, pos) is None);
                }
                return None;
            }
        } else if c < 32 {
            proof {
                assert(parse_string(b@, pos) is None);
            }
            return None;
        } else {
            proof {
                assert(parse_string(b@, pos) == str_cons(seq![c], parse_string(b@, pos + 1)));
                lemma_str_cons_join(acc, seq![c], parse_string(b@, pos + 1));
                assert(acc.push(c) =~= acc + seq![c]);
            }
            out.push(c);
            j += 1;
        }
    }
    proof {
        assert(parse_string(b@, j as int) is None);
    }
    None
}

fn expect_token_exec(b: &Vec<u8>, i: usize, c: u8) -> (r: Option<usize>)
    requires
        i <= b@.len(),
    ensures
        (r is Some) == (expect_token(b@, i as int, c) is Some),
        r matches Some(j) ==> (expect_token(b@, i as int, c) == Some(j as int) && j <= b@.len()),
{
    let j = skip_ws_exec(b, i);
    if j < b.len() && b[j] == c {
        Some(j + 1)
    } else {
        None
    }
}

fn parse_token_string_exec(b: &Vec<u8>, i: usize) -> (r: Option<(Vec<u8>, usize)>)
    requires
        i <= b@.len(),
    ensures
        (r is Some) == (parse_token_string(b@, i as int) is Some),
        r matches Some(t) ==> (parse_token_string(b@, i as int) == Some((t.0@, t.1 as int)) && t.1
            <= b@.len()),
{
    let j = skip_ws_exec(b, i);
    if j < b.len() && b[j] == 34 {
        parse_string_exec(b, j + 1)
    } else {
        None
    }
}

/// The executable twin of `ParsedMessage`, carrying a payload as bytes.
enum Parsed {
    ConnEnd,
    SessEnd,
    SessRequest,
    SessSuccess,
    SessValue(Vec<u8>),
}

spec fn parsed_view(p: Parsed) -> ParsedMessage {
    match p {
        Parsed::ConnEnd => ParsedMessage::ConnEnd,
        Parsed::SessEnd => ParsedMessage::SessEnd,
        Parsed::SessRequest => ParsedMessage::SessRequest,
        Parsed::SessSuccess => ParsedMessage::SessSuccess,
        Parsed::SessValue(v) => ParsedMessage::SessValue(v@),
    }
}

fn parse_session_value_exec(b: &Vec<u8>, i: usize) -> (r: Option<(Parsed, usize)>)
    requires
        i <= b@.len(),
    ensures
        (r is Some) == (parse_session_value(b@, i as int) is Some),
        r matches Some(t) ==> (parse_session_value(b@, i as int) == Some(
            (parsed_view(t.0), t.1 as int),
        ) && t.1 <= b@.len()),
{
    let j = skip_ws_exec(b, i);
    if j < b.len() && b[j] == 34 {
        match parse_string_exec(b, j + 1) {
            Some((content, next)) => {
                let le = lit_end_vec();
                let lr = lit_request_vec();
                let ls = lit_success_vec();
                if vec_content_eq(&content, &le) {
                    Some((Parsed::SessEnd, next))
                } else if vec_content_eq(&content, &lr) {
                    Some((Parsed::SessRequest, next))
                } else if vec_content_eq(&content, &ls) {
                    Some((Parsed::SessSuccess, next))
                } else {
                    None
                }
            },
            None => None,
        }
    } else if j < b.len() && b[j] == 123 {
        match parse_token_string_exec(b, j + 1) {
            Some((tag, k)) => {
                let tv = tag_value_vec();
                if vec_content_eq(&tag, &tv) {
                    match expect_token_exec(b, k, 58) {
                        Some(p) => match parse_token_string_exec(b, p) {
                            Some((payload, q)) => match expect_token_exec(b, q, 125) {
                                Some(e) => Some((Parsed::SessValue(payload), e)),
                                None => None,
                            },
                            None => None,
                        },
                        None => None,
                    }
                } else {
                    None
                }
            },
            None => None,
        }
    } else {
        None
    }
}

fn parse_message_value_exec(b: &Vec<u8>, i: usize) -> (r: Option<(Parsed, usize)>)
    requires
        i <= b@.len(),
    ensures
        (r is Some) == (parse_message_value(b@, i as int) is Some),
        r matches Some(t) ==> (parse_message_value(b@, i as int) == Some(
            (parsed_view(t.0), t.1 as int),
        ) && t.1 <= b@.len()),
{
    match expect_token_exec(b, i, 123) {
        Some(j) => match parse_token_string_exec(b, j) {
            Some((tag, k)) => {
                let tc = tag_connection_vec();
                let ts = tag_session_vec();
                if vec_content_eq(&tag, &tc) {
                    match expect_token_exec(b, k, 58) {
                        Some(p) => match parse_token_string_exec(b, p) {
                            Some((variant, q)) => {
                                let le = lit_end_vec();
                                if vec_content_eq(&variant, &le) {
                                    match expect_token_exec(b, q, 125) {
                                        Some(e) => Some((Parsed::ConnEnd, e)),
                                        None => None,
                                    }
                                } else {
                                    None
                                }
                            },
                            None => None,
                        },
                        None => None,
                    }
                } else if vec_content_eq(&tag, &ts) {
                    match expect_token_exec(b, k, 58) {
                        Some(p) => match parse_session_value_exec(b, p) {
                            Some((m, q)) => match expect_token_exec(b, q, 125) {
                                Some(e) => Some((m, e)),
                                None => None,
                            },
                            None => None,
                        },
                        None => None,
                    }
                } else {
                    None
                }
            },
            None => None,
        },
        None => None,
    }
}

fn parse_frame_structure_exec(b: &Vec<u8>) -> (r: Option<Parsed>)
    ensures
        (r is Some) == (parse_frame_structure(b@) is Some),
        r matches Some(p) ==> parse_frame_structure(b@) == Some(parsed_view(p)),
{
    match expect_token_exec(b, 0, 123) {
        Some(i) => match parse_token_string_exec(b, i) {
            Some((key, j)) => {
                let km = key_message_vec();
                if vec_content_eq(&key, &km) {
                    match expect_token_exec(b, j, 58) {
                        Some(k) => match parse_message_value_exec(b, k) {
                            Some((m, q)) => match expect_token_exec(b, q, 125) {
                                Some(e) => {
                                    let f = skip_ws_exec(b, e);
                                    if f == b.len() {
                                        Some(m)
                                    } else {
                                        None
                                    }
                                },
                                None => None,
                            },
                            None => None,
                        },
                        None => None,
                    }
                } else {
                    None
                }
            },
            None => None,
        },
        None => None,
    }
}

/// What `decode_body` promises: a decoded message is the one the body
/// denotes under the JSON grammar; a body that denotes a message always
/// decodes to it; any other body fails, with `Utf8` exactly when the body is
/// not UTF-8, else with `Json`.
pub open spec fn decode_post(b: Seq<u8>, r: Result<Message, request::Error>) -> bool {
    &&& (r matches Ok(m) ==> valid_utf8(b) && spec_parse_body(b) == Some(parsed_of(m)))
    &&& (r matches Err(e) ==> match e {
        request::Error::Utf8 => !valid_utf8(b),
        request::Error::Json => valid_utf8(b) && spec_parse_body(b) is None,
        request::Error::IO => false,
    })
    &&& (valid_utf8(b) && spec_parse_body(b) is Some ==> (r matches Ok(m) && Some(parsed_of(m))
        == spec_parse_body(b)))
}

/// Decodes a frame body into the message it denotes.
pub fn decode_body(bytes: &Vec<u8>) -> (r: Result<Message, request::Error>)
    ensures
        decode_post(bytes@, r),
{
    if !utf8_check(bytes.as_slice()) {
        return Err(request::Error::Utf8);
    }
    match parse_frame_structure_exec(bytes) {
        Some(p) => match p {
            Parsed::ConnEnd => Ok(Message::Connection(Connection::End)),
            Parsed::SessEnd => Ok(Message::Session(Session::End)),
            Parsed::SessRequest => Ok(Message::Session(Session::Request)),
            Parsed::SessSuccess => Ok(Message::Session(Session::Success)),
            Parsed::SessValue(content) => {
                let ghost cbytes = content@;
                match utf8_to_string(content) {
                    Some(s) => {
                        proof {
                            assert(encode_utf8(s@) == cbytes);
                            assert(valid_utf8(cbytes)) by {
                                encode_utf8_valid_utf8(s@);
                            }
                            assert(spec_parse_body(bytes@) == Some(
                                ParsedMessage::SessValue(cbytes),
                            ));
                        }
                        Ok(Message::Session(Session::Value(s)))
                    },
                    None => {
                        proof {
                            assert(!valid_utf8(cbytes));
                            assert(spec_parse_body(bytes@) is None);
                        }
                        Err(request::Error::Json)
                    },
                }
            },
        },
        None => Err(request::Error::Json),
    }
}

/// Round trip: the canonical encoding of any message decodes back to that
/// message. This is stated against `decode_body`'s contract, so it holds of
/// every decoding of every encoding.
pub proof fn lemma_round_trip(m: Message, r: Result<Message, request::Error>)
    requires
        decode_post(spec_encode(m), r),
    ensures
        r matches Ok(d) && message_sim(m, d),
{
    lemma_spec_encode_valid(m);
    lemma_parse_encoding(m);
    if let Ok(d) = r {
        lemma_parsed_identifies(m, d);
    }
}

} // verus!
