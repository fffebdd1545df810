//! The wormhole control-channel forms of the setup-phase messages.
//!
//! Before the transit channel exists, the two sides exchange their transit
//! hints as JSON text over the wormhole: `{"transit":{"hints":…}}`, with the
//! hints blob carried verbatim, and a failure is reported as
//! `{"error":"…"}`.  This module defines those two wire forms over bytes —
//! [`transit_json`] and [`error_json`], with the JSON string escaping spelled
//! out — gives exec encoders and a decoder proved against them, and proves
//! that decoding inverts encoding.

use vstd::prelude::*;
use vstd::utf8::{decode_utf8, encode_utf8, valid_utf8};
use vstd::slice::slice_to_vec;
use crate::msgpack::copy_range;
use crate::peermsg::{DecodeError, MsgV, PeerMessage};
use crate::strutil::string_from_utf8;

verus! {

/// The lowercase hex digit for a value below 16.
pub open spec fn hex_digit(n: u8) -> u8 {
    if n < 10 {
        (0x30 + n) as u8
    } else {
        (0x57 + n) as u8
    }
}

/// Whether a byte is a lowercase-or-uppercase hex digit.
pub open spec fn is_hex(b: u8) -> bool {
    (0x30 <= b <= 0x39) || (0x61 <= b <= 0x66) || (0x41 <= b <= 0x46)
}

/// The value of a hex digit byte.
pub open spec fn hex_val(b: u8) -> u8 {
    if 0x30 <= b <= 0x39 {
        (b - 0x30) as u8
    } else if 0x61 <= b <= 0x66 {
        (b - 0x57) as u8
    } else {
        (b - 0x37) as u8
    }
}

/// How one byte of a UTF-8 string appears inside a JSON string literal:
/// quote and backslash escaped, the common controls short, other controls
/// as `\u00XX`, everything else (continuation bytes included) verbatim.
pub open spec fn json_escape_byte(b: u8) -> Seq<u8> {
    if b == 0x22 {
        seq![0x5cu8, 0x22u8]
    } else if b == 0x5c {
        seq![0x5cu8, 0x5cu8]
    } else if b == 0x08 {
        seq![0x5cu8, 0x62u8]
    } else if b == 0x09 {
        seq![0x5cu8, 0x74u8]
    } else if b == 0x0a {
        seq![0x5cu8, 0x6eu8]
    } else if b == 0x0c {
        seq![0x5cu8, 0x66u8]
    } else if b == 0x0d {
        seq![0x5cu8, 0x72u8]
    } else if b < 0x20 {
        seq![0x5cu8, 0x75u8, 0x30u8, 0x30u8, hex_digit(b / 16), hex_digit((b % 16) as u8)]
    } else {
        seq![b]
    }
}

/// A whole string, escaped byte for byte.
pub open spec fn json_escaped_bytes(s: Seq<u8>) -> Seq<u8>
    decreases s.len(),
{
    if s.len() == 0 {
        Seq::empty()
    } else {
        json_escape_byte(s.first()) + json_escaped_bytes(s.drop_first())
    }
}

/// Unescapes the inside of a JSON string literal; `None` on a bare quote,
/// a bare control byte, or a malformed escape.  Accepts every escape the
/// encoder emits plus the remaining standard short forms.
pub open spec fn parse_escaped(b: Seq<u8>) -> Option<Seq<u8>>
    decreases b.len(),
{
    if b.len() == 0 {
        Some(Seq::empty())
    } else if b.first() == 0x5c {
        if b.len() < 2 {
            None
        } else {
            let e = b[1];
            if e == 0x22 || e == 0x5c || e == 0x2f {
                prepend(e, parse_escaped(b.subrange(2, b.len() as int)))
            } else if e == 0x62 {
                prepend(0x08, parse_escaped(b.subrange(2, b.len() as int)))
            } else if e == 0x74 {
                prepend(0x09, parse_escaped(b.subrange(2, b.len() as int)))
            } else if e == 0x6e {
                prepend(0x0a, parse_escaped(b.subrange(2, b.len() as int)))
            } else if e == 0x66 {
                prepend(0x0c, parse_escaped(b.subrange(2, b.len() as int)))
            } else if e == 0x72 {
                prepend(0x0d, parse_escaped(b.subrange(2, b.len() as int)))
            } else if e == 0x75 {
                if b.len() >= 6 && b[2] == 0x30 && b[3] == 0x30 && is_hex(b[4]) && is_hex(b[5]) {
                    prepend(
                        (hex_val(b[4]) * 16 + hex_val(b[5])) as u8,
                        parse_escaped(b.subrange(6, b.len() as int)),
                    )
                } else {
                    None
                }
            } else {
                None
            }
        }
    } else if b.first() == 0x22 || b.first() < 0x20 {
        None
    } else {
        prepend(b.first(), parse_escaped(b.drop_first()))
    }
}

/// Puts one byte in front of a parse result.
pub open spec fn prepend(x: u8, r: Option<Seq<u8>>) -> Option<Seq<u8>> {
    match r {
        Some(s) => Some(seq![x] + s),
        None => None,
    }
}

/// The opening bytes of the transit form.
pub open spec fn transit_prefix() -> Seq<u8> {
    encode_utf8("{\"transit\":{\"hints\":"@)
}

/// The opening bytes of the error form, quote included.
pub open spec fn error_prefix() -> Seq<u8> {
    encode_utf8("{\"error\":\""@)
}

/// The transit form: the hints blob carried verbatim.
pub open spec fn transit_json(hints: Seq<u8>) -> Seq<u8> {
    transit_prefix() + hints + encode_utf8("}}"@)
}

/// The error form: the text as a JSON string literal.
pub open spec fn error_json(text: Seq<u8>) -> Seq<u8> {
    error_prefix() + json_escaped_bytes(text) + encode_utf8("\"}"@)
}

pub open spec fn starts_with(b: Seq<u8>, p: Seq<u8>) -> bool {
    b.len() >= p.len() && b.subrange(0, p.len() as int) == p
}

pub open spec fn ends_with(b: Seq<u8>, p: Seq<u8>) -> bool {
    b.len() >= p.len() && b.subrange(b.len() - p.len(), b.len() as int) == p
}

/// Parses one setup-phase message: a transit form yields the hints blob
/// verbatim, an error form yields the unescaped text; anything else is
/// malformed.
pub open spec fn parse_setup(b: Seq<u8>) -> Option<MsgV> {
    if starts_with(b, transit_prefix()) && b.len() >= transit_prefix().len() + 2 && ends_with(
        b,
        encode_utf8("}}"@),
    ) {
        let mid = b.subrange(transit_prefix().len() as int, b.len() - 2);
        if valid_utf8(mid) {
            Some(MsgV::Transit { hints: decode_utf8(mid) })
        } else {
            None
        }
    } else if starts_with(b, error_prefix()) && b.len() >= error_prefix().len() + 2 && ends_with(
        b,
        encode_utf8("\"}"@),
    ) {
        let mid = b.subrange(error_prefix().len() as int, b.len() - 2);
        match parse_escaped(mid) {
            Some(raw) => {
                if valid_utf8(raw) {
                    Some(MsgV::Error { text: decode_utf8(raw) })
                } else {
                    None
                }
            },
            None => None,
        }
    } else {
        None
    }
}

/// Unescaping inverts escaping.
pub proof fn lemma_parse_escaped_enc(s: Seq<u8>)
    ensures
        parse_escaped(json_escaped_bytes(s)) == Some(s),
    decreases s.len(),
{
    if s.len() > 0 {
        let x = s.first();
        let e0 = json_escape_byte(x);
        let rest = json_escaped_bytes(s.drop_first());
        let b = json_escaped_bytes(s);
        assert(b == e0 + rest);
        lemma_parse_escaped_enc(s.drop_first());
        if x == 0x22 || x == 0x5c || x == 0x08 || x == 0x09 || x == 0x0a || x == 0x0c || x
            == 0x0d {
            assert(b.subrange(2, b.len() as int) =~= rest);
            assert(seq![x] + s.drop_first() =~= s);
        } else if x < 0x20 {
            assert(b.subrange(6, b.len() as int) =~= rest);
            assert(b[4] == hex_digit(x / 16));
            assert(b[5] == hex_digit((x % 16) as u8));
            assert(is_hex(hex_digit(x / 16)));
            assert(is_hex(hex_digit((x % 16) as u8)));
            assert(hex_val(hex_digit(x / 16)) == x / 16);
            assert(hex_val(hex_digit((x % 16) as u8)) == x % 16);
            assert((hex_val(b[4]) * 16 + hex_val(b[5])) as u8 == x);
            assert(seq![x] + s.drop_first() =~= s);
        } else {
            assert(b.drop_first() =~= rest);
            assert(seq![x] + s.drop_first() =~= s);
        }
    }
}

/// Escaping one more byte appends its escape.
pub proof fn lemma_escaped_push(s: Seq<u8>, x: u8)
    ensures
        json_escaped_bytes(s.push(x)) == json_escaped_bytes(s) + json_escape_byte(x),
    decreases s.len(),
{
    if s.len() == 0 {
        assert(s.push(x).first() == x);
        assert(s.push(x).drop_first() =~= Seq::<u8>::empty());
        assert(json_escaped_bytes(Seq::<u8>::empty()) =~= Seq::<u8>::empty());
        assert(json_escaped_bytes(s.push(x)) =~= json_escape_byte(x) + Seq::<u8>::empty());
        assert(json_escape_byte(x) + Seq::<u8>::empty() =~= json_escape_byte(x));
        assert(json_escaped_bytes(s) + json_escape_byte(x) =~= json_escape_byte(x));
        assert(json_escaped_bytes(s.push(x)) =~= json_escaped_bytes(s) + json_escape_byte(x));
    } else {
        assert(s.push(x).first() == s.first());
        assert(s.push(x).drop_first() =~= s.drop_first().push(x));
        lemma_escaped_push(s.drop_first(), x);
        assert(json_escape_byte(s.first()) + (json_escaped_bytes(s.drop_first())
            + json_escape_byte(x)) =~= (json_escape_byte(s.first()) + json_escaped_bytes(
            s.drop_first(),
        )) + json_escape_byte(x));
        assert(json_escaped_bytes(s.push(x)) =~= json_escaped_bytes(s) + json_escape_byte(x));
    }
}

/// Round trip for the transit form: decoding an encoded hints blob yields
/// it back.
pub proof fn lemma_setup_round_trip_transit(hints: Seq<char>)
    ensures
        parse_setup(transit_json(encode_utf8(hints))) == Some(MsgV::Transit { hints }),
{
    broadcast use vstd::utf8::encode_utf8_valid_utf8, vstd::utf8::encode_utf8_decode_utf8;

    lemma_setup_lit_lens();
    let h = encode_utf8(hints);
    let b = transit_json(h);
    let tp = transit_prefix();
    assert(b.subrange(0, tp.len() as int) =~= tp);
    assert(b.subrange(b.len() - 2, b.len() as int) =~= encode_utf8("}}"@));
    assert(b.subrange(tp.len() as int, b.len() - 2) =~= h);
    assert(decode_utf8(h) == hints);
}

/// Round trip for the error form: decoding an encoded error text yields it
/// back.
pub proof fn lemma_setup_round_trip_error(text: Seq<char>)
    ensures
        parse_setup(error_json(encode_utf8(text))) == Some(MsgV::Error { text }),
{
    broadcast use vstd::utf8::encode_utf8_valid_utf8, vstd::utf8::encode_utf8_decode_utf8;

    lemma_setup_lit_lens();
    let t = encode_utf8(text);
    let esc = json_escaped_bytes(t);
    let b = error_json(t);
    let ep = error_prefix();
    let tp = transit_prefix();
    // not the transit form: the prefixes disagree at their third byte
    assert(!starts_with(b, tp)) by {
        if starts_with(b, tp) {
            assert(b[2] == tp[2]);
            assert(b[2] == ep[2]);
        }
    }
    assert(b.subrange(0, ep.len() as int) =~= ep);
    assert(b.subrange(b.len() - 2, b.len() as int) =~= encode_utf8("\"}"@));
    assert(b.subrange(ep.len() as int, b.len() - 2) =~= esc);
    lemma_parse_escaped_enc(t);
}

/// The setup literals are ASCII, with these lengths and these bytes where
/// the round-trip proofs need them.
pub proof fn lemma_setup_lit_lens()
    ensures
        transit_prefix().len() == 20,
        error_prefix().len() == 10,
        encode_utf8("}}"@).len() == 2,
        encode_utf8("\"}"@).len() == 2,
        transit_prefix()[2] == 0x74u8,
        error_prefix()[2] == 0x65u8,
{
    reveal_strlit("{\"transit\":{\"hints\":");
    reveal_strlit("{\"error\":\"");
    reveal_strlit("}}");
    reveal_strlit("\"}");
    assert(vstd::utf8::is_ascii_chars("{\"transit\":{\"hints\":"@));
    vstd::utf8::is_ascii_chars_encode_utf8("{\"transit\":{\"hints\":"@);
    assert(vstd::utf8::is_ascii_chars("{\"error\":\""@));
    vstd::utf8::is_ascii_chars_encode_utf8("{\"error\":\""@);
    assert(vstd::utf8::is_ascii_chars("}}"@));
    vstd::utf8::is_ascii_chars_encode_utf8("}}"@);
    assert(vstd::utf8::is_ascii_chars("\"}"@));
    vstd::utf8::is_ascii_chars_encode_utf8("\"}"@);
    assert(transit_prefix()[2] == ("{\"transit\":{\"hints\":"@)[2] as u8);
    assert(error_prefix()[2] == ("{\"error\":\""@)[2] as u8);
}


fn hex_digit_exec(n: u8) -> (r: u8)
    requires
        n < 16,
    ensures
        r == hex_digit(n),
{
    if n < 10 {
        0x30 + n
    } else {
        0x57 + n
    }
}

fn hex_val_exec(b: u8) -> (r: u8)
    requires
        is_hex(b),
    ensures
        r == hex_val(b),
{
    if b >= 0x61 {
        b - 0x57
    } else if b >= 0x41 {
        b - 0x37
    } else {
        b - 0x30
    }
}

fn is_hex_exec(b: u8) -> (r: bool)
    ensures
        r == is_hex(b),
{
    (0x30 <= b && b <= 0x39) || (0x61 <= b && b <= 0x66) || (0x41 <= b && b <= 0x46)
}

/// Whether `b` begins with `p`.
fn has_prefix(b: &Vec<u8>, p: &Vec<u8>) -> (r: bool)
    ensures
        r == starts_with(b@, p@),
{
    let blen = b.len();
    if blen < p.len() {
        return false;
    }
    let mut i: usize = 0;
    while i < p.len()
        invariant
            0 <= i <= p@.len(),
            b@.len() == blen,
            p@.len() <= b@.len(),
            forall|k: int| 0 <= k < i ==> b@[k] == p@[k],
        decreases p@.len() - i,
    {
        if b[i] != p[i] {
            proof {
                if b@.subrange(0, p@.len() as int) == p@ {
                    assert(b@.subrange(0, p@.len() as int)[i as int] == p@[i as int]);
                }
            }
            return false;
        }
        i += 1;
    }
    proof {
        assert(b@.subrange(0, p@.len() as int) =~= p@);
    }
    true
}

/// Whether `b` ends with `p`.
fn has_suffix(b: &Vec<u8>, p: &Vec<u8>) -> (r: bool)
    ensures
        r == ends_with(b@, p@),
{
    let blen = b.len();
    if blen < p.len() {
        return false;
    }
    let off = blen - p.len();
    let mut i: usize = 0;
    while i < p.len()
        invariant
            0 <= i <= p@.len(),
            b@.len() == blen,
            p@.len() <= b@.len(),
            off == b@.len() - p@.len(),
            forall|k: int| 0 <= k < i ==> b@[off + k] == p@[k],
        decreases p@.len() - i,
    {
        if b[off + i] != p[i] {
            proof {
                if b@.subrange(b@.len() - p@.len(), b@.len() as int) == p@ {
                    assert(b@.subrange(b@.len() - p@.len(), b@.len() as int)[i as int] == p@[
                        i as int
                    ]);
                }
            }
            return false;
        }
        i += 1;
    }
    proof {
        assert(b@.subrange(b@.len() - p@.len(), b@.len() as int) =~= p@);
    }
    true
}

/// Encodes our transit hints for the control channel.
pub fn transit_setup_json(hints: &str) -> (r: Vec<u8>)
    ensures
        r@ == transit_json(encode_utf8(hints@)),
{
    let mut out = "{\"transit\":{\"hints\":".as_bytes_vec();
    let mut h = hints.as_bytes_vec();
    out.append(&mut h);
    let mut t = "}}".as_bytes_vec();
    out.append(&mut t);
    proof {
        assert(out@ =~= transit_json(encode_utf8(hints@)));
    }
    out
}

/// Encodes an error report for the control channel.
#[verifier::loop_isolation(false)]
pub fn error_setup_json(text: &str) -> (r: Vec<u8>)
    ensures
        r@ == error_json(encode_utf8(text@)),
{
    let mut out = "{\"error\":\"".as_bytes_vec();
    let bytes = text.as_bytes_vec();
    let ghost base = out@;
    let mut i: usize = 0;
    proof {
        assert(json_escaped_bytes(bytes@.subrange(0, 0)) =~= Seq::<u8>::empty());
        assert(out@ =~= base + json_escaped_bytes(bytes@.subrange(0, 0)));
    }
    while i < bytes.len()
        invariant
            0 <= i <= bytes@.len(),
            out@ == base + json_escaped_bytes(bytes@.subrange(0, i as int)),
        decreases bytes@.len() - i,
    {
        let b = bytes[i];
        let ghost prev = out@;
        if b == 0x22 {
            out.push(0x5c);
            out.push(0x22);
        } else if b == 0x5c {
            out.push(0x5c);
            out.push(0x5c);
        } else if b == 0x08 {
            out.push(0x5c);
            out.push(0x62);
        } else if b == 0x09 {
            out.push(0x5c);
            out.push(0x74);
        } else if b == 0x0a {
            out.push(0x5c);
            out.push(0x6e);
        } else if b == 0x0c {
            out.push(0x5c);
            out.push(0x66);
        } else if b == 0x0d {
            out.push(0x5c);
            out.push(0x72);
        } else if b < 0x20 {
            out.push(0x5c);
            out.push(0x75);
            out.push(0x30);
            out.push(0x30);
            out.push(hex_digit_exec(b / 16));
            out.push(hex_digit_exec(b % 16));
        } else {
            out.push(b);
        }
        proof {
            assert(out@ =~= prev + json_escape_byte(b));
            lemma_escaped_push(bytes@.subrange(0, i as int), b);
            assert(bytes@.subrange(0, i + 1) =~= bytes@.subrange(0, i as int).push(b));
            assert(out@ =~= base + json_escaped_bytes(bytes@.subrange(0, i + 1)));
        }
        i += 1;
    }
    let mut t = "\"}".as_bytes_vec();
    out.append(&mut t);
    proof {
        assert(bytes@.subrange(0, bytes@.len() as int) =~= bytes@);
        assert(out@ =~= error_json(encode_utf8(text@)));
    }
    out
}

/// Unescapes the inside of a JSON string literal.
#[verifier::loop_isolation(false)]
#[verifier::rlimit(60)]
fn unescape(mid: &Vec<u8>) -> (r: Option<Vec<u8>>)
    ensures
        match r {
            Some(v) => parse_escaped(mid@) == Some(v@),
            None => parse_escaped(mid@) is None,
        },
{
    let len = mid.len();
    let mut out: Vec<u8> = Vec::new();
    let mut pos: usize = 0;
    proof {
        assert(mid@.subrange(0, mid@.len() as int) =~= mid@);
        if parse_escaped(mid@) is Some {
            assert(Seq::<u8>::empty() + parse_escaped(mid@)->Some_0 =~= parse_escaped(
                mid@,
            )->Some_0);
        }
    }
    while pos < len
        invariant
            0 <= pos <= mid@.len(),
            match parse_escaped(mid@.subrange(pos as int, mid@.len() as int)) {
                Some(rest) => parse_escaped(mid@) == Some(out@ + rest),
                None => parse_escaped(mid@) is None,
            },
        decreases mid@.len() - pos,
    {
        let ghost s = mid@.subrange(pos as int, mid@.len() as int);
        let ghost out0 = out@;
        let c = mid[pos];
        proof {
            assert(s.first() == c);
        }
        if c == 0x5c {
            if pos + 1 >= len {
                return None;
            }
            let e = mid[pos + 1];
            proof {
                assert(s[1] == e);
                assert(s.subrange(2, s.len() as int) =~= mid@.subrange(
                    pos + 2,
                    mid@.len() as int,
                ));
            }
            if e == 0x22 || e == 0x5c || e == 0x2f {
                out.push(e);
                pos = pos + 2;
            } else if e == 0x62 {
                out.push(0x08);
                pos = pos + 2;
            } else if e == 0x74 {
                out.push(0x09);
                pos = pos + 2;
            } else if e == 0x6e {
                out.push(0x0a);
                pos = pos + 2;
            } else if e == 0x66 {
                out.push(0x0c);
                pos = pos + 2;
            } else if e == 0x72 {
                out.push(0x0d);
                pos = pos + 2;
            } else if e == 0x75 {
                if !(len - pos >= 6 && mid[pos + 2] == 0x30 && mid[pos + 3] == 0x30
                    && is_hex_exec(mid[pos + 4]) && is_hex_exec(mid[pos + 5])) {
                    proof {
                        assert(len - pos >= 6 ==> (s[2] == mid@[pos + 2] && s[3] == mid@[pos + 3]
                            && s[4] == mid@[pos + 4] && s[5] == mid@[pos + 5]));
                    }
                    return None;
                }
                proof {
                    assert(s[2] == mid@[pos + 2] && s[3] == mid@[pos + 3] && s[4] == mid@[pos + 4]
                        && s[5] == mid@[pos + 5]);
                    assert(s.subrange(6, s.len() as int) =~= mid@.subrange(
                        pos + 6,
                        mid@.len() as int,
                    ));
                }
                let v = hex_val_exec(mid[pos + 4]) * 16 + hex_val_exec(mid[pos + 5]);
                out.push(v);
                pos = pos + 6;
            } else {
                return None;
            }
        } else if c == 0x22 || c < 0x20 {
            return None;
        } else {
            proof {
                assert(s.drop_first() =~= mid@.subrange(pos + 1, mid@.len() as int));
            }
            out.push(c);
            pos = pos + 1;
        }
        proof {
            let s2 = mid@.subrange(pos as int, mid@.len() as int);
            if parse_escaped(s2) is Some {
                let rest2 = parse_escaped(s2)->Some_0;
                assert(out@ == out0.push(out@.last()));
                assert(out0 + (seq![out@.last()] + rest2) =~= out@ + rest2);
            }
        }
    }
    proof {
        assert(mid@.subrange(pos as int, mid@.len() as int) =~= Seq::<u8>::empty());
        assert(out@ + Seq::<u8>::empty() =~= out@);
    }
    Some(out)
}

/// Decodes one setup-phase control message: the peer's transit hints, or
/// its error report.
pub fn de_setup_json(data: &[u8]) -> (r: Result<PeerMessage, DecodeError>)
    ensures
        match r {
            Ok(m) => parse_setup(data@) == Some(m@),
            Err(_) => parse_setup(data@) is None,
        },
{
    let b = slice_to_vec(data);
    let blen = b.len();
    let tp = "{\"transit\":{\"hints\":".as_bytes_vec();
    let tsuf = "}}".as_bytes_vec();
    if has_prefix(&b, &tp) && blen >= 2 && blen - 2 >= tp.len() && has_suffix(&b, &tsuf) {
        let mid = copy_range(&b, tp.len(), blen - 2 - tp.len());
        match string_from_utf8(mid) {
            Some(s) => Ok(PeerMessage::Transit { hints: s }),
            None => Err(DecodeError),
        }
    } else {
        let ep = "{\"error\":\"".as_bytes_vec();
        let esuf = "\"}".as_bytes_vec();
        if has_prefix(&b, &ep) && blen >= 2 && blen - 2 >= ep.len() && has_suffix(&b, &esuf) {
            let mid = copy_range(&b, ep.len(), blen - 2 - ep.len());
            match unescape(&mid) {
                None => Err(DecodeError),
                Some(raw) => match string_from_utf8(raw) {
                    Some(s) => Ok(PeerMessage::Error(s)),
                    None => Err(DecodeError),
                },
            }
        } else {
            Err(DecodeError)
        }
    }
}

} // verus!
