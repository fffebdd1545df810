//! The peer message codec for the forwarding protocol.
//!
//! Messages are tagged unions on the wire: a MessagePack map from the
//! kebab-case variant name to its fields (themselves a map), except that a
//! unit variant may also stand alone as a plain string.  Decoding is open:
//! an unrecognized tag yields [`PeerMessage::Unknown`] rather than an error,
//! so newer peers can add variants.  Any malformed input is a decode error.
//!
//! The wire form is defined by the spec functions [`msg_enc`] (encoding) and
//! [`parse_msg`] (decoding); the exec codec is proved against them, and
//! [`lemma_msg_round_trip`] shows that decoding inverts encoding.

use vstd::prelude::*;
use vstd::utf8::{encode_utf8, is_ascii_chars, is_ascii_chars_encode_utf8};
use vstd::slice::slice_to_vec;
use crate::msgpack::{
    arr_hdr, bin_enc, map_hdr, parse_arr_hdr, parse_bin, parse_map_hdr, parse_str, parse_uint,
    lemma_parse_arr_hdr_enc, lemma_parse_bin_enc, lemma_parse_map_hdr_enc, lemma_parse_str_enc,
    lemma_parse_uint_enc, read_arr_hdr, read_bin, read_map_hdr, read_str, read_uint, str_enc,
    uint_enc, write_arr_hdr, write_bin, write_map_hdr, write_str, write_uint,
};

verus! {

/// A message exchanged between the two forwarding peers.
///
/// `Transit` carries the transit hints blob verbatim as its JSON text; the
/// hints are produced and consumed by the transit layer, never read here.
#[derive(Debug, PartialEq)]
pub enum PeerMessage {
    /// Destinations offered for forwarding; forwarder to forwardee, once.
    Offer { addresses: Vec<String> },
    /// Open a new forwarded connection; forwardee to forwarder only.
    Connect { target: String, connection_id: u64 },
    /// End one forwarded connection; either direction.
    Disconnect { connection_id: u64 },
    /// Bytes for one forwarded connection; either direction.
    Forward { connection_id: u64, payload: Vec<u8> },
    /// Close the whole session; terminal.
    Close,
    /// The other side reports an error; terminal.
    Error(String),
    /// The transit hints exchange, carried verbatim.
    Transit { hints: String },
    /// Any unrecognized tag; treated as a protocol error by the session.
    Unknown,
}

/// The mathematical image of a [`PeerMessage`].
#[verifier::ext_equal]
pub enum MsgV {
    Offer { addresses: Seq<Seq<char>> },
    Connect { target: Seq<char>, connection_id: u64 },
    Disconnect { connection_id: u64 },
    Forward { connection_id: u64, payload: Seq<u8> },
    Close,
    Error { text: Seq<char> },
    Transit { hints: Seq<char> },
    Unknown,
}

impl View for PeerMessage {
    type V = MsgV;

    open spec fn view(&self) -> MsgV {
        match self {
            PeerMessage::Offer { addresses } => MsgV::Offer {
                addresses: addresses@.map_values(|s: String| s@),
            },
            PeerMessage::Connect { target, connection_id } => MsgV::Connect {
                target: target@,
                connection_id: *connection_id,
            },
            PeerMessage::Disconnect { connection_id } => MsgV::Disconnect {
                connection_id: *connection_id,
            },
            PeerMessage::Forward { connection_id, payload } => MsgV::Forward {
                connection_id: *connection_id,
                payload: payload@,
            },
            PeerMessage::Close => MsgV::Close,
            PeerMessage::Error(text) => MsgV::Error { text: text@ },
            PeerMessage::Transit { hints } => MsgV::Transit { hints: hints@ },
            PeerMessage::Unknown => MsgV::Unknown,
        }
    }
}

/// Every string and payload fits the 32-bit length fields of the wire form.
pub open spec fn wf_msg(m: MsgV) -> bool {
    match m {
        MsgV::Offer { addresses } => addresses.len() < 0x1_0000_0000 && forall|i: int|
            0 <= i < addresses.len() ==> encode_utf8(#[trigger] addresses[i]).len()
                < 0x1_0000_0000,
        MsgV::Connect { target, .. } => encode_utf8(target).len() < 0x1_0000_0000,
        MsgV::Disconnect { .. } => true,
        MsgV::Forward { payload, .. } => payload.len() < 0x1_0000_0000,
        MsgV::Close => true,
        MsgV::Error { text } => encode_utf8(text).len() < 0x1_0000_0000,
        MsgV::Transit { hints } => encode_utf8(hints).len() < 0x1_0000_0000,
        MsgV::Unknown => true,
    }
}

/// The encodings of a list of strings, one after the other.
pub open spec fn str_list_enc(a: Seq<Seq<char>>) -> Seq<u8>
    decreases a.len(),
{
    if a.len() == 0 {
        Seq::empty()
    } else {
        str_enc(a.first()) + str_list_enc(a.drop_first())
    }
}

/// The wire encoding of a message.
pub open spec fn msg_enc(m: MsgV) -> Seq<u8> {
    match m {
        MsgV::Offer { addresses } => map_hdr(1) + str_enc("offer"@) + map_hdr(1) + str_enc(
            "addresses"@,
        ) + arr_hdr(addresses.len()) + str_list_enc(addresses),
        MsgV::Connect { target, connection_id } => map_hdr(1) + str_enc("connect"@) + map_hdr(2)
            + str_enc("target"@) + str_enc(target) + str_enc("connection-id"@) + uint_enc(
            connection_id,
        ),
        MsgV::Disconnect { connection_id } => map_hdr(1) + str_enc("disconnect"@) + map_hdr(1)
            + str_enc("connection-id"@) + uint_enc(connection_id),
        MsgV::Forward { connection_id, payload } => map_hdr(1) + str_enc("forward"@) + map_hdr(2)
            + str_enc("connection-id"@) + uint_enc(connection_id) + str_enc("payload"@) + bin_enc(
            payload,
        ),
        MsgV::Close => map_hdr(1) + str_enc("close"@) + map_hdr(0),
        MsgV::Error { text } => map_hdr(1) + str_enc("error"@) + str_enc(text),
        MsgV::Transit { hints } => map_hdr(1) + str_enc("transit"@) + map_hdr(1) + str_enc(
            "hints"@,
        ) + str_enc(hints),
        MsgV::Unknown => str_enc("unknown"@),
    }
}

/// Whether `tag` names a variant that carries fields, so that a bare string
/// of it cannot stand for a message.
pub open spec fn known_field_tag(tag: Seq<char>) -> bool {
    ||| tag == "offer"@
    ||| tag == "connect"@
    ||| tag == "disconnect"@
    ||| tag == "forward"@
    ||| tag == "error"@
    ||| tag == "transit"@
}

/// Parses `n` strings one after the other.
pub open spec fn parse_str_list(b: Seq<u8>, i: int, n: nat) -> Option<(Seq<Seq<char>>, int)>
    decreases n,
{
    if n == 0 {
        Some((Seq::empty(), i))
    } else {
        match parse_str(b, i) {
            Some((s, j)) => match parse_str_list(b, j, (n - 1) as nat) {
                Some((rest, j2)) => Some((seq![s] + rest, j2)),
                None => None,
            },
            None => None,
        }
    }
}

/// Parses the fields of the variant named `tag`, starting at `i`; the
/// message must end exactly at the end of the buffer.  An unrecognized tag
/// yields `Unknown` whatever follows it.
pub open spec fn parse_body(b: Seq<u8>, i: int, tag: Seq<char>) -> Option<MsgV> {
    if tag == "offer"@ {
        match parse_map_hdr(b, i) {
            Some((cnt, j)) => {
                if cnt == 1 {
                    match parse_str(b, j) {
                        Some((key, j2)) => {
                            if key == "addresses"@ {
                                match parse_arr_hdr(b, j2) {
                                    Some((n, j3)) => match parse_str_list(b, j3, n) {
                                        Some((addresses, j4)) => {
                                            if j4 == b.len() {
                                                Some(MsgV::Offer { addresses })
                                            } else {
                                                None
                                            }
                                        },
                                        None => None,
                                    },
                                    None => None,
                                }
                            } else {
                                None
                            }
                        },
                        None => None,
                    }
                } else {
                    None
                }
            },
            None => None,
        }
    } else if tag == "connect"@ {
        match parse_map_hdr(b, i) {
            Some((cnt, j)) => {
                if cnt == 2 {
                    match parse_str(b, j) {
                        Some((k1, j2)) => {
                            if k1 == "target"@ {
                                match parse_str(b, j2) {
                                    Some((target, j3)) => match parse_str(b, j3) {
                                        Some((k2, j4)) => {
                                            if k2 == "connection-id"@ {
                                                match parse_uint(b, j4) {
                                                    Some((id, j5)) => {
                                                        if j5 == b.len() {
                                                            Some(
                                                                MsgV::Connect {
                                                                    target,
                                                                    connection_id: id,
                                                                },
                                                            )
                                                        } else {
                                                            None
                                                        }
                                                    },
                                                    None => None,
                                                }
                                            } else {
                                                None
                                            }
                                        },
                                        None => None,
                                    },
                                    None => None,
                                }
                            } else {
                                None
                            }
                        },
                        None => None,
                    }
                } else {
                    None
                }
            },
            None => None,
        }
    } else if tag == "disconnect"@ {
        match parse_map_hdr(b, i) {
            Some((cnt, j)) => {
                if cnt == 1 {
                    match parse_str(b, j) {
                        Some((key, j2)) => {
                            if key == "connection-id"@ {
                                match parse_uint(b, j2) {
                                    Some((id, j3)) => {
                                        if j3 == b.len() {
                                            Some(MsgV::Disconnect { connection_id: id })
                                        } else {
                                            None
                                        }
                                    },
                                    None => None,
                                }
                            } else {
                                None
                            }
                        },
                        None => None,
                    }
                } else {
                    None
                }
            },
            None => None,
        }
    } else if tag == "forward"@ {
        match parse_map_hdr(b, i) {
            Some((cnt, j)) => {
                if cnt == 2 {
                    match parse_str(b, j) {
                        Some((k1, j2)) => {
                            if k1 == "connection-id"@ {
                                match parse_uint(b, j2) {
                                    Some((id, j3)) => match parse_str(b, j3) {
                                        Some((k2, j4)) => {
                                            if k2 == "payload"@ {
                                                match parse_bin(b, j4) {
                                                    Some((payload, j5)) => {
                                                        if j5 == b.len() {
                                                            Some(
                                                                MsgV::Forward {
                                                                    connection_id: id,
                                                                    payload,
                                                                },
                                                            )
                                                        } else {
                                                            None
                                                        }
                                                    },
                                                    None => None,
                                                }
                                            } else {
                                                None
                                            }
                                        },
                                        None => None,
                                    },
                                    None => None,
                                }
                            } else {
                                None
                            }
                        },
                        None => None,
                    }
                } else {
                    None
                }
            },
            None => None,
        }
    } else if tag == "close"@ {
        match parse_map_hdr(b, i) {
            Some((cnt, j)) => {
                if cnt == 0 && j == b.len() {
                    Some(MsgV::Close)
                } else {
                    None
                }
            },
            None => None,
        }
    } else if tag == "error"@ {
        match parse_str(b, i) {
            Some((text, j)) => {
                if j == b.len() {
                    Some(MsgV::Error { text })
                } else {
                    None
                }
            },
            None => None,
        }
    } else if tag == "transit"@ {
        match parse_map_hdr(b, i) {
            Some((cnt, j)) => {
                if cnt == 1 {
                    match parse_str(b, j) {
                        Some((key, j2)) => {
                            if key == "hints"@ {
                                match parse_str(b, j2) {
                                    Some((hints, j3)) => {
                                        if j3 == b.len() {
                                            Some(MsgV::Transit { hints })
                                        } else {
                                            None
                                        }
                                    },
                                    None => None,
                                }
                            } else {
                                None
                            }
                        },
                        None => None,
                    }
                } else {
                    None
                }
            },
            None => None,
        }
    } else {
        Some(MsgV::Unknown)
    }
}

/// Parses one whole message: either a bare tag string (a unit variant or an
/// unknown one), or a one-entry map from the tag to the fields.
pub open spec fn parse_msg(b: Seq<u8>) -> Option<MsgV> {
    match parse_str(b, 0) {
        Some((tag, j)) => {
            if j == b.len() {
                if tag == "close"@ {
                    Some(MsgV::Close)
                } else if known_field_tag(tag) {
                    None
                } else {
                    Some(MsgV::Unknown)
                }
            } else {
                None
            }
        },
        None => match parse_map_hdr(b, 0) {
            Some((cnt, j)) => {
                if cnt == 1 {
                    match parse_str(b, j) {
                        Some((tag, j2)) => parse_body(b, j2, tag),
                        None => None,
                    }
                } else {
                    None
                }
            },
            None => None,
        },
    }
}

/// The tag and key literals are ASCII, so their encodings are byte-for-byte
/// and of these lengths.
pub proof fn lemma_tag_lens()
    ensures
        encode_utf8("offer"@).len() == 5,
        encode_utf8("addresses"@).len() == 9,
        encode_utf8("connect"@).len() == 7,
        encode_utf8("target"@).len() == 6,
        encode_utf8("connection-id"@).len() == 13,
        encode_utf8("disconnect"@).len() == 10,
        encode_utf8("forward"@).len() == 7,
        encode_utf8("payload"@).len() == 7,
        encode_utf8("close"@).len() == 5,
        encode_utf8("error"@).len() == 5,
        encode_utf8("transit"@).len() == 7,
        encode_utf8("hints"@).len() == 5,
        encode_utf8("unknown"@).len() == 7,
{
    reveal_strlit("offer");
    reveal_strlit("addresses");
    reveal_strlit("connect");
    reveal_strlit("target");
    reveal_strlit("connection-id");
    reveal_strlit("disconnect");
    reveal_strlit("forward");
    reveal_strlit("payload");
    reveal_strlit("close");
    reveal_strlit("error");
    reveal_strlit("transit");
    reveal_strlit("hints");
    reveal_strlit("unknown");
    assert(is_ascii_chars("offer"@));
    is_ascii_chars_encode_utf8("offer"@);
    assert(is_ascii_chars("addresses"@));
    is_ascii_chars_encode_utf8("addresses"@);
    assert(is_ascii_chars("connect"@));
    is_ascii_chars_encode_utf8("connect"@);
    assert(is_ascii_chars("target"@));
    is_ascii_chars_encode_utf8("target"@);
    assert(is_ascii_chars("connection-id"@));
    is_ascii_chars_encode_utf8("connection-id"@);
    assert(is_ascii_chars("disconnect"@));
    is_ascii_chars_encode_utf8("disconnect"@);
    assert(is_ascii_chars("forward"@));
    is_ascii_chars_encode_utf8("forward"@);
    assert(is_ascii_chars("payload"@));
    is_ascii_chars_encode_utf8("payload"@);
    assert(is_ascii_chars("close"@));
    is_ascii_chars_encode_utf8("close"@);
    assert(is_ascii_chars("error"@));
    is_ascii_chars_encode_utf8("error"@);
    assert(is_ascii_chars("transit"@));
    is_ascii_chars_encode_utf8("transit"@);
    assert(is_ascii_chars("hints"@));
    is_ascii_chars_encode_utf8("hints"@);
    assert(is_ascii_chars("unknown"@));
    is_ascii_chars_encode_utf8("unknown"@);
}

/// Appending one string to a list appends its encoding.
pub proof fn lemma_str_list_enc_push(a: Seq<Seq<char>>, x: Seq<char>)
    ensures
        str_list_enc(a.push(x)) == str_list_enc(a) + str_enc(x),
    decreases a.len(),
{
    if a.len() == 0 {
        assert(a.push(x).first() == x);
        assert(a.push(x).drop_first() =~= Seq::<Seq<char>>::empty());
        assert(str_list_enc(Seq::<Seq<char>>::empty()) =~= Seq::<u8>::empty());
        assert(str_list_enc(a.push(x)) =~= str_enc(x) + Seq::<u8>::empty());
        assert(str_enc(x) + Seq::<u8>::empty() =~= str_enc(x));
        assert(str_list_enc(a) + str_enc(x) =~= str_enc(x));
        assert(str_list_enc(a.push(x)) =~= str_list_enc(a) + str_enc(x));
    } else {
        assert(a.push(x).first() == a.first());
        assert(a.push(x).drop_first() =~= a.drop_first().push(x));
        lemma_str_list_enc_push(a.drop_first(), x);
        assert(str_enc(a.first()) + (str_list_enc(a.drop_first()) + str_enc(x)) =~= (str_enc(
            a.first(),
        ) + str_list_enc(a.drop_first())) + str_enc(x));
        assert(str_list_enc(a.push(x)) =~= str_list_enc(a) + str_enc(x));
    }
}

/// A decode failure: the input was not a well-formed message.
#[derive(Clone, Copy, Debug, PartialEq, Eq, Structural)]
pub struct DecodeError;

impl PeerMessage {
    /// Encodes this message for the transit channel.
    pub fn ser_msgpack(&self) -> (r: Vec<u8>)
        requires
            wf_msg(self@),
        ensures
            r@ == msg_enc(self@),
    {
        proof {
            lemma_tag_lens();
        }
        let mut out: Vec<u8> = Vec::new();
        match self {
            PeerMessage::Offer { addresses } => {
                write_map_hdr(&mut out, 1);
                write_str(&mut out, "offer");
                write_map_hdr(&mut out, 1);
                write_str(&mut out, "addresses");
                write_arr_hdr(&mut out, addresses.len());
                let ghost base = out@;
                let ghost avs = addresses@.map_values(|s: String| s@);
                let mut i: usize = 0;
                proof {
                    assert(avs.subrange(0, 0) =~= Seq::<Seq<char>>::empty());
                }
                while i < addresses.len()
                    invariant
                        wf_msg(self@),
                        self@ == (MsgV::Offer { addresses: avs }),
                        avs == addresses@.map_values(|s: String| s@),
                        0 <= i <= addresses@.len(),
                        out@ == base + str_list_enc(avs.subrange(0, i as int)),
                    decreases addresses@.len() - i,
                {
                    proof {
                        assert(encode_utf8(avs[i as int]).len() < 0x1_0000_0000);
                        assert(addresses@[i as int]@ == avs[i as int]);
                    }
                    write_str(&mut out, addresses[i].as_str());
                    proof {
                        lemma_str_list_enc_push(avs.subrange(0, i as int), avs[i as int]);
                        assert(avs.subrange(0, i + 1) =~= avs.subrange(0, i as int).push(
                            avs[i as int],
                        ));
                        assert(out@ =~= base + str_list_enc(avs.subrange(0, i + 1)));
                    }
                    i += 1;
                }
                proof {
                    assert(avs.subrange(0, avs.len() as int) =~= avs);
                    assert(out@ =~= msg_enc(self@));
                }
            },
            PeerMessage::Connect { target, connection_id } => {
                write_map_hdr(&mut out, 1);
                write_str(&mut out, "connect");
                write_map_hdr(&mut out, 2);
                write_str(&mut out, "target");
                write_str(&mut out, target.as_str());
                write_str(&mut out, "connection-id");
                write_uint(&mut out, *connection_id);
                proof {
                    assert(out@ =~= msg_enc(self@));
                }
            },
            PeerMessage::Disconnect { connection_id } => {
                write_map_hdr(&mut out, 1);
                write_str(&mut out, "disconnect");
                write_map_hdr(&mut out, 1);
                write_str(&mut out, "connection-id");
                write_uint(&mut out, *connection_id);
                proof {
                    assert(out@ =~= msg_enc(self@));
                }
            },
            PeerMessage::Forward { connection_id, payload } => {
                write_map_hdr(&mut out, 1);
                write_str(&mut out, "forward");
                write_map_hdr(&mut out, 2);
                write_str(&mut out, "connection-id");
                write_uint(&mut out, *connection_id);
                write_str(&mut out, "payload");
                write_bin(&mut out, payload);
                proof {
                    assert(out@ =~= msg_enc(self@));
                }
            },
            PeerMessage::Close => {
                write_map_hdr(&mut out, 1);
                write_str(&mut out, "close");
                write_map_hdr(&mut out, 0);
                proof {
                    assert(out@ =~= msg_enc(self@));
                }
            },
            PeerMessage::Error(text) => {
                write_map_hdr(&mut out, 1);
                write_str(&mut out, "error");
                write_str(&mut out, text.as_str());
                proof {
                    assert(out@ =~= msg_enc(self@));
                }
            },
            PeerMessage::Transit { hints } => {
                write_map_hdr(&mut out, 1);
                write_str(&mut out, "transit");
                write_map_hdr(&mut out, 1);
                write_str(&mut out, "hints");
                write_str(&mut out, hints.as_str());
                proof {
                    assert(out@ =~= msg_enc(self@));
                }
            },
            PeerMessage::Unknown => {
                write_str(&mut out, "unknown");
                proof {
                    assert(out@ =~= msg_enc(self@));
                }
            },
        }
        out
    }
}

/// String equality against a literal.
fn streq(a: &String, lit: &str) -> (r: bool)
    ensures
        r == (a@ == lit@),
{
    let l = String::from_str(lit);
    a.eq(&l)
}

/// Decodes the fields of the variant named `tag`.
#[verifier::loop_isolation(false)]
fn de_body(b: &Vec<u8>, i: usize, tag: &String) -> (r: Result<PeerMessage, DecodeError>)
    ensures
        match r {
            Ok(m) => parse_body(b@, i as int, tag@) == Some(m@),
            Err(_) => parse_body(b@, i as int, tag@) is None,
        },
{
    let blen = b.len();
    if streq(tag, "offer") {
        match read_map_hdr(b, i) {
            None => Err(DecodeError),
            Some((cnt, j)) => {
                if cnt != 1 {
                    return Err(DecodeError);
                }
                match read_str(b, j) {
                    None => Err(DecodeError),
                    Some((key, j2)) => {
                        if !streq(&key, "addresses") {
                            return Err(DecodeError);
                        }
                        match read_arr_hdr(b, j2) {
                            None => Err(DecodeError),
                            Some((n, j3)) => {
                                let mut addrs: Vec<String> = Vec::new();
                                let mut k: u64 = 0;
                                let mut pos: usize = j3;
                                proof {
                                    assert(addrs@.map_values(|s: String| s@)
                                        =~= Seq::<Seq<char>>::empty());
                                    assert(match parse_str_list(b@, pos as int, n as nat) {
                                        Some(p) => parse_str_list(b@, j3 as int, n as nat)
                                            == Some((addrs@.map_values(|s: String| s@) + p.0, p.1)),
                                        None => parse_str_list(b@, j3 as int, n as nat) is None,
                                    }) by {
                                        if parse_str_list(b@, pos as int, n as nat) is Some {
                                            let p = parse_str_list(b@, pos as int, n as nat)->Some_0;
                                            assert(Seq::<Seq<char>>::empty() + p.0 =~= p.0);
                                        }
                                    }
                                }
                                while k < n
                                    invariant
                                        k <= n,
                                        addrs@.len() == k,
                                        match parse_str_list(b@, pos as int, (n - k) as nat) {
                                            Some(p) => parse_str_list(b@, j3 as int, n as nat)
                                                == Some((addrs@.map_values(|s: String| s@) + p.0, p.1)),
                                            None => parse_str_list(b@, j3 as int, n as nat) is None,
                                        },
                                    decreases n - k,
                                {
                                    match read_str(b, pos) {
                                        None => {
                                            proof {
                                                assert((n - k) as nat > 0);
                                                assert(parse_str_list(
                                                    b@,
                                                    pos as int,
                                                    (n - k) as nat,
                                                ) is None);
                                            }
                                            return Err(DecodeError);
                                        },
                                        Some((s, p2)) => {
                                            proof {
                                                let ghost a0 = addrs@.map_values(|s: String| s@);
                                                let rest0 = parse_str_list(
                                                    b@,
                                                    p2 as int,
                                                    (n - k - 1) as nat,
                                                );
                                                if rest0 is Some {
                                                    let p = rest0->Some_0;
                                                    assert(parse_str_list(b@, pos as int, (n - k) as nat)
                                                        == Some((seq![s@] + p.0, p.1)));
                                                    assert(a0 + (seq![s@] + p.0)
                                                        =~= a0.push(s@) + p.0);
                                                    assert(addrs@.push(s).map_values(|s: String| s@)
                                                        =~= a0.push(s@));
                                                } else {
                                                    assert(parse_str_list(b@, pos as int, (n - k) as nat)
                                                        is None);
                                                }
                                            }
                                            addrs.push(s);
                                            pos = p2;
                                            k = k + 1;
                                        },
                                    }
                                }
                                proof {
                                    assert(parse_str_list(b@, pos as int, 0) == Some(
                                        (Seq::<Seq<char>>::empty(), pos as int),
                                    ));
                                    assert(addrs@.map_values(|s: String| s@)
                                        + Seq::<Seq<char>>::empty()
                                        =~= addrs@.map_values(|s: String| s@));
                                }
                                if pos == blen {
                                    let m = PeerMessage::Offer { addresses: addrs };
                                    proof {
                                        assert(parse_body(b@, i as int, tag@) == Some(m@));
                                    }
                                    Ok(m)
                                } else {
                                    Err(DecodeError)
                                }
                            },
                        }
                    },
                }
            },
        }
    } else if streq(tag, "connect") {
        match read_map_hdr(b, i) {
            None => Err(DecodeError),
            Some((cnt, j)) => {
                if cnt != 2 {
                    return Err(DecodeError);
                }
                match read_str(b, j) {
                    None => Err(DecodeError),
                    Some((k1, j2)) => {
                        if !streq(&k1, "target") {
                            return Err(DecodeError);
                        }
                        match read_str(b, j2) {
                            None => Err(DecodeError),
                            Some((target, j3)) => match read_str(b, j3) {
                                None => Err(DecodeError),
                                Some((k2, j4)) => {
                                    if !streq(&k2, "connection-id") {
                                        return Err(DecodeError);
                                    }
                                    match read_uint(b, j4) {
                                        None => Err(DecodeError),
                                        Some((id, j5)) => {
                                            if j5 == blen {
                                                Ok(PeerMessage::Connect {
                                                    target,
                                                    connection_id: id,
                                                })
                                            } else {
                                                Err(DecodeError)
                                            }
                                        },
                                    }
                                },
                            },
                        }
                    },
                }
            },
        }
    } else if streq(tag, "disconnect") {
        match read_map_hdr(b, i) {
            None => Err(DecodeError),
            Some((cnt, j)) => {
                if cnt != 1 {
                    return Err(DecodeError);
                }
                match read_str(b, j) {
                    None => Err(DecodeError),
                    Some((key, j2)) => {
                        if !streq(&key, "connection-id") {
                            return Err(DecodeError);
                        }
                        match read_uint(b, j2) {
                            None => Err(DecodeError),
                            Some((id, j3)) => {
                                if j3 == blen {
                                    Ok(PeerMessage::Disconnect { connection_id: id })
                                } else {
                                    Err(DecodeError)
                                }
                            },
                        }
                    },
                }
            },
        }
    } else if streq(tag, "forward") {
        match read_map_hdr(b, i) {
            None => Err(DecodeError),
            Some((cnt, j)) => {
                if cnt != 2 {
                    return Err(DecodeError);
                }
                match read_str(b, j) {
                    None => Err(DecodeError),
                    Some((k1, j2)) => {
                        if !streq(&k1, "connection-id") {
                            return Err(DecodeError);
                        }
                        match read_uint(b, j2) {
                            None => Err(DecodeError),
                            Some((id, j3)) => match read_str(b, j3) {
                                None => Err(DecodeError),
                                Some((k2, j4)) => {
                                    if !streq(&k2, "payload") {
                                        return Err(DecodeError);
                                    }
                                    match read_bin(b, j4) {
                                        None => Err(DecodeError),
                                        Some((payload, j5)) => {
                                            if j5 == blen {
                                                Ok(PeerMessage::Forward {
                                                    connection_id: id,
                                                    payload,
                                                })
                                            } else {
                                                Err(DecodeError)
                                            }
                                        },
                                    }
                                },
                            },
                        }
                    },
                }
            },
        }
    } else if streq(tag, "close") {
        match read_map_hdr(b, i) {
            None => Err(DecodeError),
            Some((cnt, j)) => {
                if cnt == 0 && j == blen {
                    Ok(PeerMessage::Close)
                } else {
                    Err(DecodeError)
                }
            },
        }
    } else if streq(tag, "error") {
        match read_str(b, i) {
            None => Err(DecodeError),
            Some((text, j)) => {
                if j == blen {
                    Ok(PeerMessage::Error(text))
                } else {
                    Err(DecodeError)
                }
            },
        }
    } else if streq(tag, "transit") {
        match read_map_hdr(b, i) {
            None => Err(DecodeError),
            Some((cnt, j)) => {
                if cnt != 1 {
                    return Err(DecodeError);
                }
                match read_str(b, j) {
                    None => Err(DecodeError),
                    Some((key, j2)) => {
                        if !streq(&key, "hints") {
                            return Err(DecodeError);
                        }
                        match read_str(b, j2) {
                            None => Err(DecodeError),
                            Some((hints, j3)) => {
                                if j3 == blen {
                                    Ok(PeerMessage::Transit { hints })
                                } else {
                                    Err(DecodeError)
                                }
                            },
                        }
                    },
                }
            },
        }
    } else {
        Ok(PeerMessage::Unknown)
    }
}

impl PeerMessage {
    /// Decodes one message from the transit channel.
    pub fn de_msgpack(data: &[u8]) -> (r: Result<PeerMessage, DecodeError>)
        ensures
            match r {
                Ok(m) => parse_msg(data@) == Some(m@),
                Err(_) => parse_msg(data@) is None,
            },
    {
        let b: Vec<u8> = slice_to_vec(data);
        let blen = b.len();
        match read_str(&b, 0) {
            Some((tag, j)) => {
                if j == blen {
                    if streq(&tag, "close") {
                        Ok(PeerMessage::Close)
                    } else if streq(&tag, "offer") || streq(&tag, "connect") || streq(
                        &tag,
                        "disconnect",
                    ) || streq(&tag, "forward") || streq(&tag, "error") || streq(&tag, "transit") {
                        Err(DecodeError)
                    } else {
                        Ok(PeerMessage::Unknown)
                    }
                } else {
                    Err(DecodeError)
                }
            },
            None => {
                match read_map_hdr(&b, 0) {
                    Some((cnt, j)) => {
                        if cnt != 1 {
                            return Err(DecodeError);
                        }
                        match read_str(&b, j) {
                            Some((tag, j2)) => de_body(&b, j2, &tag),
                            None => Err(DecodeError),
                        }
                    },
                    None => Err(DecodeError),
                }
            },
        }
    }
}

/// The tags are pairwise distinct, and no unit string collides with a
/// field-carrying tag.
pub proof fn lemma_tag_distinct()
    ensures
        "connect"@ != "offer"@,
        "disconnect"@ != "offer"@,
        "disconnect"@ != "connect"@,
        "forward"@ != "offer"@,
        "forward"@ != "connect"@,
        "forward"@ != "disconnect"@,
        "close"@ != "offer"@,
        "close"@ != "connect"@,
        "close"@ != "disconnect"@,
        "close"@ != "forward"@,
        "error"@ != "offer"@,
        "error"@ != "connect"@,
        "error"@ != "disconnect"@,
        "error"@ != "forward"@,
        "error"@ != "close"@,
        "transit"@ != "offer"@,
        "transit"@ != "connect"@,
        "transit"@ != "disconnect"@,
        "transit"@ != "forward"@,
        "transit"@ != "close"@,
        "transit"@ != "error"@,
        "unknown"@ != "close"@,
        !known_field_tag("unknown"@),
{
    reveal_strlit("offer");
    reveal_strlit("connect");
    reveal_strlit("disconnect");
    reveal_strlit("forward");
    reveal_strlit("close");
    reveal_strlit("error");
    reveal_strlit("transit");
    reveal_strlit("unknown");
    assert("offer"@.len() == 5);
    assert("connect"@.len() == 7);
    assert("disconnect"@.len() == 10);
    assert("forward"@.len() == 7);
    assert("close"@.len() == 5);
    assert("error"@.len() == 5);
    assert("transit"@.len() == 7);
    assert("unknown"@.len() == 7);
    assert("connect"@[0] == 'c' && "forward"@[0] == 'f' && "transit"@[0] == 't' && "unknown"@[0]
        == 'u');
    assert("close"@[0] == 'c' && "offer"@[0] == 'o' && "error"@[0] == 'e');
    assert("close"@[1] == 'l' && "connect"@[1] == 'o');
}

/// When the bytes at `i` are `str_list_enc(a)`, parsing `a.len()` strings
/// reads back `a`.
pub proof fn lemma_parse_str_list_enc(b: Seq<u8>, i: int, a: Seq<Seq<char>>)
    requires
        0 <= i,
        forall|x: int| 0 <= x < a.len() ==> encode_utf8(#[trigger] a[x]).len() < 0x1_0000_0000,
        i + str_list_enc(a).len() <= b.len(),
        b.subrange(i, i + str_list_enc(a).len()) == str_list_enc(a),
    ensures
        parse_str_list(b, i, a.len()) == Some((a, i + str_list_enc(a).len())),
    decreases a.len(),
{
    if a.len() == 0 {
        assert(a =~= Seq::<Seq<char>>::empty());
    } else {
        let f = a.first();
        let e0 = str_enc(f);
        let rest = a.drop_first();
        let le = str_list_enc(a).len() as int;
        assert(str_list_enc(a) == e0 + str_list_enc(rest));
        assert(b.subrange(i, i + e0.len() as int) =~= e0) by {
            assert forall|x: int| 0 <= x < e0.len() implies b.subrange(
                i,
                i + e0.len() as int,
            )[x] == e0[x] by {
                assert(b.subrange(i, i + le)[x] == str_list_enc(a)[x]);
            }
        }
        assert(encode_utf8(f).len() < 0x1_0000_0000) by {
            assert(a[0] == f);
        }
        lemma_parse_str_enc(b, i, f);
        let j = i + e0.len() as int;
        let lr = str_list_enc(rest).len() as int;
        assert(b.subrange(j, j + lr) =~= str_list_enc(rest)) by {
            assert forall|x: int| 0 <= x < lr implies b.subrange(j, j + lr)[x] == str_list_enc(
                rest,
            )[x] by {
                assert(b.subrange(i, i + le)[e0.len() + x] == str_list_enc(a)[e0.len() + x]);
            }
        }
        assert(forall|x: int|
            0 <= x < rest.len() ==> encode_utf8(#[trigger] rest[x]).len() < 0x1_0000_0000) by {
            assert forall|x: int| 0 <= x < rest.len() implies encode_utf8(
                #[trigger] rest[x],
            ).len() < 0x1_0000_0000 by {
                assert(rest[x] == a[x + 1]);
            }
        }
        lemma_parse_str_list_enc(b, j, rest);
        assert(seq![f] + rest =~= a);
    }
}

proof fn round_trip_unknown()
    requires
        wf_msg(MsgV::Unknown),
    ensures
        parse_msg(msg_enc(MsgV::Unknown)) == Some(MsgV::Unknown),
{
    lemma_tag_lens();
    lemma_tag_distinct();
    let m = MsgV::Unknown;
    let b = msg_enc(m);
    assert(b.subrange(0, str_enc("unknown"@).len() as int) =~= str_enc("unknown"@));
    lemma_parse_str_enc(b, 0, "unknown"@);
}

proof fn round_trip_close()
    requires
        wf_msg(MsgV::Close),
    ensures
        parse_msg(msg_enc(MsgV::Close)) == Some(MsgV::Close),
{
    lemma_tag_lens();
    lemma_tag_distinct();
    let m = MsgV::Close;
    let b = msg_enc(m);
    let p1 = map_hdr(1);
    let p2 = str_enc("close"@);
    let p3 = map_hdr(0);
    assert(b == p1 + p2 + p3);
    assert(b[0] == 0x81);
    assert(parse_str(b, 0) is None);
    assert(b.subrange(0, 1) =~= p1);
    lemma_parse_map_hdr_enc(b, 0, 1);
    assert(b.subrange(1, 1 + p2.len() as int) =~= p2);
    lemma_parse_str_enc(b, 1, "close"@);
    let j2 = 1 + p2.len() as int;
    assert(b.subrange(j2, j2 + 1) =~= p3);
    lemma_parse_map_hdr_enc(b, j2, 0);

}

proof fn round_trip_error(text: Seq<char>)
    requires
        wf_msg((MsgV::Error { text })),
    ensures
        parse_msg(msg_enc((MsgV::Error { text }))) == Some((MsgV::Error { text })),
{
    lemma_tag_lens();
    lemma_tag_distinct();
    let m = (MsgV::Error { text });
    let b = msg_enc(m);
    let p1 = map_hdr(1);
    let p2 = str_enc("error"@);
    let p3 = str_enc(text);
    assert(b == p1 + p2 + p3);
    assert(b[0] == 0x81);
    assert(parse_str(b, 0) is None);
    assert(b.subrange(0, 1) =~= p1);
    lemma_parse_map_hdr_enc(b, 0, 1);
    assert(b.subrange(1, 1 + p2.len() as int) =~= p2);
    lemma_parse_str_enc(b, 1, "error"@);
    let j2 = 1 + p2.len() as int;
    assert(b.subrange(j2, j2 + p3.len() as int) =~= p3);
    lemma_parse_str_enc(b, j2, text);

}

proof fn round_trip_transit(hints: Seq<char>)
    requires
        wf_msg((MsgV::Transit { hints })),
    ensures
        parse_msg(msg_enc((MsgV::Transit { hints }))) == Some((MsgV::Transit { hints })),
{
    lemma_tag_lens();
    lemma_tag_distinct();
    let m = (MsgV::Transit { hints });
    let b = msg_enc(m);
    let p1 = map_hdr(1);
    let p2 = str_enc("transit"@);
    let p3 = map_hdr(1);
    let p4 = str_enc("hints"@);
    let p5 = str_enc(hints);
    assert(b == p1 + p2 + p3 + p4 + p5);
    assert(b[0] == 0x81);
    assert(parse_str(b, 0) is None);
    assert(b.subrange(0, 1) =~= p1);
    lemma_parse_map_hdr_enc(b, 0, 1);
    assert(b.subrange(1, 1 + p2.len() as int) =~= p2);
    lemma_parse_str_enc(b, 1, "transit"@);
    let j2 = 1 + p2.len() as int;
    assert(b.subrange(j2, j2 + 1) =~= p3);
    lemma_parse_map_hdr_enc(b, j2, 1);
    let j3 = j2 + 1;
    assert(b.subrange(j3, j3 + p4.len() as int) =~= p4);
    lemma_parse_str_enc(b, j3, "hints"@);
    let j4 = j3 + p4.len() as int;
    assert(b.subrange(j4, j4 + p5.len() as int) =~= p5);
    lemma_parse_str_enc(b, j4, hints);

}

proof fn round_trip_disconnect(connection_id: u64)
    requires
        wf_msg((MsgV::Disconnect { connection_id })),
    ensures
        parse_msg(msg_enc((MsgV::Disconnect { connection_id }))) == Some((MsgV::Disconnect { connection_id })),
{
    lemma_tag_lens();
    lemma_tag_distinct();
    let m = (MsgV::Disconnect { connection_id });
    let b = msg_enc(m);
    let p1 = map_hdr(1);
    let p2 = str_enc("disconnect"@);
    let p3 = map_hdr(1);
    let p4 = str_enc("connection-id"@);
    let p5 = uint_enc(connection_id);
    assert(b == p1 + p2 + p3 + p4 + p5);
    assert(b[0] == 0x81);
    assert(parse_str(b, 0) is None);
    assert(b.subrange(0, 1) =~= p1);
    lemma_parse_map_hdr_enc(b, 0, 1);
    assert(b.subrange(1, 1 + p2.len() as int) =~= p2);
    lemma_parse_str_enc(b, 1, "disconnect"@);
    let j2 = 1 + p2.len() as int;
    assert(b.subrange(j2, j2 + 1) =~= p3);
    lemma_parse_map_hdr_enc(b, j2, 1);
    let j3 = j2 + 1;
    assert(b.subrange(j3, j3 + p4.len() as int) =~= p4);
    lemma_parse_str_enc(b, j3, "connection-id"@);
    let j4 = j3 + p4.len() as int;
    assert(b.subrange(j4, j4 + p5.len() as int) =~= p5);
    lemma_parse_uint_enc(b, j4, connection_id);

}

proof fn round_trip_connect(target: Seq<char>, connection_id: u64)
    requires
        wf_msg((MsgV::Connect { target, connection_id })),
    ensures
        parse_msg(msg_enc((MsgV::Connect { target, connection_id }))) == Some((MsgV::Connect { target, connection_id })),
{
    lemma_tag_lens();
    lemma_tag_distinct();
    let m = (MsgV::Connect { target, connection_id });
    let b = msg_enc(m);
    let p1 = map_hdr(1);
    let p2 = str_enc("connect"@);
    let p3 = map_hdr(2);
    let p4 = str_enc("target"@);
    let p5 = str_enc(target);
    let p6 = str_enc("connection-id"@);
    let p7 = uint_enc(connection_id);
    assert(b == p1 + p2 + p3 + p4 + p5 + p6 + p7);
    assert(b[0] == 0x81);
    assert(parse_str(b, 0) is None);
    assert(b.subrange(0, 1) =~= p1);
    lemma_parse_map_hdr_enc(b, 0, 1);
    assert(b.subrange(1, 1 + p2.len() as int) =~= p2);
    lemma_parse_str_enc(b, 1, "connect"@);
    let j2 = 1 + p2.len() as int;
    assert(b.subrange(j2, j2 + 1) =~= p3);
    lemma_parse_map_hdr_enc(b, j2, 2);
    let j3 = j2 + 1;
    assert(b.subrange(j3, j3 + p4.len() as int) =~= p4);
    lemma_parse_str_enc(b, j3, "target"@);
    let j4 = j3 + p4.len() as int;
    assert(b.subrange(j4, j4 + p5.len() as int) =~= p5);
    lemma_parse_str_enc(b, j4, target);
    let j5 = j4 + p5.len() as int;
    assert(b.subrange(j5, j5 + p6.len() as int) =~= p6);
    lemma_parse_str_enc(b, j5, "connection-id"@);
    let j6 = j5 + p6.len() as int;
    assert(b.subrange(j6, j6 + p7.len() as int) =~= p7);
    lemma_parse_uint_enc(b, j6, connection_id);

}

proof fn round_trip_forward(connection_id: u64, payload: Seq<u8>)
    requires
        wf_msg((MsgV::Forward { connection_id, payload })),
    ensures
        parse_msg(msg_enc((MsgV::Forward { connection_id, payload }))) == Some((MsgV::Forward { connection_id, payload })),
{
    lemma_tag_lens();
    lemma_tag_distinct();
    let m = (MsgV::Forward { connection_id, payload });
    let b = msg_enc(m);
    let p1 = map_hdr(1);
    let p2 = str_enc("forward"@);
    let p3 = map_hdr(2);
    let p4 = str_enc("connection-id"@);
    let p5 = uint_enc(connection_id);
    let p6 = str_enc("payload"@);
    let p7 = bin_enc(payload);
    assert(b == p1 + p2 + p3 + p4 + p5 + p6 + p7);
    assert(b[0] == 0x81);
    assert(parse_str(b, 0) is None);
    assert(b.subrange(0, 1) =~= p1);
    lemma_parse_map_hdr_enc(b, 0, 1);
    assert(b.subrange(1, 1 + p2.len() as int) =~= p2);
    lemma_parse_str_enc(b, 1, "forward"@);
    let j2 = 1 + p2.len() as int;
    assert(b.subrange(j2, j2 + 1) =~= p3);
    lemma_parse_map_hdr_enc(b, j2, 2);
    let j3 = j2 + 1;
    assert(b.subrange(j3, j3 + p4.len() as int) =~= p4);
    lemma_parse_str_enc(b, j3, "connection-id"@);
    let j4 = j3 + p4.len() as int;
    assert(b.subrange(j4, j4 + p5.len() as int) =~= p5);
    lemma_parse_uint_enc(b, j4, connection_id);
    let j5 = j4 + p5.len() as int;
    assert(b.subrange(j5, j5 + p6.len() as int) =~= p6);
    lemma_parse_str_enc(b, j5, "payload"@);
    let j6 = j5 + p6.len() as int;
    assert(b.subrange(j6, j6 + p7.len() as int) =~= p7);
    lemma_parse_bin_enc(b, j6, payload);

}

proof fn round_trip_offer(addresses: Seq<Seq<char>>)
    requires
        wf_msg((MsgV::Offer { addresses })),
    ensures
        parse_msg(msg_enc((MsgV::Offer { addresses }))) == Some((MsgV::Offer { addresses })),
{
    lemma_tag_lens();
    lemma_tag_distinct();
    let m = (MsgV::Offer { addresses });
    let b = msg_enc(m);
    let p1 = map_hdr(1);
    let p2 = str_enc("offer"@);
    let p3 = map_hdr(1);
    let p4 = str_enc("addresses"@);
    let p5 = arr_hdr(addresses.len());
    let p6 = str_list_enc(addresses);
    assert(b == p1 + p2 + p3 + p4 + p5 + p6);
    assert(b[0] == 0x81);
    assert(parse_str(b, 0) is None);
    assert(b.subrange(0, 1) =~= p1);
    lemma_parse_map_hdr_enc(b, 0, 1);
    assert(b.subrange(1, 1 + p2.len() as int) =~= p2);
    lemma_parse_str_enc(b, 1, "offer"@);
    let j2 = 1 + p2.len() as int;
    assert(b.subrange(j2, j2 + 1) =~= p3);
    lemma_parse_map_hdr_enc(b, j2, 1);
    let j3 = j2 + 1;
    assert(b.subrange(j3, j3 + p4.len() as int) =~= p4);
    lemma_parse_str_enc(b, j3, "addresses"@);
    let j4 = j3 + p4.len() as int;
    assert(b.subrange(j4, j4 + p5.len() as int) =~= p5);
    lemma_parse_arr_hdr_enc(b, j4, addresses.len());
    let j5 = j4 + p5.len() as int;
    assert(b.subrange(j5, j5 + p6.len() as int) =~= p6);
    lemma_parse_str_list_enc(b, j5, addresses);

}

/// Round trip: decoding an encoded well-formed message yields it back.
pub proof fn lemma_msg_round_trip(m: MsgV)
    requires
        wf_msg(m),
    ensures
        parse_msg(msg_enc(m)) == Some(m),
{
    match m {
        MsgV::Unknown => round_trip_unknown(),
        MsgV::Close => round_trip_close(),
        MsgV::Error { text } => round_trip_error(text),
        MsgV::Transit { hints } => round_trip_transit(hints),
        MsgV::Disconnect { connection_id } => round_trip_disconnect(connection_id),
        MsgV::Connect { target, connection_id } => round_trip_connect(target, connection_id),
        MsgV::Forward { connection_id, payload } => round_trip_forward(connection_id, payload),
        MsgV::Offer { addresses } => round_trip_offer(addresses),
    }
}

/// The tag of a message, for reporting an unexpected one.
pub open spec fn variant_name(m: MsgV) -> Seq<char> {
    match m {
        MsgV::Offer { .. } => "offer"@,
        MsgV::Connect { .. } => "connect"@,
        MsgV::Disconnect { .. } => "disconnect"@,
        MsgV::Forward { .. } => "forward"@,
        MsgV::Close => "close"@,
        MsgV::Error { .. } => "error"@,
        MsgV::Transit { .. } => "transit"@,
        MsgV::Unknown => "unknown"@,
    }
}

/// The exec name of a message's tag, mirroring [`variant_name`].
pub fn variant_string(m: &PeerMessage) -> (r: String)
    ensures
        r@ == variant_name(m@),
{
    match m {
        PeerMessage::Offer { .. } => String::from_str("offer"),
        PeerMessage::Connect { .. } => String::from_str("connect"),
        PeerMessage::Disconnect { .. } => String::from_str("disconnect"),
        PeerMessage::Forward { .. } => String::from_str("forward"),
        PeerMessage::Close => String::from_str("close"),
        PeerMessage::Error(_) => String::from_str("error"),
        PeerMessage::Transit { .. } => String::from_str("transit"),
        PeerMessage::Unknown => String::from_str("unknown"),
    }
}

} // verus!
