//! The error taxonomy of the forwarding session, and the best-effort error
//! notification rule: when a session ends with an error of our own, exactly
//! one `error` message is sent to the peer; an error the peer reported is
//! never echoed back.

use vstd::prelude::*;
use vstd::utf8::encode_utf8;
use crate::peermsg::{msg_enc, DecodeError, MsgV, PeerMessage};

verus! {

/// Why a forwarding session failed.  Transport-level failures (the transit
/// channel, local sockets, the wormhole) belong to the I/O layer driving the
/// session and are not produced by the verified core.
#[derive(Debug, PartialEq)]
pub enum ForwardingError {
    /// Transfer was not acknowledged by the peer; reserved for higher
    /// layers, never produced here.
    AckError,
    /// The peer sent an `error` message; propagated unchanged, never echoed.
    PeerError(String),
    /// Malformed JSON on the wormhole control channel.
    ProtocolJson(DecodeError),
    /// Malformed MessagePack on the wire.
    ProtocolMsgpack(DecodeError),
    /// Well-formed input that violates the protocol.
    Protocol(String),
    /// A message that the current state does not allow: what was expected,
    /// and the name of what came.
    ProtocolUnexpectedMessage(String, String),
}

/// The description [`ForwardingError::message`] returns.
pub open spec fn error_msg(e: ForwardingError) -> Seq<char> {
    match e {
        ForwardingError::AckError => "Transfer was not acknowledged by peer"@,
        ForwardingError::PeerError(t) => "Something went wrong on the other side: "@ + t@,
        ForwardingError::ProtocolJson(_) => "Corrupt JSON message received"@,
        ForwardingError::ProtocolMsgpack(_) => "Corrupt Msgpack message received"@,
        ForwardingError::Protocol(t) => "Protocol error: "@ + t@,
        ForwardingError::ProtocolUnexpectedMessage(exp, got) =>
            "Unexpected message (protocol error): Expected '"@ + exp@ + "', but got: "@ + got@,
    }
}

/// Whether the error came from the other side.
pub open spec fn is_peer_error(e: ForwardingError) -> bool {
    e matches ForwardingError::PeerError(_)
}

impl ForwardingError {
    /// A human-readable description of the failure.
    pub fn message(&self) -> (r: String)
        ensures
            r@ == error_msg(*self),
    {
        match self {
            ForwardingError::AckError => String::from_str(
                "Transfer was not acknowledged by peer",
            ),
            ForwardingError::PeerError(t) => {
                let mut m = String::from_str("Something went wrong on the other side: ");
                m.append(t.as_str());
                m
            },
            ForwardingError::ProtocolJson(_) => String::from_str(
                "Corrupt JSON message received",
            ),
            ForwardingError::ProtocolMsgpack(_) => String::from_str(
                "Corrupt Msgpack message received",
            ),
            ForwardingError::Protocol(t) => {
                let mut m = String::from_str("Protocol error: ");
                m.append(t.as_str());
                m
            },
            ForwardingError::ProtocolUnexpectedMessage(exp, got) => {
                let mut m = String::from_str("Unexpected message (protocol error): Expected '");
                m.append(exp.as_str());
                m.append("', but got: ");
                m.append(got.as_str());
                m
            },
        }
    }

    /// Whether this error came from the other side.
    pub fn is_peer(&self) -> (r: bool)
        ensures
            r == is_peer_error(*self),
    {
        match self {
            ForwardingError::PeerError(_) => true,
            _ => false,
        }
    }
}

/// The best-effort notification owed to the peer when a session ends.
///
/// For success or a peer-reported error there is nothing to send.  For any
/// other error the result is the one encoded `error` frame to write to the
/// transit sink before returning (`None` also when the description is too
/// large for a wire string, which no real message reaches).
pub fn error_notification(r: &Result<(), ForwardingError>) -> (n: Option<Vec<u8>>)
    ensures
        (*r) is Ok ==> n is None,
        (*r) matches Err(e) ==> {
            if is_peer_error(e) {
                n is None
            } else if encode_utf8(error_msg(e)).len() < 0x1_0000_0000 {
                n matches Some(f) && f@ == msg_enc(MsgV::Error { text: error_msg(e) })
            } else {
                n is None
            }
        },
{
    match r {
        Ok(_) => None,
        Err(e) => {
            if e.is_peer() {
                return None;
            }
            let text = e.message();
            let byte_len = text.as_str().as_bytes().len();
            if (byte_len as u64) < 0x1_0000_0000 {
                let m = PeerMessage::Error(text);
                Some(m.ser_msgpack())
            } else {
                None
            }
        },
    }
}

} // verus!
