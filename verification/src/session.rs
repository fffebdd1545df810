//! What a forwarding session step asks its I/O driver to do.
//!
//! Both roles' machines are pure: a step consumes one event and returns the
//! side effects to perform — frames for the transit sink, writes to local
//! sockets, dials, and worker bookkeeping — together with whether the
//! session goes on, ended cleanly, or failed.

use vstd::prelude::*;
use crate::error::ForwardingError;
use crate::peermsg::{msg_enc, variant_name, variant_string, MsgV, PeerMessage};
use crate::serve::not_found_msg;
use crate::strutil::u64_to_dec;

verus! {

/// One side effect the I/O driver must perform, in order.
#[derive(Debug)]
pub enum SessionAction {
    /// Send this encoded frame on the transit channel.
    SendPeer(Vec<u8>),
    /// Write these bytes to the local socket of the given connection.
    WriteLocal(u64, Vec<u8>),
    /// Dial this address for the given connection (serve side); report the
    /// result as a dial-finished event.
    Dial(u64, String),
    /// Start the reader worker for the given connection.
    SpawnWorker(u64),
    /// Cancel the reader worker of the given connection.
    CancelWorker(u64),
}

/// The mathematical image of a [`SessionAction`].
pub enum ActV {
    SendPeer(Seq<u8>),
    WriteLocal(u64, Seq<u8>),
    Dial(u64, Seq<char>),
    SpawnWorker(u64),
    CancelWorker(u64),
}

impl View for SessionAction {
    type V = ActV;

    open spec fn view(&self) -> ActV {
        match self {
            SessionAction::SendPeer(f) => ActV::SendPeer(f@),
            SessionAction::WriteLocal(id, p) => ActV::WriteLocal(*id, p@),
            SessionAction::Dial(id, a) => ActV::Dial(*id, a@),
            SessionAction::SpawnWorker(id) => ActV::SpawnWorker(*id),
            SessionAction::CancelWorker(id) => ActV::CancelWorker(*id),
        }
    }
}

/// The mathematical image of an action list.
pub open spec fn act_models(s: Seq<SessionAction>) -> Seq<ActV> {
    s.map_values(|a: SessionAction| a@)
}

/// Models distribute over concatenation of action lists.
pub proof fn lemma_act_models_concat(a: Seq<SessionAction>, b: Seq<SessionAction>)
    ensures
        act_models(a + b) == act_models(a) + act_models(b),
{
    assert forall|x: int| 0 <= x < (a + b).len() implies #[trigger] act_models(a + b)[x] == (
    act_models(a) + act_models(b))[x] by {
        if x < a.len() {
            assert((a + b)[x] == a[x]);
            assert(act_models(a)[x] == a[x]@);
        } else {
            assert((a + b)[x] == b[x - a.len()]);
            assert(act_models(b)[x - a.len()] == b[x - a.len()]@);
        }
    }
    assert(act_models(a + b) =~= act_models(a) + act_models(b));
}

/// One cancel action per id, in order: the shutdown of all workers.
pub open spec fn cancels(ids: Seq<u64>) -> Seq<ActV> {
    ids.map_values(|id: u64| ActV::CancelWorker(id))
}

/// How the session stands after a step.
#[derive(Debug)]
pub enum SessionStatus {
    /// Keep looping.
    Continue,
    /// The session ended cleanly (a `close`, or end of the transit stream).
    Done,
    /// The session failed; shut down and report.
    Failed(ForwardingError),
}

/// The outcome of one step: the actions to perform, then the status.
#[derive(Debug)]
pub struct Step {
    pub actions: Vec<SessionAction>,
    pub status: SessionStatus,
}

/// The encoded `disconnect` frame for an id.
pub(crate) fn disc_frame(id: u64) -> (r: Vec<u8>)
    ensures
        r@ == msg_enc(MsgV::Disconnect { connection_id: id }),
{
    let m = PeerMessage::Disconnect { connection_id: id };
    m.ser_msgpack()
}

/// Builds the text of [`not_found_msg`].
pub(crate) fn not_found_string(id: u64) -> (r: String)
    ensures
        r@ == not_found_msg(id),
{
    let mut m = String::from_str("Connection '");
    let d = u64_to_dec(id);
    m.append(d.as_str());
    m.append("' not found");
    proof {
        assert(m@ =~= not_found_msg(id));
    }
    m
}



/// The decision on the reply to our transit hints, exchanged before the
/// session: the peer's hints proceed, a peer error aborts as such, and
/// anything else is an unexpected message.
pub fn expect_transit(m: PeerMessage) -> (r: Result<String, ForwardingError>)
    ensures
        match m@ {
            MsgV::Transit { hints } => r matches Ok(h) && h@ == hints,
            MsgV::Error { text } => r matches Err(ForwardingError::PeerError(t)) && t@ == text,
            _ => r matches Err(ForwardingError::ProtocolUnexpectedMessage(exp, got)) && exp@
                == "transit"@ && got@ == variant_name(m@),
        },
{
    match m {
        PeerMessage::Transit { hints } => Ok(hints),
        PeerMessage::Error(text) => Err(ForwardingError::PeerError(text)),
        other => {
            let got = variant_string(&other);
            Err(ForwardingError::ProtocolUnexpectedMessage(String::from_str("transit"), got))
        },
    }
}

} // verus!
