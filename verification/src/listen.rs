//! The listener-side forwarding session machine.
//!
//! The listener receives the peer's offer, binds a local TCP listener per
//! offered address, and turns each local accept into a `connect` to the
//! peer.  Connection ids come from a per-session counter that starts at 0
//! and only ever grows: each accept claims the current value and increments
//! it, so the emitted ids are 0, 1, 2, ... and an id is never reused.  An
//! id below the counter that is no longer live is a benign close race; an
//! id at or above the counter was never assigned and is a protocol error.

use vstd::prelude::*;
use crate::error::ForwardingError;
use crate::idset::IdSet;
use crate::peermsg::{msg_enc, parse_msg, variant_name, variant_string, MsgV, PeerMessage};
use crate::session::{act_models, cancels, disc_frame, not_found_string, ActV, SessionAction, SessionStatus, Step};
use crate::serve::{not_found_msg, serve_expected_msg};
use vstd::utf8::encode_utf8;

verus! {

/// One event the I/O driver feeds into the listener machine.
#[derive(Debug)]
pub enum ConnectEvent {
    /// A framed message arrived from the transit channel.
    Frame(Vec<u8>),
    /// The transit input ended; equivalent to a `close`.
    PeerGone,
    /// An item from the back-channel: bytes a local reader produced, or
    /// `None` when that connection's local side closed.
    Local(u64, Option<Vec<u8>>),
    /// A local TCP connection was accepted on the listener bound for this
    /// offered address.
    Accept(String),
    /// A local write the machine asked for finished, successfully or not.
    WriteDone(u64, bool),
}

/// What the machine may assume of an event: back-channel payloads and
/// accepted addresses fit a wire frame.
pub open spec fn connect_event_wf(e: ConnectEvent) -> bool {
    match e {
        ConnectEvent::Local(_, Some(p)) => p@.len() < 0x1_0000_0000,
        ConnectEvent::Accept(t) => encode_utf8(t@).len() < 0x1_0000_0000,
        _ => true,
    }
}

/// The listener machine: the next fresh connection id, and the live ids.
#[derive(Debug)]
pub struct ConnectState {
    pub connection_counter: u64,
    pub live: IdSet,
}

impl ConnectState {
    /// Every live id was assigned before the counter reached its level.
    pub open spec fn wf(&self) -> bool {
        &&& self.live.wf()
        &&& forall|id: u64| self.live@.contains(id) ==> id < self.connection_counter
    }

    /// A fresh machine: the counter starts at 0, nothing is live.
    pub fn new() -> (r: ConnectState)
        ensures
            r.wf(),
            r.connection_counter == 0,
            r.live@ == Set::<u64>::empty(),
    {
        ConnectState { connection_counter: 0, live: IdSet::new() }
    }
}

/// Neither the counter nor the live set changed.
pub open spec fn connect_unchanged(pre: ConnectState, post: ConnectState) -> bool {
    post.live@ == pre.live@ && post.connection_counter == pre.connection_counter
}

/// The step ended the session: every live worker got a cancel, nothing
/// stays live, the counter stands.
pub open spec fn connect_ended(pre: ConnectState, post: ConnectState, acts: Seq<ActV>) -> bool {
    &&& acts == cancels(pre.live.seq())
    &&& post.live@ == Set::<u64>::empty()
    &&& post.connection_counter == pre.connection_counter
}

/// A local teardown that tells the peer, listener side: the unknown-id test
/// is `id >= counter`.
pub open spec fn connect_removal_with_tell(
    pre: ConnectState,
    post: ConnectState,
    id: u64,
    acts: Seq<ActV>,
    st: SessionStatus,
) -> bool {
    let disc = ActV::SendPeer(msg_enc(MsgV::Disconnect { connection_id: id }));
    if pre.live@.contains(id) {
        &&& st is Continue
        &&& acts == seq![disc, ActV::CancelWorker(id)]
        &&& post.live@ == pre.live@.remove(id)
        &&& post.connection_counter == pre.connection_counter
    } else if id < pre.connection_counter {
        &&& st is Continue
        &&& acts == seq![disc]
        &&& connect_unchanged(pre, post)
    } else {
        &&& st matches SessionStatus::Failed(ForwardingError::Protocol(t)) && t@ == not_found_msg(
            id,
        )
        &&& acts == seq![disc] + cancels(pre.live.seq())
        &&& post.live@ == Set::<u64>::empty()
        &&& post.connection_counter == pre.connection_counter
    }
}

/// Everything one listener step does, for every event.
pub open spec fn connect_post(
    pre: ConnectState,
    post: ConnectState,
    e: ConnectEvent,
    acts: Seq<ActV>,
    st: SessionStatus,
) -> bool {
    &&& pre.connection_counter <= post.connection_counter
    &&& match e {
        ConnectEvent::Frame(bytes) => match parse_msg(bytes@) {
            None => {
                &&& st matches SessionStatus::Failed(ForwardingError::ProtocolMsgpack(_))
                &&& connect_ended(pre, post, acts)
            },
            Some(mv) => match mv {
                MsgV::Forward { connection_id: id, payload } => {
                    if pre.live@.contains(id) {
                        &&& st is Continue
                        &&& acts == seq![ActV::WriteLocal(id, payload)]
                        &&& connect_unchanged(pre, post)
                    } else if id < pre.connection_counter {
                        &&& st is Continue
                        &&& acts.len() == 0
                        &&& connect_unchanged(pre, post)
                    } else {
                        &&& st matches SessionStatus::Failed(ForwardingError::Protocol(t)) && t@
                            == not_found_msg(id)
                        &&& connect_ended(pre, post, acts)
                    }
                },
                MsgV::Disconnect { connection_id: id } => {
                    if pre.live@.contains(id) {
                        &&& st is Continue
                        &&& acts == seq![ActV::CancelWorker(id)]
                        &&& post.live@ == pre.live@.remove(id)
                        &&& post.connection_counter == pre.connection_counter
                    } else if id < pre.connection_counter {
                        &&& st is Continue
                        &&& acts.len() == 0
                        &&& connect_unchanged(pre, post)
                    } else {
                        &&& st matches SessionStatus::Failed(ForwardingError::Protocol(t)) && t@
                            == not_found_msg(id)
                        &&& connect_ended(pre, post, acts)
                    }
                },
                MsgV::Close => {
                    &&& st is Done
                    &&& connect_ended(pre, post, acts)
                },
                MsgV::Error { text } => {
                    &&& st matches SessionStatus::Failed(ForwardingError::PeerError(t)) && t@
                        == text
                    &&& connect_ended(pre, post, acts)
                },
                _ => {
                    &&& st matches SessionStatus::Failed(
                        ForwardingError::ProtocolUnexpectedMessage(exp, got),
                    ) && exp@ == serve_expected_msg() && got@ == variant_name(mv)
                    &&& connect_ended(pre, post, acts)
                },
            },
        },
        ConnectEvent::PeerGone => {
            &&& st is Done
            &&& connect_ended(pre, post, acts)
        },
        ConnectEvent::Local(id, op) => match op {
            Some(p) => {
                &&& st is Continue
                &&& acts == seq![
                    ActV::SendPeer(msg_enc(MsgV::Forward { connection_id: id, payload: p@ })),
                ]
                &&& connect_unchanged(pre, post)
            },
            None => connect_removal_with_tell(pre, post, id, acts, st),
        },
        ConnectEvent::Accept(target) => {
            &&& st is Continue
            &&& acts == seq![
                ActV::SendPeer(
                    msg_enc(
                        MsgV::Connect {
                            target: target@,
                            connection_id: pre.connection_counter,
                        },
                    ),
                ),
                ActV::SpawnWorker(pre.connection_counter),
            ]
            &&& post.connection_counter == pre.connection_counter + 1
            &&& post.live@ == pre.live@.insert(pre.connection_counter)
        },
        ConnectEvent::WriteDone(id, ok) => {
            if ok {
                &&& st is Continue
                &&& acts.len() == 0
                &&& connect_unchanged(pre, post)
            } else {
                connect_removal_with_tell(pre, post, id, acts, st)
            }
        },
    }
}

impl ConnectState {
    /// Cancels every live worker and empties the live set.
    pub fn shutdown(&mut self) -> (acts: Vec<SessionAction>)
        requires
            old(self).wf(),
        ensures
            final(self).wf(),
            act_models(acts@) == cancels(old(self).live.seq()),
            final(self).live@ == Set::<u64>::empty(),
            final(self).connection_counter == old(self).connection_counter,
    {
        let ids = self.live.to_vec();
        let mut acts: Vec<SessionAction> = Vec::new();
        let mut i: usize = 0;
        proof {
            assert(act_models(acts@) =~= cancels(ids@.subrange(0, 0)));
        }
        while i < ids.len()
            invariant
                0 <= i <= ids@.len(),
                act_models(acts@) == cancels(ids@.subrange(0, i as int)),
            decreases ids@.len() - i,
        {
            let ghost prev = acts@;
            acts.push(SessionAction::CancelWorker(ids[i]));
            proof {
                prev.lemma_push_map_commute(
                    |a: SessionAction| a@,
                    SessionAction::CancelWorker(ids@[i as int]),
                );
                let ghost sub = ids@.subrange(0, i + 1);
                assert(sub.drop_last() =~= ids@.subrange(0, i as int));
                sub.drop_last().lemma_push_map_commute(|id: u64| ActV::CancelWorker(id), sub.last());
                assert(sub.drop_last().push(sub.last()) =~= sub);
                assert(act_models(acts@) =~= cancels(ids@.subrange(0, i + 1)));
            }
            i += 1;
        }
        proof {
            assert(ids@.subrange(0, ids@.len() as int) =~= ids@);
        }
        self.live = IdSet::new();
        acts
    }

    /// The decision for a `forward` frame, listener side.
    pub fn forward(&self, connection_id: u64, payload: Vec<u8>) -> (r: Result<
        Vec<SessionAction>,
        ForwardingError,
    >)
        requires
            self.wf(),
        ensures
            match r {
                Ok(acts) => {
                    if self.live@.contains(connection_id) {
                        act_models(acts@) == seq![ActV::WriteLocal(connection_id, payload@)]
                    } else {
                        connection_id < self.connection_counter && acts@.len() == 0
                    }
                },
                Err(e) => {
                    &&& !self.live@.contains(connection_id)
                    &&& connection_id >= self.connection_counter
                    &&& e matches ForwardingError::Protocol(t) && t@ == not_found_msg(
                        connection_id,
                    )
                },
            },
    {
        if self.live.contains(connection_id) {
            let mut acts: Vec<SessionAction> = Vec::new();
            acts.push(SessionAction::WriteLocal(connection_id, payload));
            proof {
                assert(act_models(acts@) =~= seq![
                    ActV::WriteLocal(connection_id, acts@[0]->WriteLocal_1@),
                ]);
            }
            Ok(acts)
        } else if connection_id < self.connection_counter {
            Ok(Vec::new())
        } else {
            Err(ForwardingError::Protocol(not_found_string(connection_id)))
        }
    }

    /// The decision for tearing one connection down, listener side.
    pub fn remove_connection(&mut self, connection_id: u64, tell_peer: bool) -> (r: (
        Vec<SessionAction>,
        Option<ForwardingError>,
    ))
        requires
            old(self).wf(),
        ensures
            final(self).wf(),
            final(self).connection_counter == old(self).connection_counter,
            !old(self).live@.contains(connection_id) ==> final(self).live.seq() == old(
                self,
            ).live.seq(),
            ({
                let disc = ActV::SendPeer(msg_enc(MsgV::Disconnect { connection_id }));
                let tell: Seq<ActV> = if tell_peer {
                    seq![disc]
                } else {
                    Seq::empty()
                };
                if old(self).live@.contains(connection_id) {
                    &&& r.1 is None
                    &&& act_models(r.0@) == tell + seq![ActV::CancelWorker(connection_id)]
                    &&& final(self).live@ == old(self).live@.remove(connection_id)
                } else if connection_id < old(self).connection_counter {
                    &&& r.1 is None
                    &&& act_models(r.0@) == tell
                    &&& final(self).live@ == old(self).live@
                } else {
                    &&& r.1 matches Some(ForwardingError::Protocol(t)) && t@ == not_found_msg(
                        connection_id,
                    )
                    &&& act_models(r.0@) == tell
                    &&& final(self).live@ == old(self).live@
                }
            }),
    {
        let mut acts: Vec<SessionAction> = Vec::new();
        if tell_peer {
            acts.push(SessionAction::SendPeer(disc_frame(connection_id)));
        }
        let ghost tell_acts = acts@;
        if self.live.contains(connection_id) {
            self.live.remove(connection_id);
            acts.push(SessionAction::CancelWorker(connection_id));
            proof {
                tell_acts.lemma_push_map_commute(
                    |a: SessionAction| a@,
                    SessionAction::CancelWorker(connection_id),
                );
                assert(act_models(acts@) =~= act_models(tell_acts) + seq![
                    ActV::CancelWorker(connection_id),
                ]);
                if tell_peer {
                    assert(act_models(tell_acts) =~= seq![
                        ActV::SendPeer(msg_enc(MsgV::Disconnect { connection_id })),
                    ]);
                } else {
                    assert(act_models(tell_acts) =~= Seq::<ActV>::empty());
                }
            }
            (acts, None)
        } else {
            proof {
                if tell_peer {
                    assert(act_models(acts@) =~= seq![
                        ActV::SendPeer(msg_enc(MsgV::Disconnect { connection_id })),
                    ]);
                } else {
                    assert(act_models(acts@) =~= Seq::<ActV>::empty());
                }
            }
            if connection_id < self.connection_counter {
                (acts, None)
            } else {
                (
                    acts,
                    Some(
                        ForwardingError::Protocol(
                            not_found_string(connection_id),
                        ),
                    ),
                )
            }
        }
    }

    /// A local accept: claim the next id, tell the peer to connect the
    /// offered address, start the reader worker.
    pub fn spawn_connection(&mut self, target: &String) -> (acts: Vec<SessionAction>)
        requires
            old(self).wf(),
            old(self).connection_counter < u64::MAX,
            encode_utf8(target@).len() < 0x1_0000_0000,
        ensures
            final(self).wf(),
            act_models(acts@) == seq![
                ActV::SendPeer(
                    msg_enc(
                        MsgV::Connect {
                            target: target@,
                            connection_id: old(self).connection_counter,
                        },
                    ),
                ),
                ActV::SpawnWorker(old(self).connection_counter),
            ],
            final(self).connection_counter == old(self).connection_counter + 1,
            final(self).live@ == old(self).live@.insert(old(self).connection_counter),
    {
        let connection_id = self.connection_counter;
        self.connection_counter = self.connection_counter + 1;
        let m = PeerMessage::Connect { target: target.clone(), connection_id };
        let frame = m.ser_msgpack();
        let mut acts: Vec<SessionAction> = Vec::new();
        acts.push(SessionAction::SendPeer(frame));
        acts.push(SessionAction::SpawnWorker(connection_id));
        self.live.insert(connection_id);
        proof {
            assert(act_models(acts@) =~= seq![
                ActV::SendPeer(acts@[0]->SendPeer_0@),
                ActV::SpawnWorker(connection_id),
            ]);
        }
        acts
    }

    /// One step of the listener session loop.
    pub fn handle_event(&mut self, e: ConnectEvent) -> (r: Step)
        requires
            old(self).wf(),
            connect_event_wf(e),
            e matches ConnectEvent::Accept(_) ==> old(self).connection_counter < u64::MAX,
        ensures
            final(self).wf(),
            connect_post(*old(self), *final(self), e, act_models(r.actions@), r.status),
    {
        match e {
            ConnectEvent::Frame(bytes) => {
                match PeerMessage::de_msgpack(bytes.as_slice()) {
                    Err(de) => {
                        let acts = self.shutdown();
                        Step {
                            actions: acts,
                            status: SessionStatus::Failed(ForwardingError::ProtocolMsgpack(de)),
                        }
                    },
                    Ok(m) => match m {
                        PeerMessage::Forward { connection_id, payload } => {
                            match self.forward(connection_id, payload) {
                                Ok(acts) => Step { actions: acts, status: SessionStatus::Continue },
                                Err(err) => {
                                    let acts = self.shutdown();
                                    Step { actions: acts, status: SessionStatus::Failed(err) }
                                },
                            }
                        },
                        PeerMessage::Disconnect { connection_id } => {
                            let (acts, err) = self.remove_connection(connection_id, false);
                            proof {
                                assert(Seq::<ActV>::empty() + seq![
                                    ActV::CancelWorker(connection_id),
                                ] =~= seq![ActV::CancelWorker(connection_id)]);
                            }
                            match err {
                                None => Step { actions: acts, status: SessionStatus::Continue },
                                Some(err) => {
                                    let acts2 = self.shutdown();
                                    Step { actions: acts2, status: SessionStatus::Failed(err) }
                                },
                            }
                        },
                        PeerMessage::Close => {
                            let acts = self.shutdown();
                            Step { actions: acts, status: SessionStatus::Done }
                        },
                        PeerMessage::Error(text) => {
                            let acts = self.shutdown();
                            Step {
                                actions: acts,
                                status: SessionStatus::Failed(ForwardingError::PeerError(text)),
                            }
                        },
                        other => {
                            let got = variant_string(&other);
                            let acts = self.shutdown();
                            Step {
                                actions: acts,
                                status: SessionStatus::Failed(
                                    ForwardingError::ProtocolUnexpectedMessage(
                                        String::from_str(
                                            "connect' or 'disconnect' or 'forward' or 'close",
                                        ),
                                        got,
                                    ),
                                ),
                            }
                        },
                    },
                }
            },
            ConnectEvent::PeerGone => {
                let acts = self.shutdown();
                Step { actions: acts, status: SessionStatus::Done }
            },
            ConnectEvent::Local(id, op) => match op {
                Some(p) => {
                    let m = PeerMessage::Forward { connection_id: id, payload: p };
                    let frame = m.ser_msgpack();
                    let mut acts: Vec<SessionAction> = Vec::new();
                    acts.push(SessionAction::SendPeer(frame));
                    proof {
                        assert(act_models(acts@) =~= seq![ActV::SendPeer(acts@[0]->SendPeer_0@)]);
                    }
                    Step { actions: acts, status: SessionStatus::Continue }
                },
                None => {
                    let (acts, err) = self.remove_connection(id, true);
                    proof {
                        let disc = ActV::SendPeer(msg_enc(MsgV::Disconnect { connection_id: id }));
                        assert(seq![disc] + seq![ActV::CancelWorker(id)] =~= seq![
                            disc,
                            ActV::CancelWorker(id),
                        ]);
                    }
                    match err {
                        None => Step { actions: acts, status: SessionStatus::Continue },
                        Some(err) => {
                            let mut acts = acts;
                            let ghost mid = *self;
                            let mut rest = self.shutdown();
                            let ghost before = acts@;
                            let ghost rest0 = rest@;
                            acts.append(&mut rest);
                            proof {
                                crate::session::lemma_act_models_concat(before, rest0);
                                let disc = ActV::SendPeer(
                                    msg_enc(MsgV::Disconnect { connection_id: id }),
                                );
                                assert(act_models(before) == seq![disc]);
                                assert(mid.live.seq() == old(self).live.seq());
                                assert(act_models(rest0) == cancels(mid.live.seq()));
                                assert(act_models(acts@) == seq![disc] + cancels(
                                    old(self).live.seq(),
                                ));
                            }
                            Step { actions: acts, status: SessionStatus::Failed(err) }
                        },
                    }
                },
            },
            ConnectEvent::Accept(target) => {
                let acts = self.spawn_connection(&target);
                Step { actions: acts, status: SessionStatus::Continue }
            },
            ConnectEvent::WriteDone(id, ok) => {
                if ok {
                    Step { actions: Vec::new(), status: SessionStatus::Continue }
                } else {
                    let (acts, err) = self.remove_connection(id, true);
                    proof {
                        let disc = ActV::SendPeer(msg_enc(MsgV::Disconnect { connection_id: id }));
                        assert(seq![disc] + seq![ActV::CancelWorker(id)] =~= seq![
                            disc,
                            ActV::CancelWorker(id),
                        ]);
                    }
                    match err {
                        None => Step { actions: acts, status: SessionStatus::Continue },
                        Some(err) => {
                            let mut acts = acts;
                            let ghost mid = *self;
                            let mut rest = self.shutdown();
                            let ghost before = acts@;
                            let ghost rest0 = rest@;
                            acts.append(&mut rest);
                            proof {
                                crate::session::lemma_act_models_concat(before, rest0);
                                let disc = ActV::SendPeer(
                                    msg_enc(MsgV::Disconnect { connection_id: id }),
                                );
                                assert(act_models(before) == seq![disc]);
                                assert(mid.live.seq() == old(self).live.seq());
                                assert(act_models(rest0) == cancels(mid.live.seq()));
                                assert(act_models(acts@) == seq![disc] + cancels(
                                    old(self).live.seq(),
                                ));
                            }
                            Step { actions: acts, status: SessionStatus::Failed(err) }
                        },
                    }
                }
            },
        }
    }
}

/// The first frame of a listener session must be the peer's offer; an
/// `error` message is the peer's failure, anything else a protocol error.
pub fn parse_offer(frame: &[u8]) -> (r: Result<Vec<String>, ForwardingError>)
    ensures
        match r {
            Ok(addresses) => parse_msg(frame@) == Some(
                MsgV::Offer { addresses: addresses@.map_values(|s: String| s@) },
            ),
            Err(e) => match parse_msg(frame@) {
                None => e matches ForwardingError::ProtocolMsgpack(_),
                Some(mv) => match mv {
                    MsgV::Offer { .. } => false,
                    MsgV::Error { text } => e matches ForwardingError::PeerError(t) && t@ == text,
                    _ => e matches ForwardingError::ProtocolUnexpectedMessage(exp, got) && exp@
                        == "offer"@ && got@ == variant_name(mv),
                },
            },
        },
{
    match PeerMessage::de_msgpack(frame) {
        Err(de) => Err(ForwardingError::ProtocolMsgpack(de)),
        Ok(m) => match m {
            PeerMessage::Offer { addresses } => Ok(addresses),
            PeerMessage::Error(text) => Err(ForwardingError::PeerError(text)),
            other => {
                let got = variant_string(&other);
                Err(
                    ForwardingError::ProtocolUnexpectedMessage(String::from_str("offer"), got),
                )
            },
        },
    }
}

/// Close propagation, listener side: a `close` frame or the end of the
/// transit stream ends the session cleanly with one cancel per live worker.
pub proof fn lemma_close_cancels_all_listener(
    pre: ConnectState,
    post: ConnectState,
    e: ConnectEvent,
    acts: Seq<ActV>,
    st: SessionStatus,
)
    requires
        connect_post(pre, post, e, acts, st),
        (e matches ConnectEvent::Frame(f) && parse_msg(f@) == Some(MsgV::Close)) || e
            is PeerGone,
    ensures
        st is Done,
        acts == cancels(pre.live.seq()),
        post.live@ == Set::<u64>::empty(),
{
}

/// A run of the listener machine: consecutive states, one event with its
/// actions and status between each pair, each step obeying
/// [`connect_post`].
pub open spec fn connect_run(
    states: Seq<ConnectState>,
    events: Seq<ConnectEvent>,
    actss: Seq<Seq<ActV>>,
    sts: Seq<SessionStatus>,
) -> bool {
    &&& states.len() == events.len() + 1
    &&& actss.len() == events.len()
    &&& sts.len() == events.len()
    &&& forall|k: int|
        0 <= k < events.len() ==> connect_post(
            states[k],
            states[k + 1],
            #[trigger] events[k],
            actss[k],
            sts[k],
        )
}

/// The counter never moves down over a run.
pub proof fn lemma_counter_monotone(
    states: Seq<ConnectState>,
    events: Seq<ConnectEvent>,
    actss: Seq<Seq<ActV>>,
    sts: Seq<SessionStatus>,
    a: int,
    b: int,
)
    requires
        connect_run(states, events, actss, sts),
        0 <= a <= b <= events.len(),
    ensures
        states[a].connection_counter <= states[b].connection_counter,
    decreases b - a,
{
    if a < b {
        assert(connect_post(states[a], states[a + 1], events[a], actss[a], sts[a]));
        lemma_counter_monotone(states, events, actss, sts, a + 1, b);
    }
}

/// Only accepts move the counter: without one it stands still.
pub proof fn lemma_counter_fixed_without_accepts(
    states: Seq<ConnectState>,
    events: Seq<ConnectEvent>,
    actss: Seq<Seq<ActV>>,
    sts: Seq<SessionStatus>,
    a: int,
    b: int,
)
    requires
        connect_run(states, events, actss, sts),
        0 <= a <= b <= events.len(),
        forall|k: int| a <= k < b ==> !(#[trigger] events[k] matches ConnectEvent::Accept(_)),
    ensures
        states[b].connection_counter == states[a].connection_counter,
    decreases b - a,
{
    if a < b {
        assert(connect_post(states[a], states[a + 1], events[a], actss[a], sts[a]));
        assert(states[a + 1].connection_counter == states[a].connection_counter);
        lemma_counter_fixed_without_accepts(states, events, actss, sts, a + 1, b);
    }
}

/// Forwarding id monotonicity: over any run, the connect ids the listener
/// emits are strictly increasing, and until the first accept the counter —
/// hence the first emitted id — is what the machine started with
/// ([`ConnectState::new`] starts it at 0).
pub proof fn lemma_connect_ids_monotonic(
    states: Seq<ConnectState>,
    events: Seq<ConnectEvent>,
    actss: Seq<Seq<ActV>>,
    sts: Seq<SessionStatus>,
    i: int,
    j: int,
)
    requires
        connect_run(states, events, actss, sts),
        0 <= i < j < events.len(),
        events[i] matches ConnectEvent::Accept(_),
        events[j] matches ConnectEvent::Accept(_),
    ensures
        // each accept emits the worker for the counter it found
        actss[i][1] == ActV::SpawnWorker(states[i].connection_counter),
        actss[j][1] == ActV::SpawnWorker(states[j].connection_counter),
        // and those ids strictly increase
        states[i].connection_counter < states[j].connection_counter,
{
    assert(connect_post(states[i], states[i + 1], events[i], actss[i], sts[i]));
    assert(connect_post(states[j], states[j + 1], events[j], actss[j], sts[j]));
    assert(states[i + 1].connection_counter == states[i].connection_counter + 1);
    lemma_counter_monotone(states, events, actss, sts, i + 1, j);
}

} // verus!
