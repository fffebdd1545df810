//! The serve-side forwarding session machine.
//!
//! The serve role offers its allowed targets, then answers the peer's
//! `connect` requests by dialing local targets and pumping bytes both ways.
//! This module holds the decisions: one step consumes one event (a frame
//! from the peer, an item from the back-channel of the local reader workers,
//! or the result of a dial or local write) and returns the actions to
//! perform.  The I/O driver owns the sockets and tasks.
//!
//! The burn rule lives here: an id named by a `connect` enters the historic
//! set at once and stays there, so later traffic for it is at worst a
//! benign close race, never a protocol error; traffic for an id never
//! announced is a protocol error.

use vstd::prelude::*;
use crate::error::ForwardingError;
use crate::idset::IdSet;
use crate::peermsg::{msg_enc, parse_msg, variant_name, variant_string, MsgV, PeerMessage};
use crate::session::{act_models, cancels, disc_frame, not_found_string, ActV, SessionAction, SessionStatus, Step};
use crate::strutil::{dec_chars, u64_to_dec};
use crate::target::{dial_addr, dial_addr_chars, key_lookup, TargetMap};

verus! {

/// One event the I/O driver feeds into the serve machine.
#[derive(Debug)]
pub enum ServeEvent {
    /// A framed message arrived from the transit channel.
    Frame(Vec<u8>),
    /// The transit input ended; equivalent to a `close`.
    PeerGone,
    /// An item from the back-channel: bytes a local reader produced, or
    /// `None` when that connection's local side closed.
    Local(u64, Option<Vec<u8>>),
    /// A dial the machine asked for finished, successfully or not.
    DialDone(u64, bool),
    /// A local write the machine asked for finished, successfully or not.
    WriteDone(u64, bool),
}

/// What the machine may assume of an event: back-channel payloads fit a
/// wire frame (local reads are 4 KiB).
pub open spec fn serve_event_wf(e: ServeEvent) -> bool {
    match e {
        ServeEvent::Local(_, Some(p)) => p@.len() < 0x1_0000_0000,
        _ => true,
    }
}

/// The error text for a connection id that is neither live nor historic.
pub open spec fn not_found_msg(id: u64) -> Seq<char> {
    "Connection '"@ + dec_chars(id as nat) + "' not found"@
}

/// The error text for a `connect` naming an id that is already live.
pub open spec fn exists_msg(id: u64) -> Seq<char> {
    "Connection '"@ + dec_chars(id as nat) + "' already exists"@
}

/// The error text for a `connect` naming an unknown target.
pub open spec fn unknown_target_msg(t: Seq<char>) -> Seq<char> {
    "We don't know forwarding target '"@ + t + "'"@
}

/// What the serve loop expects when something else arrives.
pub open spec fn serve_expected_msg() -> Seq<char> {
    "connect' or 'disconnect' or 'forward' or 'close"@
}

/// The serve machine: the offered targets, the live connections, and every
/// id ever named by a `connect`.
#[derive(Debug)]
pub struct ServeState {
    pub targets: TargetMap,
    pub live: IdSet,
    pub historic: IdSet,
}

impl ServeState {
    /// The sets are well formed, the map has no duplicate key, and every
    /// live id has been announced.
    pub open spec fn wf(&self) -> bool {
        &&& self.targets.wf()
        &&& self.live.wf()
        &&& self.historic.wf()
        &&& self.live@.subset_of(self.historic@)
    }

    /// A fresh machine for the given target map: nothing live, nothing
    /// historic.
    pub fn new(targets: TargetMap) -> (r: ServeState)
        requires
            targets.wf(),
        ensures
            r.wf(),
            r.targets@ == targets@,
            r.live@ == Set::<u64>::empty(),
            r.historic@ == Set::<u64>::empty(),
    {
        ServeState { targets, live: IdSet::new(), historic: IdSet::new() }
    }
}

/// Neither set changed.
pub open spec fn serve_unchanged(pre: ServeState, post: ServeState) -> bool {
    post.live@ == pre.live@ && post.historic@ == pre.historic@
}

/// The step ended the session: every worker that was live got a cancel (in
/// set order), and nothing stays live.
pub open spec fn serve_ended(pre: ServeState, post: ServeState, acts: Seq<ActV>) -> bool {
    &&& acts == cancels(pre.live.seq())
    &&& post.live@ == Set::<u64>::empty()
    &&& post.historic@ == pre.historic@
}

/// A local teardown that tells the peer: the `disconnect` frame goes out
/// first, then the worker is cancelled if one was live; an id that is
/// neither live nor historic is a protocol error.
pub open spec fn serve_removal_with_tell(
    pre: ServeState,
    post: ServeState,
    id: u64,
    acts: Seq<ActV>,
    st: SessionStatus,
) -> bool {
    let disc = ActV::SendPeer(msg_enc(MsgV::Disconnect { connection_id: id }));
    if pre.live@.contains(id) {
        &&& st is Continue
        &&& acts == seq![disc, ActV::CancelWorker(id)]
        &&& post.live@ == pre.live@.remove(id)
        &&& post.historic@ == pre.historic@
    } else if pre.historic@.contains(id) {
        &&& st is Continue
        &&& acts == seq![disc]
        &&& serve_unchanged(pre, post)
    } else {
        &&& st matches SessionStatus::Failed(ForwardingError::Protocol(t)) && t@ == not_found_msg(
            id,
        )
        &&& acts == seq![disc] + cancels(pre.live.seq())
        &&& post.live@ == Set::<u64>::empty()
        &&& post.historic@ == pre.historic@
    }
}

/// Everything one serve step does, for every event.
pub open spec fn serve_post(
    pre: ServeState,
    post: ServeState,
    e: ServeEvent,
    acts: Seq<ActV>,
    st: SessionStatus,
) -> bool {
    &&& post.targets@ == pre.targets@
    &&& pre.historic@.subset_of(post.historic@)
    &&& match e {
        ServeEvent::Frame(bytes) => match parse_msg(bytes@) {
            None => {
                &&& st matches SessionStatus::Failed(ForwardingError::ProtocolMsgpack(_))
                &&& serve_ended(pre, post, acts)
            },
            Some(mv) => match mv {
                MsgV::Forward { connection_id: id, payload } => {
                    if pre.live@.contains(id) {
                        &&& st is Continue
                        &&& acts == seq![ActV::WriteLocal(id, payload)]
                        &&& serve_unchanged(pre, post)
                    } else if pre.historic@.contains(id) {
                        &&& st is Continue
                        &&& acts.len() == 0
                        &&& serve_unchanged(pre, post)
                    } else {
                        &&& st matches SessionStatus::Failed(ForwardingError::Protocol(t)) && t@
                            == not_found_msg(id)
                        &&& serve_ended(pre, post, acts)
                    }
                },
                MsgV::Connect { target, connection_id: id } => {
                    &&& post.historic@ == pre.historic@.insert(id)
                    &&& match key_lookup(pre.targets@, target) {
                        None => {
                            &&& st matches SessionStatus::Failed(ForwardingError::Protocol(t))
                                && t@ == unknown_target_msg(target)
                            &&& acts == cancels(pre.live.seq())
                            &&& post.live@ == Set::<u64>::empty()
                        },
                        Some(hp) => {
                            if pre.live@.contains(id) {
                                &&& st matches SessionStatus::Failed(ForwardingError::Protocol(t))
                                    && t@ == exists_msg(id)
                                &&& acts == cancels(pre.live.seq())
                                &&& post.live@ == Set::<u64>::empty()
                            } else {
                                &&& st is Continue
                                &&& acts == seq![ActV::Dial(id, dial_addr_chars(hp.0, hp.1))]
                                &&& post.live@ == pre.live@
                            }
                        },
                    }
                },
                MsgV::Disconnect { connection_id: id } => {
                    if pre.live@.contains(id) {
                        &&& st is Continue
                        &&& acts == seq![ActV::CancelWorker(id)]
                        &&& post.live@ == pre.live@.remove(id)
                        &&& post.historic@ == pre.historic@
                    } else if pre.historic@.contains(id) {
                        &&& st is Continue
                        &&& acts.len() == 0
                        &&& serve_unchanged(pre, post)
                    } else {
                        &&& st matches SessionStatus::Failed(ForwardingError::Protocol(t)) && t@
                            == not_found_msg(id)
                        &&& serve_ended(pre, post, acts)
                    }
                },
                MsgV::Close => {
                    &&& st is Done
                    &&& serve_ended(pre, post, acts)
                },
                MsgV::Error { text } => {
                    &&& st matches SessionStatus::Failed(ForwardingError::PeerError(t)) && t@
                        == text
                    &&& serve_ended(pre, post, acts)
                },
                _ => {
                    &&& st matches SessionStatus::Failed(
                        ForwardingError::ProtocolUnexpectedMessage(exp, got),
                    ) && exp@ == serve_expected_msg() && got@ == variant_name(mv)
                    &&& serve_ended(pre, post, acts)
                },
            },
        },
        ServeEvent::PeerGone => {
            &&& st is Done
            &&& serve_ended(pre, post, acts)
        },
        ServeEvent::Local(id, op) => match op {
            Some(p) => {
                &&& st is Continue
                &&& acts == seq![
                    ActV::SendPeer(msg_enc(MsgV::Forward { connection_id: id, payload: p@ })),
                ]
                &&& serve_unchanged(pre, post)
            },
            None => serve_removal_with_tell(pre, post, id, acts, st),
        },
        ServeEvent::DialDone(id, ok) => {
            if ok {
                &&& st is Continue
                &&& acts == seq![ActV::SpawnWorker(id)]
                &&& post.live@ == pre.live@.insert(id)
                &&& post.historic@ == pre.historic@.insert(id)
            } else {
                &&& st is Continue
                &&& acts == seq![ActV::SendPeer(msg_enc(MsgV::Disconnect { connection_id: id }))]
                &&& serve_unchanged(pre, post)
            }
        },
        ServeEvent::WriteDone(id, ok) => {
            if ok {
                &&& st is Continue
                &&& acts.len() == 0
                &&& serve_unchanged(pre, post)
            } else {
                serve_removal_with_tell(pre, post, id, acts, st)
            }
        },
    }
}

/// Builds the text of [`exists_msg`].
fn exists_string(id: u64) -> (r: String)
    ensures
        r@ == exists_msg(id),
{
    let mut m = String::from_str("Connection '");
    let d = u64_to_dec(id);
    m.append(d.as_str());
    m.append("' already exists");
    proof {
        assert(m@ =~= exists_msg(id));
    }
    m
}

/// Builds the text of [`unknown_target_msg`].
fn unknown_target_string(t: &String) -> (r: String)
    ensures
        r@ == unknown_target_msg(t@),
{
    let mut m = String::from_str("We don't know forwarding target '");
    m.append(t.as_str());
    m.append("'");
    proof {
        assert(m@ =~= unknown_target_msg(t@));
    }
    m
}

impl ServeState {
    /// Cancels every live worker and empties the live set.
    pub fn shutdown(&mut self) -> (acts: Vec<SessionAction>)
        requires
            old(self).wf(),
        ensures
            final(self).wf(),
            act_models(acts@) == cancels(old(self).live.seq()),
            final(self).live@ == Set::<u64>::empty(),
            final(self).historic@ == old(self).historic@,
            final(self).historic.seq() == old(self).historic.seq(),
            final(self).targets@ == old(self).targets@,
    {
        let ids = self.live.to_vec();
        let mut acts: Vec<SessionAction> = Vec::new();
        let mut i: usize = 0;
        proof {
            assert(act_models(acts@) =~= cancels(ids@.subrange(0, 0)));
        }
        while i < ids.len()
            invariant
                0 <= i <= ids@.len(),
                act_models(acts@) == cancels(ids@.subrange(0, i as int)),
            decreases ids@.len() - i,
        {
            let ghost prev = acts@;
            acts.push(SessionAction::CancelWorker(ids[i]));
            proof {
                prev.lemma_push_map_commute(
                    |a: SessionAction| a@,
                    SessionAction::CancelWorker(ids@[i as int]),
                );
                assert(ids@.subrange(0, i + 1).drop_last() =~= ids@.subrange(0, i as int));
                let ghost sub = ids@.subrange(0, i + 1);
                sub.drop_last().lemma_push_map_commute(
                    |id: u64| ActV::CancelWorker(id),
                    sub.last(),
                );
                assert(sub.drop_last().push(sub.last()) =~= sub);
                assert(act_models(acts@) =~= cancels(ids@.subrange(0, i + 1)));
            }
            i += 1;
        }
        proof {
            assert(ids@.subrange(0, ids@.len() as int) =~= ids@);
        }
        self.live = IdSet::new();
        acts
    }

    /// The decision for a `forward` frame: write to the live connection,
    /// ignore a benign close race, or report an unknown id.
    pub fn forward(&self, connection_id: u64, payload: Vec<u8>) -> (r: Result<
        Vec<SessionAction>,
        ForwardingError,
    >)
        requires
            self.wf(),
        ensures
            match r {
                Ok(acts) => {
                    if self.live@.contains(connection_id) {
                        act_models(acts@) == seq![ActV::WriteLocal(connection_id, payload@)]
                    } else {
                        self.historic@.contains(connection_id) && acts@.len() == 0
                    }
                },
                Err(e) => {
                    &&& !self.live@.contains(connection_id)
                    &&& !self.historic@.contains(connection_id)
                    &&& e matches ForwardingError::Protocol(t) && t@ == not_found_msg(
                        connection_id,
                    )
                },
            },
    {
        if self.live.contains(connection_id) {
            let mut acts: Vec<SessionAction> = Vec::new();
            acts.push(SessionAction::WriteLocal(connection_id, payload));
            proof {
                assert(act_models(acts@) =~= seq![
                    ActV::WriteLocal(connection_id, acts@[0]->WriteLocal_1@),
                ]);
            }
            Ok(acts)
        } else if self.historic.contains(connection_id) {
            Ok(Vec::new())
        } else {
            Err(ForwardingError::Protocol(not_found_string(connection_id)))
        }
    }

    /// The decision for tearing one connection down: emit `disconnect` when
    /// the peer must hear of it, cancel the worker if one is live, and
    /// report an id that was never announced.
    pub fn remove_connection(&mut self, connection_id: u64, tell_peer: bool) -> (r: (
        Vec<SessionAction>,
        Option<ForwardingError>,
    ))
        requires
            old(self).wf(),
        ensures
            final(self).wf(),
            final(self).targets@ == old(self).targets@,
            final(self).historic@ == old(self).historic@,
            !old(self).live@.contains(connection_id) ==> final(self).live.seq() == old(
                self,
            ).live.seq(),
            ({
                let disc = ActV::SendPeer(msg_enc(MsgV::Disconnect { connection_id }));
                let tell: Seq<ActV> = if tell_peer {
                    seq![disc]
                } else {
                    Seq::empty()
                };
                if old(self).live@.contains(connection_id) {
                    &&& r.1 is None
                    &&& act_models(r.0@) == tell + seq![ActV::CancelWorker(connection_id)]
                    &&& final(self).live@ == old(self).live@.remove(connection_id)
                } else if old(self).historic@.contains(connection_id) {
                    &&& r.1 is None
                    &&& act_models(r.0@) == tell
                    &&& final(self).live@ == old(self).live@
                } else {
                    &&& r.1 matches Some(ForwardingError::Protocol(t)) && t@ == not_found_msg(
                        connection_id,
                    )
                    &&& act_models(r.0@) == tell
                    &&& final(self).live@ == old(self).live@
                }
            }),
    {
        let mut acts: Vec<SessionAction> = Vec::new();
        if tell_peer {
            acts.push(SessionAction::SendPeer(disc_frame(connection_id)));
        }
        let ghost tell_acts = acts@;
        if self.live.contains(connection_id) {
            self.live.remove(connection_id);
            acts.push(SessionAction::CancelWorker(connection_id));
            proof {
                tell_acts.lemma_push_map_commute(
                    |a: SessionAction| a@,
                    SessionAction::CancelWorker(connection_id),
                );
                assert(act_models(acts@) =~= act_models(tell_acts) + seq![
                    ActV::CancelWorker(connection_id),
                ]);
                if tell_peer {
                    assert(act_models(tell_acts) =~= seq![
                        ActV::SendPeer(msg_enc(MsgV::Disconnect { connection_id })),
                    ]);
                } else {
                    assert(act_models(tell_acts) =~= Seq::<ActV>::empty());
                }
            }
            (acts, None)
        } else if self.historic.contains(connection_id) {
            proof {
                if tell_peer {
                    assert(act_models(acts@) =~= seq![
                        ActV::SendPeer(msg_enc(MsgV::Disconnect { connection_id })),
                    ]);
                } else {
                    assert(act_models(acts@) =~= Seq::<ActV>::empty());
                }
            }
            (acts, None)
        } else {
            proof {
                if tell_peer {
                    assert(act_models(acts@) =~= seq![
                        ActV::SendPeer(msg_enc(MsgV::Disconnect { connection_id })),
                    ]);
                } else {
                    assert(act_models(acts@) =~= Seq::<ActV>::empty());
                }
            }
            (acts, Some(ForwardingError::Protocol(not_found_string(connection_id))))
        }
    }

    /// The decision for a `connect` frame whose id is already burned: check
    /// the target, refuse a duplicate id, and ask the driver to dial.
    pub fn spawn_connection(&mut self, target: &String, connection_id: u64) -> (r: Result<
        Vec<SessionAction>,
        ForwardingError,
    >)
        requires
            old(self).wf(),
        ensures
            final(self).wf(),
            *final(self) == *old(self),
            match r {
                Ok(acts) => {
                    &&& key_lookup(old(self).targets@, target@) matches Some(hp) && act_models(
                        acts@,
                    ) == seq![ActV::Dial(connection_id, dial_addr_chars(hp.0, hp.1))]
                    &&& !old(self).live@.contains(connection_id)
                },
                Err(e) => match key_lookup(old(self).targets@, target@) {
                    None => e matches ForwardingError::Protocol(t) && t@ == unknown_target_msg(
                        target@,
                    ),
                    Some(_) => {
                        &&& old(self).live@.contains(connection_id)
                        &&& e matches ForwardingError::Protocol(t) && t@ == exists_msg(
                            connection_id,
                        )
                    },
                },
            },
    {
        match self.targets.lookup(target) {
            None => Err(ForwardingError::Protocol(unknown_target_string(target))),
            Some((host, port)) => {
                if self.live.contains(connection_id) {
                    Err(ForwardingError::Protocol(exists_string(connection_id)))
                } else {
                    let addr = dial_addr(&host, port);
                    let mut acts: Vec<SessionAction> = Vec::new();
                    acts.push(SessionAction::Dial(connection_id, addr));
                    proof {
                        assert(act_models(acts@) =~= seq![
                            ActV::Dial(connection_id, acts@[0]->Dial_1@),
                        ]);
                    }
                    Ok(acts)
                }
            },
        }
    }

    /// One step of the serve session loop.
    pub fn handle_event(&mut self, e: ServeEvent) -> (r: Step)
        requires
            old(self).wf(),
            serve_event_wf(e),
        ensures
            final(self).wf(),
            serve_post(*old(self), *final(self), e, act_models(r.actions@), r.status),
    {
        match e {
            ServeEvent::Frame(bytes) => {
                match PeerMessage::de_msgpack(bytes.as_slice()) {
                    Err(de) => {
                        let acts = self.shutdown();
                        Step {
                            actions: acts,
                            status: SessionStatus::Failed(ForwardingError::ProtocolMsgpack(de)),
                        }
                    },
                    Ok(m) => match m {
                        PeerMessage::Forward { connection_id, payload } => {
                            match self.forward(connection_id, payload) {
                                Ok(acts) => Step { actions: acts, status: SessionStatus::Continue },
                                Err(err) => {
                                    let acts = self.shutdown();
                                    Step { actions: acts, status: SessionStatus::Failed(err) }
                                },
                            }
                        },
                        PeerMessage::Connect { target, connection_id } => {
                            self.historic.insert(connection_id);
                            proof {
                                assert(self.live@.subset_of(self.historic@));
                            }
                            match self.spawn_connection(&target, connection_id) {
                                Ok(acts) => Step { actions: acts, status: SessionStatus::Continue },
                                Err(err) => {
                                    let acts = self.shutdown();
                                    Step { actions: acts, status: SessionStatus::Failed(err) }
                                },
                            }
                        },
                        PeerMessage::Disconnect { connection_id } => {
                            let (acts, err) = self.remove_connection(connection_id, false);
                            proof {
                                assert(Seq::<ActV>::empty() + seq![
                                    ActV::CancelWorker(connection_id),
                                ] =~= seq![ActV::CancelWorker(connection_id)]);
                            }
                            match err {
                                None => Step { actions: acts, status: SessionStatus::Continue },
                                Some(err) => {
                                    let acts2 = self.shutdown();
                                    Step { actions: acts2, status: SessionStatus::Failed(err) }
                                },
                            }
                        },
                        PeerMessage::Close => {
                            let acts = self.shutdown();
                            Step { actions: acts, status: SessionStatus::Done }
                        },
                        PeerMessage::Error(text) => {
                            let acts = self.shutdown();
                            Step {
                                actions: acts,
                                status: SessionStatus::Failed(ForwardingError::PeerError(text)),
                            }
                        },
                        other => {
                            let got = variant_string(&other);
                            let acts = self.shutdown();
                            Step {
                                actions: acts,
                                status: SessionStatus::Failed(
                                    ForwardingError::ProtocolUnexpectedMessage(
                                        String::from_str(
                                            "connect' or 'disconnect' or 'forward' or 'close",
                                        ),
                                        got,
                                    ),
                                ),
                            }
                        },
                    },
                }
            },
            ServeEvent::PeerGone => {
                let acts = self.shutdown();
                Step { actions: acts, status: SessionStatus::Done }
            },
            ServeEvent::Local(id, op) => match op {
                Some(p) => {
                    let m = PeerMessage::Forward { connection_id: id, payload: p };
                    let frame = m.ser_msgpack();
                    let mut acts: Vec<SessionAction> = Vec::new();
                    acts.push(SessionAction::SendPeer(frame));
                    proof {
                        assert(act_models(acts@) =~= seq![ActV::SendPeer(acts@[0]->SendPeer_0@)]);
                    }
                    Step { actions: acts, status: SessionStatus::Continue }
                },
                None => {
                    let (acts, err) = self.remove_connection(id, true);
                    proof {
                        let disc = ActV::SendPeer(msg_enc(MsgV::Disconnect { connection_id: id }));
                        assert(seq![disc] + seq![ActV::CancelWorker(id)] =~= seq![
                            disc,
                            ActV::CancelWorker(id),
                        ]);
                    }
                    match err {
                        None => Step { actions: acts, status: SessionStatus::Continue },
                        Some(err) => {
                            let mut acts = acts;
                            proof {
                                assert(!old(self).live@.contains(id));
                            }
                            let ghost mid = *self;
                            let mut rest = self.shutdown();
                            let ghost before = acts@;
                            let ghost rest0 = rest@;
                            acts.append(&mut rest);
                            proof {
                                crate::session::lemma_act_models_concat(before, rest0);
                                let disc = ActV::SendPeer(
                                    msg_enc(MsgV::Disconnect { connection_id: id }),
                                );
                                assert(act_models(before) == seq![disc]);
                                assert(mid.live.seq() == old(self).live.seq());
                                assert(act_models(rest0) == cancels(mid.live.seq()));
                                assert(act_models(acts@) == seq![disc] + cancels(
                                    old(self).live.seq(),
                                ));
                            }
                            Step { actions: acts, status: SessionStatus::Failed(err) }
                        },
                    }
                },
            },
            ServeEvent::DialDone(id, ok) => {
                if ok {
                    self.historic.insert(id);
                    self.live.insert(id);
                    proof {
                        assert(self.live@.subset_of(self.historic@));
                    }
                    let mut acts: Vec<SessionAction> = Vec::new();
                    acts.push(SessionAction::SpawnWorker(id));
                    proof {
                        assert(act_models(acts@) =~= seq![ActV::SpawnWorker(id)]);
                    }
                    Step { actions: acts, status: SessionStatus::Continue }
                } else {
                    let mut acts: Vec<SessionAction> = Vec::new();
                    acts.push(SessionAction::SendPeer(disc_frame(id)));
                    proof {
                        assert(act_models(acts@) =~= seq![ActV::SendPeer(acts@[0]->SendPeer_0@)]);
                    }
                    Step { actions: acts, status: SessionStatus::Continue }
                }
            },
            ServeEvent::WriteDone(id, ok) => {
                if ok {
                    Step { actions: Vec::new(), status: SessionStatus::Continue }
                } else {
                    let (acts, err) = self.remove_connection(id, true);
                    proof {
                        let disc = ActV::SendPeer(msg_enc(MsgV::Disconnect { connection_id: id }));
                        assert(seq![disc] + seq![ActV::CancelWorker(id)] =~= seq![
                            disc,
                            ActV::CancelWorker(id),
                        ]);
                    }
                    match err {
                        None => Step { actions: acts, status: SessionStatus::Continue },
                        Some(err) => {
                            let mut acts = acts;
                            proof {
                                assert(!old(self).live@.contains(id));
                            }
                            let ghost mid = *self;
                            let mut rest = self.shutdown();
                            let ghost before = acts@;
                            let ghost rest0 = rest@;
                            acts.append(&mut rest);
                            proof {
                                crate::session::lemma_act_models_concat(before, rest0);
                                let disc = ActV::SendPeer(
                                    msg_enc(MsgV::Disconnect { connection_id: id }),
                                );
                                assert(act_models(before) == seq![disc]);
                                assert(mid.live.seq() == old(self).live.seq());
                                assert(act_models(rest0) == cancels(mid.live.seq()));
                                assert(act_models(acts@) == seq![disc] + cancels(
                                    old(self).live.seq(),
                                ));
                            }
                            Step { actions: acts, status: SessionStatus::Failed(err) }
                        },
                    }
                }
            },
        }
    }
}

/// A run of the serve machine: consecutive states, one event with its
/// actions and status between each pair, each step obeying [`serve_post`].
pub open spec fn serve_run(
    states: Seq<ServeState>,
    events: Seq<ServeEvent>,
    actss: Seq<Seq<ActV>>,
    sts: Seq<SessionStatus>,
) -> bool {
    &&& states.len() == events.len() + 1
    &&& actss.len() == events.len()
    &&& sts.len() == events.len()
    &&& forall|k: int|
        0 <= k < events.len() ==> serve_post(
            states[k],
            states[k + 1],
            #[trigger] events[k],
            actss[k],
            sts[k],
        )
}

/// Membership in the historic set is monotonic for the life of a session:
/// an id once burned stays burned over any run.
pub proof fn lemma_historic_only_grows(
    states: Seq<ServeState>,
    events: Seq<ServeEvent>,
    actss: Seq<Seq<ActV>>,
    sts: Seq<SessionStatus>,
    a: int,
    b: int,
)
    requires
        serve_run(states, events, actss, sts),
        0 <= a <= b <= events.len(),
    ensures
        states[a].historic@.subset_of(states[b].historic@),
    decreases b - a,
{
    if a < b {
        assert(serve_post(states[a], states[a + 1], events[a], actss[a], sts[a]));
        lemma_historic_only_grows(states, events, actss, sts, a + 1, b);
        assert forall|id: u64| states[a].historic@.contains(id) implies states[b].historic@.contains(
            id,
        ) by {
            assert(states[a + 1].historic@.contains(id));
        }
    }
}

/// Close propagation: a `close` frame, or the end of the transit stream,
/// ends the session cleanly with one cancel per worker that was live.
pub proof fn lemma_close_cancels_all(
    pre: ServeState,
    post: ServeState,
    e: ServeEvent,
    acts: Seq<ActV>,
    st: SessionStatus,
)
    requires
        serve_post(pre, post, e, acts, st),
        (e matches ServeEvent::Frame(f) && parse_msg(f@) == Some(MsgV::Close)) || e
            is PeerGone,
    ensures
        st is Done,
        acts == cancels(pre.live.seq()),
        post.live@ == Set::<u64>::empty(),
{
}

/// The burn rule: once an id stands in the historic set, a `forward` or
/// `disconnect` naming it is never a protocol error — at worst it is
/// ignored as a close race — while a `forward` for an id never announced is
/// one.  [`ServeState::forward`] errs exactly on unannounced ids, and every
/// step only grows the historic set.
pub proof fn lemma_burn_rule(
    pre: ServeState,
    post: ServeState,
    e: ServeEvent,
    acts: Seq<ActV>,
    st: SessionStatus,
    id: u64,
    payload: Seq<u8>,
)
    requires
        pre.wf(),
        serve_post(pre, post, e, acts, st),
        pre.historic@.contains(id),
        e matches ServeEvent::Frame(f) && (parse_msg(f@) == Some(
            MsgV::Forward { connection_id: id, payload },
        ) || parse_msg(f@) == Some(MsgV::Disconnect { connection_id: id })),
    ensures
        st is Continue,
        post.historic@.contains(id),
{
}

/// The other half of the burn rule: a `forward` for an id never announced
/// raises a protocol error.
pub proof fn lemma_unannounced_forward_errs(
    pre: ServeState,
    post: ServeState,
    e: ServeEvent,
    acts: Seq<ActV>,
    st: SessionStatus,
    id: u64,
    payload: Seq<u8>,
)
    requires
        pre.wf(),
        serve_post(pre, post, e, acts, st),
        !pre.historic@.contains(id),
        e matches ServeEvent::Frame(f) && parse_msg(f@) == Some(
            MsgV::Forward { connection_id: id, payload },
        ),
    ensures
        st matches SessionStatus::Failed(ForwardingError::Protocol(t)) && t@ == not_found_msg(id),
{
    assert(!pre.live@.contains(id));
}

} // verus!
