//! The rendezvous client state machine.
//!
//! It manages one logical broker websocket: opening it, sending the bind
//! message once connected, scheduling a single-shot reconnect timer when the
//! connection drops, and shutting down on `stop`.  The machine is driven by
//! events from an I/O layer and pushes the side effects it wants performed
//! onto a FIFO of [`Action`]s; it does no I/O itself.
//!
//! Every exec method is specified against the mathematical transition
//! function [`step`]; an event arriving in a state with no transition is a
//! programming error, reported as [`TransitionError`] with no action emitted.

use vstd::prelude::*;
use std::collections::VecDeque;
use crate::strutil::{json_quoted, json_quote, lower_of, lowercase};

verus! {

/// Identifies one websocket that the I/O layer was asked to open.
#[derive(Clone, Copy, Debug, PartialEq, Eq, Structural)]
pub struct WSHandle {
    pub id: u32,
}

/// Identifies one timer that the I/O layer was asked to start.
#[derive(Clone, Copy, Debug, PartialEq, Eq, Structural)]
pub struct TimerHandle {
    pub id: u32,
}

/// The handle used for the first websocket.
pub const FIRST_WS_ID: u32 = 1;

/// The handle used for a websocket opened after a reconnect delay.
pub const RETRY_WS_ID: u32 = 2;

/// The handle used for the reconnect timer.
pub const RECONNECT_TIMER_ID: u32 = 2;

/// The connection lifecycle states of the client.
#[derive(Clone, Copy, Debug, PartialEq, Eq, Structural)]
pub enum State {
    Idle,
    Connecting,
    Connected,
    Waiting,
    Disconnecting,
    Stopped,
}

/// A side effect the I/O layer must perform; the timer delay is in
/// milliseconds.
#[derive(Debug)]
pub enum Action {
    WebSocketOpen(WSHandle, String),
    WebSocketSendMessage(WSHandle, String),
    WebSocketClose(WSHandle),
    StartTimer(TimerHandle, u64),
    CancelTimer(TimerHandle),
}

/// An event the I/O layer reports to the machine.
#[derive(Clone, Copy, Debug, PartialEq, Eq, Structural)]
pub enum Event {
    Start,
    ConnectionMade,
    ConnectionLost,
    TimerExpired,
    Stop,
}

/// The mathematical image of an [`Action`].
pub enum ActionModel {
    Open(WSHandle, Seq<char>),
    Send(WSHandle, Seq<char>),
    CloseWs(WSHandle),
    StartTimer(TimerHandle, u64),
    CancelTimer(TimerHandle),
}

impl View for Action {
    type V = ActionModel;

    open spec fn view(&self) -> ActionModel {
        match self {
            Action::WebSocketOpen(h, u) => ActionModel::Open(*h, u@),
            Action::WebSocketSendMessage(h, m) => ActionModel::Send(*h, m@),
            Action::WebSocketClose(h) => ActionModel::CloseWs(*h),
            Action::StartTimer(h, ms) => ActionModel::StartTimer(*h, *ms),
            Action::CancelTimer(h) => ActionModel::CancelTimer(*h),
        }
    }
}

/// The mathematical image of a [`Rendezvous`].
#[verifier::ext_equal]
pub struct RdvModel {
    pub state: State,
    pub url: Seq<char>,
    pub appid: Seq<char>,
    pub retry_ms: u64,
    pub connected_once: bool,
    pub timer: Option<TimerHandle>,
    pub wsh: WSHandle,
}

/// The bind message sent on entering `Connected`: a JSON object with the
/// type tag, the application id, and this endpoint's side token.
pub open spec fn bind_msg(appid: Seq<char>) -> Seq<char> {
    "{\"type\":\"bind\",\"appid\":"@ + json_quoted(appid) + ",\"side\":\"side1\"}"@
}

/// The transition function: what one event does in one state.  `None` means
/// the pair is a programming error and the machine must not move.
pub open spec fn step(m: RdvModel, e: Event) -> Option<(RdvModel, Seq<ActionModel>)> {
    match e {
        Event::Start => match m.state {
            State::Idle => Some(
                (
                    RdvModel { state: State::Connecting, ..m },
                    seq![ActionModel::Open(m.wsh, lower_of(m.url))],
                ),
            ),
            _ => None,
        },
        Event::ConnectionMade => match m.state {
            State::Connecting => Some(
                (
                    RdvModel { state: State::Connected, connected_once: true, ..m },
                    seq![ActionModel::Send(m.wsh, bind_msg(m.appid))],
                ),
            ),
            _ => None,
        },
        Event::ConnectionLost => match m.state {
            State::Connecting | State::Connected => Some(
                (
                    RdvModel {
                        state: State::Waiting,
                        timer: Some(TimerHandle { id: RECONNECT_TIMER_ID }),
                        ..m
                    },
                    seq![
                        ActionModel::StartTimer(TimerHandle { id: RECONNECT_TIMER_ID }, m.retry_ms)
                    ],
                ),
            ),
            State::Disconnecting => Some((RdvModel { state: State::Stopped, ..m }, Seq::empty())),
            _ => None,
        },
        Event::TimerExpired => match m.state {
            State::Waiting => Some(
                (
                    RdvModel {
                        state: State::Connecting,
                        wsh: WSHandle { id: RETRY_WS_ID },
                        ..m
                    },
                    seq![ActionModel::Open(WSHandle { id: RETRY_WS_ID }, lower_of(m.url))],
                ),
            ),
            _ => None,
        },
        Event::Stop => match m.state {
            State::Idle | State::Stopped => Some(
                (RdvModel { state: State::Stopped, ..m }, Seq::empty()),
            ),
            State::Connecting | State::Connected => Some(
                (
                    RdvModel { state: State::Disconnecting, ..m },
                    seq![ActionModel::CloseWs(m.wsh)],
                ),
            ),
            State::Waiting => match m.timer {
                Some(t) => Some(
                    (RdvModel { state: State::Stopped, ..m }, seq![ActionModel::CancelTimer(t)]),
                ),
                None => None,
            },
            State::Disconnecting => None,
        },
    }
}

/// In `Waiting` a reconnect timer is always pending.
pub open spec fn model_wf(m: RdvModel) -> bool {
    m.state == State::Waiting ==> m.timer is Some
}

/// The machine as created: `Idle`, never connected, no timer.
pub open spec fn init_model(appid: Seq<char>, url: Seq<char>, retry_ms: u64) -> RdvModel {
    RdvModel {
        state: State::Idle,
        url: url,
        appid: appid,
        retry_ms: retry_ms,
        connected_once: false,
        timer: None,
        wsh: WSHandle { id: FIRST_WS_ID },
    }
}

/// The mathematical image of an action queue.
pub open spec fn models(s: Seq<Action>) -> Seq<ActionModel> {
    s.map_values(|a: Action| a@)
}

/// How one exec event call relates to [`step`]: on a legal transition the
/// machine moves and appends exactly the emitted actions; on an illegal one
/// it reports an error, stays put, and appends nothing.
pub open spec fn evolves(
    pre: RdvModel,
    post: RdvModel,
    pre_acts: Seq<ActionModel>,
    post_acts: Seq<ActionModel>,
    e: Event,
    r: Result<(), TransitionError>,
) -> bool {
    match step(pre, e) {
        Some(sa) => r is Ok && post == sa.0 && post_acts == pre_acts + sa.1,
        None => r is Err && post == pre && post_acts == pre_acts,
    }
}

/// A state-machine violation: `event` arrived while the machine was in
/// `from`, a pair with no transition.  Always a bug in the caller.
#[derive(Clone, Copy, Debug, PartialEq, Eq, Structural)]
pub struct TransitionError {
    pub from: State,
    pub event: Event,
}

impl TransitionError {
    /// A short description for reporting the bug.
    pub fn message(&self) -> (r: String)
        ensures
            r@ == "bad rendezvous state transition"@,
    {
        String::from_str("bad rendezvous state transition")
    }
}

/// The rendezvous client.  All I/O is delegated: methods append the side
/// effects they want performed onto the given action queue.
#[derive(Debug)]
pub struct Rendezvous {
    pub wsh: WSHandle,
    pub relay_url: String,
    pub retry_ms: u64,
    pub appid: String,
    pub state: State,
    pub connected_at_least_once: bool,
    pub reconnect_timer: Option<TimerHandle>,
}

impl View for Rendezvous {
    type V = RdvModel;

    open spec fn view(&self) -> RdvModel {
        RdvModel {
            state: self.state,
            url: self.relay_url@,
            appid: self.appid@,
            retry_ms: self.retry_ms,
            connected_once: self.connected_at_least_once,
            timer: self.reconnect_timer,
            wsh: self.wsh,
        }
    }
}

/// Creates a client in `Idle` for the given application id and broker url,
/// with a reconnect delay in milliseconds.
pub fn create(appid: &str, relay_url: &str, retry_ms: u64) -> (r: Rendezvous)
    ensures
        r@ == init_model(appid@, relay_url@, retry_ms),
{
    let r = Rendezvous {
        appid: String::from_str(appid),
        relay_url: String::from_str(relay_url),
        wsh: WSHandle { id: FIRST_WS_ID },
        retry_ms: retry_ms,
        state: State::Idle,
        connected_at_least_once: false,
        reconnect_timer: None,
    };
    proof {
        assert(r@ =~= init_model(appid@, relay_url@, retry_ms));
    }
    r
}

impl Rendezvous {
    /// The bind message for this client's application id.
    fn bind_message(&self) -> (r: String)
        ensures
            r@ == bind_msg(self.appid@),
    {
        let mut m = String::from_str("{\"type\":\"bind\",\"appid\":");
        let quoted = json_quote(self.appid.as_str());
        m.append(quoted.as_str());
        m.append(",\"side\":\"side1\"}");
        proof {
            assert(m@ =~= bind_msg(self.appid@));
        }
        m
    }

    /// Begin: open the websocket and move to `Connecting`.
    pub fn start(&mut self, actions: &mut VecDeque<Action>) -> (r: Result<(), TransitionError>)
        ensures
            evolves(
                old(self)@,
                final(self)@,
                models(old(actions)@),
                models(final(actions)@),
                Event::Start,
                r,
            ),
    {
        match self.state {
            State::Idle => {
                let url = lowercase(self.relay_url.as_str());
                actions.push_back(Action::WebSocketOpen(self.wsh, url));
                self.state = State::Connecting;
                proof {
                    let sa = step(old(self)@, Event::Start)->Some_0;
                    assert(self@ =~= sa.0);
                    assert(models(actions@) =~= models(old(actions)@) + sa.1);
                }
                Ok(())
            },
            _ => Err(TransitionError { from: self.state, event: Event::Start }),
        }
    }

    /// The websocket opened: send the bind message, move to `Connected`.
    pub fn connection_made(
        &mut self,
        actions: &mut VecDeque<Action>,
        _handle: WSHandle,
    ) -> (r: Result<(), TransitionError>)
        ensures
            evolves(
                old(self)@,
                final(self)@,
                models(old(actions)@),
                models(final(actions)@),
                Event::ConnectionMade,
                r,
            ),
    {
        match self.state {
            State::Connecting => {
                let bind = self.bind_message();
                actions.push_back(Action::WebSocketSendMessage(self.wsh, bind));
                self.state = State::Connected;
                self.connected_at_least_once = true;
                proof {
                    let sa = step(old(self)@, Event::ConnectionMade)->Some_0;
                    assert(self@ =~= sa.0);
                    assert(models(actions@) =~= models(old(actions)@) + sa.1);
                }
                Ok(())
            },
            _ => Err(TransitionError { from: self.state, event: Event::ConnectionMade }),
        }
    }

    /// The websocket dropped: schedule the single-shot reconnect timer, or
    /// finish stopping when a shutdown was under way.
    pub fn connection_lost(
        &mut self,
        actions: &mut VecDeque<Action>,
        _handle: WSHandle,
    ) -> (r: Result<(), TransitionError>)
        ensures
            evolves(
                old(self)@,
                final(self)@,
                models(old(actions)@),
                models(final(actions)@),
                Event::ConnectionLost,
                r,
            ),
    {
        match self.state {
            State::Connecting | State::Connected => {
                let new_handle = TimerHandle { id: RECONNECT_TIMER_ID };
                self.reconnect_timer = Some(new_handle);
                actions.push_back(Action::StartTimer(new_handle, self.retry_ms));
                self.state = State::Waiting;
                proof {
                    let sa = step(old(self)@, Event::ConnectionLost)->Some_0;
                    assert(self@ =~= sa.0);
                    assert(models(actions@) =~= models(old(actions)@) + sa.1);
                }
                Ok(())
            },
            State::Disconnecting => {
                self.state = State::Stopped;
                proof {
                    let sa = step(old(self)@, Event::ConnectionLost)->Some_0;
                    assert(self@ =~= sa.0);
                    assert(models(actions@) =~= models(old(actions)@) + sa.1);
                }
                Ok(())
            },
            _ => Err(TransitionError { from: self.state, event: Event::ConnectionLost }),
        }
    }

    /// The reconnect timer fired: open a fresh websocket.
    pub fn timer_expired(
        &mut self,
        actions: &mut VecDeque<Action>,
        _handle: TimerHandle,
    ) -> (r: Result<(), TransitionError>)
        ensures
            evolves(
                old(self)@,
                final(self)@,
                models(old(actions)@),
                models(final(actions)@),
                Event::TimerExpired,
                r,
            ),
    {
        match self.state {
            State::Waiting => {
                let new_handle = WSHandle { id: RETRY_WS_ID };
                let url = lowercase(self.relay_url.as_str());
                actions.push_back(Action::WebSocketOpen(new_handle, url));
                self.wsh = new_handle;
                self.state = State::Connecting;
                proof {
                    let sa = step(old(self)@, Event::TimerExpired)->Some_0;
                    assert(self@ =~= sa.0);
                    assert(models(actions@) =~= models(old(actions)@) + sa.1);
                }
                Ok(())
            },
            _ => Err(TransitionError { from: self.state, event: Event::TimerExpired }),
        }
    }

    /// Shut down from wherever the machine stands; a no-op when already
    /// `Idle` or `Stopped`.  During `Disconnecting` a close is already under
    /// way, so another `stop` is a programming error.
    pub fn stop(&mut self, actions: &mut VecDeque<Action>) -> (r: Result<(), TransitionError>)
        ensures
            evolves(
                old(self)@,
                final(self)@,
                models(old(actions)@),
                models(final(actions)@),
                Event::Stop,
                r,
            ),
    {
        match self.state {
            State::Idle | State::Stopped => {
                self.state = State::Stopped;
                proof {
                    let sa = step(old(self)@, Event::Stop)->Some_0;
                    assert(self@ =~= sa.0);
                    assert(models(actions@) =~= models(old(actions)@) + sa.1);
                }
                Ok(())
            },
            State::Connecting | State::Connected => {
                actions.push_back(Action::WebSocketClose(self.wsh));
                self.state = State::Disconnecting;
                proof {
                    let sa = step(old(self)@, Event::Stop)->Some_0;
                    assert(self@ =~= sa.0);
                    assert(models(actions@) =~= models(old(actions)@) + sa.1);
                }
                Ok(())
            },
            State::Waiting => {
                match self.reconnect_timer {
                    Some(t) => {
                        actions.push_back(Action::CancelTimer(t));
                        self.state = State::Stopped;
                        proof {
                            let sa = step(old(self)@, Event::Stop)->Some_0;
                            assert(self@ =~= sa.0);
                            assert(models(actions@) =~= models(old(actions)@) + sa.1);
                        }
                        Ok(())
                    },
                    None => Err(TransitionError { from: self.state, event: Event::Stop }),
                }
            },
            State::Disconnecting => Err(TransitionError { from: self.state, event: Event::Stop }),
        }
    }
}

/// A legal step out of a well-formed state lands in a well-formed state.
pub proof fn lemma_step_preserves_wf(m: RdvModel, e: Event)
    requires
        model_wf(m),
        step(m, e) is Some,
    ensures
        model_wf(step(m, e)->Some_0.0),
{
}

/// Runs the machine over a sequence of events, collecting every emitted
/// action; `None` as soon as any event hits a state with no transition.
pub open spec fn run(m: RdvModel, es: Seq<Event>) -> Option<(RdvModel, Seq<ActionModel>)>
    decreases es.len(),
{
    if es.len() == 0 {
        Some((m, Seq::empty()))
    } else {
        match step(m, es[0]) {
            Some(sa) => match run(sa.0, es.drop_first()) {
                Some(rest) => Some((rest.0, sa.1 + rest.1)),
                None => None,
            },
            None => None,
        }
    }
}

/// Happy path: from `Idle`, the event sequence start, connection made,
/// connection lost, timer expired emits exactly open (lowercased url), send
/// bind, start timer (the configured delay), open (lowercased url) and ends
/// in `Connecting`.
pub proof fn lemma_rendezvous_happy_path(m0: RdvModel)
    requires
        m0.state == State::Idle,
        m0.retry_ms > 0,
    ensures
        ({
            let r = run(
                m0,
                seq![Event::Start, Event::ConnectionMade, Event::ConnectionLost, Event::TimerExpired],
            );
            &&& r is Some
            &&& r->Some_0.0.state == State::Connecting
            &&& r->Some_0.1 =~= seq![
                ActionModel::Open(m0.wsh, lower_of(m0.url)),
                ActionModel::Send(m0.wsh, bind_msg(m0.appid)),
                ActionModel::StartTimer(TimerHandle { id: RECONNECT_TIMER_ID }, m0.retry_ms),
                ActionModel::Open(WSHandle { id: RETRY_WS_ID }, lower_of(m0.url)),
            ]
        }),
{
    let e1 = seq![Event::Start, Event::ConnectionMade, Event::ConnectionLost, Event::TimerExpired];
    let e2 = e1.drop_first();
    let e3 = e2.drop_first();
    let e4 = e3.drop_first();
    let e5 = e4.drop_first();
    assert(e1[0] == Event::Start);
    assert(e2[0] == Event::ConnectionMade);
    assert(e3[0] == Event::ConnectionLost);
    assert(e4[0] == Event::TimerExpired);
    assert(e5.len() == 0);
    let m1 = step(m0, Event::Start)->Some_0.0;
    let a1 = step(m0, Event::Start)->Some_0.1;
    let m2 = step(m1, Event::ConnectionMade)->Some_0.0;
    let a2 = step(m1, Event::ConnectionMade)->Some_0.1;
    let m3 = step(m2, Event::ConnectionLost)->Some_0.0;
    let a3 = step(m2, Event::ConnectionLost)->Some_0.1;
    let m4 = step(m3, Event::TimerExpired)->Some_0.0;
    let a4 = step(m3, Event::TimerExpired)->Some_0.1;
    assert(run(m4, e5) == Some((m4, Seq::<ActionModel>::empty())));
    assert(run(m3, e4) == Some((m4, a4 + Seq::<ActionModel>::empty())));
    assert(run(m2, e3) == Some((m4, a3 + (a4 + Seq::<ActionModel>::empty()))));
    assert(run(m1, e2) == Some((m4, a2 + (a3 + (a4 + Seq::<ActionModel>::empty())))));
    assert(run(m0, e1) == Some((m4, a1 + (a2 + (a3 + (a4 + Seq::<ActionModel>::empty()))))));
    assert(m4.state == State::Connecting);
    assert(a1 + (a2 + (a3 + (a4 + Seq::<ActionModel>::empty()))) =~= seq![
        ActionModel::Open(m0.wsh, lower_of(m0.url)),
        ActionModel::Send(m0.wsh, bind_msg(m0.appid)),
        ActionModel::StartTimer(TimerHandle { id: RECONNECT_TIMER_ID }, m0.retry_ms),
        ActionModel::Open(WSHandle { id: RETRY_WS_ID }, lower_of(m0.url)),
    ]);
}

/// Illegal transitions: `connection_made` from `Idle` and `timer_expired`
/// from `Connected` have no transition, so the exec methods report an error
/// and emit nothing.
pub proof fn lemma_rendezvous_illegal_transitions(m: RdvModel)
    ensures
        m.state == State::Idle ==> step(m, Event::ConnectionMade) is None,
        m.state == State::Connected ==> step(m, Event::TimerExpired) is None,
{
}

/// Stop semantics: from `Waiting` stop cancels the pending timer and stops;
/// from `Connected` it closes the websocket and moves to `Disconnecting`;
/// from `Idle` or `Stopped` it emits nothing; from `Disconnecting` there is
/// no transition, so the exec method reports an error and emits nothing.
pub proof fn lemma_rendezvous_stop(m: RdvModel)
    requires
        model_wf(m),
    ensures
        m.state == State::Waiting ==> step(m, Event::Stop) == Some(
            (
                RdvModel { state: State::Stopped, ..m },
                seq![ActionModel::CancelTimer(m.timer->Some_0)],
            ),
        ),
        m.state == State::Connected ==> step(m, Event::Stop) == Some(
            (RdvModel { state: State::Disconnecting, ..m }, seq![ActionModel::CloseWs(m.wsh)]),
        ),
        m.state == State::Idle || m.state == State::Stopped ==> step(m, Event::Stop) == Some(
            (RdvModel { state: State::Stopped, ..m }, Seq::<ActionModel>::empty()),
        ),
        m.state == State::Disconnecting ==> step(m, Event::Stop) is None,
{
}

} // verus!
