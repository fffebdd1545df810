use std::collections::VecDeque;
use wormhole_forward::rendezvous::{Action, State, TimerHandle, WSHandle};
use serde_json::Value;

#[test]
fn create() {
    let mut actions: VecDeque<Action> = VecDeque::new();
    let mut r = wormhole_forward::rendezvous::create("appid", "url", 5000);

    let wsh: WSHandle;
    let th: TimerHandle;

    r.start(&mut actions).unwrap();

    match actions.pop_front() {
        Some(Action::WebSocketOpen(handle, url)) => {
            assert_eq!(url, "url");
            wsh = handle;
        }
        _ => panic!(),
    }
    if let Some(_) = actions.pop_front() {
        panic!()
    };

    r.connection_made(&mut actions, wsh).unwrap();
    match actions.pop_front() {
        Some(Action::WebSocketSendMessage(_handle, m)) => {
            let b: Value = serde_json::from_str(&m).unwrap();
            assert_eq!(b["type"], "bind");
            assert_eq!(b["appid"], "appid");
            assert_eq!(b["side"], "side1");
        }
        _ => panic!(),
    }
    if let Some(_) = actions.pop_front() {
        panic!()
    };

    r.connection_lost(&mut actions, wsh).unwrap();
    match actions.pop_front() {
        Some(Action::StartTimer(handle, duration)) => {
            assert_eq!(duration, 5000);
            th = handle;
        }
        _ => panic!(),
    }
    if let Some(_) = actions.pop_front() {
        panic!()
    };

    r.timer_expired(&mut actions, th).unwrap();
    match actions.pop_front() {
        Some(Action::WebSocketOpen(_handle, url)) => {
            assert_eq!(url, "url");
        }
        _ => panic!(),
    }
    if let Some(_) = actions.pop_front() {
        panic!()
    };

    r.stop(&mut actions).unwrap();
}

#[test]
fn happy_path_lowercases_url() {
    // The full happy path with a mixed-case url and a positive delay: the
    // action sequence is open, send bind, start timer, open, and both opens
    // carry the lowercased url.
    let mut actions: VecDeque<Action> = VecDeque::new();
    let mut r = wormhole_forward::rendezvous::create("app", "WS://Example/", 5000);
    r.start(&mut actions).unwrap();
    let wsh = match actions.pop_front() {
        Some(Action::WebSocketOpen(h, url)) => {
            assert_eq!(url, "ws://example/");
            h
        }
        _ => panic!(),
    };
    r.connection_made(&mut actions, wsh).unwrap();
    let th = match actions.pop_front() {
        Some(Action::WebSocketSendMessage(_, _)) => {
            r.connection_lost(&mut actions, wsh).unwrap();
            match actions.pop_front() {
                Some(Action::StartTimer(h, ms)) => {
                    assert_eq!(ms, 5000);
                    h
                }
                _ => panic!(),
            }
        }
        _ => panic!(),
    };
    r.timer_expired(&mut actions, th).unwrap();
    match actions.pop_front() {
        Some(Action::WebSocketOpen(_, url)) => assert_eq!(url, "ws://example/"),
        _ => panic!(),
    }
    assert!(actions.is_empty());
    assert_eq!(r.state, State::Connecting);
}

#[test]
fn illegal_transitions_are_reported() {
    // connection_made from Idle and timer_expired from Connected are
    // programming errors; nothing is emitted on the failure path.
    let mut actions: VecDeque<Action> = VecDeque::new();
    let mut r = wormhole_forward::rendezvous::create("app", "url", 1);
    let wsh = WSHandle { id: 1 };
    assert!(r.connection_made(&mut actions, wsh).is_err());
    assert!(actions.is_empty());
    assert_eq!(r.state, State::Idle);

    r.start(&mut actions).unwrap();
    r.connection_made(&mut actions, wsh).unwrap();
    actions.clear();
    assert!(r.timer_expired(&mut actions, TimerHandle { id: 2 }).is_err());
    assert!(actions.is_empty());
    assert_eq!(r.state, State::Connected);
}

#[test]
fn stop_semantics() {
    // stop from Waiting cancels the timer and stops; from Connected it
    // closes the websocket and disconnects; from Idle or Stopped it is a
    // no-op; from Disconnecting it is a programming error.
    let mut actions: VecDeque<Action> = VecDeque::new();
    let mut r = wormhole_forward::rendezvous::create("app", "url", 7);
    let wsh = WSHandle { id: 1 };
    r.start(&mut actions).unwrap();
    r.connection_made(&mut actions, wsh).unwrap();
    r.connection_lost(&mut actions, wsh).unwrap();
    actions.clear();
    r.stop(&mut actions).unwrap();
    assert!(matches!(actions.pop_front(), Some(Action::CancelTimer(_))));
    assert!(actions.is_empty());
    assert_eq!(r.state, State::Stopped);

    let mut r2 = wormhole_forward::rendezvous::create("app", "url", 7);
    r2.start(&mut actions).unwrap();
    r2.connection_made(&mut actions, wsh).unwrap();
    actions.clear();
    r2.stop(&mut actions).unwrap();
    assert!(matches!(actions.pop_front(), Some(Action::WebSocketClose(_))));
    assert!(actions.is_empty());
    assert_eq!(r2.state, State::Disconnecting);
    assert!(r2.stop(&mut actions).is_err());
    assert!(actions.is_empty());
    assert_eq!(r2.state, State::Disconnecting);

    let mut r3 = wormhole_forward::rendezvous::create("app", "url", 7);
    r3.stop(&mut actions).unwrap();
    assert!(actions.is_empty());
    assert_eq!(r3.state, State::Stopped);
    r3.stop(&mut actions).unwrap();
    assert!(actions.is_empty());
    assert_eq!(r3.state, State::Stopped);
}

#[test]
fn bind_message_quotes_the_appid() {
    // An appid with JSON metacharacters survives the bind message intact.
    let mut actions: VecDeque<Action> = VecDeque::new();
    let mut r = wormhole_forward::rendezvous::create("ap\"p\\id", "url", 1);
    r.start(&mut actions).unwrap();
    let wsh = match actions.pop_front() {
        Some(Action::WebSocketOpen(h, _)) => h,
        _ => panic!(),
    };
    r.connection_made(&mut actions, wsh).unwrap();
    match actions.pop_front() {
        Some(Action::WebSocketSendMessage(_, m)) => {
            let b: Value = serde_json::from_str(&m).unwrap();
            assert_eq!(b["appid"], "ap\"p\\id");
        }
        _ => panic!(),
    }
}

#[test]
fn reconnect_carries_the_new_handle() {
    // After the reconnect timer fires, the machine works with the newly
    // opened websocket: the bind goes out on it and stop closes it.
    let mut actions: VecDeque<Action> = VecDeque::new();
    let mut r = wormhole_forward::rendezvous::create("app", "url", 9);
    r.start(&mut actions).unwrap();
    let wsh = match actions.pop_front() {
        Some(Action::WebSocketOpen(h, _)) => h,
        _ => panic!(),
    };
    r.connection_made(&mut actions, wsh).unwrap();
    r.connection_lost(&mut actions, wsh).unwrap();
    actions.clear();
    r.timer_expired(&mut actions, TimerHandle { id: 2 }).unwrap();
    let wsh2 = match actions.pop_front() {
        Some(Action::WebSocketOpen(h, _)) => h,
        _ => panic!(),
    };
    assert_ne!(wsh2, wsh);
    r.connection_made(&mut actions, wsh2).unwrap();
    match actions.pop_front() {
        Some(Action::WebSocketSendMessage(h, _)) => assert_eq!(h, wsh2),
        _ => panic!(),
    }
    r.stop(&mut actions).unwrap();
    match actions.pop_front() {
        Some(Action::WebSocketClose(h)) => assert_eq!(h, wsh2),
        _ => panic!(),
    }
}
