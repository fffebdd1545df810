use wormhole_forward::error::{error_notification, ForwardingError};
use wormhole_forward::listen::{parse_offer, ConnectEvent, ConnectState};
use wormhole_forward::peermsg::PeerMessage;
use wormhole_forward::serve::{ServeEvent, ServeState};
use wormhole_forward::session::{expect_transit, SessionAction, SessionStatus};
use wormhole_forward::strutil::u64_to_dec;
use wormhole_forward::target::{
    dial_addr, is_http_port, plan_bind_ports, target_key, Target, TargetMap,
};

fn serve_for(targets: Vec<Target>) -> ServeState {
    ServeState::new(TargetMap::from_targets(targets))
}

fn connect_frame(target: &str, id: u64) -> Vec<u8> {
    PeerMessage::Connect { target: target.to_string(), connection_id: id }.ser_msgpack()
}

fn forward_frame(id: u64, payload: Vec<u8>) -> Vec<u8> {
    PeerMessage::Forward { connection_id: id, payload }.ser_msgpack()
}

#[test]
fn decimal_formatting() {
    assert_eq!(u64_to_dec(0), "0");
    assert_eq!(u64_to_dec(7), "7");
    assert_eq!(u64_to_dec(65535), "65535");
    assert_eq!(u64_to_dec(1234567890123), "1234567890123");
}

#[test]
fn target_keys_and_dial_addresses() {
    assert_eq!(target_key(&Some("example.com".to_string()), 22), "example.com:22");
    assert_eq!(target_key(&None, 5000), "5000");
    assert_eq!(dial_addr(&Some("example.com".to_string()), 22), "example.com:22");
    assert_eq!(dial_addr(&None, 5000), "[::1]:5000");
    assert!(is_http_port(80) && is_http_port(443) && is_http_port(8000) && is_http_port(8080));
    assert!(!is_http_port(22));
}

#[test]
fn serve_offer_happy() {
    // One named target: the offer holds exactly its canonical key.
    let m = TargetMap::from_targets(vec![Target { host: Some("example.com".to_string()), port: 22 }]);
    assert_eq!(m.key_strings(), vec!["example.com:22".to_string()]);
}

#[test]
fn serve_loopback_dial() {
    // A host-less target is offered as the bare port and dialed on the IPv6
    // loopback.
    let m = TargetMap::from_targets(vec![Target { host: None, port: 5000 }]);
    assert_eq!(m.key_strings(), vec!["5000".to_string()]);
    let mut s = ServeState::new(m);
    let step = s.handle_event(ServeEvent::Frame(connect_frame("5000", 0)));
    assert!(matches!(step.status, SessionStatus::Continue));
    assert_eq!(step.actions.len(), 1);
    match &step.actions[0] {
        SessionAction::Dial(id, addr) => {
            assert_eq!(*id, 0);
            assert_eq!(addr, "[::1]:5000");
        }
        _ => panic!(),
    }
}

#[test]
fn listener_port_mapping() {
    // Three offered addresses with two preferred ports: the third listener
    // is ephemeral.
    let ports = plan_bind_ports(3, &vec![10001, 10002]);
    assert_eq!(ports, vec![10001, 10002, 0]);
}

#[test]
fn listener_close_race_is_benign() {
    // counter 5, id 3 no longer live: no error, no output.
    let mut c = ConnectState::new();
    c.connection_counter = 5;
    let step = c.handle_event(ConnectEvent::Frame(forward_frame(3, vec![1])));
    assert!(matches!(step.status, SessionStatus::Continue));
    assert!(step.actions.is_empty());
}

#[test]
fn serve_unknown_id_is_protocol_error() {
    // Historic {1, 2}; forward for 7 is a protocol error, echoed on the
    // transit channel as an error message.
    let mut s = serve_for(vec![Target { host: None, port: 7777 }]);
    for id in [1u64, 2] {
        let step = s.handle_event(ServeEvent::Frame(connect_frame("7777", id)));
        assert!(matches!(step.status, SessionStatus::Continue));
        // the dials fail; the ids stay burned
        let step = s.handle_event(ServeEvent::DialDone(id, false));
        assert!(matches!(step.status, SessionStatus::Continue));
    }
    let step = s.handle_event(ServeEvent::Frame(forward_frame(7, vec![0])));
    let err = match step.status {
        SessionStatus::Failed(e) => e,
        _ => panic!(),
    };
    assert_eq!(err, ForwardingError::Protocol("Connection '7' not found".to_string()));
    let echo = error_notification(&Err(err)).unwrap();
    match PeerMessage::de_msgpack(&echo).unwrap() {
        PeerMessage::Error(text) => {
            assert_eq!(text, "Protocol error: Connection '7' not found");
        }
        _ => panic!(),
    }
}

#[test]
fn serve_burn_rule() {
    // Once connect{id} was seen, forward and disconnect for it are benign
    // even though the dial failed.
    let mut s = serve_for(vec![Target { host: None, port: 7777 }]);
    let step = s.handle_event(ServeEvent::Frame(connect_frame("7777", 4)));
    assert!(matches!(step.status, SessionStatus::Continue));
    let step = s.handle_event(ServeEvent::DialDone(4, false));
    assert!(matches!(step.status, SessionStatus::Continue));
    // the failed dial told the peer to disconnect
    assert!(matches!(&step.actions[0], SessionAction::SendPeer(_)));
    let step = s.handle_event(ServeEvent::Frame(forward_frame(4, vec![1, 2])));
    assert!(matches!(step.status, SessionStatus::Continue));
    assert!(step.actions.is_empty());
    let disc = PeerMessage::Disconnect { connection_id: 4 }.ser_msgpack();
    let step = s.handle_event(ServeEvent::Frame(disc));
    assert!(matches!(step.status, SessionStatus::Continue));
    assert!(step.actions.is_empty());
}

#[test]
fn serve_unknown_target_and_duplicate_id() {
    let mut s = serve_for(vec![Target { host: None, port: 7777 }]);
    let step = s.handle_event(ServeEvent::Frame(connect_frame("8888", 0)));
    match step.status {
        SessionStatus::Failed(ForwardingError::Protocol(t)) => {
            assert_eq!(t, "We don't know forwarding target '8888'");
        }
        _ => panic!(),
    }

    let mut s = serve_for(vec![Target { host: None, port: 7777 }]);
    let step = s.handle_event(ServeEvent::Frame(connect_frame("7777", 0)));
    assert!(matches!(step.status, SessionStatus::Continue));
    let step = s.handle_event(ServeEvent::DialDone(0, true));
    assert!(matches!(step.status, SessionStatus::Continue));
    let step = s.handle_event(ServeEvent::Frame(connect_frame("7777", 0)));
    match step.status {
        SessionStatus::Failed(ForwardingError::Protocol(t)) => {
            assert_eq!(t, "Connection '0' already exists");
        }
        _ => panic!(),
    }
}

#[test]
fn listener_ids_start_at_zero_and_increase() {
    // Over a sequence of accepts the emitted connect ids are 0, 1, 2, ...
    let mut c = ConnectState::new();
    for expect in 0u64..4 {
        let step = c.handle_event(ConnectEvent::Accept("a:1".to_string()));
        assert!(matches!(step.status, SessionStatus::Continue));
        match &step.actions[0] {
            SessionAction::SendPeer(frame) => match PeerMessage::de_msgpack(frame).unwrap() {
                PeerMessage::Connect { target, connection_id } => {
                    assert_eq!(target, "a:1");
                    assert_eq!(connection_id, expect);
                }
                _ => panic!(),
            },
            _ => panic!(),
        }
        assert!(matches!(&step.actions[1], SessionAction::SpawnWorker(id) if *id == expect));
    }
}

#[test]
fn close_cancels_every_worker() {
    // Close ends the session cleanly and cancels each live worker, on both
    // sides.
    let mut s = serve_for(vec![Target { host: None, port: 7777 }]);
    s.handle_event(ServeEvent::Frame(connect_frame("7777", 0)));
    s.handle_event(ServeEvent::DialDone(0, true));
    s.handle_event(ServeEvent::Frame(connect_frame("7777", 1)));
    s.handle_event(ServeEvent::DialDone(1, true));
    let step = s.handle_event(ServeEvent::Frame(PeerMessage::Close.ser_msgpack()));
    assert!(matches!(step.status, SessionStatus::Done));
    let mut cancelled: Vec<u64> = step
        .actions
        .iter()
        .map(|a| match a {
            SessionAction::CancelWorker(id) => *id,
            _ => panic!(),
        })
        .collect();
    cancelled.sort();
    assert_eq!(cancelled, vec![0, 1]);

    let mut c = ConnectState::new();
    c.handle_event(ConnectEvent::Accept("a:1".to_string()));
    c.handle_event(ConnectEvent::Accept("a:1".to_string()));
    let step = c.handle_event(ConnectEvent::PeerGone);
    assert!(matches!(step.status, SessionStatus::Done));
    assert_eq!(step.actions.len(), 2);
}

#[test]
fn peer_error_is_not_echoed() {
    // A peer-reported error ends the session and is never echoed back; any
    // other failure is echoed exactly once.
    let mut s = serve_for(vec![]);
    let frame = PeerMessage::Error("boom".to_string()).ser_msgpack();
    let step = s.handle_event(ServeEvent::Frame(frame));
    let err = match step.status {
        SessionStatus::Failed(e) => e,
        _ => panic!(),
    };
    assert_eq!(err, ForwardingError::PeerError("boom".to_string()));
    assert!(error_notification(&Err(err)).is_none());
    assert!(error_notification(&Ok(())).is_none());
    assert!(error_notification(&Err(ForwardingError::AckError)).is_some());
}

#[test]
fn unexpected_message_reports_both_sides() {
    // An offer arriving mid-session on the serve side is unexpected.
    let mut s = serve_for(vec![]);
    let frame = PeerMessage::Offer { addresses: vec![] }.ser_msgpack();
    let step = s.handle_event(ServeEvent::Frame(frame));
    match step.status {
        SessionStatus::Failed(ForwardingError::ProtocolUnexpectedMessage(exp, got)) => {
            assert_eq!(exp, "connect' or 'disconnect' or 'forward' or 'close");
            assert_eq!(got, "offer");
        }
        _ => panic!(),
    }
    // A connect arriving at the listener is unexpected too.
    let mut c = ConnectState::new();
    let step = c.handle_event(ConnectEvent::Frame(connect_frame("a:1", 0)));
    assert!(matches!(
        step.status,
        SessionStatus::Failed(ForwardingError::ProtocolUnexpectedMessage(_, _))
    ));
}

#[test]
fn garbage_frame_fails_the_session() {
    let mut s = serve_for(vec![]);
    let step = s.handle_event(ServeEvent::Frame(vec![0xc1, 0x00]));
    assert!(matches!(
        step.status,
        SessionStatus::Failed(ForwardingError::ProtocolMsgpack(_))
    ));
}

#[test]
fn backchannel_items_become_forwards_and_disconnects() {
    let mut s = serve_for(vec![Target { host: None, port: 7777 }]);
    s.handle_event(ServeEvent::Frame(connect_frame("7777", 0)));
    s.handle_event(ServeEvent::DialDone(0, true));
    let step = s.handle_event(ServeEvent::Local(0, Some(vec![9, 9])));
    match &step.actions[0] {
        SessionAction::SendPeer(frame) => {
            let m = PeerMessage::de_msgpack(frame).unwrap();
            assert_eq!(m, PeerMessage::Forward { connection_id: 0, payload: vec![9, 9] });
        }
        _ => panic!(),
    }
    let step = s.handle_event(ServeEvent::Local(0, None));
    assert!(matches!(step.status, SessionStatus::Continue));
    match &step.actions[0] {
        SessionAction::SendPeer(frame) => {
            let m = PeerMessage::de_msgpack(frame).unwrap();
            assert_eq!(m, PeerMessage::Disconnect { connection_id: 0 });
        }
        _ => panic!(),
    }
    assert!(matches!(&step.actions[1], SessionAction::CancelWorker(0)));
}

#[test]
fn offer_parsing() {
    let offer = PeerMessage::Offer {
        addresses: vec!["a:1".to_string(), "b:2".to_string(), "c:3".to_string()],
    }
    .ser_msgpack();
    assert_eq!(
        parse_offer(&offer).unwrap(),
        vec!["a:1".to_string(), "b:2".to_string(), "c:3".to_string()]
    );
    let err = PeerMessage::Error("nope".to_string()).ser_msgpack();
    assert_eq!(
        parse_offer(&err).unwrap_err(),
        ForwardingError::PeerError("nope".to_string())
    );
    let close = PeerMessage::Close.ser_msgpack();
    match parse_offer(&close).unwrap_err() {
        ForwardingError::ProtocolUnexpectedMessage(exp, got) => {
            assert_eq!(exp, "offer");
            assert_eq!(got, "close");
        }
        _ => panic!(),
    }
}

#[test]
fn write_failure_tears_the_connection_down() {
    let mut s = serve_for(vec![Target { host: None, port: 7777 }]);
    s.handle_event(ServeEvent::Frame(connect_frame("7777", 0)));
    s.handle_event(ServeEvent::DialDone(0, true));
    let step = s.handle_event(ServeEvent::Frame(forward_frame(0, vec![1])));
    assert!(matches!(&step.actions[0], SessionAction::WriteLocal(0, _)));
    let step = s.handle_event(ServeEvent::WriteDone(0, false));
    assert!(matches!(step.status, SessionStatus::Continue));
    match &step.actions[0] {
        SessionAction::SendPeer(frame) => {
            let m = PeerMessage::de_msgpack(frame).unwrap();
            assert_eq!(m, PeerMessage::Disconnect { connection_id: 0 });
        }
        _ => panic!(),
    }
    assert!(matches!(&step.actions[1], SessionAction::CancelWorker(0)));
}

#[test]
fn transit_reply_classification() {
    assert_eq!(
        expect_transit(PeerMessage::Transit { hints: "{\"hints\":[]}".to_string() }).unwrap(),
        "{\"hints\":[]}"
    );
    assert_eq!(
        expect_transit(PeerMessage::Error("bad".to_string())).unwrap_err(),
        ForwardingError::PeerError("bad".to_string())
    );
    match expect_transit(PeerMessage::Close).unwrap_err() {
        ForwardingError::ProtocolUnexpectedMessage(exp, got) => {
            assert_eq!(exp, "transit");
            assert_eq!(got, "close");
        }
        _ => panic!(),
    }
}

#[test]
fn error_messages_have_exact_texts() {
    assert_eq!(
        ForwardingError::AckError.message(),
        "Transfer was not acknowledged by peer"
    );
    assert_eq!(
        ForwardingError::PeerError("x".to_string()).message(),
        "Something went wrong on the other side: x"
    );
    assert_eq!(
        ForwardingError::ProtocolUnexpectedMessage("a".to_string(), "b".to_string()).message(),
        "Unexpected message (protocol error): Expected 'a', but got: b"
    );
}
