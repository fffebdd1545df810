use wormhole_forward::peermsg::PeerMessage;
use wormhole_forward::setup::{de_setup_json, error_setup_json, transit_setup_json};

fn round_trip(m: PeerMessage) {
    let bytes = m.ser_msgpack();
    let back = PeerMessage::de_msgpack(&bytes).unwrap();
    assert_eq!(back, m);
}

#[test]
fn round_trip_offer() {
    round_trip(PeerMessage::Offer {
        addresses: vec!["example.com:22".to_string(), "5000".to_string()],
    });
    round_trip(PeerMessage::Offer { addresses: vec![] });
}

#[test]
fn round_trip_connect() {
    round_trip(PeerMessage::Connect { target: "example.com:22".to_string(), connection_id: 0 });
    round_trip(PeerMessage::Connect { target: "5000".to_string(), connection_id: u64::MAX });
}

#[test]
fn round_trip_disconnect() {
    round_trip(PeerMessage::Disconnect { connection_id: 5 });
    round_trip(PeerMessage::Disconnect { connection_id: 300 });
    round_trip(PeerMessage::Disconnect { connection_id: 70000 });
    round_trip(PeerMessage::Disconnect { connection_id: 5_000_000_000 });
}

#[test]
fn round_trip_forward() {
    round_trip(PeerMessage::Forward { connection_id: 1, payload: vec![1, 2, 3] });
    round_trip(PeerMessage::Forward { connection_id: 9, payload: vec![] });
    round_trip(PeerMessage::Forward { connection_id: 9, payload: vec![0xffu8; 300] });
}

#[test]
fn round_trip_close_error_transit_unknown() {
    round_trip(PeerMessage::Close);
    round_trip(PeerMessage::Error("h\u{e9}llo w\u{f6}rld".to_string()));
    round_trip(PeerMessage::Transit { hints: "{\"hints\":[]}".to_string() });
    round_trip(PeerMessage::Unknown);
}

#[test]
fn exact_bytes_disconnect() {
    let m = PeerMessage::Disconnect { connection_id: 5 };
    let mut expected: Vec<u8> = vec![0x81, 0xaa];
    expected.extend_from_slice(b"disconnect");
    expected.push(0x81);
    expected.push(0xad);
    expected.extend_from_slice(b"connection-id");
    expected.push(0x05);
    assert_eq!(m.ser_msgpack(), expected);
}

#[test]
fn exact_bytes_close_and_error() {
    let close = PeerMessage::Close;
    let mut expected: Vec<u8> = vec![0x81, 0xa5];
    expected.extend_from_slice(b"close");
    expected.push(0x80);
    assert_eq!(close.ser_msgpack(), expected);

    let err = PeerMessage::Error("hi".to_string());
    let mut expected: Vec<u8> = vec![0x81, 0xa5];
    expected.extend_from_slice(b"error");
    expected.push(0xa2);
    expected.extend_from_slice(b"hi");
    assert_eq!(err.ser_msgpack(), expected);
}

#[test]
fn exact_bytes_wide_uint() {
    let m = PeerMessage::Disconnect { connection_id: 300 };
    let mut expected: Vec<u8> = vec![0x81, 0xaa];
    expected.extend_from_slice(b"disconnect");
    expected.push(0x81);
    expected.push(0xad);
    expected.extend_from_slice(b"connection-id");
    expected.extend_from_slice(&[0xcd, 0x01, 0x2c]);
    assert_eq!(m.ser_msgpack(), expected);
}

#[test]
fn unknown_tag_decodes_open() {
    // A map with an unrecognized tag is Unknown, not an error, whatever the
    // value holds.
    let mut frame: Vec<u8> = vec![0x81, 0xa3];
    frame.extend_from_slice(b"zzz");
    frame.push(0x00);
    assert_eq!(PeerMessage::de_msgpack(&frame).unwrap(), PeerMessage::Unknown);

    // A bare unrecognized tag string too.
    let mut frame2: Vec<u8> = vec![0xa3];
    frame2.extend_from_slice(b"zzz");
    assert_eq!(PeerMessage::de_msgpack(&frame2).unwrap(), PeerMessage::Unknown);

    // A bare "close" is the unit variant.
    let mut frame3: Vec<u8> = vec![0xa5];
    frame3.extend_from_slice(b"close");
    assert_eq!(PeerMessage::de_msgpack(&frame3).unwrap(), PeerMessage::Close);
}

#[test]
fn malformed_input_is_an_error() {
    assert!(PeerMessage::de_msgpack(&[]).is_err());
    assert!(PeerMessage::de_msgpack(&[0xc1]).is_err());
    // truncated map
    assert!(PeerMessage::de_msgpack(&[0x81]).is_err());
    // a known tag as a bare string is not a message
    let mut frame: Vec<u8> = vec![0xa5];
    frame.extend_from_slice(b"offer");
    assert!(PeerMessage::de_msgpack(&frame).is_err());
    // trailing bytes after a whole message
    let mut ok = PeerMessage::Close.ser_msgpack();
    ok.push(0x00);
    assert!(PeerMessage::de_msgpack(&ok).is_err());
    // invalid utf-8 in a string
    let mut bad: Vec<u8> = vec![0x81, 0xa5];
    bad.extend_from_slice(b"error");
    bad.push(0xa2);
    bad.extend_from_slice(&[0xff, 0xfe]);
    assert!(PeerMessage::de_msgpack(&bad).is_err());
}

#[test]
fn setup_transit_round_trip() {
    let frame = transit_setup_json("{\"abilities-v1\":[{\"type\":\"direct-tcp-v1\"}]}");
    assert_eq!(
        String::from_utf8(frame.clone()).unwrap(),
        "{\"transit\":{\"hints\":{\"abilities-v1\":[{\"type\":\"direct-tcp-v1\"}]}}}"
    );
    match de_setup_json(&frame).unwrap() {
        PeerMessage::Transit { hints } => {
            assert_eq!(hints, "{\"abilities-v1\":[{\"type\":\"direct-tcp-v1\"}]}");
        }
        _ => panic!(),
    }
    // serde_json parses what we emit, and we parse what it emits
    let v: serde_json::Value = serde_json::from_slice(&frame).unwrap();
    assert!(v["transit"]["hints"]["abilities-v1"].is_array());
    let mut hints = serde_json::Map::new();
    hints.insert("hints".to_string(), serde_json::Value::Array(vec![]));
    let mut outer = serde_json::Map::new();
    outer.insert("transit".to_string(), serde_json::Value::Object(hints));
    let theirs = serde_json::to_vec(&serde_json::Value::Object(outer)).unwrap();
    match de_setup_json(&theirs).unwrap() {
        PeerMessage::Transit { hints } => assert_eq!(hints, "[]"),
        _ => panic!(),
    }
}

#[test]
fn setup_error_round_trip() {
    let text = "a \"quoted\" \\ path\nline\ttab \u{1} h\u{e9}";
    let frame = error_setup_json(text);
    match de_setup_json(&frame).unwrap() {
        PeerMessage::Error(t) => assert_eq!(t, text),
        _ => panic!(),
    }
    // serde_json agrees on the escaping
    let v: serde_json::Value = serde_json::from_slice(&frame).unwrap();
    assert_eq!(v["error"], text);
}

#[test]
fn setup_garbage_is_an_error() {
    assert!(de_setup_json(b"").is_err());
    assert!(de_setup_json(b"{\"offer\":{}}").is_err());
    assert!(de_setup_json(b"{\"error\":\"unterminated").is_err());
    assert!(de_setup_json(b"{\"error\":\"bad \\x escape\"}").is_err());
}
