use engineio_rs::packet::{FramingError, Packet, PacketType, Payload};

fn decode_packets(raw: &str) -> Vec<Packet> {
    Payload::decode(raw).expect("payload should parse").into_packets()
}

#[test]
fn packet_encode_fixed_forms() {
    assert_eq!(Packet::message("hello").encode(), "4hello");
    assert_eq!(Packet::ping().encode(), "2probe");
    assert_eq!(Packet::pong().encode(), "3probe");
    assert_eq!(Packet::close().encode(), "1");
    assert_eq!(Packet::upgrade().encode(), "5");
    assert_eq!(Packet::noop().encode(), "6");
}

#[test]
fn packet_round_trip_every_type() {
    let packets = vec![
        Packet { typ: PacketType::Open, message: String::from("x") },
        Packet { typ: PacketType::Close, message: String::new() },
        Packet { typ: PacketType::Ping, message: String::from("probe") },
        Packet { typ: PacketType::Pong, message: String::from("probe") },
        Packet { typ: PacketType::Message, message: String::from("payload") },
        Packet { typ: PacketType::Upgrade, message: String::new() },
        Packet { typ: PacketType::Noop, message: String::new() },
    ];
    for p in packets {
        let decoded = Packet::decode(&p.encode());
        assert_eq!(decoded.typ, p.typ);
        assert_eq!(decoded.message, p.message);
    }
}

#[test]
fn packet_decode_splits_first_character() {
    let p = Packet::decode("4hello");
    assert_eq!(p.typ, PacketType::Message);
    assert_eq!(p.message, "hello");
}

#[test]
fn packet_decode_degrades_to_noop() {
    let p = Packet::decode("xabc");
    assert_eq!(p.typ, PacketType::Noop);
    assert_eq!(p.message, "abc");
    // the degraded form is stable under re-encode/decode
    let again = Packet::decode(&p.encode());
    assert_eq!(again.typ, PacketType::Noop);
    assert_eq!(again.message, "abc");
}

#[test]
fn packet_decode_empty_is_empty_noop() {
    let p = Packet::decode("");
    assert_eq!(p.typ, PacketType::Noop);
    assert_eq!(p.message, "");
}

#[test]
fn packet_decode_unknown_digits_are_noop() {
    assert_eq!(Packet::decode("9zz").typ, PacketType::Noop);
    assert_eq!(Packet::decode("6").typ, PacketType::Noop);
    assert_eq!(Packet::decode("7").typ, PacketType::Noop);
}

#[test]
fn payload_encode_empty_is_zero_colon() {
    let payload = Payload::from(Vec::new());
    assert_eq!(payload.encode(), "0:");
}

#[test]
fn payload_decode_of_empty_frame_is_empty() {
    assert!(decode_packets("0:").is_empty());
}

#[test]
fn payload_round_trip_single_packet() {
    let payload = Payload::from(vec![Packet::message("hello")]);
    let encoded = payload.encode();
    assert_eq!(encoded, "6:4hello");
    let packets = decode_packets(&encoded);
    assert_eq!(packets.len(), 1);
    assert_eq!(packets[0].typ, PacketType::Message);
    assert_eq!(packets[0].message, "hello");
}

#[test]
fn payload_multi_packet_loses_boundaries() {
    // two packets share one outer length prefix; decode cannot split them
    // and returns the concatenation as one opaque packet
    let payload = Payload::from(vec![Packet::message("a"), Packet::message("b")]);
    let encoded = payload.encode();
    assert_eq!(encoded, "4:4a4b");
    let packets = decode_packets(&encoded);
    assert_eq!(packets.len(), 1);
    assert_eq!(packets[0].typ, PacketType::Message);
    assert_eq!(packets[0].message, "a4b");
}

#[test]
fn payload_decode_rejects_bad_frames() {
    assert!(matches!(Payload::decode("abc"), Err(FramingError::Malformed)));
    assert!(matches!(Payload::decode(""), Err(FramingError::Malformed)));
    assert!(matches!(Payload::decode(":"), Err(FramingError::Malformed)));
    assert!(matches!(Payload::decode(":abc"), Err(FramingError::Malformed)));
    assert!(matches!(Payload::decode("5:xx"), Err(FramingError::Malformed)));
    assert!(matches!(Payload::decode("1:xx"), Err(FramingError::Malformed)));
    assert!(matches!(Payload::decode("12"), Err(FramingError::Malformed)));
    assert!(matches!(Payload::decode("99999999999999999999999:x"), Err(FramingError::Malformed)));
}

#[test]
fn payload_decode_accepts_redundant_zeros_in_length() {
    let packets = decode_packets("02:4a");
    assert_eq!(packets.len(), 1);
    assert_eq!(packets[0].message, "a");
}

#[test]
fn open_packet_carries_handshake_json() {
    let sid = "A1b2C3d4E5f6G7h8I9j0".to_string();
    let p = Packet::open(sid.clone());
    assert_eq!(p.typ, PacketType::Open);
    assert_eq!(
        p.message,
        "{\"sid\":\"A1b2C3d4E5f6G7h8I9j0\",\"upgrades\":[],\"pingInterval\":25000,\"pingTimeout\":5000}"
    );
    let parsed: serde_json::Value = serde_json::from_str(&p.message).expect("valid JSON");
    assert_eq!(parsed["sid"], serde_json::Value::String(sid));
    assert_eq!(parsed["pingInterval"], serde_json::Value::from(25000u32));
    assert_eq!(parsed["pingTimeout"], serde_json::Value::from(5000u32));
    assert!(parsed["upgrades"].as_array().expect("array").is_empty());
}
