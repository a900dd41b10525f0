use engineio_rs::packet::{Packet, PacketType, Payload, PING_INTERVAL_MS, PING_TIMEOUT_MS};
use engineio_rs::server::{Method, QueryParam, Server, VerifyError};
use engineio_rs::socket::Message;

fn polling_param(sid: Option<String>) -> QueryParam {
    QueryParam { sid, transport: Some("polling".to_string()) }
}

fn websocket_param(sid: Option<String>) -> QueryParam {
    QueryParam { sid, transport: Some("websocket".to_string()) }
}

fn handshake_via_http(server: &mut Server, now: u64) -> String {
    let response = server
        .handle_request(Method::Get, &polling_param(None), None, now)
        .expect("handshake passes verification");
    let open = Packet::decode(&response);
    assert_eq!(open.typ, PacketType::Open);
    let parsed: serde_json::Value = serde_json::from_str(&open.message).expect("handshake JSON");
    parsed["sid"].as_str().expect("sid field").to_string()
}

#[test]
fn handshake_over_polling_yields_usable_sid() {
    let mut server = Server::default();
    let sid = handshake_via_http(&mut server, 0);
    assert_eq!(sid.chars().count(), 20);
    // the returned sid names a live session: both POST and GET reach it
    let (ack, delivered) = server
        .handle_xhr_post(&sid, Some("4hi".to_string()), 1)
        .expect("session is live");
    assert_eq!(ack, "ok");
    assert_eq!(delivered, vec!["hi".to_string()]);
    let body = server.handle_xhr_get(&sid).expect("session is live");
    assert_eq!(body, "3:4hi");
}

#[test]
fn handshake_json_advertises_keepalive() {
    let mut server = Server::default();
    let response = server.on_request(&polling_param(None), None, false, 0);
    let open = Packet::decode(&response);
    assert_eq!(open.typ, PacketType::Open);
    let parsed: serde_json::Value = serde_json::from_str(&open.message).expect("handshake JSON");
    assert_eq!(parsed["pingInterval"], serde_json::Value::from(PING_INTERVAL_MS));
    assert_eq!(parsed["pingTimeout"], serde_json::Value::from(PING_TIMEOUT_MS));
}

#[test]
fn post_then_get_round_trips_one_message() {
    let mut server = Server::default();
    let sid = handshake_via_http(&mut server, 0);
    let (ack, _) = server
        .handle_xhr_post(&sid, Some("4hello".to_string()), 10)
        .expect("post reaches session");
    assert_eq!(ack, "ok");
    let body = server.handle_xhr_get(&sid).expect("get reaches session");
    assert_eq!(body, "6:4hello");
    let packets = Payload::decode(&body).expect("framed payload").into_packets();
    assert_eq!(packets.len(), 1);
    assert_eq!(packets[0].typ, PacketType::Message);
    assert_eq!(packets[0].message, "hello");
}

#[test]
fn empty_queue_polls_as_empty_payload() {
    let mut server = Server::default();
    let sid = handshake_via_http(&mut server, 0);
    assert_eq!(server.handle_xhr_get(&sid).expect("live"), "0:");
}

#[test]
fn keepalive_timeout_closes_and_removes_session() {
    let mut server = Server::default();
    let sid = handshake_via_http(&mut server, 0);
    // just before the timeout the session survives a keepalive pass
    server.tick(u64::from(PING_TIMEOUT_MS) - 1);
    assert!(server.handle_xhr_get(&sid).is_ok());
    // with no Pong or other inbound activity the timeout closes it
    server.tick(u64::from(PING_TIMEOUT_MS) + 1);
    assert!(matches!(server.handle_xhr_get(&sid), Err(VerifyError::UnknownSID)));
}

#[test]
fn inbound_activity_resets_keepalive_timeout() {
    let mut server = Server::default();
    let sid = handshake_via_http(&mut server, 0);
    let t1 = u64::from(PING_TIMEOUT_MS) - 1000;
    // a Pong observed before the deadline restarts the timeout
    server
        .handle_xhr_post(&sid, Some("3".to_string()), t1)
        .expect("session is live");
    server.tick(u64::from(PING_TIMEOUT_MS) + 1);
    assert!(server.handle_xhr_get(&sid).is_ok());
    // but the reset deadline also elapses eventually
    server.tick(t1 + u64::from(PING_TIMEOUT_MS) + 1);
    assert!(matches!(server.handle_xhr_get(&sid), Err(VerifyError::UnknownSID)));
}

#[test]
fn keepalive_interval_queues_server_ping() {
    let mut server = Server::default();
    let sid = handshake_via_http(&mut server, 0);
    let t1 = u64::from(PING_INTERVAL_MS) - 100;
    // keep the session alive until the ping interval elapses
    let mut t: u64 = 0;
    while t < t1 {
        t += u64::from(PING_TIMEOUT_MS) / 2;
        server.handle_xhr_post(&sid, Some("3".to_string()), t).expect("live");
    }
    server.tick(u64::from(PING_INTERVAL_MS));
    let body = server.handle_xhr_get(&sid).expect("live");
    assert!(body.ends_with("2probe"), "expected a queued ping probe, got {body}");
}

#[test]
fn get_with_unknown_sid_fails_without_side_effects() {
    let mut server = Server::default();
    let ghost_sid = "AAAAAAAAAAAAAAAAAAAA".to_string();
    assert!(matches!(server.handle_xhr_get(&ghost_sid), Err(VerifyError::UnknownSID)));
    // no session was created as a side effect
    assert!(matches!(server.handle_xhr_get(&ghost_sid), Err(VerifyError::UnknownSID)));
    // an unrelated live session is untouched by the failed lookup
    let sid = handshake_via_http(&mut server, 0);
    assert!(matches!(server.handle_xhr_get(&ghost_sid), Err(VerifyError::UnknownSID)));
    assert!(server.handle_xhr_get(&sid).is_ok());
}

#[test]
fn post_with_unknown_sid_fails() {
    let mut server = Server::default();
    let ghost_sid = "AAAAAAAAAAAAAAAAAAAA".to_string();
    assert!(matches!(
        server.handle_xhr_post(&ghost_sid, Some("4x".to_string()), 0),
        Err(VerifyError::UnknownSID)
    ));
}

#[test]
fn close_packet_tears_session_down() {
    let mut server = Server::default();
    let sid = handshake_via_http(&mut server, 0);
    server.handle_xhr_post(&sid, Some("1".to_string()), 1).expect("post reaches session");
    assert!(matches!(server.handle_xhr_get(&sid), Err(VerifyError::UnknownSID)));
}

#[test]
fn noop_packet_tears_session_down() {
    let mut server = Server::default();
    let sid = handshake_via_http(&mut server, 0);
    server.handle_xhr_post(&sid, Some("6".to_string()), 1).expect("post reaches session");
    assert!(matches!(server.handle_xhr_get(&sid), Err(VerifyError::UnknownSID)));
}

#[test]
fn websocket_upgrade_probe_retires_polling() {
    let mut server = Server::default();
    let sid = handshake_via_http(&mut server, 0);
    // probe Ping arrives over the new WebSocket connection
    let delivered = server.ws_receive(&sid, "2probe", 1).expect("session is live");
    assert!(delivered.is_empty());
    // the server answers Pong "probe" on the new transport
    let frames = server.ws_poll(&sid).expect("upgrade pending");
    assert_eq!(frames, vec!["3probe".to_string()]);
    // polling still works until the upgrade is confirmed
    assert!(server.handle_xhr_get(&sid).is_ok());
    // the Upgrade packet confirms the switch
    server.ws_receive(&sid, "5", 2).expect("session is live");
    // no further polling GET for that sid succeeds
    assert!(matches!(server.handle_xhr_get(&sid), Err(VerifyError::UnknownSID)));
    // while the session, under the same sid, lives on over WebSocket
    let delivered = server.ws_receive(&sid, "4hi", 3).expect("session is live");
    assert_eq!(delivered, vec!["hi".to_string()]);
    assert_eq!(server.ws_poll(&sid).expect("live"), vec!["4hi".to_string()]);
}

#[test]
fn upgrade_keeps_undelivered_polling_frames() {
    let mut server = Server::default();
    let sid = handshake_via_http(&mut server, 0);
    // a message echo is still queued on polling when the upgrade completes
    server.handle_xhr_post(&sid, Some("4left".to_string()), 1).expect("live");
    server.ws_receive(&sid, "2probe", 2).expect("live");
    server.ws_receive(&sid, "5", 3).expect("live");
    // the retired transport's frames moved onto the WebSocket outbox
    let frames = server.ws_poll(&sid).expect("live");
    assert_eq!(frames, vec!["3probe".to_string(), "4left".to_string()]);
}

#[test]
fn verify_rejects_unknown_transport() {
    let server = Server::default();
    let no_transport = QueryParam { sid: None, transport: None };
    assert!(matches!(
        server.verify(Method::Get, &no_transport),
        Err(VerifyError::UnknownTransport)
    ));
    let odd = QueryParam { sid: None, transport: Some("carrier-pigeon".to_string()) };
    assert!(matches!(server.verify(Method::Get, &odd), Err(VerifyError::UnknownTransport)));
}

#[test]
fn verify_rejects_post_handshake() {
    let server = Server::default();
    assert!(matches!(
        server.verify(Method::Post, &polling_param(None)),
        Err(VerifyError::BadHandshakeMethod)
    ));
}

#[test]
fn verify_rejects_unknown_or_mismatched_sid() {
    let mut server = Server::default();
    let ghost_sid = "AAAAAAAAAAAAAAAAAAAA".to_string();
    assert!(matches!(
        server.verify(Method::Get, &polling_param(Some(ghost_sid))),
        Err(VerifyError::UnknownSID)
    ));
    // after the upgrade, naming the polling transport reads as session gone
    let sid = handshake_via_http(&mut server, 0);
    server.ws_receive(&sid, "2probe", 1).expect("live");
    server.ws_receive(&sid, "5", 2).expect("live");
    assert!(matches!(
        server.verify(Method::Get, &polling_param(Some(sid.clone()))),
        Err(VerifyError::UnknownSID)
    ));
    // POST is not accepted over WebSocket
    assert!(matches!(
        server.verify(Method::Post, &websocket_param(Some(sid.clone()))),
        Err(VerifyError::BadHandshakeMethod)
    ));
    assert!(server.verify(Method::Get, &websocket_param(Some(sid))).is_ok());
}

#[test]
fn verify_accepts_upgrade_naming_websocket() {
    let mut server = Server::default();
    let sid = handshake_via_http(&mut server, 0);
    assert!(server.verify(Method::Get, &websocket_param(Some(sid.clone()))).is_ok());
    assert!(server.verify(Method::Get, &polling_param(Some(sid))).is_ok());
}

#[test]
fn close_clears_every_session() {
    let mut server = Server::default();
    let sid1 = handshake_via_http(&mut server, 0);
    let sid2 = handshake_via_http(&mut server, 0);
    assert_ne!(sid1, sid2);
    server.close();
    assert!(matches!(server.handle_xhr_get(&sid1), Err(VerifyError::UnknownSID)));
    assert!(matches!(server.handle_xhr_get(&sid2), Err(VerifyError::UnknownSID)));
}

#[test]
fn on_request_mirrors_http_dispatch() {
    let mut server = Server::default();
    // POST without a sid does nothing
    assert_eq!(server.on_request(&polling_param(None), Some("4x".to_string()), true, 0), "");
    // GET without a sid handshakes
    let response = server.on_request(&polling_param(None), None, false, 0);
    let open = Packet::decode(&response);
    assert_eq!(open.typ, PacketType::Open);
    let parsed: serde_json::Value = serde_json::from_str(&open.message).expect("JSON");
    let sid = parsed["sid"].as_str().expect("sid").to_string();
    // POST with the sid acknowledges, GET drains
    assert_eq!(
        server.on_request(&polling_param(Some(sid.clone())), Some("4ok?".to_string()), true, 1),
        "ok"
    );
    assert_eq!(server.on_request(&polling_param(Some(sid)), None, false, 2), "4:4ok?");
    // unknown sid comes back empty
    let ghost_sid = "AAAAAAAAAAAAAAAAAAAA".to_string();
    assert_eq!(server.on_request(&polling_param(Some(ghost_sid)), None, false, 3), "");
}

#[test]
fn websocket_handshake_queues_open_for_the_socket() {
    let mut server = Server::default();
    // a validated WebSocket handshake answers with an empty HTTP body:
    // the Open packet goes out over the socket stream instead
    let response = server
        .handle_request(Method::Get, &websocket_param(None), None, 0)
        .expect("handshake passes verification");
    assert_eq!(response, "");
    // the handshake created exactly one session; learn its sid directly
    let sid = server.handshake_ws(1);
    // the first session's Open packet waits in its WebSocket outbox
    let frames = server.ws_poll(&sid).expect("session is live");
    assert_eq!(frames.len(), 1);
    let open = Packet::decode(&frames[0]);
    assert_eq!(open.typ, PacketType::Open);
    assert!(open.message.contains(&sid));
}

#[test]
fn to_message_classifies_bodies() {
    let m = Message::to_message("4hello").expect("classifies");
    assert!(matches!(m, Message::Packet(_)));
    if let Message::Packet(p) = m {
        assert_eq!(p.typ, PacketType::Message);
        assert_eq!(p.message, "hello");
    }
    let m = Message::to_message("6:4hello").expect("classifies");
    assert!(matches!(m, Message::Payload(_)));
    if let Message::Payload(p) = m {
        let packets = p.into_packets();
        assert_eq!(packets.len(), 1);
        assert_eq!(packets[0].message, "hello");
    }
}
