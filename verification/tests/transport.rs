use engineio_rs::packet::Packet;
use engineio_rs::socket::{Message, SessionState, Socket};
use engineio_rs::transports::polling::Polling;
use engineio_rs::transports::websocket::WebSocket;
use engineio_rs::transports::{AnyTransport, Transport, TransportError};

#[test]
fn polling_buffers_sends_in_order() {
    let mut t = Polling::new();
    assert!(t.send_message("4a".to_string()).is_ok());
    assert!(t.send_ping().is_ok());
    assert!(t.send_pong().is_ok());
    assert!(t.send_close().is_ok());
    let drained = t.drain();
    assert_eq!(
        drained,
        vec!["4a".to_string(), "2probe".to_string(), "3probe".to_string(), "1".to_string()]
    );
    assert!(t.drain().is_empty());
}

#[test]
fn websocket_outbox_buffers_sends_in_order() {
    let mut t = WebSocket::new();
    assert!(t.send_message("4b".to_string()).is_ok());
    assert!(t.send_close().is_ok());
    assert_eq!(t.drain(), vec!["4b".to_string(), "1".to_string()]);
}

#[test]
fn any_transport_dispatches_to_its_variant() {
    let mut t = AnyTransport::Polling(Polling::new());
    assert!(t.send_message("4c".to_string()).is_ok());
    assert_eq!(t.drain(), vec!["4c".to_string()]);
    let mut w = AnyTransport::WebSocket(WebSocket::new());
    assert!(w.send_ping().is_ok());
    assert_eq!(w.drain(), vec!["2probe".to_string()]);
}

#[test]
fn transport_error_carries_its_cause() {
    let e = TransportError::Io("peer reset".to_string());
    assert!(matches!(e, TransportError::Io(ref cause) if cause == "peer reset"));
}

#[test]
fn socket_opens_with_its_own_sid() {
    let mut sock = Socket::new(AnyTransport::Polling(Polling::new()), 25000, 5000, 0);
    assert_eq!(sock.state(), SessionState::Handshaking);
    sock.on_open().expect("buffered send");
    assert_eq!(sock.state(), SessionState::Open);
    let sid = sock.sid();
    assert_eq!(sid.chars().count(), 20);
    let frames = sock.drain_transport();
    assert_eq!(frames.len(), 1);
    let open = Packet::decode(&frames[0]);
    assert!(open.message.contains(&sid));
}

#[test]
fn socket_echoes_messages_and_answers_pings() {
    let mut sock = Socket::new(AnyTransport::Polling(Polling::new()), 25000, 5000, 0);
    sock.on_open().expect("buffered send");
    sock.drain_transport();
    let delivered = sock.handle_request(&Message::Packet(Packet::decode("4data")), 1);
    assert_eq!(delivered, vec!["data".to_string()]);
    let delivered = sock.handle_request(&Message::Packet(Packet::decode("2ping")), 2);
    assert!(delivered.is_empty());
    assert_eq!(sock.drain_transport(), vec!["4data".to_string(), "3probe".to_string()]);
}

#[test]
fn socket_close_message_is_terminal() {
    let mut sock = Socket::new(AnyTransport::Polling(Polling::new()), 25000, 5000, 0);
    sock.on_open().expect("buffered send");
    sock.handle_request(&Message::Close, 1);
    assert_eq!(sock.state(), SessionState::Closed);
    // a closed session ignores further traffic
    let delivered = sock.handle_request(&Message::Packet(Packet::decode("4late")), 2);
    assert!(delivered.is_empty());
    assert_eq!(sock.state(), SessionState::Closed);
}

#[test]
fn socket_timer_pings_then_times_out() {
    let mut sock = Socket::new(AnyTransport::Polling(Polling::new()), 100, 50, 0);
    sock.on_open().expect("buffered send");
    sock.drain_transport();
    // before any clock elapses nothing happens
    assert!(!sock.on_timer(10));
    assert!(sock.drain_transport().is_empty());
    // activity keeps the timeout at bay while the ping interval elapses
    sock.note_activity(90);
    assert!(!sock.on_timer(100));
    assert_eq!(sock.drain_transport(), vec!["2probe".to_string()]);
    // silence past the timeout closes the session
    assert!(sock.on_timer(141));
    assert_eq!(sock.state(), SessionState::Closed);
    assert_eq!(sock.drain_transport(), vec!["1".to_string()]);
}

#[test]
fn socket_handles_payload_batches_in_order() {
    let mut sock = Socket::new(AnyTransport::Polling(Polling::new()), 25000, 5000, 0);
    sock.on_open().expect("buffered send");
    sock.drain_transport();
    let body = "4one";
    let msg = Message::to_message(body).expect("classifies");
    let delivered = sock.handle_request(&msg, 1);
    assert_eq!(delivered, vec!["one".to_string()]);
}
