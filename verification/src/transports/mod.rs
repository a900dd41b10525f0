//! Transports: the two byte-carrying mechanisms a session can be backed by,
//! modelled as buffers of encoded frames. Queueing a frame is the whole of
//! "sending" here; the surrounding process drains the buffer into the next
//! long-poll response or onto the socket stream.
pub mod polling;
pub mod websocket;

use crate::packet::{packet_encode, PacketType, PacketView};
use vstd::prelude::*;

verus! {

/// Failure of the underlying channel; ends the owning session.
#[derive(Clone, Debug)]
pub enum TransportError {
    Io(String),
}

/// The uniform send-intent primitives of a transport. The contract of each
/// is exact: a frame is queued, in order, and never dropped — the buffer
/// grows, it never evicts.
pub trait Transport {
    /// The encoded frames accepted and not yet handed to the peer, oldest
    /// first.
    spec fn buffered(&self) -> Seq<Seq<char>>;

    /// Queues one already-encoded frame.
    fn send_message(&mut self, message: String) -> (r: Result<(), TransportError>)
        ensures
            r is Ok,
            final(self).buffered() == old(self).buffered().push(message@),
    ;

    /// Queues a `Ping` probe frame.
    fn send_ping(&mut self) -> (r: Result<(), TransportError>)
        ensures
            r is Ok,
            final(self).buffered() == old(self).buffered().push(
                packet_encode(PacketView { typ: PacketType::Ping, message: "probe"@ }),
            ),
    ;

    /// Queues a `Pong` probe frame.
    fn send_pong(&mut self) -> (r: Result<(), TransportError>)
        ensures
            r is Ok,
            final(self).buffered() == old(self).buffered().push(
                packet_encode(PacketView { typ: PacketType::Pong, message: "probe"@ }),
            ),
    ;

    /// Queues a `Close` frame.
    fn send_close(&mut self) -> (r: Result<(), TransportError>)
        ensures
            r is Ok,
            final(self).buffered() == old(self).buffered().push(
                packet_encode(PacketView { typ: PacketType::Close, message: Seq::empty() }),
            ),
    ;
}

/// A session's transport at runtime: a closed tagged variant, so that a
/// live session can switch from polling to WebSocket without changing type.
pub enum AnyTransport {
    Polling(polling::Polling),
    WebSocket(websocket::WebSocket),
}

impl AnyTransport {
    /// Which kind of channel this is.
    pub open spec fn spec_kind(&self) -> crate::packet::Transport {
        match self {
            AnyTransport::Polling(_) => crate::packet::Transport::Polling(
                crate::packet::PollingType::XHR,
            ),
            AnyTransport::WebSocket(_) => crate::packet::Transport::WebSocket,
        }
    }

    /// Which kind of channel this is.
    pub fn kind(&self) -> (r: crate::packet::Transport)
        ensures
            r == self.spec_kind(),
    {
        match self {
            AnyTransport::Polling(_) => crate::packet::Transport::Polling(
                crate::packet::PollingType::XHR,
            ),
            AnyTransport::WebSocket(_) => crate::packet::Transport::WebSocket,
        }
    }

    /// Takes every queued frame out, oldest first.
    pub fn drain(&mut self) -> (r: Vec<String>)
        ensures
            r@.map_values(|s: String| s@) == old(self).buffered(),
            final(self).buffered() == Seq::<Seq<char>>::empty(),
            final(self).spec_kind() == old(self).spec_kind(),
    {
        match self {
            AnyTransport::Polling(p) => p.drain(),
            AnyTransport::WebSocket(w) => w.drain(),
        }
    }

    /// Queues one already-encoded frame; the channel keeps its kind.
    pub fn queue_message(&mut self, message: String)
        ensures
            final(self).buffered() == old(self).buffered().push(message@),
            final(self).spec_kind() == old(self).spec_kind(),
    {
        let _ = match self {
            AnyTransport::Polling(p) => p.send_message(message),
            AnyTransport::WebSocket(w) => w.send_message(message),
        };
    }

    /// Queues a `Ping` probe frame; the channel keeps its kind.
    pub fn queue_ping(&mut self)
        ensures
            final(self).buffered() == old(self).buffered().push(
                packet_encode(PacketView { typ: PacketType::Ping, message: "probe"@ }),
            ),
            final(self).spec_kind() == old(self).spec_kind(),
    {
        let _ = match self {
            AnyTransport::Polling(p) => p.send_ping(),
            AnyTransport::WebSocket(w) => w.send_ping(),
        };
    }

    /// Queues a `Pong` probe frame; the channel keeps its kind.
    pub fn queue_pong(&mut self)
        ensures
            final(self).buffered() == old(self).buffered().push(
                packet_encode(PacketView { typ: PacketType::Pong, message: "probe"@ }),
            ),
            final(self).spec_kind() == old(self).spec_kind(),
    {
        let _ = match self {
            AnyTransport::Polling(p) => p.send_pong(),
            AnyTransport::WebSocket(w) => w.send_pong(),
        };
    }

    /// Queues a `Close` frame; the channel keeps its kind.
    pub fn queue_close(&mut self)
        ensures
            final(self).buffered() == old(self).buffered().push(
                packet_encode(PacketView { typ: PacketType::Close, message: Seq::empty() }),
            ),
            final(self).spec_kind() == old(self).spec_kind(),
    {
        let _ = match self {
            AnyTransport::Polling(p) => p.send_close(),
            AnyTransport::WebSocket(w) => w.send_close(),
        };
    }
}

impl Transport for AnyTransport {
    open spec fn buffered(&self) -> Seq<Seq<char>> {
        match self {
            AnyTransport::Polling(p) => p.buffered(),
            AnyTransport::WebSocket(w) => w.buffered(),
        }
    }

    fn send_message(&mut self, message: String) -> (r: Result<(), TransportError>) {
        match self {
            AnyTransport::Polling(p) => p.send_message(message),
            AnyTransport::WebSocket(w) => w.send_message(message),
        }
    }

    fn send_ping(&mut self) -> (r: Result<(), TransportError>) {
        match self {
            AnyTransport::Polling(p) => p.send_ping(),
            AnyTransport::WebSocket(w) => w.send_ping(),
        }
    }

    fn send_pong(&mut self) -> (r: Result<(), TransportError>) {
        match self {
            AnyTransport::Polling(p) => p.send_pong(),
            AnyTransport::WebSocket(w) => w.send_pong(),
        }
    }

    fn send_close(&mut self) -> (r: Result<(), TransportError>) {
        match self {
            AnyTransport::Polling(p) => p.send_close(),
            AnyTransport::WebSocket(w) => w.send_close(),
        }
    }
}

} // verus!
