//! The WebSocket transport: sent frames queue in an outbox that the
//! socket-facing side drains onto the persistent stream's outbound half.
use crate::transports::{Transport, TransportError};
use vstd::prelude::*;

verus! {

/// A WebSocket transport's server side: the frames awaiting the stream
/// writer. The writer itself lives outside the library, which only decides
/// what goes onto the wire and in which order.
pub struct WebSocket {
    outbox: Vec<String>,
}

impl WebSocket {
    /// An empty outbox.
    pub fn new() -> (r: WebSocket)
        ensures
            r.buffered() == Seq::<Seq<char>>::empty(),
    {
        let r = WebSocket { outbox: Vec::new() };
        proof {
            assert(r.buffered() =~= Seq::<Seq<char>>::empty());
        }
        r
    }

    /// Takes every queued frame out, oldest first.
    pub fn drain(&mut self) -> (r: Vec<String>)
        ensures
            r@.map_values(|s: String| s@) == old(self).buffered(),
            final(self).buffered() == Seq::<Seq<char>>::empty(),
    {
        let mut taken: Vec<String> = Vec::new();
        core::mem::swap(&mut taken, &mut self.outbox);
        proof {
            assert(final(self).buffered() =~= Seq::<Seq<char>>::empty());
        }
        taken
    }
}

impl Transport for WebSocket {
    closed spec fn buffered(&self) -> Seq<Seq<char>> {
        self.outbox@.map_values(|s: String| s@)
    }

    fn send_message(&mut self, message: String) -> (r: Result<(), TransportError>) {
        self.outbox.push(message);
        proof {
            assert(final(self).buffered() =~= old(self).buffered().push(message@));
        }
        Ok(())
    }

    fn send_ping(&mut self) -> (r: Result<(), TransportError>) {
        let f = crate::packet::Packet::ping().encode();
        let ghost fv = f@;
        self.outbox.push(f);
        proof {
            assert(final(self).buffered() =~= old(self).buffered().push(fv));
        }
        Ok(())
    }

    fn send_pong(&mut self) -> (r: Result<(), TransportError>) {
        let f = crate::packet::Packet::pong().encode();
        let ghost fv = f@;
        self.outbox.push(f);
        proof {
            assert(final(self).buffered() =~= old(self).buffered().push(fv));
        }
        Ok(())
    }

    fn send_close(&mut self) -> (r: Result<(), TransportError>) {
        let f = crate::packet::Packet::close().encode();
        let ghost fv = f@;
        self.outbox.push(f);
        proof {
            assert(final(self).buffered() =~= old(self).buffered().push(fv));
        }
        Ok(())
    }
}

} // verus!
