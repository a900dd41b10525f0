//! The long-polling transport: sent frames queue in a pending-response
//! buffer until the next GET drains them. The buffer grows as needed and
//! never drops a frame.
use crate::transports::{Transport, TransportError};
use vstd::prelude::*;

verus! {

/// A polling transport's server side: the frames waiting for the next GET.
pub struct Polling {
    pending: Vec<String>,
}

impl Polling {
    /// An empty pending buffer.
    pub fn new() -> (r: Polling)
        ensures
            r.buffered() == Seq::<Seq<char>>::empty(),
    {
        let r = Polling { pending: Vec::new() };
        proof {
            assert(r.buffered() =~= Seq::<Seq<char>>::empty());
        }
        r
    }

    /// Takes every queued frame out, oldest first.
    pub fn drain(&mut self) -> (r: Vec<String>)
        ensures
            r@.map_values(|s: String| s@) == old(self).buffered(),
            final(self).buffered() == Seq::<Seq<char>>::empty(),
    {
        let mut taken: Vec<String> = Vec::new();
        core::mem::swap(&mut taken, &mut self.pending);
        proof {
            assert(final(self).buffered() =~= Seq::<Seq<char>>::empty());
        }
        taken
    }
}

impl Transport for Polling {
    closed spec fn buffered(&self) -> Seq<Seq<char>> {
        self.pending@.map_values(|s: String| s@)
    }

    fn send_message(&mut self, message: String) -> (r: Result<(), TransportError>) {
        self.pending.push(message);
        proof {
            assert(final(self).buffered() =~= old(self).buffered().push(message@));
        }
        Ok(())
    }

    fn send_ping(&mut self) -> (r: Result<(), TransportError>) {
        let f = crate::packet::Packet::ping().encode();
        let ghost fv = f@;
        self.pending.push(f);
        proof {
            assert(final(self).buffered() =~= old(self).buffered().push(fv));
        }
        Ok(())
    }

    fn send_pong(&mut self) -> (r: Result<(), TransportError>) {
        let f = crate::packet::Packet::pong().encode();
        let ghost fv = f@;
        self.pending.push(f);
        proof {
            assert(final(self).buffered() =~= old(self).buffered().push(fv));
        }
        Ok(())
    }

    fn send_close(&mut self) -> (r: Result<(), TransportError>) {
        let f = crate::packet::Packet::close().encode();
        let ghost fv = f@;
        self.pending.push(f);
        proof {
            assert(final(self).buffered() =~= old(self).buffered().push(fv));
        }
        Ok(())
    }
}

} // verus!
