//! Server side of an engine.io-style bidirectional transport protocol:
//! a packet/payload wire codec, buffered transports (long-polling and
//! WebSocket), a per-session protocol state machine with keepalive, and
//! a registry routing requests to live sessions.
pub mod packet;
pub mod server;
pub mod socket;
pub mod transports;
pub mod util;

use vstd::prelude::*;

verus! {

} // verus!
