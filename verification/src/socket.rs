//! Sessions: the per-session protocol state machine, its keepalive clock,
//! and the generation of session identifiers.
//!
//! A session owns one transport and steps through
//! `Handshaking -> Open -> (Upgrading ->) Closed`. Every observable effect
//! of a step — the frames queued on the transports, the payloads handed to
//! the application, the state reached — is pinned down by the spec-level
//! transition function `step_packet`, of which the executable handlers are
//! proved to be an implementation.
use crate::packet::{
    packet_encode, Packet, PacketType, PacketView, Payload,
};
use crate::transports::{websocket::WebSocket, AnyTransport, Transport};
use crate::util::{sat_add, sat_add_spec, usize_to_decimal};
use vstd::prelude::*;

verus! {

/// A session identifier: an opaque, URL-safe random string.
pub type SID = String;

/// The alphabet session identifiers are drawn from.
pub open spec fn is_sid_char(c: char) -> bool {
    ||| 'A' <= c && c <= 'Z'
    ||| 'a' <= c && c <= 'z'
    ||| '0' <= c && c <= '9'
}

/// A well-formed session identifier: twenty alphanumeric characters.
pub open spec fn sid_wf(s: Seq<char>) -> bool {
    s.len() == 20 && forall|i: int| 0 <= i < s.len() ==> is_sid_char(#[trigger] s[i])
}

/// Relies on `rand::random_range`: a draw from the thread-local generator
/// always lies within the given range, and the range is non-empty here, so
/// the call does not panic.
#[verifier::external_body]
fn random_below(n: usize) -> (r: usize)
    requires
        n > 0,
    ensures
        r < n,
{
    rand::random_range(0..n)
}

/// Generates a fresh session identifier: twenty characters drawn
/// independently at random from the sixty-two letters and digits.
pub fn generate_sid() -> (r: SID)
    ensures
        sid_wf(r@),
{
    let base: &str = "ABCDEFGHIJKLMNOPQRSTUVWXYZabcdefghijklmnopqrstuvwxyz0123456789";
    proof {
        reveal_strlit("ABCDEFGHIJKLMNOPQRSTUVWXYZabcdefghijklmnopqrstuvwxyz0123456789");
        assert(base@.len() == 62);
        assert forall|i: int| 0 <= i < 62 implies is_sid_char(#[trigger] base@[i]) by {
            if i < 26 {
                assert('A' <= base@[i] && base@[i] <= 'Z');
            } else if i < 52 {
                assert('a' <= base@[i] && base@[i] <= 'z');
            } else {
                assert('0' <= base@[i] && base@[i] <= '9');
            }
        }
    }
    let mut r = String::new();
    let mut k: usize = 0;
    while k < 20
        invariant
            k <= 20,
            r@.len() == k,
            forall|i: int| 0 <= i < k ==> is_sid_char(#[trigger] r@[i]),
            base@.len() == 62,
            forall|i: int| 0 <= i < 62 ==> is_sid_char(#[trigger] base@[i]),
        decreases 20 - k,
    {
        let j = random_below(62);
        let piece = base.substring_char(j, j + 1);
        r.append(piece);
        k += 1;
    }
    r
}

/// The deterministic identifier used when random draws keep colliding:
/// the number written out in decimal, left-padded with zeros to twenty
/// characters. Distinct numbers give distinct identifiers.
pub open spec fn fallback_sid_spec(k: nat) -> Seq<char> {
    crate::util::zeros((20 - crate::util::dec_digits(k).len()) as nat) + crate::util::dec_digits(k)
}

/// Fallback identifiers are well formed and carry their number: reading
/// the digits back gives `k`, so distinct numbers collide with nothing.
pub proof fn lemma_fallback_sid(k: nat)
    requires
        k < 0x10000000000000000,
    ensures
        sid_wf(fallback_sid_spec(k)),
        crate::util::dec_value(fallback_sid_spec(k)) == k,
{
    crate::util::lemma_dec_digits_are_digits(k);
    assert(crate::util::pow10(20) > 0x10000000000000000) by {
        reveal_with_fuel(crate::util::pow10, 21);
    }
    crate::util::lemma_dec_digits_len(k, 20);
    let d = crate::util::dec_digits(k);
    let j = (20 - d.len()) as nat;
    crate::util::lemma_dec_value_leading_zeros(j, d);
    crate::util::lemma_dec_value_of_digits(k);
    let s = fallback_sid_spec(k);
    assert(s.len() == 20);
    assert forall|i: int| 0 <= i < s.len() implies is_sid_char(#[trigger] s[i]) by {
        if i < j {
            assert(s[i] == '0');
        } else {
            assert(s[i] == d[i - j]);
            assert(crate::util::is_digit_char(d[i - j]));
        }
    }
}

/// Builds the fallback identifier for a number.
pub fn fallback_sid(k: usize) -> (r: SID)
    ensures
        r@ == fallback_sid_spec(k as nat),
        sid_wf(r@),
{
    proof {
        assert(usize::MAX < 0x10000000000000000);
        lemma_fallback_sid(k as nat);
    }
    let mut s = usize_to_decimal(k);
    let ghost d = crate::util::dec_digits(k as nat);
    let mut padded: usize = 0;
    proof {
        assert(crate::util::zeros(0) + d =~= d);
        assert(d.len() <= 20);
    }
    while s.unicode_len() < 20
        invariant
            s@ == crate::util::zeros(padded as nat) + d,
            s@.len() == padded + d.len(),
            d.len() >= 1,
            padded + d.len() <= 20,
        decreases 20 - s@.len(),
    {
        let z = String::from_str("0");
        let t = z.concat(s.as_str());
        s = t;
        padded += 1;
        proof {
            reveal_strlit("0");
            assert(s@ =~= crate::util::zeros(padded as nat) + d);
        }
    }
    proof {
        assert(s@.len() == 20);
        assert(s@ =~= fallback_sid_spec(k as nat));
    }
    s
}

/// Messages exchanged between the registry and a session: one decoded
/// packet, a framed batch of packets, or the instruction to close.
#[derive(Debug)]
pub enum Message {
    Packet(Packet),
    Payload(Payload),
    Close,
}

impl Message {
    /// Classifies one request body. A body with a well-formed length prefix
    /// is a payload; anything else is a single packet, which never fails to
    /// decode. So classification always succeeds.
    pub fn to_message(s: &str) -> (r: Option<Message>)
        ensures
            crate::packet::payload_framed(s@) ==> (r matches Some(m) && m matches Message::Payload(
                p,
            ) && p@ == crate::packet::payload_decode(s@)),
            !crate::packet::payload_framed(s@) ==> (r matches Some(m) && m matches Message::Packet(
                p,
            ) && p@ == crate::packet::packet_decode(s@)),
    {
        match Payload::decode(s) {
            Ok(p) => Some(Message::Payload(p)),
            Err(_) => Some(Message::Packet(Packet::decode(s))),
        }
    }
}

/// The protocol states of a session.
#[derive(Clone, Copy, Debug, PartialEq, Eq, Structural)]
pub enum SessionState {
    Handshaking,
    Open,
    Upgrading,
    Closed,
}

/// The mathematical value of a session: identifier, state, which kind of
/// transport carries it, the frames queued on the current transport and on
/// the upgrade target, and the keepalive clocks in milliseconds.
pub ghost struct SessionModel {
    pub sid: Seq<char>,
    pub state: SessionState,
    pub kind: crate::packet::Transport,
    pub buffered: Seq<Seq<char>>,
    pub ws_pending: Option<Seq<Seq<char>>>,
    pub ping_interval: u64,
    pub ping_timeout: u64,
    pub next_ping_at: u64,
    pub deadline: u64,
}

/// Internal consistency of a session: a well-formed identifier, an upgrade
/// target exactly while upgrading, and upgrades only away from polling.
pub open spec fn session_wf(m: SessionModel) -> bool {
    &&& sid_wf(m.sid)
    &&& (m.state == SessionState::Upgrading <==> m.ws_pending is Some)
    &&& (m.state == SessionState::Upgrading ==> m.kind matches crate::packet::Transport::Polling(
        _,
    ))
}

/// The encoded `Pong` probe frame.
pub open spec fn pong_probe_frame() -> Seq<char> {
    packet_encode(PacketView { typ: PacketType::Pong, message: "probe"@ })
}

/// The encoded `Ping` probe frame.
pub open spec fn ping_probe_frame() -> Seq<char> {
    packet_encode(PacketView { typ: PacketType::Ping, message: "probe"@ })
}

/// The encoded `Close` frame.
pub open spec fn close_frame() -> Seq<char> {
    packet_encode(PacketView { typ: PacketType::Close, message: Seq::empty() })
}

/// Closing a session: a best-effort `Close` frame on the current transport,
/// the upgrade target abandoned, the terminal state entered.
pub open spec fn close_step(m: SessionModel) -> SessionModel {
    SessionModel {
        state: SessionState::Closed,
        buffered: m.buffered.push(close_frame()),
        ws_pending: None,
        ..m
    }
}

/// Completing an upgrade: the polling transport is retired and its
/// still-queued frames move, in order, behind the upgrade target's own,
/// so no frame is lost; the session is back to `Open` on WebSocket.
pub open spec fn upgrade_step(m: SessionModel) -> SessionModel {
    SessionModel {
        state: SessionState::Open,
        kind: crate::packet::Transport::WebSocket,
        buffered: m.ws_pending->0 + m.buffered,
        ws_pending: None,
        ..m
    }
}

/// One packet's effect on a session: the next model and the payloads
/// delivered to the application layer.
///
/// In `Open` or `Upgrading`: `Message` is echoed onto the current transport
/// and its payload delivered; `Ping` is answered with a `Pong` probe;
/// `Pong` and `Open` change nothing further (inbound activity has already
/// reset the keepalive deadline); `Close` and `Noop` close the session;
/// `Upgrade` completes a pending transport switch and is otherwise ignored.
/// In any other state a packet has no effect.
pub open spec fn step_packet(m: SessionModel, p: PacketView) -> (SessionModel, Seq<Seq<char>>) {
    if m.state == SessionState::Open || m.state == SessionState::Upgrading {
        match p.typ {
            PacketType::Open => (m, Seq::empty()),
            PacketType::Ping => (
                SessionModel { buffered: m.buffered.push(pong_probe_frame()), ..m },
                Seq::empty(),
            ),
            PacketType::Pong => (m, Seq::empty()),
            PacketType::Message => (
                SessionModel { buffered: m.buffered.push(packet_encode(p)), ..m },
                seq![p.message],
            ),
            PacketType::Close => (close_step(m), Seq::empty()),
            PacketType::Noop => (close_step(m), Seq::empty()),
            PacketType::Upgrade => if m.state == SessionState::Upgrading {
                (upgrade_step(m), Seq::empty())
            } else {
                (m, Seq::empty())
            },
        }
    } else {
        (m, Seq::empty())
    }
}

/// The effect of a run of packets, front to back, with the deliveries of
/// each step concatenated in order.
pub open spec fn step_packets(m: SessionModel, ps: Seq<PacketView>) -> (
    SessionModel,
    Seq<Seq<char>>,
)
    decreases ps.len(),
{
    if ps.len() == 0 {
        (m, Seq::empty())
    } else {
        let (m1, d1) = step_packet(m, ps[0]);
        let (m2, d2) = step_packets(m1, ps.drop_first());
        (m2, d1 + d2)
    }
}

/// A step never invents an upgrade target and never leaves the session
/// inconsistent.
pub proof fn lemma_step_packet_wf(m: SessionModel, p: PacketView)
    requires
        session_wf(m),
    ensures
        session_wf(step_packet(m, p).0),
        step_packet(m, p).0.sid == m.sid,
{
}

/// A run of steps preserves consistency and the identifier: the session
/// identifier never changes, in particular not across an upgrade.
pub proof fn lemma_step_packets_wf(m: SessionModel, ps: Seq<PacketView>)
    requires
        session_wf(m),
    ensures
        session_wf(step_packets(m, ps).0),
        step_packets(m, ps).0.sid == m.sid,
    decreases ps.len(),
{
    if ps.len() > 0 {
        lemma_step_packet_wf(m, ps[0]);
        lemma_step_packets_wf(step_packet(m, ps[0]).0, ps.drop_first());
    }
}

/// A step out of a live state lands in a live or terminal state, never
/// back in `Handshaking`; the keepalive clocks and configuration are
/// untouched by packet handling.
pub proof fn lemma_step_packets_states(m: SessionModel, ps: Seq<PacketView>)
    requires
        m.state == SessionState::Open || m.state == SessionState::Upgrading,
    ensures
        ({
            let r = step_packets(m, ps).0;
            &&& (r.state == SessionState::Open || r.state == SessionState::Upgrading || r.state
                == SessionState::Closed)
            &&& r.ping_interval == m.ping_interval
            &&& r.ping_timeout == m.ping_timeout
            &&& r.next_ping_at == m.next_ping_at
            &&& r.deadline == m.deadline
        }),
    decreases ps.len(),
{
    if ps.len() > 0 {
        let m1 = step_packet(m, ps[0]).0;
        if m1.state == SessionState::Closed {
            lemma_step_packets_closed(m1, ps.drop_first());
        } else {
            lemma_step_packets_states(m1, ps.drop_first());
        }
    }
}

/// A closed session is inert: no run of packets changes it.
pub proof fn lemma_step_packets_closed(m: SessionModel, ps: Seq<PacketView>)
    requires
        m.state == SessionState::Closed,
    ensures
        step_packets(m, ps).0 == m,
        step_packets(m, ps).1 == Seq::<Seq<char>>::empty(),
    decreases ps.len(),
{
    if ps.len() > 0 {
        lemma_step_packets_closed(m, ps.drop_first());
        assert(step_packets(m, ps).1 =~= Seq::<Seq<char>>::empty());
    }
}

/// One logical client connection, independent of which transport currently
/// carries it.
pub struct Socket {
    sid: SID,
    transport: AnyTransport,
    state: SessionState,
    ping_interval: u64,
    ping_timeout: u64,
    next_ping_at: u64,
    deadline: u64,
    pending_ws: Option<WebSocket>,
}

impl View for Socket {
    type V = SessionModel;

    closed spec fn view(&self) -> SessionModel {
        SessionModel {
            sid: self.sid@,
            state: self.state,
            kind: self.transport.spec_kind(),
            buffered: self.transport.buffered(),
            ws_pending: match self.pending_ws {
                Some(w) => Some(w.buffered()),
                None => None,
            },
            ping_interval: self.ping_interval,
            ping_timeout: self.ping_timeout,
            next_ping_at: self.next_ping_at,
            deadline: self.deadline,
        }
    }
}

impl Socket {
    /// A fresh session over the given transport, with a newly generated
    /// identifier, both keepalive clocks started at `now`, and the
    /// handshake still to be sent.
    pub fn new(transport: AnyTransport, ping_interval: u64, ping_timeout: u64, now: u64) -> (r:
        Socket)
        ensures
            session_wf(r@),
            r@.state == SessionState::Handshaking,
            r@.kind == transport.spec_kind(),
            r@.buffered == transport.buffered(),
            r@.ws_pending is None,
            r@.ping_interval == ping_interval,
            r@.ping_timeout == ping_timeout,
            r@.next_ping_at == sat_add_spec(now, ping_interval),
            r@.deadline == sat_add_spec(now, ping_timeout),
    {
        let sid = generate_sid();
        Socket::with_sid(sid, transport, ping_interval, ping_timeout, now)
    }

    /// A fresh session under a caller-chosen identifier; the registry uses
    /// this to guarantee an identifier unique among live sessions.
    pub(crate) fn with_sid(
        sid: SID,
        transport: AnyTransport,
        ping_interval: u64,
        ping_timeout: u64,
        now: u64,
    ) -> (r: Socket)
        requires
            sid_wf(sid@),
        ensures
            session_wf(r@),
            r@.sid == sid@,
            r@.state == SessionState::Handshaking,
            r@.kind == transport.spec_kind(),
            r@.buffered == transport.buffered(),
            r@.ws_pending is None,
            r@.ping_interval == ping_interval,
            r@.ping_timeout == ping_timeout,
            r@.next_ping_at == sat_add_spec(now, ping_interval),
            r@.deadline == sat_add_spec(now, ping_timeout),
    {
        Socket {
            sid,
            transport,
            state: SessionState::Handshaking,
            ping_interval,
            ping_timeout,
            next_ping_at: sat_add(now, ping_interval),
            deadline: sat_add(now, ping_timeout),
            pending_ws: None,
        }
    }

    /// Notes inbound activity: the resettable keepalive timeout restarts.
    pub fn note_activity(&mut self, now: u64)
        ensures
            final(self)@ == (SessionModel {
                deadline: sat_add_spec(now, old(self)@.ping_timeout),
                ..old(self)@
            }),
    {
        self.deadline = sat_add(now, self.ping_timeout);
    }

    /// This session's identifier.
    pub fn sid(&self) -> (r: SID)
        ensures
            r@ == self@.sid,
    {
        self.sid.clone()
    }

    /// This session's current protocol state.
    pub fn state(&self) -> (r: SessionState)
        ensures
            r == self@.state,
    {
        self.state
    }

    /// Which kind of transport currently carries this session.
    pub fn kind(&self) -> (r: crate::packet::Transport)
        ensures
            r == self@.kind,
    {
        self.transport.kind()
    }

    /// Performs the handshake: queues the `Open` packet, which carries the
    /// session identifier and the connection parameters, and opens the
    /// session. This is the only way a peer learns the identifier.
    pub fn on_open(&mut self) -> (r: Result<(), crate::transports::TransportError>)
        requires
            old(self)@.state == SessionState::Handshaking,
        ensures
            r is Ok,
            final(self)@ == (SessionModel {
                state: SessionState::Open,
                buffered: old(self)@.buffered.push(
                    packet_encode(
                        PacketView {
                            typ: PacketType::Open,
                            message: crate::packet::open_payload(
                                old(self)@.sid,
                                crate::packet::PING_INTERVAL_MS as nat,
                                crate::packet::PING_TIMEOUT_MS as nat,
                            ),
                        },
                    ),
                ),
                ..old(self)@
            }),
    {
        let open = Packet::open(self.sid.clone());
        let frame = open.encode();
        self.transport.queue_message(frame);
        self.state = SessionState::Open;
        Ok(())
    }

    /// Echoes a `Message` packet back onto the current transport; the
    /// delivery of its payload to the application is the caller's half.
    pub fn on_message(&mut self, packet: &Packet) -> (r: Result<
        (),
        crate::transports::TransportError,
    >)
        requires
            packet@.typ == PacketType::Message,
            old(self)@.state == SessionState::Open || old(self)@.state == SessionState::Upgrading,
        ensures
            r is Ok,
            final(self)@ == step_packet(old(self)@, packet@).0,
    {
        let frame = packet.encode();
        self.transport.queue_message(frame);
        Ok(())
    }

    /// Answers an inbound `Ping` with a `Pong` probe on the same transport.
    pub fn on_ping(&mut self, packet: &Packet) -> (r: Result<
        (),
        crate::transports::TransportError,
    >)
        requires
            packet@.typ == PacketType::Ping,
            old(self)@.state == SessionState::Open || old(self)@.state == SessionState::Upgrading,
        ensures
            r is Ok,
            final(self)@ == step_packet(old(self)@, packet@).0,
    {
        self.transport.queue_pong();
        Ok(())
    }

    /// Notes an inbound `Pong`; the keepalive deadline was already reset on
    /// arrival, so nothing else changes.
    pub fn on_pong(&mut self, packet: &Packet) -> (r: Result<
        (),
        crate::transports::TransportError,
    >)
        requires
            packet@.typ == PacketType::Pong,
            old(self)@.state == SessionState::Open || old(self)@.state == SessionState::Upgrading,
        ensures
            r is Ok,
            final(self)@ == step_packet(old(self)@, packet@).0,
    {
        Ok(())
    }

    /// Closes the session: a best-effort `Close` frame, the upgrade target
    /// abandoned, the terminal state entered.
    pub fn on_close(&mut self, _packet: &Packet) -> (r: Result<
        (),
        crate::transports::TransportError,
    >)
        ensures
            r is Ok,
            final(self)@ == close_step(old(self)@),
    {
        self.transport.queue_close();
        self.state = SessionState::Closed;
        self.pending_ws = None;
        Ok(())
    }

    /// Completes a pending transport upgrade: retires the polling
    /// transport, moves its still-queued frames behind the upgrade
    /// target's, and continues `Open` over WebSocket. The identifier does
    /// not change.
    pub fn on_upgrade(&mut self, _packet: &Packet) -> (r: Result<
        (),
        crate::transports::TransportError,
    >)
        requires
            session_wf(old(self)@),
            old(self)@.state == SessionState::Upgrading,
        ensures
            r is Ok,
            final(self)@ == upgrade_step(old(self)@),
            session_wf(final(self)@),
    {
        let mut slot: Option<WebSocket> = None;
        core::mem::swap(&mut slot, &mut self.pending_ws);
        match slot {
            Some(mut ws) => {
                let ghost ws_buf = ws.buffered();
                let leftovers = self.transport.drain();
                let ghost left = old(self)@.buffered;
                let mut i: usize = 0;
                while i < leftovers.len()
                    invariant
                        i <= leftovers.len(),
                        leftovers@.map_values(|s: String| s@) == left,
                        ws.buffered() == ws_buf + left.subrange(0, i as int),
                    decreases leftovers.len() - i,
                {
                    let f = leftovers[i].clone();
                    let _ = ws.send_message(f);
                    proof {
                        assert(left.subrange(0, i + 1).drop_last() =~= left.subrange(0, i as int));
                        assert(ws.buffered() =~= ws_buf + left.subrange(0, i + 1));
                    }
                    i += 1;
                }
                proof {
                    assert(left.subrange(0, leftovers@.len() as int) =~= left);
                }
                let mut t = AnyTransport::WebSocket(ws);
                core::mem::swap(&mut self.transport, &mut t);
                self.state = SessionState::Open;
                Ok(())
            },
            None => {
                // session_wf rules this arm out: upgrading implies a target
                proof {
                    assert(false);
                }
                Ok(())
            },
        }
    }

    /// Starts a transport upgrade: a probe `Ping` arrived over a new
    /// WebSocket connection while this session is `Open` on polling. The
    /// probe is answered with a `Pong` probe queued on the new transport,
    /// whose frames the socket-facing side drains; the polling transport
    /// stays active until the `Upgrade` packet confirms the switch.
    pub fn begin_upgrade(&mut self) -> (r: Result<(), crate::transports::TransportError>)
        requires
            session_wf(old(self)@),
            old(self)@.state == SessionState::Open,
            old(self)@.kind matches crate::packet::Transport::Polling(_),
        ensures
            r is Ok,
            final(self)@ == (SessionModel {
                state: SessionState::Upgrading,
                ws_pending: Some(seq![pong_probe_frame()]),
                ..old(self)@
            }),
            session_wf(final(self)@),
    {
        let mut ws = WebSocket::new();
        let r = ws.send_pong();
        self.pending_ws = Some(ws);
        self.state = SessionState::Upgrading;
        proof {
            assert(final(self)@.ws_pending->0 =~= seq![pong_probe_frame()]);
            assert(final(self)@ == (SessionModel {
                state: SessionState::Upgrading,
                ws_pending: Some(seq![pong_probe_frame()]),
                ..old(self)@
            }));
        }
        r
    }

    /// Dispatches one inbound packet according to the protocol state
    /// machine and returns the payload delivered to the application, if
    /// this packet carried one.
    fn dispatch(&mut self, packet: &Packet) -> (r: Option<String>)
        requires
            session_wf(old(self)@),
        ensures
            session_wf(final(self)@),
            final(self)@ == step_packet(old(self)@, packet@).0,
            match r {
                Some(s) => step_packet(old(self)@, packet@).1 == seq![s@],
                None => step_packet(old(self)@, packet@).1 == Seq::<Seq<char>>::empty(),
            },
    {
        proof {
            lemma_step_packet_wf(old(self)@, packet@);
        }
        let live = match self.state {
            SessionState::Open => true,
            SessionState::Upgrading => true,
            _ => false,
        };
        if !live {
            return None;
        }
        match packet.typ {
            PacketType::Open => None,
            PacketType::Ping => {
                let _ = self.on_ping(packet);
                None
            },
            PacketType::Pong => {
                let _ = self.on_pong(packet);
                None
            },
            PacketType::Message => {
                let delivered = packet.message.clone();
                let _ = self.on_message(packet);
                Some(delivered)
            },
            PacketType::Close => {
                let _ = self.on_close(packet);
                None
            },
            PacketType::Noop => {
                let _ = self.on_close(packet);
                None
            },
            PacketType::Upgrade => {
                if self.state == SessionState::Upgrading {
                    let _ = self.on_upgrade(packet);
                }
                None
            },
        }
    }

    /// Routes one inbound message through the state machine: any inbound
    /// activity resets the keepalive deadline, then each carried packet is
    /// dispatched in order. Returns the application payloads delivered, in
    /// order. A channel-level `Close` closes the session.
    pub fn handle_request(&mut self, message: &Message, now: u64) -> (r: Vec<String>)
        requires
            session_wf(old(self)@),
        ensures
            session_wf(final(self)@),
            ({
                let m0 = SessionModel {
                    deadline: sat_add_spec(now, old(self)@.ping_timeout),
                    ..old(self)@
                };
                match message {
                    Message::Packet(p) => final(self)@ == step_packets(m0, seq![p@]).0 && r@
                        .map_values(|s: String| s@) == step_packets(m0, seq![p@]).1,
                    Message::Payload(pl) => final(self)@ == step_packets(m0, pl@).0 && r@
                        .map_values(|s: String| s@) == step_packets(m0, pl@).1,
                    Message::Close => final(self)@ == close_step(m0) && r@.len() == 0,
                }
            }),
    {
        self.deadline = sat_add(now, self.ping_timeout);
        let ghost m0 = self@;
        let mut deliveries: Vec<String> = Vec::new();
        match message {
            Message::Packet(p) => {
                let d = self.dispatch(p);
                if let Some(s) = d {
                    deliveries.push(s);
                }
                proof {
                    assert(seq![p@].drop_first() =~= Seq::<PacketView>::empty());
                    let m1 = step_packet(m0, p@).0;
                    assert(step_packets(m1, Seq::<PacketView>::empty()).0 == m1);
                    assert(seq![p@][0] == p@);
                    assert(step_packets(m0, seq![p@]).0 == step_packet(m0, p@).0);
                    assert(step_packets(m0, seq![p@]).1 =~= step_packet(m0, p@).1);
                    assert(deliveries@.map_values(|s: String| s@) =~= step_packets(
                        m0,
                        seq![p@],
                    ).1);
                }
            },
            Message::Payload(pl) => {
                let ghost ps = pl@;
                proof {
                    assert(ps.skip(0) =~= ps);
                    assert(deliveries@.map_values(|s: String| s@) =~= Seq::<Seq<char>>::empty());
                }
                let n = pl.len();
                let mut i: usize = 0;
                while i < n
                    invariant
                        n == ps.len(),
                        i <= n,
                        ps == pl@,
                        session_wf(self@),
                        step_packets(m0, ps).0 == step_packets(self@, ps.skip(i as int)).0,
                        step_packets(m0, ps).1 == deliveries@.map_values(|s: String| s@)
                            + step_packets(self@, ps.skip(i as int)).1,
                    decreases n - i,
                {
                    let ghost m_i = self@;
                    let p = pl.packet_at(i);
                    let d = self.dispatch(p);
                    proof {
                        assert(ps.skip(i as int).drop_first() =~= ps.skip(i + 1));
                        assert(ps.skip(i as int)[0] == ps[i as int]);
                    }
                    if let Some(s) = d {
                        deliveries.push(s);
                    }
                    proof {
                        assert(deliveries@.map_values(|s: String| s@) + step_packets(
                            self@,
                            ps.skip(i + 1),
                        ).1 =~= step_packets(m0, ps).1);
                    }
                    i += 1;
                }
                proof {
                    assert(ps.skip(n as int) =~= Seq::<PacketView>::empty());
                    assert(deliveries@.map_values(|s: String| s@) =~= step_packets(m0, ps).1);
                }
            },
            Message::Close => {
                let _ = self.on_close(&Packet::close());
            },
        }
        deliveries
    }

    /// Advances the keepalive clocks to `now`. If the resettable timeout
    /// has elapsed without inbound activity, the session closes as a
    /// liveness failure and `true` comes back; otherwise, if a keepalive
    /// interval has elapsed, a `Ping` probe is queued and the next tick
    /// scheduled. A session not yet open, or already closed, is left alone.
    pub fn on_timer(&mut self, now: u64) -> (timed_out: bool)
        requires
            session_wf(old(self)@),
        ensures
            session_wf(final(self)@),
            ({
                let live = old(self)@.state == SessionState::Open || old(self)@.state
                    == SessionState::Upgrading;
                if live && now >= old(self)@.deadline {
                    timed_out && final(self)@ == close_step(old(self)@)
                } else if live && now >= old(self)@.next_ping_at {
                    !timed_out && final(self)@ == (SessionModel {
                        buffered: old(self)@.buffered.push(ping_probe_frame()),
                        next_ping_at: sat_add_spec(now, old(self)@.ping_interval),
                        ..old(self)@
                    })
                } else {
                    !timed_out && final(self)@ == old(self)@
                }
            }),
    {
        let live = match self.state {
            SessionState::Open => true,
            SessionState::Upgrading => true,
            _ => false,
        };
        if !live {
            return false;
        }
        if now >= self.deadline {
            self.transport.queue_close();
            self.state = SessionState::Closed;
            self.pending_ws = None;
            true
        } else if now >= self.next_ping_at {
            self.transport.queue_ping();
            self.next_ping_at = sat_add(now, self.ping_interval);
            false
        } else {
            false
        }
    }

    /// Takes every frame queued on the current transport, oldest first.
    pub fn drain_transport(&mut self) -> (r: Vec<String>)
        ensures
            r@.map_values(|s: String| s@) == old(self)@.buffered,
            final(self)@ == (SessionModel { buffered: Seq::empty(), ..old(self)@ }),
    {
        self.transport.drain()
    }

    /// Takes every frame queued on the upgrade target, oldest first; there
    /// are none unless an upgrade is pending.
    pub fn drain_ws_pending(&mut self) -> (r: Vec<String>)
        ensures
            match old(self)@.ws_pending {
                Some(b) => r@.map_values(|s: String| s@) == b && final(self)@ == (SessionModel {
                    ws_pending: Some(Seq::empty()),
                    ..old(self)@
                }),
                None => r@.len() == 0 && final(self)@ == old(self)@,
            },
    {
        match &mut self.pending_ws {
            Some(ws) => ws.drain(),
            None => Vec::new(),
        }
    }
}

} // verus!
