//! The session registry: it owns the live sessions, creates them at
//! handshake with an identifier unique among the live ones, routes inbound
//! polling and WebSocket traffic to the right session, drives the keepalive
//! clock, and tears sessions down.
use crate::packet::{
    open_payload, packet_encode, PacketType, PacketView, PollingType, PING_INTERVAL_MS,
    PING_TIMEOUT_MS,
};
use crate::socket::{
    fallback_sid, fallback_sid_spec, generate_sid, lemma_fallback_sid, sid_wf, session_wf,
    SessionModel, SessionState, Socket, SID,
};
use crate::transports::{polling::Polling, AnyTransport, Transport};
use vstd::assert_by_contradiction;
use vstd::prelude::*;
use vstd::seq_lib::*;

verus! {

/// Why a request was rejected before reaching any session.
#[derive(Clone, Copy, Debug, PartialEq, Eq, Structural)]
pub enum VerifyError {
    UnknownTransport,
    UnknownSID,
    BadHandshakeMethod,
}

/// The outcome of request validation.
pub type VerifyResult = Result<(), VerifyError>;

/// A placeholder cookie policy.
pub struct Cookie {}

/// A pluggable cross-origin policy hook.
pub trait CORSMiddleware {

}

/// A pluggable WebSocket engine hook.
pub trait WSEngine {

}

/// The do-nothing policy, for servers that need neither hook.
pub struct Fake {}

impl WSEngine for Fake {

}

impl CORSMiddleware for Fake {

}

/// Construction-time configuration of a server: policy hooks and the
/// keepalive, upgrade and buffering limits, the durations in milliseconds.
pub struct ServerOption<W, C> where W: WSEngine, C: CORSMiddleware {
    pub ws: W,
    pub ping_timeout: u32,
    pub ping_interval: u32,
    pub upgrade_timeout: u32,
    pub max_http_buffer_size: u32,
    pub cors_middleware: Option<C>,
    pub cookie: Option<Cookie>,
    pub allow_request: bool,
}

/// The query parameters of an inbound request.
#[derive(Clone, Debug)]
pub struct QueryParam {
    pub sid: Option<SID>,
    pub transport: Option<String>,
}

/// The mathematical value of a request's query parameters.
pub ghost struct QueryParamView {
    pub sid: Option<Seq<char>>,
    pub transport: Option<Seq<char>>,
}

impl View for QueryParam {
    type V = QueryParamView;

    open spec fn view(&self) -> QueryParamView {
        QueryParamView {
            sid: match self.sid {
                Some(s) => Some(s@),
                None => None,
            },
            transport: match self.transport {
                Some(t) => Some(t@),
                None => None,
            },
        }
    }
}

/// The HTTP methods the protocol accepts.
#[derive(Clone, Copy, Debug, PartialEq, Eq, Structural)]
pub enum Method {
    Get,
    Post,
}

/// Consistency of the registry: every held session is internally
/// consistent, live (a closed session is removed at once), and no two
/// sessions share an identifier.
pub open spec fn server_wf(ms: Seq<SessionModel>) -> bool {
    &&& forall|i: int|
        0 <= i < ms.len() ==> session_wf(#[trigger] ms[i]) && (ms[i].state == SessionState::Open
            || ms[i].state == SessionState::Upgrading)
    &&& forall|i: int, j: int| 0 <= i < j < ms.len() ==> ms[i].sid != ms[j].sid
}

/// Whether some live session carries this identifier.
pub open spec fn has_sid(ms: Seq<SessionModel>, sid: Seq<char>) -> bool {
    exists|i: int| 0 <= i < ms.len() && (#[trigger] ms[i]).sid == sid
}

/// The position of the live session carrying this identifier.
pub open spec fn sid_index(ms: Seq<SessionModel>, sid: Seq<char>) -> int {
    choose|i: int| 0 <= i < ms.len() && (#[trigger] ms[i]).sid == sid
}

/// In a consistent registry the position of an identifier is the one
/// position that carries it.
pub proof fn lemma_sid_index(ms: Seq<SessionModel>, sid: Seq<char>, i: int)
    requires
        server_wf(ms),
        0 <= i < ms.len(),
        ms[i].sid == sid,
    ensures
        has_sid(ms, sid),
        sid_index(ms, sid) == i,
{
    assert(has_sid(ms, sid));
    let j = sid_index(ms, sid);
    if i < j {
        assert(ms[i].sid != ms[j].sid);
    } else if j < i {
        assert(ms[j].sid != ms[i].sid);
    }
}

/// The wire frame of the `Open` packet that answers a handshake.
pub open spec fn open_frame(sid: Seq<char>) -> Seq<char> {
    packet_encode(
        PacketView {
            typ: PacketType::Open,
            message: open_payload(sid, PING_INTERVAL_MS as nat, PING_TIMEOUT_MS as nat),
        },
    )
}

/// What a session looks like right after its handshake: open, with the
/// `Open` packet queued and both keepalive clocks started at `now`.
pub open spec fn fresh_session_model(
    sid: Seq<char>,
    kind: crate::packet::Transport,
    now: u64,
) -> SessionModel {
    SessionModel {
        sid: sid,
        state: SessionState::Open,
        kind: kind,
        buffered: seq![open_frame(sid)],
        ws_pending: None,
        ping_interval: PING_INTERVAL_MS as u64,
        ping_timeout: PING_TIMEOUT_MS as u64,
        next_ping_at: crate::util::sat_add_spec(now, PING_INTERVAL_MS as u64),
        deadline: crate::util::sat_add_spec(now, PING_TIMEOUT_MS as u64),
    }
}

/// The process-wide registry of live sessions.
pub struct Server {
    sessions: Vec<Socket>,
}

impl View for Server {
    type V = Seq<SessionModel>;

    closed spec fn view(&self) -> Seq<SessionModel> {
        self.sessions@.map_values(|s: Socket| s@)
    }
}

impl Default for Server {
    /// A registry with no sessions.
    fn default() -> (r: Server)
        ensures
            r@ == Seq::<SessionModel>::empty(),
            server_wf(r@),
    {
        let r = Server { sessions: Vec::new() };
        proof {
            assert(r@ =~= Seq::<SessionModel>::empty());
        }
        r
    }
}

impl Server {
    /// Looks an identifier up among the live sessions.
    fn find(&self, sid: &SID) -> (r: Option<usize>)
        ensures
            match r {
                Some(i) => i < self@.len() && self@[i as int].sid == sid@,
                None => !has_sid(self@, sid@),
            },
    {
        let n = self.sessions.len();
        let mut j: usize = 0;
        while j < n
            invariant
                n == self@.len(),
                j <= n,
                forall|k: int| 0 <= k < j ==> (#[trigger] self@[k]).sid != sid@,
            decreases n - j,
        {
            let s = self.sessions[j].sid();
            if s == *sid {
                return Some(j);
            }
            j += 1;
        }
        None
    }

    /// An identifier no live session carries. Random draws are tried first;
    /// if each collides, one of the `n + 1` deterministic fallback
    /// identifiers must be free among `n` distinct live ones.
    fn fresh_sid(&self) -> (sid: SID)
        requires
            server_wf(self@),
        ensures
            sid_wf(sid@),
            !has_sid(self@, sid@),
    {
        let candidate = generate_sid();
        match self.find(&candidate) {
            None => candidate,
            Some(_) => {
                let n = self.sessions.len();
                let mut k: usize = 0;
                while k < n
                    invariant
                        server_wf(self@),
                        n == self@.len(),
                        k <= n,
                        forall|k2: int|
                            0 <= k2 < k ==> has_sid(self@, #[trigger] fallback_sid_spec(k2 as nat)),
                    decreases n - k,
                {
                    let cand = fallback_sid(k);
                    match self.find(&cand) {
                        None => {
                            return cand;
                        },
                        Some(_) => {
                            proof {
                                assert(has_sid(self@, fallback_sid_spec(k as nat)));
                            }
                        },
                    }
                    k += 1;
                }
                let cand = fallback_sid(n);
                match self.find(&cand) {
                    None => cand,
                    Some(_) => {
                        proof {
                            lemma_fallback_free(self@, n as nat);
                            let k = choose|k: int|
                                0 <= k <= n && !has_sid(
                                    self@,
                                    #[trigger] fallback_sid_spec(k as nat),
                                );
                            assert(has_sid(self@, fallback_sid_spec(k as nat)));
                        }
                        cand
                    },
                }
            },
        }
    }
}

/// The transport a query parameter names. Only the XHR flavour of polling
/// is wired up; JSONP is out of scope.
pub open spec fn transport_of(name: Seq<char>) -> Option<crate::packet::Transport> {
    if name == "polling"@ {
        Some(crate::packet::Transport::Polling(PollingType::XHR))
    } else if name == "websocket"@ {
        Some(crate::packet::Transport::WebSocket)
    } else {
        None
    }
}

/// Whether a request naming `named` may reach a session carried on `cur`:
/// the same transport, or a WebSocket request attaching to a polling
/// session for an upgrade.
pub open spec fn transport_compatible(
    cur: crate::packet::Transport,
    named: crate::packet::Transport,
) -> bool {
    named == cur || (named == crate::packet::Transport::WebSocket
        && cur matches crate::packet::Transport::Polling(_))
}

/// What request validation answers, in order: the transport parameter must
/// name a known transport; a request without a session id is a handshake
/// and must be a GET; a named session must be live and reachable over the
/// named transport (a mismatch reads as "session gone"); and a WebSocket
/// request must be a GET.
pub open spec fn verify_spec(
    ms: Seq<SessionModel>,
    method: Method,
    q: QueryParamView,
) -> VerifyResult {
    match q.transport {
        None => Err(VerifyError::UnknownTransport),
        Some(t) => match transport_of(t) {
            None => Err(VerifyError::UnknownTransport),
            Some(k) => match q.sid {
                None => if method == Method::Get {
                    Ok(())
                } else {
                    Err(VerifyError::BadHandshakeMethod)
                },
                Some(sid) => if !has_sid(ms, sid) {
                    Err(VerifyError::UnknownSID)
                } else if !transport_compatible(ms[sid_index(ms, sid)].kind, k) {
                    Err(VerifyError::UnknownSID)
                } else if k == crate::packet::Transport::WebSocket && method == Method::Post {
                    Err(VerifyError::BadHandshakeMethod)
                } else {
                    Ok(())
                },
            },
        },
    }
}

/// The packets one request body carries: a well-framed body is a payload
/// batch, anything else is the single packet it decodes to.
pub open spec fn body_packets(body: Seq<char>) -> Seq<PacketView> {
    if crate::packet::payload_framed(body) {
        crate::packet::payload_decode(body)
    } else {
        seq![crate::packet::packet_decode(body)]
    }
}

/// One POST's effect on a session: inbound activity resets the keepalive
/// deadline, then the body's packets run through the state machine.
pub open spec fn post_step(m: SessionModel, body: Seq<char>, now: u64) -> (
    SessionModel,
    Seq<Seq<char>>,
) {
    crate::socket::step_packets(
        SessionModel { deadline: crate::util::sat_add_spec(now, m.ping_timeout), ..m },
        body_packets(body),
    )
}

impl Server {
    /// Creates a session over the given (empty) transport: a fresh
    /// identifier unique among the live sessions, the `Open` packet queued,
    /// the session registered. No other session is touched.
    fn handshake_with(&mut self, transport: AnyTransport, now: u64) -> (sid: SID)
        requires
            server_wf(old(self)@),
            transport.buffered() == Seq::<Seq<char>>::empty(),
        ensures
            server_wf(final(self)@),
            sid_wf(sid@),
            !has_sid(old(self)@, sid@),
            final(self)@ == old(self)@.push(
                fresh_session_model(sid@, transport.spec_kind(), now),
            ),
    {
        let sid = self.fresh_sid();
        let sid2 = sid.clone();
        let ghost k = transport.spec_kind();
        let mut sock = Socket::with_sid(
            sid2,
            transport,
            PING_INTERVAL_MS as u64,
            PING_TIMEOUT_MS as u64,
            now,
        );
        let _ = sock.on_open();
        proof {
            assert(sock@.buffered =~= seq![open_frame(sid@)]);
            assert(sock@ == fresh_session_model(sid@, k, now));
        }
        self.sessions.push(sock);
        proof {
            assert(self@ =~= old(self)@.push(fresh_session_model(sid@, k, now)));
            assert forall|i: int, j: int| 0 <= i < j < self@.len() implies self@[i].sid
                != self@[j].sid by {
                if j == self@.len() - 1 {
                    assert(!has_sid(old(self)@, sid@));
                    assert(old(self)@[i].sid != sid@);
                }
            }
        }
        sid
    }

    /// Handshakes a new session over long polling and returns its
    /// identifier; the `Open` packet waits in the polling buffer.
    pub fn handshake(&mut self, now: u64) -> (sid: SID)
        requires
            server_wf(old(self)@),
        ensures
            server_wf(final(self)@),
            sid_wf(sid@),
            !has_sid(old(self)@, sid@),
            final(self)@ == old(self)@.push(
                fresh_session_model(
                    sid@,
                    crate::packet::Transport::Polling(PollingType::XHR),
                    now,
                ),
            ),
    {
        let t = AnyTransport::Polling(Polling::new());
        proof {
            assert(t.buffered() =~= Seq::<Seq<char>>::empty());
        }
        self.handshake_with(t, now)
    }

    /// Handshakes a new session directly over a WebSocket stream and
    /// returns its identifier; the `Open` packet waits in the outbox for
    /// the socket writer.
    pub fn handshake_ws(&mut self, now: u64) -> (sid: SID)
        requires
            server_wf(old(self)@),
        ensures
            server_wf(final(self)@),
            sid_wf(sid@),
            !has_sid(old(self)@, sid@),
            final(self)@ == old(self)@.push(
                fresh_session_model(sid@, crate::packet::Transport::WebSocket, now),
            ),
    {
        let t = AnyTransport::WebSocket(crate::transports::websocket::WebSocket::new());
        proof {
            assert(t.buffered() =~= Seq::<Seq<char>>::empty());
        }
        self.handshake_with(t, now)
    }

    /// Validates a request before any session is touched: known transport,
    /// GET-only handshake, live and compatible session, GET-only WebSocket.
    pub fn verify(&self, method: Method, param: &QueryParam) -> (r: VerifyResult)
        requires
            server_wf(self@),
        ensures
            r == verify_spec(self@, method, param@),
    {
        let t = match &param.transport {
            None => {
                return Err(VerifyError::UnknownTransport);
            },
            Some(t) => t,
        };
        let polling_name = String::from_str("polling");
        let websocket_name = String::from_str("websocket");
        let named = if *t == polling_name {
            crate::packet::Transport::Polling(PollingType::XHR)
        } else if *t == websocket_name {
            crate::packet::Transport::WebSocket
        } else {
            return Err(VerifyError::UnknownTransport);
        };
        match &param.sid {
            None => {
                if let Method::Get = method {
                    Ok(())
                } else {
                    Err(VerifyError::BadHandshakeMethod)
                }
            },
            Some(sid) => {
                match self.find(sid) {
                    None => Err(VerifyError::UnknownSID),
                    Some(i) => {
                        proof {
                            lemma_sid_index(self@, sid@, i as int);
                        }
                        let cur = self.sessions[i].kind();
                        let compatible = match named {
                            crate::packet::Transport::WebSocket => true,
                            crate::packet::Transport::Polling(_) => cur == named,
                        };
                        if !compatible {
                            Err(VerifyError::UnknownSID)
                        } else {
                            let ws_post = match (named, method) {
                                (crate::packet::Transport::WebSocket, Method::Post) => true,
                                _ => false,
                            };
                            if ws_post {
                                Err(VerifyError::BadHandshakeMethod)
                            } else {
                                Ok(())
                            }
                        }
                    },
                }
            },
        }
    }
}

/// The concatenation of already-encoded frames, in order.
pub open spec fn concat_frames(fs: Seq<Seq<char>>) -> Seq<char>
    decreases fs.len(),
{
    if fs.len() == 0 {
        Seq::empty()
    } else {
        concat_frames(fs.drop_last()) + fs.last()
    }
}

/// The body of one long-poll response: every queued frame, in order,
/// behind a single outer length prefix.
pub open spec fn poll_body(buffered: Seq<Seq<char>>) -> Seq<char> {
    crate::packet::frame_body(concat_frames(buffered))
}

/// Frames a drained buffer as one long-poll response body.
fn encode_frames(frames: &Vec<String>) -> (r: String)
    ensures
        r@ == poll_body(frames@.map_values(|s: String| s@)),
{
    let ghost fs = frames@.map_values(|s: String| s@);
    let mut body = String::new();
    let mut k: usize = 0;
    while k < frames.len()
        invariant
            k <= frames.len(),
            fs == frames@.map_values(|s: String| s@),
            body@ == concat_frames(fs.subrange(0, k as int)),
        decreases frames.len() - k,
    {
        body.append(frames[k].as_str());
        proof {
            assert(fs.subrange(0, k + 1).drop_last() =~= fs.subrange(0, k as int));
            assert(fs.subrange(0, k + 1).last() == fs[k as int]);
        }
        k += 1;
    }
    proof {
        assert(fs.subrange(0, frames@.len() as int) =~= fs);
    }
    let blen = body.as_str().unicode_len();
    let mut r = crate::util::usize_to_decimal(blen);
    r.append(":");
    r.append(body.as_str());
    proof {
        reveal_strlit(":");
        assert(r@ =~= poll_body(fs));
    }
    r
}

impl Server {
    /// Answers a polling GET: drains the session's pending frames, in
    /// order, as one framed payload — an empty buffer gives the empty
    /// frame, for the surrounding long-poll loop to retry on. Fails, and
    /// changes nothing, when the identifier names no live session or the
    /// session is no longer on polling.
    pub fn handle_xhr_get(&mut self, sid: &SID) -> (r: Result<String, VerifyError>)
        requires
            server_wf(old(self)@),
        ensures
            server_wf(final(self)@),
            !has_sid(old(self)@, sid@) ==> (r matches Err(e) && e == VerifyError::UnknownSID
                && final(self)@ == old(self)@),
            has_sid(old(self)@, sid@) ==> ({
                let i = sid_index(old(self)@, sid@);
                if old(self)@[i].kind matches crate::packet::Transport::Polling(_) {
                    r matches Ok(s) && s@ == poll_body(old(self)@[i].buffered) && final(self)@
                        == old(self)@.update(
                        i,
                        SessionModel { buffered: Seq::empty(), ..old(self)@[i] },
                    )
                } else {
                    r matches Err(e) && e == VerifyError::UnknownSID && final(self)@ == old(self)@
                }
            }),
    {
        match self.find(sid) {
            None => Err(VerifyError::UnknownSID),
            Some(i) => {
                proof {
                    lemma_sid_index(self@, sid@, i as int);
                }
                let kind = self.sessions[i].kind();
                match kind {
                    crate::packet::Transport::Polling(_) => {},
                    _ => {
                        return Err(VerifyError::UnknownSID);
                    },
                }
                let frames = self.sessions[i].drain_transport();
                let body = encode_frames(&frames);
                proof {
                    assert(self@ =~= old(self)@.update(
                        i as int,
                        SessionModel { buffered: Seq::empty(), ..old(self)@[i as int] },
                    ));
                    assert forall|a: int, b: int| 0 <= a < b < self@.len() implies self@[a].sid
                        != self@[b].sid by {
                        assert(old(self)@[a].sid != old(self)@[b].sid);
                    }
                }
                Ok(body)
            },
        }
    }

    /// Accepts a polling POST: the body's packets run through the session's
    /// state machine, the acknowledgement is the literal `ok`, and the
    /// payloads the session delivered to the application come back with it.
    /// A session the body closed is removed at once. Fails, and changes
    /// nothing, when the identifier names no live session; a POST without a
    /// body acknowledges and does nothing.
    pub fn handle_xhr_post(&mut self, sid: &SID, data: Option<String>, now: u64) -> (r: Result<
        (String, Vec<String>),
        VerifyError,
    >)
        requires
            server_wf(old(self)@),
        ensures
            server_wf(final(self)@),
            !has_sid(old(self)@, sid@) ==> (r matches Err(e) && e == VerifyError::UnknownSID
                && final(self)@ == old(self)@),
            has_sid(old(self)@, sid@) ==> ({
                let i = sid_index(old(self)@, sid@);
                match data {
                    None => r matches Ok(p) && p.0@ == "ok"@ && p.1@.len() == 0 && final(self)@
                        == old(self)@,
                    Some(body) => ({
                        let stepped = post_step(old(self)@[i], body@, now);
                        r matches Ok(p) && p.0@ == "ok"@ && p.1@.map_values(|s: String| s@)
                            == stepped.1 && (if stepped.0.state == SessionState::Closed {
                            final(self)@ == old(self)@.remove(i)
                        } else {
                            final(self)@ == old(self)@.update(i, stepped.0)
                        })
                    }),
                }
            }),
    {
        match self.find(sid) {
            None => Err(VerifyError::UnknownSID),
            Some(i) => {
                proof {
                    lemma_sid_index(self@, sid@, i as int);
                }
                match data {
                    None => Ok((String::from_str("ok"), Vec::new())),
                    Some(body) => {
                        let ghost m0 = self@[i as int];
                        let msg = crate::socket::Message::to_message(body.as_str());
                        let deliveries = match msg {
                            Some(m) => self.sessions[i].handle_request(&m, now),
                            None => Vec::new(),
                        };
                        let ghost stepped = post_step(m0, body@, now);
                        proof {
                            assert(self@[i as int] == stepped.0);
                            crate::socket::lemma_step_packets_wf(
                                SessionModel {
                                    deadline: crate::util::sat_add_spec(now, m0.ping_timeout),
                                    ..m0
                                },
                                body_packets(body@),
                            );
                            crate::socket::lemma_step_packets_states(
                                SessionModel {
                                    deadline: crate::util::sat_add_spec(now, m0.ping_timeout),
                                    ..m0
                                },
                                body_packets(body@),
                            );
                        }
                        let st = self.sessions[i].state();
                        let closed = match st {
                            SessionState::Closed => true,
                            _ => false,
                        };
                        if closed {
                            let _ = self.sessions.remove(i);
                            proof {
                                assert(self@ =~= old(self)@.remove(i as int));
                                assert forall|a: int, b: int|
                                    0 <= a < b < self@.len() implies self@[a].sid
                                    != self@[b].sid by {
                                    let a0 = if a < i as int {
                                        a
                                    } else {
                                        a + 1
                                    };
                                    let b0 = if b < i as int {
                                        b
                                    } else {
                                        b + 1
                                    };
                                    assert(old(self)@.update(i as int, stepped.0)[a0].sid != old(
                                        self,
                                    )@.update(i as int, stepped.0)[b0].sid);
                                }
                            }
                        } else {
                            proof {
                                assert(self@ =~= old(self)@.update(i as int, stepped.0));
                                assert forall|a: int, b: int|
                                    0 <= a < b < self@.len() implies self@[a].sid
                                    != self@[b].sid by {
                                    assert(old(self)@[a].sid != old(self)@[b].sid);
                                }
                            }
                        }
                        Ok((String::from_str("ok"), deliveries))
                    },
                }
            },
        }
    }
}

/// A `Ping` packet carrying the literal probe payload.
pub open spec fn is_probe_ping(p: PacketView) -> bool {
    p.typ == PacketType::Ping && p.message == "probe"@
}

/// One WebSocket frame's effect on a session: inbound activity resets the
/// keepalive deadline; a probe `Ping` reaching an open polling session
/// starts the transport upgrade, answered by a `Pong` probe queued for the
/// socket writer; any other frame runs through the state machine as one
/// packet.
pub open spec fn ws_frame_step(m: SessionModel, f: Seq<char>, now: u64) -> (
    SessionModel,
    Seq<Seq<char>>,
) {
    let m0 = SessionModel { deadline: crate::util::sat_add_spec(now, m.ping_timeout), ..m };
    let p = crate::packet::packet_decode(f);
    if is_probe_ping(p) && m.state == SessionState::Open && (m.kind
        matches crate::packet::Transport::Polling(_)) {
        (
            SessionModel {
                state: SessionState::Upgrading,
                ws_pending: Some(seq![crate::socket::pong_probe_frame()]),
                ..m0
            },
            Seq::empty(),
        )
    } else {
        crate::socket::step_packets(m0, seq![p])
    }
}

/// What the keepalive clock does to one session at `now`: a live session
/// past its deadline closes; one past its ping tick queues a `Ping` probe
/// and reschedules; anything else is left alone.
pub open spec fn tick_model(m: SessionModel, now: u64) -> SessionModel {
    if (m.state == SessionState::Open || m.state == SessionState::Upgrading) && now
        >= m.deadline {
        crate::socket::close_step(m)
    } else if (m.state == SessionState::Open || m.state == SessionState::Upgrading) && now
        >= m.next_ping_at {
        SessionModel {
            buffered: m.buffered.push(crate::socket::ping_probe_frame()),
            next_ping_at: crate::util::sat_add_spec(now, m.ping_interval),
            ..m
        }
    } else {
        m
    }
}

/// The registry after one keepalive pass: every session advanced by
/// `tick_model`, the sessions it closed removed, the order of the rest
/// kept.
pub open spec fn tick_filter(ms: Seq<SessionModel>, now: u64) -> Seq<SessionModel>
    decreases ms.len(),
{
    if ms.len() == 0 {
        Seq::empty()
    } else {
        let t = tick_model(ms.last(), now);
        tick_filter(ms.drop_last(), now) + (if t.state == SessionState::Closed {
            Seq::empty()
        } else {
            seq![t]
        })
    }
}

impl Server {
    /// Routes one frame read from a session's WebSocket stream. Fails, and
    /// changes nothing, when the identifier names no live session. A
    /// session the frame closed is removed at once; the payloads the
    /// session delivered to the application come back.
    pub fn ws_receive(&mut self, sid: &SID, frame: &str, now: u64) -> (r: Result<
        Vec<String>,
        VerifyError,
    >)
        requires
            server_wf(old(self)@),
        ensures
            server_wf(final(self)@),
            !has_sid(old(self)@, sid@) ==> (r matches Err(e) && e == VerifyError::UnknownSID
                && final(self)@ == old(self)@),
            has_sid(old(self)@, sid@) ==> ({
                let i = sid_index(old(self)@, sid@);
                let stepped = ws_frame_step(old(self)@[i], frame@, now);
                r matches Ok(ds) && ds@.map_values(|s: String| s@) == stepped.1 && (if stepped
                    .0.state == SessionState::Closed {
                    final(self)@ == old(self)@.remove(i)
                } else {
                    final(self)@ == old(self)@.update(i, stepped.0)
                })
            }),
    {
        match self.find(sid) {
            None => Err(VerifyError::UnknownSID),
            Some(i) => {
                proof {
                    lemma_sid_index(self@, sid@, i as int);
                }
                let ghost m0 = self@[i as int];
                let p = crate::packet::Packet::decode(frame);
                let probe_name = String::from_str("probe");
                let is_probe = match p.typ {
                    PacketType::Ping => p.message == probe_name,
                    _ => false,
                };
                let st = self.sessions[i].state();
                let kd = self.sessions[i].kind();
                let open_polling = match (st, kd) {
                    (SessionState::Open, crate::packet::Transport::Polling(_)) => true,
                    _ => false,
                };
                if is_probe && open_polling {
                    self.sessions[i].note_activity(now);
                    let _ = self.sessions[i].begin_upgrade();
                    proof {
                        assert(self@ =~= old(self)@.update(
                            i as int,
                            ws_frame_step(m0, frame@, now).0,
                        ));
                        assert forall|a: int, b: int| 0 <= a < b < self@.len() implies self@[a].sid
                            != self@[b].sid by {
                            assert(old(self)@[a].sid != old(self)@[b].sid);
                        }
                    }
                    Ok(Vec::new())
                } else {
                    let msg = crate::socket::Message::Packet(p);
                    let deliveries = self.sessions[i].handle_request(&msg, now);
                    let ghost stepped = ws_frame_step(m0, frame@, now);
                    proof {
                        assert(self@[i as int] == stepped.0);
                        crate::socket::lemma_step_packets_wf(
                            SessionModel {
                                deadline: crate::util::sat_add_spec(now, m0.ping_timeout),
                                ..m0
                            },
                            seq![crate::packet::packet_decode(frame@)],
                        );
                        crate::socket::lemma_step_packets_states(
                            SessionModel {
                                deadline: crate::util::sat_add_spec(now, m0.ping_timeout),
                                ..m0
                            },
                            seq![crate::packet::packet_decode(frame@)],
                        );
                    }
                    let st2 = self.sessions[i].state();
                    let closed = match st2 {
                        SessionState::Closed => true,
                        _ => false,
                    };
                    if closed {
                        let _ = self.sessions.remove(i);
                        proof {
                            assert(self@ =~= old(self)@.remove(i as int));
                            assert forall|a: int, b: int|
                                0 <= a < b < self@.len() implies self@[a].sid != self@[b].sid by {
                                let a0 = if a < i as int {
                                    a
                                } else {
                                    a + 1
                                };
                                let b0 = if b < i as int {
                                    b
                                } else {
                                    b + 1
                                };
                                assert(old(self)@.update(i as int, stepped.0)[a0].sid != old(
                                    self,
                                )@.update(i as int, stepped.0)[b0].sid);
                            }
                        }
                    } else {
                        proof {
                            assert(self@ =~= old(self)@.update(i as int, stepped.0));
                            assert forall|a: int, b: int|
                                0 <= a < b < self@.len() implies self@[a].sid != self@[b].sid by {
                                assert(old(self)@[a].sid != old(self)@[b].sid);
                            }
                        }
                    }
                    Ok(deliveries)
                }
            },
        }
    }

    /// Hands the socket writer every frame queued for a session's
    /// WebSocket: the upgrade target's frames while an upgrade is pending,
    /// the transport's own once the session runs on WebSocket. Fails, and
    /// changes nothing, for an unknown identifier or a session with no
    /// WebSocket attached.
    pub fn ws_poll(&mut self, sid: &SID) -> (r: Result<Vec<String>, VerifyError>)
        requires
            server_wf(old(self)@),
        ensures
            server_wf(final(self)@),
            !has_sid(old(self)@, sid@) ==> (r matches Err(e) && e == VerifyError::UnknownSID
                && final(self)@ == old(self)@),
            has_sid(old(self)@, sid@) ==> ({
                let i = sid_index(old(self)@, sid@);
                let m = old(self)@[i];
                if m.state == SessionState::Upgrading {
                    r matches Ok(fs) && fs@.map_values(|s: String| s@) == m.ws_pending->0
                        && final(self)@ == old(self)@.update(
                        i,
                        SessionModel { ws_pending: Some(Seq::empty()), ..m },
                    )
                } else if m.kind == crate::packet::Transport::WebSocket {
                    r matches Ok(fs) && fs@.map_values(|s: String| s@) == m.buffered
                        && final(self)@ == old(self)@.update(
                        i,
                        SessionModel { buffered: Seq::empty(), ..m },
                    )
                } else {
                    r matches Err(e) && e == VerifyError::UnknownSID && final(self)@ == old(self)@
                }
            }),
    {
        match self.find(sid) {
            None => Err(VerifyError::UnknownSID),
            Some(i) => {
                proof {
                    lemma_sid_index(self@, sid@, i as int);
                }
                let st = self.sessions[i].state();
                let upgrading = match st {
                    SessionState::Upgrading => true,
                    _ => false,
                };
                if upgrading {
                    let fs = self.sessions[i].drain_ws_pending();
                    proof {
                        assert(self@ =~= old(self)@.update(
                            i as int,
                            SessionModel {
                                ws_pending: Some(Seq::empty()),
                                ..old(self)@[i as int]
                            },
                        ));
                        assert forall|a: int, b: int| 0 <= a < b < self@.len() implies self@[a].sid
                            != self@[b].sid by {
                            assert(old(self)@[a].sid != old(self)@[b].sid);
                        }
                    }
                    Ok(fs)
                } else {
                    let kd = self.sessions[i].kind();
                    match kd {
                        crate::packet::Transport::WebSocket => {
                            let fs = self.sessions[i].drain_transport();
                            proof {
                                assert(self@ =~= old(self)@.update(
                                    i as int,
                                    SessionModel {
                                        buffered: Seq::empty(),
                                        ..old(self)@[i as int]
                                    },
                                ));
                                assert forall|a: int, b: int|
                                    0 <= a < b < self@.len() implies self@[a].sid
                                    != self@[b].sid by {
                                    assert(old(self)@[a].sid != old(self)@[b].sid);
                                }
                            }
                            Ok(fs)
                        },
                        _ => Err(VerifyError::UnknownSID),
                    }
                }
            },
        }
    }

    /// One keepalive pass over every session: queues the `Ping` probes
    /// that are due, closes the sessions whose timeout elapsed without
    /// inbound activity, and removes what it closed. The order of the
    /// surviving sessions is kept.
    pub fn tick(&mut self, now: u64)
        requires
            server_wf(old(self)@),
        ensures
            server_wf(final(self)@),
            final(self)@ == tick_filter(old(self)@, now),
    {
        let mut taken: Vec<Socket> = Vec::new();
        core::mem::swap(&mut taken, &mut self.sessions);
        let ghost ms0 = old(self)@;
        proof {
            assert(taken@.map_values(|s: Socket| s@) == ms0);
            assert(self@ =~= Seq::<SessionModel>::empty());
            assert(ms0.subrange(0, 0) =~= Seq::<SessionModel>::empty());
            assert(taken@.map_values(|s: Socket| s@) =~= ms0.subrange(0, ms0.len() as int));
        }
        let n = taken.len();
        let mut j: usize = 0;
        while j < n
            invariant
                server_wf(ms0),
                n == ms0.len(),
                j <= n,
                taken@.len() == n - j,
                taken@.map_values(|s: Socket| s@) == ms0.subrange(j as int, n as int),
                self@ == tick_filter(ms0.subrange(0, j as int), now),
            decreases n - j,
        {
            let ghost taken_pre = taken@;
            let mut sock = taken.remove(0);
            proof {
                assert(ms0.subrange(j as int, n as int)[0] == ms0[j as int]);
                assert(sock@ == ms0[j as int]);
                assert forall|k: int|
                    0 <= k < taken@.len() implies #[trigger] taken@[k]@ == ms0.subrange(
                    j + 1,
                    n as int,
                )[k] by {
                    assert(taken@[k] == taken_pre[k + 1]);
                    assert(taken_pre.map_values(|s: Socket| s@)[k + 1] == ms0.subrange(
                        j as int,
                        n as int,
                    )[k + 1]);
                }
                assert(taken@.map_values(|s: Socket| s@) =~= ms0.subrange(j + 1, n as int));
                assert(session_wf(sock@));
            }
            let _ = sock.on_timer(now);
            proof {
                assert(sock@ == tick_model(ms0[j as int], now));
            }
            let st = sock.state();
            let closed = match st {
                SessionState::Closed => true,
                _ => false,
            };
            if !closed {
                self.sessions.push(sock);
            }
            proof {
                assert(ms0.subrange(0, j + 1).drop_last() =~= ms0.subrange(0, j as int));
                assert(ms0.subrange(0, j + 1).last() == ms0[j as int]);
                if !closed {
                    assert(self@ =~= tick_filter(ms0.subrange(0, j as int), now).push(
                        tick_model(ms0[j as int], now),
                    ));
                    assert(tick_filter(ms0.subrange(0, j + 1), now) =~= tick_filter(
                        ms0.subrange(0, j as int),
                        now,
                    ).push(tick_model(ms0[j as int], now)));
                } else {
                    assert(tick_filter(ms0.subrange(0, j + 1), now) =~= tick_filter(
                        ms0.subrange(0, j as int),
                        now,
                    ));
                }
            }
            j += 1;
        }
        proof {
            assert(ms0.subrange(0, n as int) =~= ms0);
            lemma_tick_filter_wf(ms0, now);
        }
    }

    /// Best-effort `Close` to every session, then the registry is empty.
    pub fn close(&mut self)
        ensures
            final(self)@.len() == 0,
            server_wf(final(self)@),
    {
        while self.sessions.len() > 0
            invariant
                true,
            decreases self.sessions@.len(),
        {
            match self.sessions.pop() {
                Some(mut s) => {
                    let _ = s.on_close(&crate::packet::Packet::close());
                },
                None => {},
            }
        }
        proof {
            assert(self@.len() == self.sessions@.len());
        }
    }
}

/// What one routed HTTP exchange does, relating the registry before
/// (`ms`) and after (`ms2`) and the response body `r`. A request with a
/// session id reaches that session as a POST of its body or a draining
/// polling GET; one without an id is a handshake GET answered with the
/// `Open` packet's frame (drained on the spot), under a fresh identifier
/// unique among the live sessions; anything else is rejected with an
/// empty body and no effect — in particular an unknown id creates nothing.
pub open spec fn on_request_spec(
    ms: Seq<SessionModel>,
    q: QueryParamView,
    data: Option<Seq<char>>,
    is_post: bool,
    now: u64,
    r: Seq<char>,
    ms2: Seq<SessionModel>,
) -> bool {
    match q.sid {
        Some(sidv) => if !has_sid(ms, sidv) {
            r.len() == 0 && ms2 == ms
        } else {
            let i = sid_index(ms, sidv);
            if is_post {
                match data {
                    None => r == "ok"@ && ms2 == ms,
                    Some(body) => ({
                        let stepped = post_step(ms[i], body, now);
                        r == "ok"@ && (if stepped.0.state == SessionState::Closed {
                            ms2 == ms.remove(i)
                        } else {
                            ms2 == ms.update(i, stepped.0)
                        })
                    }),
                }
            } else {
                if ms[i].kind matches crate::packet::Transport::Polling(_) {
                    r == poll_body(ms[i].buffered) && ms2 == ms.update(
                        i,
                        SessionModel { buffered: Seq::empty(), ..ms[i] },
                    )
                } else {
                    r.len() == 0 && ms2 == ms
                }
            }
        },
        None => if is_post {
            r.len() == 0 && ms2 == ms
        } else {
            exists|sv: Seq<char>|
                sid_wf(sv) && !has_sid(ms, sv) && r == #[trigger] open_frame(sv) && ms2
                    == ms.push(
                    SessionModel {
                        buffered: Seq::empty(),
                        ..fresh_session_model(
                            sv,
                            crate::packet::Transport::Polling(PollingType::XHR),
                            now,
                        )
                    },
                )
        },
    }
}

impl Server {
    /// Routes one HTTP exchange the way the protocol reads it: POST with a
    /// session id sends, GET with one polls, GET without one handshakes,
    /// and whatever cannot be routed is answered with an empty body and no
    /// effect.
    pub fn on_request(&mut self, param: &QueryParam, data: Option<String>, is_post: bool, now: u64) -> (r:
        String)
        requires
            server_wf(old(self)@),
        ensures
            server_wf(final(self)@),
            on_request_spec(
                old(self)@,
                param@,
                match data {
                    Some(b) => Some(b@),
                    None => None,
                },
                is_post,
                now,
                r@,
                final(self)@,
            ),
    {
        match &param.sid {
            Some(sid) => {
                if is_post {
                    match self.handle_xhr_post(sid, data, now) {
                        Ok(p) => p.0,
                        Err(_) => String::new(),
                    }
                } else {
                    match self.handle_xhr_get(sid) {
                        Ok(s) => s,
                        Err(_) => String::new(),
                    }
                }
            },
            None => {
                if is_post {
                    String::new()
                } else {
                    let sid = self.handshake(now);
                    proof {
                        lemma_sid_index(self@, sid@, self@.len() - 1);
                    }
                    match self.find(&sid) {
                        Some(i) => {
                            let ghost mid = self@;
                            proof {
                                lemma_sid_index(mid, sid@, i as int);
                                assert(i as int == mid.len() - 1);
                            }
                            let mut frames = self.sessions[i].drain_transport();
                            proof {
                                assert(self@ =~= mid.update(
                                    i as int,
                                    SessionModel { buffered: Seq::empty(), ..mid[i as int] },
                                ));
                                assert(self@ =~= old(self)@.push(
                                    SessionModel {
                                        buffered: Seq::empty(),
                                        ..fresh_session_model(
                                            sid@,
                                            crate::packet::Transport::Polling(PollingType::XHR),
                                            now,
                                        )
                                    },
                                ));
                                assert forall|a: int, b: int|
                                    0 <= a < b < self@.len() implies self@[a].sid
                                    != self@[b].sid by {
                                    assert(mid[a].sid != mid[b].sid);
                                }
                                assert(frames@.map_values(|s: String| s@) == seq![
                                    open_frame(sid@),
                                ]);
                                assert(frames@.map_values(|s: String| s@).len() == seq![
                                    open_frame(sid@),
                                ].len());
                                assert(frames@.len() == 1);
                            }
                            let ghost fseq = frames@;
                            match frames.pop() {
                                Some(f) => {
                                    proof {
                                        assert(f == fseq.last());
                                        assert(f@ == fseq.map_values(|s: String| s@)[0]);
                                        assert(f@ == open_frame(sid@));
                                    }
                                    f
                                },
                                None => String::new(),
                            }
                        },
                        None => String::new(),
                    }
                }
            },
        }
    }

    /// Validates, then routes: a request `verify` rejects is answered with
    /// its error and no effect. An accepted polling request is routed as
    /// `on_request` routes it. An accepted WebSocket request is answered
    /// with an empty body: without a session id it handshakes a session
    /// over WebSocket, whose `Open` packet waits for the socket writer;
    /// with one, the registry's part is done — the frames themselves flow
    /// through `ws_receive` and `ws_poll`.
    pub fn handle_request(&mut self, method: Method, param: &QueryParam, data: Option<String>, now: u64) -> (r:
        Result<String, VerifyError>)
        requires
            server_wf(old(self)@),
        ensures
            server_wf(final(self)@),
            ({
                let outcome = verify_spec(old(self)@, method, param@);
                match r {
                    Err(e) => outcome == Err::<(), VerifyError>(e) && final(self)@ == old(
                        self,
                    )@,
                    Ok(s) => outcome is Ok && (match param@.transport {
                        Some(t) => if transport_of(t) == Some(
                            crate::packet::Transport::WebSocket,
                        ) {
                            s@.len() == 0 && (match param@.sid {
                                None => exists|sv: Seq<char>|
                                    sid_wf(sv) && !has_sid(old(self)@, sv) && final(self)@ == old(
                                        self,
                                    )@.push(
                                        #[trigger] fresh_session_model(
                                            sv,
                                            crate::packet::Transport::WebSocket,
                                            now,
                                        ),
                                    ),
                                Some(_) => final(self)@ == old(self)@,
                            })
                        } else {
                            on_request_spec(
                                old(self)@,
                                param@,
                                match data {
                                    Some(b) => Some(b@),
                                    None => None,
                                },
                                method == Method::Post,
                                now,
                                s@,
                                final(self)@,
                            )
                        },
                        None => false,
                    }),
                }
            }),
    {
        match self.verify(method, param) {
            Err(e) => Err(e),
            Ok(()) => {
                proof {
                    reveal_strlit("polling");
                    reveal_strlit("websocket");
                    assert("polling"@.len() == 7);
                    assert("websocket"@.len() == 9);
                    assert("polling"@ != "websocket"@);
                }
                let websocket_name = String::from_str("websocket");
                let is_ws = match &param.transport {
                    Some(t) => *t == websocket_name,
                    None => false,
                };
                if is_ws {
                    match &param.sid {
                        None => {
                            let _sid = self.handshake_ws(now);
                            Ok(String::new())
                        },
                        Some(_) => Ok(String::new()),
                    }
                } else {
                    let is_post = match method {
                        Method::Post => true,
                        Method::Get => false,
                    };
                    let body = self.on_request(param, data, is_post, now);
                    Ok(body)
                }
            },
        }
    }
}

/// A keepalive pass keeps the registry consistent: what survives is a
/// consistent, live session, and no identifier appears that was not there
/// before — in particular the pass creates nothing.
pub proof fn lemma_tick_filter_wf(ms: Seq<SessionModel>, now: u64)
    requires
        server_wf(ms),
    ensures
        server_wf(tick_filter(ms, now)),
        forall|x: Seq<char>| #[trigger] has_sid(tick_filter(ms, now), x) ==> has_sid(ms, x),
    decreases ms.len(),
{
    if ms.len() > 0 {
        let dl = ms.drop_last();
        assert(server_wf(dl)) by {
            assert(forall|i: int| 0 <= i < dl.len() ==> dl[i] == ms[i]);
        }
        lemma_tick_filter_wf(dl, now);
        let t = tick_model(ms.last(), now);
        let r = tick_filter(ms, now);
        let rd = tick_filter(dl, now);
        assert(t.sid == ms.last().sid);
        if t.state == SessionState::Closed {
            assert(r =~= rd);
            assert forall|x: Seq<char>| #[trigger] has_sid(r, x) implies has_sid(ms, x) by {
                assert(has_sid(rd, x));
                assert(has_sid(dl, x));
                let i = choose|i: int| 0 <= i < dl.len() && dl[i].sid == x;
                assert(ms[i].sid == x);
            }
        } else {
            assert(r =~= rd.push(t));
            assert(session_wf(t) && (t.state == SessionState::Open || t.state
                == SessionState::Upgrading)) by {
                assert(session_wf(ms.last()));
                assert(ms.last().state == SessionState::Open || ms.last().state
                    == SessionState::Upgrading);
            }
            assert forall|x: Seq<char>| #[trigger] has_sid(r, x) implies has_sid(ms, x) by {
                let i = choose|i: int| 0 <= i < r.len() && r[i].sid == x;
                if i < rd.len() {
                    assert(rd[i].sid == x);
                    assert(has_sid(rd, x));
                    assert(has_sid(dl, x));
                    let i2 = choose|i2: int| 0 <= i2 < dl.len() && dl[i2].sid == x;
                    assert(ms[i2].sid == x);
                } else {
                    assert(r[i] == t);
                    assert(ms[ms.len() - 1].sid == x);
                }
            }
            assert forall|a: int, b: int| 0 <= a < b < r.len() implies r[a].sid != r[b].sid by {
                if b < rd.len() {
                    assert(rd[a].sid != rd[b].sid);
                } else {
                    assert(r[b] == t);
                    assert(r[a].sid == rd[a].sid);
                    if has_sid(dl, t.sid) {
                        let i2 = choose|i2: int| 0 <= i2 < dl.len() && dl[i2].sid == t.sid;
                        assert(ms[i2].sid != ms[ms.len() - 1].sid);
                        assert(false);
                    }
                    assert(!has_sid(dl, t.sid));
                    if rd[a].sid == t.sid {
                        assert(has_sid(rd, t.sid));
                        assert(has_sid(dl, t.sid));
                    }
                }
            }
            assert forall|i: int| 0 <= i < r.len() implies session_wf(#[trigger] r[i]) && (
            r[i].state == SessionState::Open || r[i].state == SessionState::Upgrading) by {
                if i < rd.len() {
                    assert(session_wf(rd[i]) && (rd[i].state == SessionState::Open || rd[i].state
                        == SessionState::Upgrading));
                } else {
                    assert(r[i] == t);
                }
            }
        }
    }
}

/// One queued frame survives a poll round intact: the body a GET returns
/// for a single buffered frame parses back to exactly the packet that
/// frame encodes.
pub proof fn lemma_poll_body_single(f: Seq<char>)
    requires
        f.len() > 0,
    ensures
        crate::packet::payload_framed(poll_body(seq![f])),
        crate::packet::payload_decode(poll_body(seq![f])) == seq![
            crate::packet::packet_decode(f),
        ],
{
    assert(concat_frames(seq![f]) =~= f) by {
        assert(seq![f].drop_last() =~= Seq::<Seq<char>>::empty());
        assert(concat_frames(Seq::<Seq<char>>::empty()) =~= Seq::<char>::empty());
    }
    crate::packet::lemma_frame_body_framed(f);
}

/// A session whose resettable timeout has elapsed does not survive a
/// keepalive pass: the pass closes and removes it, so a later request
/// under its identifier finds no session.
pub proof fn lemma_tick_removes_expired(ms: Seq<SessionModel>, now: u64, sid: Seq<char>)
    requires
        server_wf(ms),
        has_sid(ms, sid),
        now >= ms[sid_index(ms, sid)].deadline,
    ensures
        !has_sid(tick_filter(ms, now), sid),
    decreases ms.len(),
{
    let i = sid_index(ms, sid);
    assert(0 <= i < ms.len() && ms[i].sid == sid);
    let dl = ms.drop_last();
    assert(server_wf(dl)) by {
        assert(forall|k: int| 0 <= k < dl.len() ==> dl[k] == ms[k]);
    }
    let t = tick_model(ms.last(), now);
    let rd = tick_filter(dl, now);
    if i == ms.len() - 1 {
        assert(ms.last().state == SessionState::Open || ms.last().state
            == SessionState::Upgrading);
        assert(t == crate::socket::close_step(ms.last()));
        assert(t.state == SessionState::Closed);
        assert(tick_filter(ms, now) =~= rd);
        lemma_tick_filter_wf(dl, now);
        if has_sid(rd, sid) {
            assert(has_sid(dl, sid));
            let k = choose|k: int| 0 <= k < dl.len() && dl[k].sid == sid;
            assert(ms[k].sid != ms[ms.len() - 1].sid);
        }
    } else {
        assert(dl[i] == ms[i]);
        lemma_sid_index(dl, sid, i);
        lemma_tick_removes_expired(dl, now, sid);
        if has_sid(tick_filter(ms, now), sid) {
            let k = choose|k: int|
                0 <= k < tick_filter(ms, now).len() && tick_filter(ms, now)[k].sid == sid;
            if k < rd.len() {
                assert(rd[k].sid == sid);
                assert(has_sid(rd, sid));
            } else {
                assert(tick_filter(ms, now)[k] == t);
                assert(t.sid == ms.last().sid);
                assert(ms[i].sid != ms[ms.len() - 1].sid);
            }
        }
    }
}

/// Among the first `n + 1` pairwise-distinct fallback identifiers, at
/// least one is free in a registry of `n` pairwise-distinct live sessions:
/// a set of `n + 1` elements cannot sit inside a set of at most `n`.
proof fn lemma_fallback_free(ms: Seq<SessionModel>, n: nat)
    requires
        server_wf(ms),
        ms.len() == n,
        n < 0x10000000000000000,
    ensures
        exists|k: int| 0 <= k <= n && !has_sid(ms, #[trigger] fallback_sid_spec(k as nat)),
{
    assert_by_contradiction!(exists|k: int|
        0 <= k <= n && !has_sid(ms, #[trigger] fallback_sid_spec(k as nat)), {
        let cands = Seq::new(n + 1, |k: int| fallback_sid_spec(k as nat));
        let sids = ms.map_values(|m: SessionModel| m.sid);
        assert forall|i: int, j: int| 0 <= i < j < cands.len() implies cands[i] != cands[j] by {
            lemma_fallback_sid(i as nat);
            lemma_fallback_sid(j as nat);
        }
        assert(cands.no_duplicates());
        cands.unique_seq_to_set();
        sids.lemma_cardinality_of_set();
        assert forall|x: Seq<char>| cands.to_set().contains(x) implies sids.to_set().contains(
            x,
        ) by {
            let k = choose|k: int| 0 <= k < cands.len() && cands[k] == x;
            assert(0 <= k <= n);
            assert(has_sid(ms, fallback_sid_spec(k as nat)));
            let i = sid_index(ms, fallback_sid_spec(k as nat));
            assert(sids[i] == x);
            assert(sids.to_set().contains(sids[i]));
        }
        vstd::set_lib::lemma_len_subset(cands.to_set(), sids.to_set());
    });
}

} // verus!
