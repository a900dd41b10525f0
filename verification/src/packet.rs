//! The wire codec: a packet is one type digit followed by the raw payload
//! string; a payload frames a batch of packets for one long-poll exchange as
//! `"<decimal length>:<concatenated encoded packets>"`, where the length
//! counts characters (Unicode scalar values).
use crate::util::{
    dec_digits, dec_value, digit_val, is_digit_char, lemma_dec_digits_are_digits,
    lemma_dec_value_monotone, lemma_dec_value_of_digits, usize_to_decimal,
};
use vstd::prelude::*;

verus! {

/// The flavour of a long-polling transport.
#[derive(Clone, Copy, Debug, PartialEq, Eq, Structural)]
pub enum PollingType {
    JSONP,
    XHR,
}

/// The kind of channel a session is carried on.
#[derive(Clone, Copy, Debug, PartialEq, Eq, Structural)]
pub enum Transport {
    WebSocket,
    Polling(PollingType),
}

/// The closed set of protocol packet types, with fixed wire digits
/// `0` through `6` in declaration order.
#[derive(Clone, Copy, Debug, PartialEq, Eq, Structural)]
pub enum PacketType {
    Open,
    Close,
    Ping,
    Pong,
    Message,
    Upgrade,
    Noop,
}

/// The wire digit of a packet type.
pub open spec fn type_char(t: PacketType) -> char {
    match t {
        PacketType::Open => '0',
        PacketType::Close => '1',
        PacketType::Ping => '2',
        PacketType::Pong => '3',
        PacketType::Message => '4',
        PacketType::Upgrade => '5',
        PacketType::Noop => '6',
    }
}

/// The packet type a leading character decodes to. Anything outside
/// `0` through `5` degrades to `Noop`; `6` is `Noop`'s own digit.
pub open spec fn char_type(c: char) -> PacketType {
    if c == '0' {
        PacketType::Open
    } else if c == '1' {
        PacketType::Close
    } else if c == '2' {
        PacketType::Ping
    } else if c == '3' {
        PacketType::Pong
    } else if c == '4' {
        PacketType::Message
    } else if c == '5' {
        PacketType::Upgrade
    } else {
        PacketType::Noop
    }
}

/// The mathematical value of a packet: its type and its payload characters.
pub ghost struct PacketView {
    pub typ: PacketType,
    pub message: Seq<char>,
}

/// One protocol packet: a type and a payload string.
#[derive(Clone, Debug)]
pub struct Packet {
    pub typ: PacketType,
    pub message: String,
}

impl View for Packet {
    type V = PacketView;

    open spec fn view(&self) -> PacketView {
        PacketView { typ: self.typ, message: self.message@ }
    }
}

/// The encoded form of a packet: the type digit, then the raw payload,
/// with no delimiter and no escaping.
pub open spec fn packet_encode(p: PacketView) -> Seq<char> {
    seq![type_char(p.typ)] + p.message
}

/// The packet any string decodes to: the first character picks the type,
/// the remainder is the payload. Decoding is total; an empty string
/// degrades to an empty `Noop`.
pub open spec fn packet_decode(s: Seq<char>) -> PacketView {
    if s.len() == 0 {
        PacketView { typ: PacketType::Noop, message: Seq::empty() }
    } else {
        PacketView { typ: char_type(s[0]), message: s.subrange(1, s.len() as int) }
    }
}

/// Decoding inverts encoding: a packet survives the wire unchanged.
/// (Every type digit maps back to its own type; in particular `6`,
/// `Noop`'s digit, is also where unknown digits land.)
pub proof fn lemma_packet_round_trip(p: PacketView)
    ensures
        packet_decode(packet_encode(p)) == p,
{
    let e = packet_encode(p);
    assert(e[0] == type_char(p.typ));
    assert(char_type(type_char(p.typ)) == p.typ);
    assert(e.subrange(1, e.len() as int) =~= p.message);
}

/// Decoding a degraded frame is stable: re-encoding what any string decodes
/// to and decoding again gives the same packet.
pub proof fn lemma_packet_decode_stable(s: Seq<char>)
    ensures
        packet_decode(packet_encode(packet_decode(s))) == packet_decode(s),
{
    lemma_packet_round_trip(packet_decode(s));
}

/// The keepalive interval advertised at handshake, in milliseconds.
pub const PING_INTERVAL_MS: u32 = 25000;

/// The keepalive timeout advertised at handshake, in milliseconds.
pub const PING_TIMEOUT_MS: u32 = 5000;

/// The JSON body of an `Open` packet, field names in lower camel case:
/// the session id, the upgrade list (always empty here: only the polling
/// and WebSocket transports exist and either may be handed out directly),
/// and the keepalive parameters in milliseconds.
pub open spec fn open_payload(sid: Seq<char>, ping_interval: nat, ping_timeout: nat) -> Seq<
    char,
> {
    "{\"sid\":\""@ + sid + "\",\"upgrades\":[],\"pingInterval\":"@ + dec_digits(ping_interval)
        + ",\"pingTimeout\":"@ + dec_digits(ping_timeout) + "}"@
}

impl Packet {
    /// The `Open` packet sent at handshake, carrying the session id and the
    /// connection parameters as a JSON object. The id's characters are
    /// alphanumeric, so no JSON escaping is ever needed.
    pub fn open(sid: crate::socket::SID) -> (r: Packet)
        ensures
            r@.typ == PacketType::Open,
            r@.message == open_payload(
                sid@,
                PING_INTERVAL_MS as nat,
                PING_TIMEOUT_MS as nat,
            ),
    {
        let mut m = String::from_str("{\"sid\":\"");
        m.append(sid.as_str());
        m.append("\",\"upgrades\":[],\"pingInterval\":");
        let d1 = usize_to_decimal(PING_INTERVAL_MS as usize);
        m.append(d1.as_str());
        m.append(",\"pingTimeout\":");
        let d2 = usize_to_decimal(PING_TIMEOUT_MS as usize);
        m.append(d2.as_str());
        m.append("}");
        let r = Packet { typ: PacketType::Open, message: m };
        proof {
            assert(r@.message =~= open_payload(
                sid@,
                PING_INTERVAL_MS as nat,
                PING_TIMEOUT_MS as nat,
            ));
        }
        r
    }

    /// The `Close` packet: an empty payload.
    pub fn close() -> (r: Packet)
        ensures
            r@.typ == PacketType::Close,
            r@.message == Seq::<char>::empty(),
    {
        Packet { typ: PacketType::Close, message: String::new() }
    }

    /// The `Ping` packet used for upgrade probing.
    pub fn ping() -> (r: Packet)
        ensures
            r@.typ == PacketType::Ping,
            r@.message == "probe"@,
    {
        Packet { typ: PacketType::Ping, message: String::from_str("probe") }
    }

    /// The `Pong` packet answering an upgrade probe.
    pub fn pong() -> (r: Packet)
        ensures
            r@.typ == PacketType::Pong,
            r@.message == "probe"@,
    {
        Packet { typ: PacketType::Pong, message: String::from_str("probe") }
    }

    /// A `Message` packet carrying application payload.
    pub fn message(message: &str) -> (r: Packet)
        ensures
            r@.typ == PacketType::Message,
            r@.message == message@,
    {
        Packet { typ: PacketType::Message, message: String::from_str(message) }
    }

    /// The `Upgrade` packet confirming a transport switch: an empty payload.
    pub fn upgrade() -> (r: Packet)
        ensures
            r@.typ == PacketType::Upgrade,
            r@.message == Seq::<char>::empty(),
    {
        Packet { typ: PacketType::Upgrade, message: String::new() }
    }

    /// The `Noop` packet: an empty payload.
    pub fn noop() -> (r: Packet)
        ensures
            r@.typ == PacketType::Noop,
            r@.message == Seq::<char>::empty(),
    {
        Packet { typ: PacketType::Noop, message: String::new() }
    }

    /// Encodes this packet for the wire.
    pub fn encode(&self) -> (r: String)
        ensures
            r@ == packet_encode(self@),
    {
        let digit: &str = match self.typ {
            PacketType::Open => "0",
            PacketType::Close => "1",
            PacketType::Ping => "2",
            PacketType::Pong => "3",
            PacketType::Message => "4",
            PacketType::Upgrade => "5",
            PacketType::Noop => "6",
        };
        proof {
            reveal_strlit("0");
            reveal_strlit("1");
            reveal_strlit("2");
            reveal_strlit("3");
            reveal_strlit("4");
            reveal_strlit("5");
            reveal_strlit("6");
        }
        let mut r = String::from_str(digit);
        r.append(self.message.as_str());
        proof {
            assert(r@ =~= packet_encode(self@));
        }
        r
    }

    /// Decodes a wire string; never fails. A leading character outside the
    /// known digits, or an empty string, degrades to `Noop` — callers cannot
    /// distinguish a genuine `Noop` from a malformed frame.
    pub fn decode(msg: &str) -> (r: Packet)
        ensures
            r@ == packet_decode(msg@),
    {
        let n = msg.unicode_len();
        if n == 0 {
            let r = Packet { typ: PacketType::Noop, message: String::new() };
            proof {
                assert(r@.message =~= packet_decode(msg@).message);
            }
            r
        } else {
            let c = msg.get_char(0);
            let typ = Self::type_of_char(c);
            let rest = msg.substring_char(1, n);
            Packet { typ, message: String::from_str(rest) }
        }
    }

    /// Maps a leading character to its packet type, mirroring `char_type`.
    fn type_of_char(c: char) -> (t: PacketType)
        ensures
            t == char_type(c),
    {
        if c == '0' {
            PacketType::Open
        } else if c == '1' {
            PacketType::Close
        } else if c == '2' {
            PacketType::Ping
        } else if c == '3' {
            PacketType::Pong
        } else if c == '4' {
            PacketType::Message
        } else if c == '5' {
            PacketType::Upgrade
        } else {
            PacketType::Noop
        }
    }
}

/// A malformed payload frame: the length prefix does not match
/// `<digits>:<rest>`, or the declared length is not the length of the rest.
#[derive(Clone, Copy, Debug, PartialEq, Eq, Structural)]
pub enum FramingError {
    Malformed,
}

/// The concatenation of the encoded forms of a run of packets, in order.
pub open spec fn packets_concat(ps: Seq<PacketView>) -> Seq<char>
    decreases ps.len(),
{
    if ps.len() == 0 {
        Seq::empty()
    } else {
        packets_concat(ps.drop_last()) + packet_encode(ps.last())
    }
}

/// A body wrapped in the payload frame: the body's character count, a
/// colon, then the body itself.
pub open spec fn frame_body(body: Seq<char>) -> Seq<char> {
    dec_digits(body.len()) + seq![':'] + body
}

/// The encoded form of a payload: the concatenated packet encodings behind
/// a single outer length prefix; the individual packet boundaries are not
/// recoverable.
pub open spec fn payload_encode(ps: Seq<PacketView>) -> Seq<char> {
    frame_body(packets_concat(ps))
}

/// `j` is the position of the colon of a well-formed frame: at least one
/// digit before it, and the digits read as the character count of what
/// follows it.
pub open spec fn payload_split_at(s: Seq<char>, j: int) -> bool {
    &&& 1 <= j < s.len()
    &&& s[j] == ':'
    &&& forall|k: int| 0 <= k < j ==> is_digit_char(#[trigger] s[k])
    &&& dec_value(s.subrange(0, j)) == s.len() - j - 1
}

/// A string that parses as a framed payload.
pub open spec fn payload_framed(s: Seq<char>) -> bool {
    exists|j: int| payload_split_at(s, j)
}

/// What follows the colon of a well-formed frame.
pub open spec fn payload_body(s: Seq<char>) -> Seq<char> {
    let j = choose|j: int| payload_split_at(s, j);
    s.subrange(j + 1, s.len() as int)
}

/// The packets a well-formed frame decodes to: none for an empty body,
/// else the single packet the whole body decodes to.
pub open spec fn payload_decode(s: Seq<char>) -> Seq<PacketView> {
    if payload_body(s).len() == 0 {
        Seq::empty()
    } else {
        seq![packet_decode(payload_body(s))]
    }
}

/// A frame has at most one well-formed split position.
pub proof fn lemma_payload_split_unique(s: Seq<char>, j1: int, j2: int)
    requires
        payload_split_at(s, j1),
        payload_split_at(s, j2),
    ensures
        j1 == j2,
{
    if j1 < j2 {
        assert(is_digit_char(s[j1]));
    } else if j2 < j1 {
        assert(is_digit_char(s[j2]));
    }
}

/// An ordered batch of packets framed as one long-poll body.
#[derive(Clone, Debug)]
pub struct Payload {
    packets: Vec<Packet>,
}

impl View for Payload {
    type V = Seq<PacketView>;

    closed spec fn view(&self) -> Seq<PacketView> {
        self.packets@.map_values(|p: Packet| p@)
    }
}

impl From<Vec<Packet>> for Payload {
    fn from(packets: Vec<Packet>) -> (r: Payload) {
        Payload { packets }
    }
}

impl vstd::std_specs::convert::FromSpecImpl<Vec<Packet>> for Payload {
    open spec fn obeys_from_spec() -> bool {
        true
    }

    closed spec fn from_spec(v: Vec<Packet>) -> Payload {
        Payload { packets: v }
    }
}

/// What `Payload::from` builds: the payload of exactly those packets.
pub proof fn lemma_payload_from(v: Vec<Packet>)
    ensures
        <Payload as vstd::std_specs::convert::FromSpec<Vec<Packet>>>::from_spec(v)@
            == v@.map_values(|p: Packet| p@),
{
}

impl Payload {
    /// How many packets this payload carries.
    pub fn len(&self) -> (r: usize)
        ensures
            r == self@.len(),
    {
        self.packets.len()
    }

    /// The packet at a position.
    pub fn packet_at(&self, i: usize) -> (r: &Packet)
        requires
            i < self@.len(),
        ensures
            r@ == self@[i as int],
    {
        &self.packets[i]
    }

    /// The packets of this payload, in order.
    pub fn into_packets(self) -> (r: Vec<Packet>)
        ensures
            r@.map_values(|p: Packet| p@) == self@,
    {
        self.packets
    }

    /// Frames this payload for one long-poll exchange.
    pub fn encode(&self) -> (r: String)
        ensures
            r@ == payload_encode(self@),
    {
        let ghost ps = self@;
        let mut body = String::new();
        let mut k: usize = 0;
        while k < self.packets.len()
            invariant
                k <= self.packets.len(),
                ps == self@,
                body@ == packets_concat(ps.subrange(0, k as int)),
            decreases self.packets.len() - k,
        {
            let e = self.packets[k].encode();
            body.append(e.as_str());
            proof {
                assert(ps.subrange(0, k + 1).drop_last() =~= ps.subrange(0, k as int));
                assert(ps.subrange(0, k + 1).last() == ps[k as int]);
            }
            k += 1;
        }
        proof {
            assert(ps.subrange(0, self.packets@.len() as int) =~= ps);
        }
        let blen = body.as_str().unicode_len();
        let mut r = usize_to_decimal(blen);
        r.append(":");
        r.append(body.as_str());
        proof {
            reveal_strlit(":");
            assert(r@ =~= payload_encode(self@));
        }
        r
    }

    /// Parses one long-poll body. Fails exactly when the input is not
    /// `<digits>:<rest>` with the digits reading as the character count of
    /// `<rest>`. A non-empty body comes back as the single packet the whole
    /// body decodes to: the boundaries of a multi-packet encoding are lost.
    pub fn decode(raw: &str) -> (r: Result<Payload, FramingError>)
        ensures
            payload_framed(raw@) ==> (r matches Ok(p) && p@ == payload_decode(raw@)),
            !payload_framed(raw@) ==> (r matches Err(e) && e == FramingError::Malformed),
    {
        let n = raw.unicode_len();
        let mut i: usize = 0;
        let mut acc: usize = 0;
        proof {
            assert(raw@.subrange(0, 0) =~= Seq::<char>::empty());
        }
        while i < n
            invariant
                n == raw@.len(),
                i <= n,
                forall|k: int| 0 <= k < i ==> is_digit_char(#[trigger] raw@[k]),
                acc == dec_value(raw@.subrange(0, i as int)),
                acc <= n,
            decreases n - i,
        {
            let c = raw.get_char(i);
            let u = c as u32;
            if u == 58 {
                assert(c == ':') by {
                    assert(':' as u32 == 58);
                }
                if i == 0 {
                    proof {
                        assert forall|j: int| !payload_split_at(raw@, j) by {
                            if 1 <= j < raw@.len() {
                                assert(!is_digit_char(':'));
                            }
                        }
                    }
                    return Err(FramingError::Malformed);
                }
                if acc == n - i - 1 {
                    proof {
                        assert(payload_split_at(raw@, i as int));
                        let j = choose|j: int| payload_split_at(raw@, j);
                        lemma_payload_split_unique(raw@, j, i as int);
                    }
                    let body = raw.substring_char(i + 1, n);
                    proof {
                        assert(body@ =~= payload_body(raw@));
                    }
                    let packets: Vec<Packet> = if body.unicode_len() == 0 {
                        Vec::new()
                    } else {
                        let mut v: Vec<Packet> = Vec::new();
                        v.push(Packet::decode(body));
                        v
                    };
                    let p = Payload { packets };
                    proof {
                        assert(p@ =~= payload_decode(raw@));
                    }
                    return Ok(p);
                } else {
                    proof {
                        assert forall|j: int| !payload_split_at(raw@, j) by {
                            if payload_split_at(raw@, j) {
                                if j < i {
                                    assert(raw@[j] == ':');
                                    assert(is_digit_char(raw@[j]));
                                    assert(!is_digit_char(':'));
                                } else if j > i {
                                    assert(is_digit_char(raw@[i as int]));
                                    assert(!is_digit_char(':'));
                                }
                            }
                        }
                    }
                    return Err(FramingError::Malformed);
                }
            } else if 48 <= u && u <= 57 {
                assert(is_digit_char(raw@[i as int]) && digit_val(raw@[i as int]) == u - 48) by {
                    assert('0' as u32 == 48 && '9' as u32 == 57);
                }
                let d = (u - 48) as usize;
                proof {
                    assert(raw@.subrange(0, i + 1).drop_last() =~= raw@.subrange(0, i as int));
                    assert(raw@.subrange(0, i + 1).last() == raw@[i as int]);
                    assert(dec_value(raw@.subrange(0, i + 1)) == acc * 10 + d);
                }
                let overflow = if acc > n / 10 {
                    true
                } else {
                    proof {
                        vstd::arithmetic::div_mod::lemma_fundamental_div_mod(n as int, 10);
                    }
                    let acc10 = acc * 10;
                    d > n - acc10
                };
                if overflow {
                    proof {
                        vstd::arithmetic::div_mod::lemma_fundamental_div_mod(n as int, 10);
                        assert(acc * 10 + d > n);
                        assert forall|j: int| !payload_split_at(raw@, j) by {
                            if payload_split_at(raw@, j) {
                                if j <= i {
                                    assert(raw@[j] == ':');
                                    if j < i {
                                        assert(is_digit_char(raw@[j]));
                                    } else {
                                        assert(is_digit_char(raw@[i as int]));
                                    }
                                    assert(!is_digit_char(':'));
                                } else {
                                    lemma_dec_value_monotone(raw@, i + 1, j);
                                    assert(dec_value(raw@.subrange(0, j)) >= acc * 10 + d);
                                    assert(dec_value(raw@.subrange(0, j)) == raw@.len() - j - 1);
                                }
                            }
                        }
                    }
                    return Err(FramingError::Malformed);
                }
                acc = acc * 10 + d;
                i += 1;
            } else {
                proof {
                    assert(!is_digit_char(raw@[i as int]) && raw@[i as int] != ':') by {
                        assert('0' as u32 == 48 && '9' as u32 == 57 && ':' as u32 == 58);
                    }
                    assert forall|j: int| !payload_split_at(raw@, j) by {
                        if payload_split_at(raw@, j) {
                            if j < i {
                                assert(is_digit_char(raw@[j]) && raw@[j] == ':');
                                assert(!is_digit_char(':'));
                            } else if j == i {
                                assert(raw@[j] == ':');
                            } else {
                                assert(is_digit_char(raw@[i as int]));
                            }
                        }
                    }
                }
                return Err(FramingError::Malformed);
            }
        }
        proof {
            assert forall|j: int| !payload_split_at(raw@, j) by {
                if payload_split_at(raw@, j) {
                    assert(is_digit_char(raw@[j]) && raw@[j] == ':');
                    assert(!is_digit_char(':'));
                }
            }
        }
        Err(FramingError::Malformed)
    }
}

/// Any framed body parses back: the frame is well formed, and exactly the
/// body follows the colon.
pub proof fn lemma_frame_body_framed(body: Seq<char>)
    ensures
        payload_framed(frame_body(body)),
        payload_body(frame_body(body)) == body,
        body.len() == 0 ==> payload_decode(frame_body(body)) == Seq::<PacketView>::empty(),
        body.len() > 0 ==> payload_decode(frame_body(body)) == seq![packet_decode(body)],
{
    let e = frame_body(body);
    let jj = dec_digits(body.len()).len() as int;
    lemma_dec_digits_are_digits(body.len());
    lemma_dec_value_of_digits(body.len());
    assert(e.subrange(0, jj) =~= dec_digits(body.len()));
    assert(e[jj] == ':');
    assert(payload_split_at(e, jj));
    let j = choose|j: int| payload_split_at(e, j);
    lemma_payload_split_unique(e, j, jj);
    assert(payload_body(e) =~= body);
}

/// Every encoded payload parses back: an empty batch comes back empty, and
/// a non-empty batch comes back as the one packet its concatenated
/// encoding decodes to — the documented boundary-losing behaviour of the
/// single outer length prefix.
pub proof fn lemma_payload_encode_framed(ps: Seq<PacketView>)
    ensures
        payload_framed(payload_encode(ps)),
        packets_concat(ps).len() == 0 ==> payload_decode(payload_encode(ps)) == Seq::<
            PacketView,
        >::empty(),
        packets_concat(ps).len() > 0 ==> payload_decode(payload_encode(ps)) == seq![
            packet_decode(packets_concat(ps)),
        ],
{
    lemma_frame_body_framed(packets_concat(ps));
}

/// A payload of exactly one packet survives the frame intact.
pub proof fn lemma_payload_round_trip_single(p: PacketView)
    ensures
        payload_framed(payload_encode(seq![p])),
        payload_decode(payload_encode(seq![p])) == seq![p],
{
    assert(packets_concat(seq![p]) =~= packet_encode(p)) by {
        assert(seq![p].drop_last() =~= Seq::<PacketView>::empty());
        assert(packets_concat(Seq::<PacketView>::empty()) =~= Seq::<char>::empty());
        assert(seq![p].last() == p);
    }
    lemma_payload_encode_framed(seq![p]);
    lemma_packet_round_trip(p);
}

/// A batch of two or more packets does not survive the frame: what comes
/// back holds at most one packet, so it cannot be the original batch.
pub proof fn lemma_payload_multi_not_recovered(ps: Seq<PacketView>)
    requires
        ps.len() >= 2,
    ensures
        payload_decode(payload_encode(ps)).len() <= 1,
        payload_decode(payload_encode(ps)) != ps,
{
    lemma_payload_encode_framed(ps);
}

/// The empty payload encodes to `0:` and decodes back to no packets.
pub proof fn lemma_payload_empty()
    ensures
        payload_encode(Seq::<PacketView>::empty()) == seq!['0', ':'],
        payload_decode(payload_encode(Seq::<PacketView>::empty())) == Seq::<PacketView>::empty(),
{
    assert(payload_encode(Seq::<PacketView>::empty()) =~= seq!['0', ':']);
    lemma_payload_encode_framed(Seq::<PacketView>::empty());
}

} // verus!
