//! LCP and IPCP negotiation.
//!
//! The client opens LCP with its own Configure-Request and acknowledges the
//! peer's; IPCP starts with the peer's request and may correct the address.

use vstd::prelude::*;
use vstd::slice::slice_subrange;
use vstd::string::*;

use crate::bytes::append_bytes;
use crate::numbers;
use crate::ppp_proto;
use crate::ppp_proto::proto;
use crate::stream::{ReadOutcome, ReadView, BUFFER_LIMIT};
use crate::text;

verus! {

// ---------------------------------------------------------------------------
// Packets
// ---------------------------------------------------------------------------

/// The length that a control packet states.
pub open spec fn stated_length(packet: Seq<u8>) -> nat {
    ppp_proto::from_be16(packet[2], packet[3])
}

/// The packet states a length that covers its header and is there in full.
pub open spec fn is_whole(packet: Seq<u8>) -> bool {
    packet.len() >= 4 && 4 <= stated_length(packet) <= packet.len()
}

/// The acknowledgement of a Configure-Request: the same identifier, length
/// and options under another code.
pub open spec fn configure_ack(code: u8, request: Seq<u8>) -> Seq<u8> {
    seq![code, request[1]] + request.subrange(2, stated_length(request) as int)
}

/// The packet of a frame of the given control protocol, if the frame carries
/// one that is long enough to have a header.
pub open spec fn control_packet(frame: Seq<u8>, protocol: u16) -> Option<Seq<u8>> {
    match ppp_proto::ppp_packet(frame) {
        Some((p, packet)) => if p == protocol && packet.len() >= 4 {
            Some(packet)
        } else {
            None
        },
        None => None,
    }
}

/// The peer's Configure-Request in a frame, cut to the length that it states.
pub open spec fn peer_request(frame: Seq<u8>, protocol: u16, code: u8) -> Option<Seq<u8>> {
    match control_packet(frame, protocol) {
        Some(packet) => if packet[0] == code && is_whole(packet) {
            Some(packet.take(stated_length(packet) as int))
        } else {
            None
        },
        None => None,
    }
}

/// The frame carries a packet of the given protocol and code.
pub open spec fn has_code(frame: Seq<u8>, protocol: u16, code: u8) -> bool {
    match control_packet(frame, protocol) {
        Some(packet) => packet[0] == code,
        None => false,
    }
}

/// The tunnel frame that carries a control packet.
pub open spec fn control_frame(protocol: u16, packet: Seq<u8>) -> Seq<u8> {
    ppp_proto::tunnel_frame(ppp_proto::hdlc_frame(protocol, packet))
}

/// The acknowledgement of the peer's request in the frame, if it holds one,
/// fits a tunnel frame.
pub open spec fn reply_fits(frame: Seq<u8>, protocol: u16, code: u8) -> bool {
    match peer_request(frame, protocol, code) {
        Some(request) => ppp_proto::frame_fits(request.len() + 4),
        None => true,
    }
}

/// The four bytes of the first option of the given kind that has room for
/// them. The options stop at one that states no length or too much.
pub open spec fn option_value(options: Seq<u8>, kind: u8) -> Option<Seq<u8>>
    decreases options.len(),
{
    if options.len() < 2 || options[1] == 0 || options[1] > options.len() {
        None
    } else if options[0] == kind && options[1] >= 6 {
        Some(options.subrange(2, 6))
    } else {
        option_value(options.skip(options[1] as int), kind)
    }
}

/// The number that four bytes spell, most significant first.
pub open spec fn from_be32(b: Seq<u8>) -> nat {
    (b[0] * 16777216 + b[1] * 65536 + b[2] * 256 + b[3]) as nat
}

/// The four bytes of a number, most significant first.
pub open spec fn be32(v: nat) -> Seq<u8> {
    seq![
        (v / 16777216) as u8,
        (v / 65536 % 256) as u8,
        (v / 256 % 256) as u8,
        (v % 256) as u8,
    ]
}

/// The magic number among LCP options, zero if there is none.
pub open spec fn magic_number(options: Seq<u8>) -> nat {
    match option_value(options, proto::LCP_OPT_MAGIC_NUMBER) {
        Some(b) => from_be32(b),
        None => 0,
    }
}

/// The address among IPCP options, as text.
pub open spec fn proposed_address(options: Seq<u8>) -> Option<Seq<char>> {
    match option_value(options, proto::IPCP_OPT_IP_ADDRESS) {
        Some(b) => Some(numbers::dotted(b)),
        None => None,
    }
}

/// The numbers up to 255 among the parts, in order.
pub open spec fn small_numbers(parts: Seq<Seq<char>>) -> Seq<u8>
    decreases parts.len(),
{
    if parts.len() == 0 {
        Seq::empty()
    } else {
        match numbers::bounded_value(parts.last(), 10, 255) {
            Some(v) => small_numbers(parts.drop_last()).push(v as u8),
            None => small_numbers(parts.drop_last()),
        }
    }
}

/// The first four numbers up to 255 between the full stops of the text,
/// filled up with zeros.
pub open spec fn address_bytes(ip: Seq<char>) -> Seq<u8> {
    let found = small_numbers(text::pieces(ip, '.'));
    Seq::new(
        4,
        |i: int|
            if i < found.len() {
                found[i]
            } else {
                0
            },
    )
}

/// Our LCP Configure-Request.
pub open spec fn lcp_request_packet(s: PppSession) -> Seq<u8> {
    ppp_proto::packet_header(proto::LCP_CONF_REQ, s.lcp_identifier, 10) + seq![
        proto::LCP_OPT_MRU,
        4u8,
    ] + ppp_proto::be16(s.mru as nat) + seq![proto::LCP_OPT_MAGIC_NUMBER, 6u8] + be32(
        s.local_magic as nat,
    )
}

/// Our IPCP Configure-Request for an address.
pub open spec fn ipcp_request_packet(s: PppSession, ip: Seq<char>) -> Seq<u8> {
    ppp_proto::packet_header(proto::IPCP_CONF_REQ, s.ipcp_identifier, 6) + seq![
        proto::IPCP_OPT_IP_ADDRESS,
        6u8,
    ] + address_bytes(ip)
}

/// The identifier after `id`; 255 is followed by 0.
pub open spec fn next_identifier(id: u8) -> u8 {
    if id == 255 {
        0
    } else {
        (id + 1) as u8
    }
}

// ---------------------------------------------------------------------------
// Packet code
// ---------------------------------------------------------------------------

/// The acknowledgement with the given code, if the request is whole.
fn configure_ack_from_peer(code: u8, peer_req: &[u8]) -> (r: Option<Vec<u8>>)
    ensures
        match r {
            Some(ack) => is_whole(peer_req@) && ack@ == configure_ack(code, peer_req@),
            None => !is_whole(peer_req@),
        },
{
    if peer_req.len() < 4 {
        return None;
    }
    let total_len: usize = ppp_proto::read_be16(peer_req[2], peer_req[3]) as usize;
    if total_len < 4 || peer_req.len() < total_len {
        return None;
    }
    let mut out: Vec<u8> = Vec::new();
    out.push(code);
    out.push(peer_req[1]);
    append_bytes(&mut out, slice_subrange(peer_req, 2, total_len));
    proof {
        assert(out@ =~= configure_ack(code, peer_req@));
    }
    Some(out)
}

/// The LCP Configure-Ack for the peer's Configure-Request.
pub fn lcp_configure_ack_from_peer(peer_req: &[u8]) -> (r: Option<Vec<u8>>)
    ensures
        match r {
            Some(ack) => is_whole(peer_req@) && ack@ == configure_ack(
                proto::LCP_CONF_ACK,
                peer_req@,
            ),
            None => !is_whole(peer_req@),
        },
{
    configure_ack_from_peer(proto::LCP_CONF_ACK, peer_req)
}

/// The IPCP Configure-Ack for the peer's Configure-Request.
pub fn ipcp_configure_ack_from_peer(peer_req: &[u8]) -> (r: Option<Vec<u8>>)
    ensures
        match r {
            Some(ack) => is_whole(peer_req@) && ack@ == configure_ack(
                proto::IPCP_CONF_ACK,
                peer_req@,
            ),
            None => !is_whole(peer_req@),
        },
{
    configure_ack_from_peer(proto::IPCP_CONF_ACK, peer_req)
}

/// Whether the acknowledgement of the peer's request in the frame fits a
/// tunnel frame.
pub fn reply_has_room(frame: &[u8], protocol: u16, code: u8) -> (r: bool)
    ensures
        r == reply_fits(frame@, protocol, code),
{
    match ppp_proto::parse_hdlc_frame(frame) {
        Some((p, packet)) => {
            if p != protocol || packet.len() < 4 || packet[0] != code {
                return true;
            }
            let total_len: usize = ppp_proto::read_be16(packet[2], packet[3]) as usize;
            total_len < 4 || packet.len() < total_len || (total_len + 4) % 65536
                <= ppp_proto::TUNNEL_PAYLOAD_MAX
        },
        None => true,
    }
}

/// The first option of the given kind that has room for four bytes.
fn find_option(opts: &[u8], kind: u8) -> (r: Option<[u8; 4]>)
    ensures
        match r {
            Some(b) => option_value(opts@, kind) == Some(b@),
            None => option_value(opts@, kind) is None,
        },
{
    let mut i: usize = 0;
    proof {
        assert(opts@.skip(0) =~= opts@);
    }
    while i < opts.len() && opts.len() - i > 1
        invariant
            i <= opts.len(),
            option_value(opts@, kind) == option_value(opts@.skip(i as int), kind),
        decreases opts.len() - i,
    {
        let opt_len: usize = opts[i + 1] as usize;
        if opt_len == 0 || opt_len > opts.len() - i {
            return None;
        }
        if opts[i] == kind && opt_len >= 6 {
            let b: [u8; 4] = [opts[i + 2], opts[i + 3], opts[i + 4], opts[i + 5]];
            proof {
                assert(b@ =~= opts@.skip(i as int).subrange(2, 6));
            }
            return Some(b);
        }
        proof {
            assert(opts@.skip(i as int).skip(opt_len as int) =~= opts@.skip(i + opt_len));
        }
        i = i + opt_len;
    }
    None
}

/// The magic number among LCP options.
pub fn extract_magic_number(opts: &[u8]) -> (r: u32)
    ensures
        r == magic_number(opts@),
{
    match find_option(opts, proto::LCP_OPT_MAGIC_NUMBER) {
        Some(b) => (b[0] as u32) * 16777216 + (b[1] as u32) * 65536 + (b[2] as u32) * 256 + (
        b[3] as u32),
        None => 0,
    }
}

/// The address among IPCP options.
pub fn extract_ipcp_ip(opts: &[u8]) -> (r: Option<String>)
    ensures
        match r {
            Some(ip) => proposed_address(opts@) == Some(ip@),
            None => proposed_address(opts@) is None,
        },
{
    match find_option(opts, proto::IPCP_OPT_IP_ADDRESS) {
        Some(b) => {
            let mut ip: String = numbers::decimal_text(b[0] as u64);
            ip.push('.');
            ip.append(numbers::decimal_text(b[1] as u64).as_str());
            ip.push('.');
            ip.append(numbers::decimal_text(b[2] as u64).as_str());
            ip.push('.');
            ip.append(numbers::decimal_text(b[3] as u64).as_str());
            proof {
                assert(ip@ =~= numbers::dotted(b@));
            }
            Some(ip)
        },
        None => None,
    }
}

/// The bytes of an address.
pub fn parse_ipv4(ip: &str) -> (r: [u8; 4])
    ensures
        r@ == address_bytes(ip@),
{
    let cs = text::to_chars(ip);
    let parts = text::split(cs.as_slice(), '.');
    let mut found: Vec<u8> = Vec::new();
    let mut i: usize = 0;
    while i < parts.len()
        invariant
            i <= parts@.len(),
            text::char_views(parts@) == text::pieces(ip@, '.'),
            found@ =~= small_numbers(text::pieces(ip@, '.').take(i as int)),
        decreases parts.len() - i,
    {
        let ghost all = text::pieces(ip@, '.');
        proof {
            assert(all.take(i + 1).drop_last() =~= all.take(i as int));
            assert(all.take(i + 1).last() == parts@[i as int]@);
        }
        if let Some(v) = numbers::parse_unsigned(parts[i].as_slice(), 10, 255) {
            found.push(v as u8);
        }
        i = i + 1;
    }
    proof {
        assert(text::pieces(ip@, '.').take(i as int) =~= text::pieces(ip@, '.'));
    }
    let a: u8 = if found.len() > 0 {
        found[0]
    } else {
        0
    };
    let b: u8 = if found.len() > 1 {
        found[1]
    } else {
        0
    };
    let c: u8 = if found.len() > 2 {
        found[2]
    } else {
        0
    };
    let d: u8 = if found.len() > 3 {
        found[3]
    } else {
        0
    };
    let r: [u8; 4] = [a, b, c, d];
    proof {
        assert(r@ =~= address_bytes(ip@));
    }
    r
}

// ---------------------------------------------------------------------------
// The session
// ---------------------------------------------------------------------------

/// `rand::thread_rng().gen()` draws a `u32`. Nothing is known of the number.
#[verifier::external_body]
fn random_magic() -> u32 {
    rand::Rng::gen(&mut rand::thread_rng())
}

/// The client's side of a PPP link.
#[derive(Clone, Copy)]
pub struct PppSession {
    pub local_magic: u32,
    pub remote_magic: u32,
    pub lcp_identifier: u8,
    pub ipcp_identifier: u8,
    pub mru: u16,
}

/// How far LCP has come.
#[derive(Clone, Copy)]
pub struct LcpNegotiation {
    /// A request of the peer has been acknowledged.
    pub acked_peer: bool,
    /// The peer has acknowledged a request of ours.
    pub peer_acked: bool,
}

/// What IPCP does next.
#[derive(Clone, Copy, PartialEq, Eq, Structural)]
pub enum PppState {
    WaitRequest,
    SendRequest,
    Done,
}

/// How far IPCP has come.
pub struct IpcpNegotiation {
    /// The address from the configuration.
    pub assigned_ip: String,
    /// The address that the peer proposed last; empty if it proposed none.
    pub confirmed_ip: String,
    pub state: PppState,
}

/// An IPCP negotiation without its representation.
pub struct IpcpView {
    pub assigned_ip: Seq<char>,
    pub confirmed_ip: Seq<char>,
    pub state: PppState,
}

impl View for IpcpNegotiation {
    type V = IpcpView;

    open spec fn view(&self) -> IpcpView {
        IpcpView {
            assigned_ip: self.assigned_ip@,
            confirmed_ip: self.confirmed_ip@,
            state: self.state,
        }
    }
}

impl IpcpView {
    /// The address that the client asks for: what the peer proposed last, or
    /// what the configuration said.
    pub open spec fn wanted(self) -> Seq<char> {
        if self.confirmed_ip.len() == 0 {
            self.assigned_ip
        } else {
            self.confirmed_ip
        }
    }

    /// The negotiation after a Configure-Nak with the given options.
    pub open spec fn corrected(self, options: Seq<u8>) -> IpcpView {
        match proposed_address(options) {
            Some(ip) => IpcpView { confirmed_ip: ip, ..self },
            None => self,
        }
    }
}

/// How far LCP has come after it received a frame.
pub open spec fn lcp_received(n: LcpNegotiation, frame: Seq<u8>) -> LcpNegotiation {
    if peer_request(frame, proto::LCP, proto::LCP_CONF_REQ) is Some {
        LcpNegotiation { acked_peer: true, ..n }
    } else {
        LcpNegotiation {
            peer_acked: n.peer_acked || has_code(frame, proto::LCP, proto::LCP_CONF_ACK),
            ..n
        }
    }
}

/// The options of a Configure-Nak: what follows its header, up to the length
/// that it states.
pub open spec fn nak_options(packet: Seq<u8>) -> Seq<u8> {
    if 4 <= stated_length(packet) <= packet.len() {
        packet.subrange(4, stated_length(packet) as int)
    } else if stated_length(packet) < 4 {
        Seq::empty()
    } else {
        packet.skip(4)
    }
}

/// The session, the negotiation and the frame to send after IPCP, waiting
/// for a packet, received a frame.
pub open spec fn ipcp_received(s: PppSession, n: IpcpView, frame: Seq<u8>) -> (
    PppSession,
    IpcpView,
    Option<Seq<u8>>,
) {
    match peer_request(frame, proto::IPCP, proto::IPCP_CONF_REQ) {
        Some(request) => (
            s,
            IpcpView { state: PppState::SendRequest, ..n },
            Some(control_frame(proto::IPCP, configure_ack(proto::IPCP_CONF_ACK, request))),
        ),
        None => if has_code(frame, proto::IPCP, proto::IPCP_CONF_NAK) {
            let packet = control_packet(frame, proto::IPCP)->0;
            let next = n.corrected(nak_options(packet));
            (
                PppSession { ipcp_identifier: next_identifier(s.ipcp_identifier), ..s },
                next,
                Some(control_frame(proto::IPCP, ipcp_request_packet(s, next.wanted()))),
            )
        } else if has_code(frame, proto::IPCP, proto::IPCP_CONF_ACK) {
            (s, IpcpView { state: PppState::Done, ..n }, None)
        } else {
            (s, n, None)
        },
    }
}

/// The session after LCP received a frame, and the frame to send: the
/// acknowledgement of a request that is there in full.
pub open spec fn lcp_answered(s: PppSession, frame: Seq<u8>) -> (PppSession, Option<Seq<u8>>) {
    match peer_request(frame, proto::LCP, proto::LCP_CONF_REQ) {
        Some(request) => (
            PppSession { remote_magic: magic_number(request.skip(4)) as u32, ..s },
            Some(control_frame(proto::LCP, configure_ack(proto::LCP_CONF_ACK, request))),
        ),
        None => (s, None),
    }
}

/// The session after LCP was opened, and the frame that opens it.
pub open spec fn lcp_opened(s: PppSession) -> (PppSession, Seq<u8>) {
    (
        PppSession { lcp_identifier: next_identifier(s.lcp_identifier), ..s },
        control_frame(proto::LCP, lcp_request_packet(s)),
    )
}

/// The session and the negotiation after IPCP sent its request, and the frame
/// with the request.
pub open spec fn ipcp_asked(s: PppSession, n: IpcpView) -> (PppSession, IpcpView, Seq<u8>) {
    (
        PppSession { ipcp_identifier: next_identifier(s.ipcp_identifier), ..s },
        IpcpView { state: PppState::WaitRequest, ..n },
        control_frame(proto::IPCP, ipcp_request_packet(s, n.wanted())),
    )
}

impl LcpNegotiation {
    /// LCP before the first packet of the peer.
    pub fn new() -> (r: Self)
        ensures
            !r.acked_peer && !r.peer_acked,
    {
        LcpNegotiation { acked_peer: false, peer_acked: false }
    }

    /// Both sides have agreed.
    pub open spec fn complete(self) -> bool {
        self.acked_peer && self.peer_acked
    }

    /// Whether both sides have agreed.
    pub fn is_complete(&self) -> (r: bool)
        ensures
            r == self.complete(),
    {
        self.acked_peer && self.peer_acked
    }
}

impl IpcpNegotiation {
    /// IPCP before the first packet of the peer.
    pub fn new(assigned_ip: &str) -> (r: Self)
        ensures
            r@ == (IpcpView {
                assigned_ip: assigned_ip@,
                confirmed_ip: Seq::empty(),
                state: PppState::WaitRequest,
            }),
    {
        IpcpNegotiation {
            assigned_ip: assigned_ip.to_string(),
            confirmed_ip: String::new(),
            state: PppState::WaitRequest,
        }
    }

    /// The address that the client asks for, and that it uses in the end.
    pub fn address(&self) -> (r: String)
        ensures
            r@ == self@.wanted(),
    {
        if self.confirmed_ip.as_str().is_empty() {
            self.assigned_ip.clone()
        } else {
            self.confirmed_ip.clone()
        }
    }
}

impl PppSession {
    /// A session with a magic number drawn at random.
    pub fn new(mru: u16) -> (r: Self)
        ensures
            r == (PppSession {
                local_magic: r.local_magic,
                remote_magic: 0,
                lcp_identifier: 1,
                ipcp_identifier: 1,
                mru,
            }),
    {
        PppSession::with_magic(random_magic(), mru)
    }

    /// A session with the given magic number.
    pub fn with_magic(local_magic: u32, mru: u16) -> (r: Self)
        ensures
            r == (PppSession {
                local_magic,
                remote_magic: 0,
                lcp_identifier: 1,
                ipcp_identifier: 1,
                mru,
            }),
    {
        PppSession { local_magic, remote_magic: 0, lcp_identifier: 1, ipcp_identifier: 1, mru }
    }

    /// Our LCP Configure-Request: the receive unit and the magic number.
    pub fn build_lcp_configure_request(&self) -> (r: Vec<u8>)
        ensures
            r@ == lcp_request_packet(*self),
    {
        let mut full: Vec<u8> = ppp_proto::build_lcp_header(
            proto::LCP_CONF_REQ,
            self.lcp_identifier,
            10,
        );
        full.push(proto::LCP_OPT_MRU);
        full.push(4);
        ppp_proto::push_be16(&mut full, self.mru);
        full.push(proto::LCP_OPT_MAGIC_NUMBER);
        full.push(6);
        full.push((self.local_magic / 16777216) as u8);
        full.push((self.local_magic / 65536 % 256) as u8);
        full.push((self.local_magic / 256 % 256) as u8);
        full.push((self.local_magic % 256) as u8);
        proof {
            assert(full@ =~= lcp_request_packet(*self));
        }
        full
    }

    /// Our IPCP Configure-Request for an address.
    pub fn build_ipcp_configure_request(&self, ip: &str) -> (r: Vec<u8>)
        ensures
            r@ == ipcp_request_packet(*self, ip@),
    {
        let bytes: [u8; 4] = parse_ipv4(ip);
        let mut full: Vec<u8> = ppp_proto::build_ipcp_header(
            proto::IPCP_CONF_REQ,
            self.ipcp_identifier,
            6,
        );
        full.push(proto::IPCP_OPT_IP_ADDRESS);
        full.push(6);
        append_bytes(&mut full, bytes.as_slice());
        proof {
            assert(full@ =~= ipcp_request_packet(*self, ip@));
        }
        full
    }

    /// The frame that opens LCP. The next request has the next identifier.
    pub fn lcp_open(&mut self) -> (r: Vec<u8>)
        ensures
            r@ == lcp_opened(*old(self)).1,
            *final(self) == lcp_opened(*old(self)).0,
    {
        let request = self.build_lcp_configure_request();
        let frame = ppp_proto::build_hdlc_frame(proto::LCP, request.as_slice());
        let out = ppp_proto::encode_tunnel_frame(frame.as_slice());
        self.lcp_identifier = self.lcp_identifier.wrapping_add(1);
        out
    }

    /// LCP receives a frame: it acknowledges a Configure-Request that is
    /// there in full, notes an acknowledgement and passes over anything else.
    pub fn lcp_receive(&mut self, n: &mut LcpNegotiation, frame: &[u8]) -> (r: Option<Vec<u8>>)
        requires
            reply_fits(frame@, proto::LCP, proto::LCP_CONF_REQ),
        ensures
            match r {
                Some(f) => lcp_answered(*old(self), frame@).1 == Some(f@),
                None => lcp_answered(*old(self), frame@).1 is None,
            },
            *final(self) == lcp_answered(*old(self), frame@).0,
            *final(n) == lcp_received(*old(n), frame@),
    {
        let (protocol, packet) = match ppp_proto::parse_hdlc_frame(frame) {
            Some(x) => x,
            None => {
                return None;
            },
        };
        if protocol != proto::LCP || packet.len() < 4 {
            return None;
        }
        if packet[0] == proto::LCP_CONF_REQ {
            let total_len: usize = ppp_proto::read_be16(packet[2], packet[3]) as usize;
            if total_len < 4 || packet.len() < total_len {
                return None;
            }
            let peer = slice_subrange(packet, 0, total_len);
            proof {
                assert(peer@ =~= packet@.take(total_len as int));
                assert(peer@.subrange(4, total_len as int) =~= peer@.skip(4));
            }
            self.remote_magic = extract_magic_number(slice_subrange(peer, 4, total_len));
            let ack = match lcp_configure_ack_from_peer(peer) {
                Some(a) => a,
                None => {
                    return None;
                },
            };
            let reply = ppp_proto::build_hdlc_frame(proto::LCP, ack.as_slice());
            n.acked_peer = true;
            return Some(ppp_proto::encode_tunnel_frame(reply.as_slice()));
        }
        if packet[0] == proto::LCP_CONF_ACK {
            n.peer_acked = true;
        }
        None
    }

    /// IPCP, waiting for a packet, receives a frame: it acknowledges a whole
    /// Configure-Request and turns to its own, answers a Configure-Nak with a
    /// request for the proposed address, ends on a Configure-Ack and passes
    /// over anything else.
    pub fn ipcp_receive(&mut self, n: &mut IpcpNegotiation, frame: &[u8]) -> (r: Option<Vec<u8>>)
        requires
            reply_fits(frame@, proto::IPCP, proto::IPCP_CONF_REQ),
            old(n).state == PppState::WaitRequest,
        ensures
            *final(self) == ipcp_received(*old(self), old(n)@, frame@).0,
            final(n)@ == ipcp_received(*old(self), old(n)@, frame@).1,
            match r {
                Some(f) => ipcp_received(*old(self), old(n)@, frame@).2 == Some(f@),
                None => ipcp_received(*old(self), old(n)@, frame@).2 is None,
            },
    {
        let (protocol, packet) = match ppp_proto::parse_hdlc_frame(frame) {
            Some(x) => x,
            None => {
                return None;
            },
        };
        if protocol != proto::IPCP || packet.len() < 4 {
            return None;
        }
        let total_len: usize = ppp_proto::read_be16(packet[2], packet[3]) as usize;
        if packet[0] == proto::IPCP_CONF_REQ {
            if total_len < 4 || packet.len() < total_len {
                return None;
            }
            let peer = slice_subrange(packet, 0, total_len);
            proof {
                assert(peer@ =~= packet@.take(total_len as int));
            }
            let ack = match ipcp_configure_ack_from_peer(peer) {
                Some(a) => a,
                None => {
                    return None;
                },
            };
            let reply = ppp_proto::build_hdlc_frame(proto::IPCP, ack.as_slice());
            n.state = PppState::SendRequest;
            return Some(ppp_proto::encode_tunnel_frame(reply.as_slice()));
        }
        if packet[0] == proto::IPCP_CONF_NAK {
            let tail_end: usize = if total_len < packet.len() {
                total_len
            } else {
                packet.len()
            };
            let start: usize = if tail_end < 4 {
                tail_end
            } else {
                4
            };
            let opts = slice_subrange(packet, start, tail_end);
            proof {
                assert(opts@ =~= nak_options(packet@));
            }
            if let Some(ip) = extract_ipcp_ip(opts) {
                n.confirmed_ip = ip;
            }
            let ip_use = n.address();
            let out = self.ipcp_request_frame(ip_use.as_str());
            self.ipcp_identifier = self.ipcp_identifier.wrapping_add(1);
            return Some(out);
        }
        if packet[0] == proto::IPCP_CONF_ACK {
            n.state = PppState::Done;
        }
        None
    }

    /// The tunnel frame with our IPCP Configure-Request.
    fn ipcp_request_frame(&self, ip: &str) -> (r: Vec<u8>)
        ensures
            r@ == control_frame(proto::IPCP, ipcp_request_packet(*self, ip@)),
    {
        let request = self.build_ipcp_configure_request(ip);
        let frame = ppp_proto::build_hdlc_frame(proto::IPCP, request.as_slice());
        ppp_proto::encode_tunnel_frame(frame.as_slice())
    }

    /// IPCP sends its request, then waits for the answer. The next request
    /// has the next identifier.
    pub fn ipcp_send_request(&mut self, n: &mut IpcpNegotiation) -> (r: Vec<u8>)
        ensures
            r@ == ipcp_asked(*old(self), old(n)@).2,
            *final(self) == ipcp_asked(*old(self), old(n)@).0,
            final(n)@ == ipcp_asked(*old(self), old(n)@).1,
    {
        let ip = n.address();
        let out = self.ipcp_request_frame(ip.as_str());
        self.ipcp_identifier = self.ipcp_identifier.wrapping_add(1);
        n.state = PppState::WaitRequest;
        out
    }
}

/// The bytes and the result after a read during the negotiation.
pub open spec fn read_accepted(pending: Seq<u8>, outcome: ReadView) -> (
    Seq<u8>,
    Result<(), Seq<char>>,
) {
    match outcome {
        ReadView::TimedOut => (
            pending,
            Err("PPP: nessun frame dal gateway entro 30 s (LCP/IPCP)"@),
        ),
        ReadView::Failed(e) => (pending, Err("PPP stream read error: "@ + e)),
        ReadView::Data(b) => (
            pending + b,
            if b.len() == 0 {
                Err("PPP: connessione chiusa"@)
            } else if pending.len() + b.len() > BUFFER_LIMIT {
                Err("PPP: buffer di lettura eccessivo"@)
            } else {
                Ok(())
            },
        ),
    }
}

/// Takes in what a read during the negotiation gave. Fails when nothing came
/// in time, when the read failed, at the end of the stream, or when the
/// buffer grows beyond its limit.
pub fn accept_read(pending: &mut Vec<u8>, outcome: ReadOutcome) -> (r: Result<(), String>)
    ensures
        final(pending)@ == read_accepted(old(pending)@, outcome@).0,
        match r {
            Ok(_) => read_accepted(old(pending)@, outcome@).1 is Ok,
            Err(m) => read_accepted(old(pending)@, outcome@).1 == Err::<(), Seq<char>>(m@),
        },
        match outcome {
            ReadOutcome::TimedOut => final(pending)@ == old(pending)@ && (r matches Err(m) && m@
                == "PPP: nessun frame dal gateway entro 30 s (LCP/IPCP)"@),
            ReadOutcome::Failed(e) => final(pending)@ == old(pending)@ && (r matches Err(m) && m@
                == "PPP stream read error: "@ + e@),
            ReadOutcome::Data(b) => final(pending)@ == old(pending)@ + b@ && if b@.len() == 0 {
                r matches Err(m) && m@ == "PPP: connessione chiusa"@
            } else if old(pending)@.len() + b@.len() > BUFFER_LIMIT {
                r matches Err(m) && m@ == "PPP: buffer di lettura eccessivo"@
            } else {
                r is Ok
            },
        },
{
    match outcome {
        ReadOutcome::TimedOut => Err(
            "PPP: nessun frame dal gateway entro 30 s (LCP/IPCP)".to_string(),
        ),
        ReadOutcome::Failed(words) => {
            let mut m: String = "PPP stream read error: ".to_string();
            m.append(words.as_str());
            Err(m)
        },
        ReadOutcome::Data(bytes) => {
            append_bytes(pending, bytes.as_slice());
            if bytes.len() == 0 {
                Err("PPP: connessione chiusa".to_string())
            } else if pending.len() > BUFFER_LIMIT {
                Err("PPP: buffer di lettura eccessivo".to_string())
            } else {
                Ok(())
            }
        },
    }
}

// ---------------------------------------------------------------------------
// Laws
// ---------------------------------------------------------------------------

/// The acknowledgement of a request differs from it in the code alone: it
/// has the same identifier, the same length field and the same options.
pub proof fn law_ack_repeats_request(code: u8, request: Seq<u8>)
    requires
        is_whole(request),
        stated_length(request) == request.len(),
    ensures
        configure_ack(code, request) == request.update(0, code),
        is_whole(configure_ack(code, request)),
        stated_length(configure_ack(code, request)) == stated_length(request),
{
    assert(configure_ack(code, request) =~= request.update(0, code));
}

/// A control packet in its tunnel frame arrives as it was sent.
pub proof fn law_control_frame_arrives(protocol: u16, packet: Seq<u8>, rest: Seq<u8>)
    requires
        4 <= packet.len(),
        packet.len() + 4 <= ppp_proto::TUNNEL_PAYLOAD_MAX,
    ensures
        ppp_proto::tunnel_payload(control_frame(protocol, packet) + rest) == Some(
            ppp_proto::hdlc_frame(protocol, packet),
        ),
        ppp_proto::after_frame(control_frame(protocol, packet) + rest) == rest,
        control_packet(ppp_proto::hdlc_frame(protocol, packet), protocol) == Some(packet),
{
    let frame = ppp_proto::hdlc_frame(protocol, packet);
    assert(frame.len() == packet.len() + 4);
    ppp_proto::law_tunnel_frame_reads_back(frame, rest);
    ppp_proto::law_hdlc_frame_reads_back(protocol, packet);
}

/// The PPP frame carries the packet under the protocol number, which stands
/// in the two bytes in front of the packet, with or without FF 03 before it.
pub open spec fn carries(frame: Seq<u8>, protocol: int, packet: Seq<u8>) -> bool {
    let at = frame.len() - packet.len();
    &&& at == 2 && !(frame[0] == 0xFF && frame[1] == 0x03) || at == 4 && frame[0] == 0xFF
        && frame[1] == 0x03
    &&& frame[at - 2] * 256 + frame[at - 1] == protocol
    &&& frame.skip(at) == packet
}

/// The tunnel frame brings the packet to the peer under the protocol number:
/// its size, `PP`, the size of the PPP frame, FF 03, the protocol number and
/// the packet.
pub open spec fn brings(frame: Seq<u8>, protocol: int, packet: Seq<u8>) -> bool {
    &&& frame.len() == packet.len() + 10
    &&& frame[0] * 256 + frame[1] == packet.len() + 10
    &&& frame[2] == 0x50 && frame[3] == 0x50
    &&& frame[4] * 256 + frame[5] == packet.len() + 4
    &&& frame[6] == 0xFF && frame[7] == 0x03
    &&& frame[8] * 256 + frame[9] == protocol
    &&& frame.skip(10) == packet
}

/// A control packet is sent in a tunnel frame that states its sizes.
pub proof fn law_control_frame_is_laid_out(protocol: u16, packet: Seq<u8>)
    requires
        packet.len() + 4 <= 65529,
    ensures
        brings(control_frame(protocol, packet), protocol as int, packet),
{
    let inner = ppp_proto::hdlc_frame(protocol, packet);
    let f = control_frame(protocol, packet);
    ppp_proto::law_hdlc_frame_is_laid_out(protocol, packet);
    ppp_proto::law_tunnel_frame_states_its_size(inner);
    assert(f[6] == inner[0] && f[7] == inner[1] && f[8] == inner[2] && f[9] == inner[3]);
    assert(f.skip(10) =~= packet) by {
        assert forall|i: int| 0 <= i < packet.len() implies f.skip(10)[i] == packet[i] by {
            assert(inner.skip(4)[i] == inner[4 + i]);
            assert(f[6 + (4 + i)] == inner[4 + i]);
        }
    }
}

/// A packet is told by its protocol and its code.
proof fn lemma_carried(frame: Seq<u8>, protocol: u16, packet: Seq<u8>, wanted: u16)
    requires
        carries(frame, protocol as int, packet),
    ensures
        control_packet(frame, wanted) == if protocol == wanted && packet.len() >= 4 {
            Some(packet)
        } else {
            None
        },
{
    ppp_proto::law_ppp_frame_is_read(frame);
    let at = frame.len() - packet.len();
    if at == 2 {
        assert(frame.len() < 4 || frame[0] != 0xFF || frame[1] != 0x03);
    }
}

/// The packet is a Configure-Request whose stated length is covered.
pub open spec fn asks(packet: Seq<u8>) -> bool {
    packet.len() >= 4 && packet[0] == 1 && 4 <= packet[2] * 256 + packet[3] <= packet.len()
}

/// The packet that acknowledges a request: the request up to the length that
/// it states, every byte as it was but the first, which is 2.
pub open spec fn acknowledges(reply: Seq<u8>, request: Seq<u8>) -> bool {
    &&& reply.len() == request[2] * 256 + request[3]
    &&& reply[0] == 2
    &&& forall|i: int| 1 <= i < reply.len() ==> reply[i] == #[trigger] request[i]
}

/// The acknowledgement that is built answers the request.
proof fn lemma_acknowledges(code: u8, packet: Seq<u8>)
    requires
        asks(packet),
        code == 2,
    ensures
        acknowledges(
            configure_ack(code, packet.take(packet[2] * 256 + packet[3])),
            packet,
        ),
{
    let request = packet.take(packet[2] * 256 + packet[3]);
    let ack = configure_ack(code, request);
    assert(request[2] == packet[2] && request[3] == packet[3]);
    assert forall|i: int| 1 <= i < ack.len() implies ack[i] == #[trigger] packet[i] by {
        if i > 1 {
            assert(ack[i] == request.subrange(2, request.len() as int)[i - 2]);
        }
    }
}

/// What LCP makes of a packet. A request that is there in full is sent back as
/// it came with the code of an acknowledgement; an acknowledgement is noted;
/// anything else, and any other protocol, changes nothing.
pub proof fn law_lcp_answers(
    s: PppSession,
    n: LcpNegotiation,
    frame: Seq<u8>,
    protocol: u16,
    packet: Seq<u8>,
)
    requires
        carries(frame, protocol as int, packet),
    ensures
        protocol == 0xC021 && asks(packet) && packet[2] * 256 + packet[3] <= 65525 ==> (
        lcp_answered(s, frame).1 matches Some(f) && f.len() >= 10 && acknowledges(
            f.skip(10),
            packet,
        ) && brings(f, 0xC021, f.skip(10))),
        protocol == 0xC021 && asks(packet) ==> lcp_received(n, frame) == (LcpNegotiation {
            acked_peer: true,
            peer_acked: n.peer_acked,
        }),
        !(protocol == 0xC021 && asks(packet)) ==> lcp_answered(s, frame) == (
            s,
            None::<Seq<u8>>,
        ) && lcp_received(n, frame) == (LcpNegotiation {
            acked_peer: n.acked_peer,
            peer_acked: n.peer_acked || protocol == 0xC021 && packet.len() >= 4 && packet[0] == 2,
        }),
        lcp_answered(s, frame).0 == (PppSession {
            remote_magic: lcp_answered(s, frame).0.remote_magic,
            ..s
        }),
{
    lemma_carried(frame, protocol, packet, proto::LCP);
    if protocol == 0xC021 && asks(packet) {
        let request = packet.take(packet[2] * 256 + packet[3]);
        assert(peer_request(frame, proto::LCP, proto::LCP_CONF_REQ) == Some(request));
        lemma_acknowledges(proto::LCP_CONF_ACK, packet);
        if request.len() <= 65525 {
            let ack = configure_ack(proto::LCP_CONF_ACK, request);
            law_control_frame_is_laid_out(proto::LCP, ack);
        }
    }
}

/// What IPCP makes of a packet. A request that is there in full is sent back
/// as it came with the code of an acknowledgement, and our own request is
/// due; a Configure-Nak is answered with a request; an acknowledgement ends
/// IPCP; anything else, and any other protocol, changes nothing.
pub proof fn law_ipcp_answers(
    s: PppSession,
    n: IpcpView,
    frame: Seq<u8>,
    protocol: u16,
    packet: Seq<u8>,
)
    requires
        carries(frame, protocol as int, packet),
    ensures
        protocol == 0x8021 && asks(packet) ==> ipcp_received(s, n, frame).0 == s && ipcp_received(
            s,
            n,
            frame,
        ).1 == (IpcpView { state: PppState::SendRequest, ..n }),
        protocol == 0x8021 && asks(packet) && packet[2] * 256 + packet[3] <= 65525 ==> (
        ipcp_received(s, n, frame).2 matches Some(f) && f.len() >= 10 && acknowledges(
            f.skip(10),
            packet,
        ) && brings(f, 0x8021, f.skip(10))),
        protocol == 0x8021 && packet.len() >= 4 && packet[0] == 3 ==> (ipcp_received(
            s,
            n,
            frame,
        ).2 matches Some(f) && asks_for_address(
            f,
            s.ipcp_identifier,
            address_bytes(ipcp_received(s, n, frame).1.wanted()),
        )) && ipcp_received(s, n, frame).1.state == n.state && ipcp_received(
            s,
            n,
            frame,
        ).1.assigned_ip == n.assigned_ip && ipcp_received(s, n, frame).0 == (PppSession {
            ipcp_identifier: ((s.ipcp_identifier + 1) % 256) as u8,
            ..s
        }),
        protocol == 0x8021 && packet.len() >= 4 && packet[0] == 2 ==> ipcp_received(s, n, frame)
            == (s, IpcpView { state: PppState::Done, ..n }, None::<Seq<u8>>),
        protocol != 0x8021 || packet.len() < 4 || !asks(packet) && packet[0] != 2 && packet[0]
            != 3 ==> ipcp_received(s, n, frame) == (s, n, None::<Seq<u8>>),
{
    lemma_carried(frame, protocol, packet, proto::IPCP);
    if protocol == 0x8021 && asks(packet) {
        let request = packet.take(packet[2] * 256 + packet[3]);
        assert(peer_request(frame, proto::IPCP, proto::IPCP_CONF_REQ) == Some(request));
        lemma_acknowledges(proto::IPCP_CONF_ACK, packet);
        if request.len() <= 65525 {
            let ack = configure_ack(proto::IPCP_CONF_ACK, request);
            law_control_frame_is_laid_out(proto::IPCP, ack);
        }
    }
    if protocol == 0x8021 && packet.len() >= 4 && packet[0] == 3 {
        lemma_asks_for_address(s, ipcp_received(s, n, frame).1.wanted());
    }
}

/// The tunnel frame is an IPCP Configure-Request with the identifier whose one
/// option is the address.
pub open spec fn asks_for_address(frame: Seq<u8>, identifier: u8, address: Seq<u8>) -> bool {
    &&& address.len() == 4
    &&& brings(
        frame,
        0x8021,
        seq![1u8, identifier, 0u8, 10u8, 3u8, 6u8, address[0], address[1], address[2], address[3]],
    )
}

/// The request that is built asks for the address.
proof fn lemma_asks_for_address(s: PppSession, ip: Seq<char>)
    ensures
        asks_for_address(
            control_frame(proto::IPCP, ipcp_request_packet(s, ip)),
            s.ipcp_identifier,
            address_bytes(ip),
        ),
{
    let a = address_bytes(ip);
    let p = ipcp_request_packet(s, ip);
    assert(p =~= seq![1u8, s.ipcp_identifier, 0u8, 10u8, 3u8, 6u8, a[0], a[1], a[2], a[3]]);
    law_control_frame_is_laid_out(proto::IPCP, p);
}

/// IPCP asks for the address that it has come to so far, and the next request
/// has the next identifier; 255 is followed by 0.
pub proof fn law_ipcp_asks(s: PppSession, n: IpcpView)
    ensures
        asks_for_address(
            ipcp_asked(s, n).2,
            s.ipcp_identifier,
            address_bytes(
                if n.confirmed_ip.len() > 0 {
                    n.confirmed_ip
                } else {
                    n.assigned_ip
                },
            ),
        ),
        ipcp_asked(s, n).0 == (PppSession {
            ipcp_identifier: ((s.ipcp_identifier + 1) % 256) as u8,
            ..s
        }),
        ipcp_asked(s, n).1 == (IpcpView { state: PppState::WaitRequest, ..n }),
{
    lemma_asks_for_address(s, n.wanted());
}

/// LCP is opened with a Configure-Request of two options, our receive unit and
/// our magic number, and the next request has the next identifier; 255 is
/// followed by 0.
pub proof fn law_lcp_opens(s: PppSession)
    ensures
        lcp_opened(s).1.len() == 24,
        brings(lcp_opened(s).1, 0xC021, lcp_opened(s).1.skip(10)),
        lcp_opened(s).1.subrange(10, 16) == seq![1u8, s.lcp_identifier, 0u8, 14u8, 1u8, 4u8],
        lcp_opened(s).1[16] * 256 + lcp_opened(s).1[17] == s.mru,
        lcp_opened(s).1[18] == 5 && lcp_opened(s).1[19] == 6,
        lcp_opened(s).1[20] * 16777216 + lcp_opened(s).1[21] * 65536 + lcp_opened(s).1[22] * 256
            + lcp_opened(s).1[23] == s.local_magic,
        lcp_opened(s).0 == (PppSession {
            lcp_identifier: ((s.lcp_identifier + 1) % 256) as u8,
            ..s
        }),
{
    let p = lcp_request_packet(s);
    let f = lcp_opened(s).1;
    law_control_frame_is_laid_out(proto::LCP, p);
    assert(f.skip(10) == p);
    assert forall|i: int| 0 <= i < 14 implies f[10 + i] == #[trigger] p[i] by {
        assert(f.skip(10)[i] == f[10 + i]);
    }
    assert(p[2] == 0 && p[3] == 14);
    assert(p.take(6) =~= seq![1u8, s.lcp_identifier, 0u8, 14u8, 1u8, 4u8]);
    assert(f.subrange(10, 16) =~= p.take(6)) by {
        assert forall|i: int| 0 <= i < 6 implies f.subrange(10, 16)[i] == p[i] by {}
    }
    assert(f[16] == p[6] && f[17] == p[7]);
    assert(p[6] == ppp_proto::be16(s.mru as nat)[0] && p[7] == ppp_proto::be16(s.mru as nat)[1]);
    assert(f[18] == p[8] && f[19] == p[9]);
    let m = be32(s.local_magic as nat);
    assert(p[10] == m[0] && p[11] == m[1] && p[12] == m[2] && p[13] == m[3]);
    assert(f[20] == p[10] && f[21] == p[11] && f[22] == p[12] && f[23] == p[13]);
}

/// Options one after the other.
pub open spec fn strung(options: Seq<Seq<u8>>) -> Seq<u8>
    decreases options.len(),
{
    if options.len() == 0 {
        Seq::empty()
    } else {
        options[0] + strung(options.skip(1))
    }
}

/// The option states its own length, and is of another kind or has no room
/// for four bytes.
pub open spec fn passed_over(option: Seq<u8>, kind: u8) -> bool {
    option.len() >= 2 && option[1] == option.len() && (option[0] != kind || option.len() < 6)
}

/// Among options the first of a kind with room for four bytes gives its value,
/// whatever comes before and after it; if there is none, there is no value.
pub proof fn law_option_is_found(
    before: Seq<Seq<u8>>,
    option: Seq<u8>,
    rest: Seq<u8>,
    kind: u8,
)
    requires
        forall|i: int| 0 <= i < before.len() ==> passed_over(#[trigger] before[i], kind),
        option.len() >= 6,
        option[0] == kind,
        option[1] == option.len(),
    ensures
        option_value(strung(before) + option + rest, kind) == Some(
            seq![option[2], option[3], option[4], option[5]],
        ),
        option_value(strung(before), kind) is None,
    decreases before.len(),
{
    let all = strung(before) + option + rest;
    if before.len() == 0 {
        assert(all =~= option + rest);
        assert(all.subrange(2, 6) =~= seq![option[2], option[3], option[4], option[5]]);
    } else {
        let first = before[0];
        law_option_is_found(before.skip(1), option, rest, kind);
        assert(passed_over(first, kind));
        assert(all[0] == first[0] && all[1] == first[1]);
        assert(all.skip(first.len() as int) =~= strung(before.skip(1)) + option + rest);
        let short = strung(before);
        assert(short[0] == first[0] && short[1] == first[1]);
        assert(short.skip(first.len() as int) =~= strung(before.skip(1)));
    }
}

/// The magic number of the peer is the one that its request states in option
/// 5, most significant byte first, and zero if it states none.
pub proof fn law_peer_magic_is_kept(
    s: PppSession,
    frame: Seq<u8>,
    packet: Seq<u8>,
    before: Seq<Seq<u8>>,
    option: Seq<u8>,
    rest: Seq<u8>,
)
    requires
        carries(frame, 0xC021, packet),
        asks(packet),
        forall|i: int| 0 <= i < before.len() ==> passed_over(#[trigger] before[i], 5),
        option.len() >= 6,
        option[0] == 5,
        option[1] == option.len(),
    ensures
        packet.subrange(4, packet[2] * 256 + packet[3]) == strung(before) + option + rest
            ==> lcp_answered(s, frame).0.remote_magic == option[2] * 16777216 + option[3] * 65536
            + option[4] * 256 + option[5],
        packet.subrange(4, packet[2] * 256 + packet[3]) == strung(before) ==> lcp_answered(
            s,
            frame,
        ).0.remote_magic == 0,
{
    let total = packet[2] * 256 + packet[3];
    lemma_carried(frame, 0xC021, packet, proto::LCP);
    let request = packet.take(total);
    assert(peer_request(frame, proto::LCP, proto::LCP_CONF_REQ) == Some(request));
    assert(request.skip(4) =~= packet.subrange(4, total));
    law_option_is_found(before, option, rest, 5);
}

/// A Configure-Nak whose options name an address, in option 3, makes it the
/// address to ask for; one that names none changes nothing. Options count up
/// to the length that the packet states.
pub proof fn law_nak_names_the_address(
    s: PppSession,
    n: IpcpView,
    frame: Seq<u8>,
    packet: Seq<u8>,
    before: Seq<Seq<u8>>,
    option: Seq<u8>,
    rest: Seq<u8>,
)
    requires
        carries(frame, 0x8021, packet),
        packet.len() >= 4,
        packet[0] == 3,
        4 <= packet[2] * 256 + packet[3] <= packet.len(),
        forall|i: int| 0 <= i < before.len() ==> passed_over(#[trigger] before[i], 3),
        option.len() >= 6,
        option[0] == 3,
        option[1] == option.len(),
    ensures
        packet.subrange(4, packet[2] * 256 + packet[3]) == strung(before) + option + rest
            ==> ipcp_received(s, n, frame).1 == (IpcpView {
            confirmed_ip: numbers::dotted(seq![option[2], option[3], option[4], option[5]]),
            ..n
        }) && (ipcp_received(s, n, frame).2 matches Some(f) && asks_for_address(
            f,
            s.ipcp_identifier,
            seq![option[2], option[3], option[4], option[5]],
        )),
        packet.subrange(4, packet[2] * 256 + packet[3]) == strung(before) ==> ipcp_received(
            s,
            n,
            frame,
        ).1 == n,
{
    let total = packet[2] * 256 + packet[3];
    let b = seq![option[2], option[3], option[4], option[5]];
    lemma_carried(frame, 0x8021, packet, proto::IPCP);
    law_option_is_found(before, option, rest, 3);
    assert(nak_options(packet) == packet.subrange(4, total));
    law_address_reads_back(b);
    assert(numbers::dotted(b).len() > 0) by {
        numbers::lemma_decimal_reads_back(b[0] as nat);
    }
    lemma_asks_for_address(s, numbers::dotted(b));
}

/// Our LCP request is a whole Configure-Request that carries our magic
/// number.
pub proof fn law_lcp_request_carries_magic(s: PppSession)
    ensures
        lcp_request_packet(s)[0] == proto::LCP_CONF_REQ,
        lcp_request_packet(s)[1] == s.lcp_identifier,
        is_whole(lcp_request_packet(s)),
        stated_length(lcp_request_packet(s)) == lcp_request_packet(s).len(),
        magic_number(lcp_request_packet(s).skip(4)) == s.local_magic,
{
    let p = lcp_request_packet(s);
    let options = p.skip(4);
    ppp_proto::lemma_be16(14);
    assert(p[2] == ppp_proto::be16(14)[0] && p[3] == ppp_proto::be16(14)[1]);
    assert(options[0] == proto::LCP_OPT_MRU && options[1] == 4);
    let second = options.skip(4);
    assert(second[0] == proto::LCP_OPT_MAGIC_NUMBER && second[1] == 6);
    assert(second.subrange(2, 6) =~= be32(s.local_magic as nat));
    reveal_with_fuel(option_value, 3);
    assert(option_value(options, proto::LCP_OPT_MAGIC_NUMBER) == option_value(
        second,
        proto::LCP_OPT_MAGIC_NUMBER,
    ));
}

/// Our IPCP request is a whole Configure-Request that carries the bytes of
/// the address.
pub proof fn law_ipcp_request_carries_address(s: PppSession, ip: Seq<char>)
    ensures
        ipcp_request_packet(s, ip)[0] == proto::IPCP_CONF_REQ,
        ipcp_request_packet(s, ip)[1] == s.ipcp_identifier,
        is_whole(ipcp_request_packet(s, ip)),
        stated_length(ipcp_request_packet(s, ip)) == ipcp_request_packet(s, ip).len(),
        option_value(ipcp_request_packet(s, ip).skip(4), proto::IPCP_OPT_IP_ADDRESS) == Some(
            address_bytes(ip),
        ),
{
    let p = ipcp_request_packet(s, ip);
    let options = p.skip(4);
    ppp_proto::lemma_be16(10);
    assert(p[2] == ppp_proto::be16(10)[0] && p[3] == ppp_proto::be16(10)[1]);
    assert(options[0] == proto::IPCP_OPT_IP_ADDRESS && options[1] == 6);
    assert(options.subrange(2, 6) =~= address_bytes(ip));
}

/// The text of an address gives its four bytes back.
pub proof fn law_address_reads_back(b: Seq<u8>)
    requires
        b.len() == 4,
    ensures
        address_bytes(numbers::dotted(b)) == b,
{
    numbers::lemma_dotted_pieces(b);
    let parts = text::pieces(numbers::dotted(b), '.');
    assert forall|i: int| 0 <= i < 4 implies numbers::bounded_value(#[trigger] parts[i], 10, 255)
        == Some(b[i] as nat) by {
        numbers::lemma_decimal_reads_back(b[i] as nat);
    }
    assert(small_numbers(parts.take(0)) =~= b.take(0));
    lemma_numbers_step(parts, b, 0);
    lemma_numbers_step(parts, b, 1);
    lemma_numbers_step(parts, b, 2);
    lemma_numbers_step(parts, b, 3);
    assert(parts.take(4) =~= parts);
    assert(b.take(4) =~= b);
    assert(address_bytes(numbers::dotted(b)) =~= b);
}

/// One more part that spells a small number adds that number.
proof fn lemma_numbers_step(parts: Seq<Seq<char>>, b: Seq<u8>, i: int)
    requires
        0 <= i < parts.len(),
        i < b.len(),
        small_numbers(parts.take(i)) == b.take(i),
        numbers::bounded_value(parts[i], 10, 255) == Some(b[i] as nat),
    ensures
        small_numbers(parts.take(i + 1)) == b.take(i + 1),
{
    assert(parts.take(i + 1).drop_last() =~= parts.take(i));
    assert(parts.take(i + 1).last() == parts[i]);
    assert(b.take(i).push(b[i]) =~= b.take(i + 1));
}

/// LCP after the frames, one after the other.
pub open spec fn lcp_after(n: LcpNegotiation, frames: Seq<Seq<u8>>) -> LcpNegotiation
    decreases frames.len(),
{
    if frames.len() == 0 {
        n
    } else {
        lcp_received(lcp_after(n, frames.drop_last()), frames.last())
    }
}

/// LCP is complete as soon as a whole request of the peer and an
/// acknowledgement have arrived, in whatever order and whatever else came.
pub proof fn law_lcp_completes(n: LcpNegotiation, frames: Seq<Seq<u8>>)
    requires
        !n.acked_peer,
        !n.peer_acked,
    ensures
        lcp_after(n, frames).complete() <==> (exists|i: int|
            0 <= i < frames.len() && peer_request(
                #[trigger] frames[i],
                proto::LCP,
                proto::LCP_CONF_REQ,
            ) is Some) && (exists|j: int|
            0 <= j < frames.len() && has_code(
                #[trigger] frames[j],
                proto::LCP,
                proto::LCP_CONF_ACK,
            )),
{
    lemma_lcp_after(n, frames);
}

/// What LCP has seen of the frames.
proof fn lemma_lcp_after(n: LcpNegotiation, frames: Seq<Seq<u8>>)
    requires
        !n.acked_peer,
        !n.peer_acked,
    ensures
        lcp_after(n, frames).acked_peer <==> exists|i: int|
            0 <= i < frames.len() && peer_request(
                #[trigger] frames[i],
                proto::LCP,
                proto::LCP_CONF_REQ,
            ) is Some,
        lcp_after(n, frames).peer_acked <==> exists|j: int|
            0 <= j < frames.len() && has_code(
                #[trigger] frames[j],
                proto::LCP,
                proto::LCP_CONF_ACK,
            ),
    decreases frames.len(),
{
    if frames.len() > 0 {
        let shorter = frames.drop_last();
        lemma_lcp_after(n, shorter);
        assert(forall|i: int| 0 <= i < shorter.len() ==> frames[i] == #[trigger] shorter[i]);
        assert(frames[frames.len() - 1] == frames.last());
        if lcp_after(n, shorter).acked_peer {
            let i = choose|i: int|
                0 <= i < shorter.len() && peer_request(
                    #[trigger] shorter[i],
                    proto::LCP,
                    proto::LCP_CONF_REQ,
                ) is Some;
            assert(frames[i] == shorter[i]);
        }
        if lcp_after(n, shorter).peer_acked {
            let j = choose|j: int|
                0 <= j < shorter.len() && has_code(
                    #[trigger] shorter[j],
                    proto::LCP,
                    proto::LCP_CONF_ACK,
                );
            assert(frames[j] == shorter[j]);
        }
        assert forall|i: int|
            0 <= i < frames.len() && peer_request(
                #[trigger] frames[i],
                proto::LCP,
                proto::LCP_CONF_REQ,
            ) is Some implies lcp_after(n, frames).acked_peer by {
            if i < shorter.len() {
                assert(shorter[i] == frames[i]);
            }
        }
        assert forall|j: int|
            0 <= j < frames.len() && has_code(
                #[trigger] frames[j],
                proto::LCP,
                proto::LCP_CONF_ACK,
            ) implies lcp_after(n, frames).peer_acked by {
            if j < shorter.len() {
                assert(shorter[j] == frames[j]);
            }
        }
    }
}

/// A Configure-Nak that proposes an address is answered with a request for
/// that very address, and that address is the result if nothing else is
/// proposed.
pub proof fn law_nak_is_obeyed(s: PppSession, n: IpcpView, frame: Seq<u8>, b: Seq<u8>)
    requires
        has_code(frame, proto::IPCP, proto::IPCP_CONF_NAK),
        option_value(
            nak_options(control_packet(frame, proto::IPCP)->0),
            proto::IPCP_OPT_IP_ADDRESS,
        ) == Some(b),
    ensures
        ipcp_received(s, n, frame).1.wanted() == numbers::dotted(b),
        ipcp_received(s, n, frame).2 == Some(
            control_frame(proto::IPCP, ipcp_request_packet(s, numbers::dotted(b))),
        ),
        option_value(ipcp_request_packet(s, numbers::dotted(b)).skip(4), proto::IPCP_OPT_IP_ADDRESS) == Some(
            b,
        ),
{
    lemma_option_size(
        nak_options(control_packet(frame, proto::IPCP)->0),
        proto::IPCP_OPT_IP_ADDRESS,
    );
    law_address_reads_back(b);
    law_ipcp_request_carries_address(s, numbers::dotted(b));
    assert(numbers::dotted(b).len() > 0) by {
        numbers::lemma_decimal_reads_back(b[0] as nat);
    }
}

/// The session and the negotiation after a turn of IPCP: a frame is taken in,
/// and a request that is due behind it is sent. IPCP that is done takes in
/// nothing more.
pub open spec fn ipcp_turn(s: PppSession, n: IpcpView, frame: Seq<u8>) -> (PppSession, IpcpView) {
    if n.state == PppState::Done {
        (s, n)
    } else {
        let (s1, n1, _) = ipcp_received(s, n, frame);
        if n1.state == PppState::SendRequest {
            (ipcp_asked(s1, n1).0, ipcp_asked(s1, n1).1)
        } else {
            (s1, n1)
        }
    }
}

/// The session and the negotiation after the frames, one after the other.
pub open spec fn ipcp_after(s: PppSession, n: IpcpView, frames: Seq<Seq<u8>>) -> (
    PppSession,
    IpcpView,
)
    decreases frames.len(),
{
    if frames.len() == 0 {
        (s, n)
    } else {
        let (s1, n1) = ipcp_after(s, n, frames.drop_last());
        ipcp_turn(s1, n1, frames.last())
    }
}

/// The address that a frame proposes; `None` if it is no Configure-Nak or
/// names none.
pub open spec fn proposal(frame: Seq<u8>) -> Option<Seq<char>> {
    if has_code(frame, proto::IPCP, proto::IPCP_CONF_NAK) {
        proposed_address(nak_options(control_packet(frame, proto::IPCP)->0))
    } else {
        None
    }
}

/// The address that is proposed last.
pub open spec fn last_proposal(frames: Seq<Seq<u8>>) -> Option<Seq<char>>
    decreases frames.len(),
{
    if frames.len() == 0 {
        None
    } else {
        match proposal(frames.last()) {
            Some(ip) => Some(ip),
            None => last_proposal(frames.drop_last()),
        }
    }
}

/// IPCP ends with the first Configure-Ack. The address that it comes to is
/// the one that the peer proposed last before that, or the one from the
/// configuration if it proposed none.
pub proof fn law_last_proposal_is_used(s: PppSession, n: IpcpView, frames: Seq<Seq<u8>>)
    requires
        n.state == PppState::WaitRequest,
        n.confirmed_ip.len() == 0,
        forall|i: int|
            0 <= i < frames.len() - 1 ==> !has_code(
                #[trigger] frames[i],
                proto::IPCP,
                proto::IPCP_CONF_ACK,
            ),
    ensures
        ipcp_after(s, n, frames).1.wanted() == match last_proposal(frames) {
            Some(ip) => ip,
            None => n.assigned_ip,
        },
        ipcp_after(s, n, frames).1.state == PppState::Done <==> frames.len() > 0 && has_code(
            frames.last(),
            proto::IPCP,
            proto::IPCP_CONF_ACK,
        ),
{
    lemma_ipcp_after(s, n, frames);
}

/// What IPCP holds after frames with at most one Configure-Ack, at the end.
proof fn lemma_ipcp_after(s: PppSession, n: IpcpView, frames: Seq<Seq<u8>>)
    requires
        n.state == PppState::WaitRequest,
        n.confirmed_ip.len() == 0,
        forall|i: int|
            0 <= i < frames.len() - 1 ==> !has_code(
                #[trigger] frames[i],
                proto::IPCP,
                proto::IPCP_CONF_ACK,
            ),
    ensures
        ipcp_after(s, n, frames).1.assigned_ip == n.assigned_ip,
        match last_proposal(frames) {
            Some(ip) => ip.len() > 0 && ipcp_after(s, n, frames).1.confirmed_ip == ip,
            None => ipcp_after(s, n, frames).1.confirmed_ip.len() == 0,
        },
        ipcp_after(s, n, frames).1.state == if frames.len() > 0 && has_code(
            frames.last(),
            proto::IPCP,
            proto::IPCP_CONF_ACK,
        ) {
            PppState::Done
        } else {
            PppState::WaitRequest
        },
    decreases frames.len(),
{
    if frames.len() > 0 {
        let shorter = frames.drop_last();
        assert forall|i: int| 0 <= i < shorter.len() implies !has_code(
            #[trigger] shorter[i],
            proto::IPCP,
            proto::IPCP_CONF_ACK,
        ) by {
            assert(shorter[i] == frames[i]);
        }
        if shorter.len() > 0 {
            assert(shorter.last() == shorter[shorter.len() - 1]);
        }
        lemma_ipcp_after(s, n, shorter);
        let frame = frames.last();
        if has_code(frame, proto::IPCP, proto::IPCP_CONF_NAK) {
            let options = nak_options(control_packet(frame, proto::IPCP)->0);
            lemma_option_size(options, proto::IPCP_OPT_IP_ADDRESS);
            if let Some(b) = option_value(options, proto::IPCP_OPT_IP_ADDRESS) {
                assert(numbers::dotted(b).len() > 0) by {
                    numbers::lemma_decimal_reads_back(b[0] as nat);
                }
            }
        }
    }
}

/// The value of an option is four bytes long.
proof fn lemma_option_size(options: Seq<u8>, kind: u8)
    ensures
        option_value(options, kind) matches Some(b) ==> b.len() == 4,
    decreases options.len(),
{
    if !(options.len() < 2 || options[1] == 0 || options[1] > options.len()) {
        if !(options[0] == kind && options[1] >= 6) {
            lemma_option_size(options.skip(options[1] as int), kind);
        }
    }
}

/// During the negotiation the bytes that come are kept behind those that are
/// there, up to 512 KiB; silence, an error and the end of the stream fail it.
pub proof fn law_negotiation_reads_on(pending: Seq<u8>, b: Seq<u8>, e: Seq<char>)
    ensures
        0 < b.len() && pending.len() + b.len() <= 524288 ==> read_accepted(
            pending,
            ReadView::Data(b),
        ) == (pending + b, Ok::<(), Seq<char>>(())),
        pending.len() + b.len() > 524288 ==> read_accepted(pending, ReadView::Data(b)).1 is Err,
        b.len() == 0 ==> read_accepted(pending, ReadView::Data(b)).1 is Err,
        read_accepted(pending, ReadView::TimedOut).1 is Err,
        read_accepted(pending, ReadView::Failed(e)).1 == Err::<(), Seq<char>>(
            "PPP stream read error: "@ + e,
        ),
{
}

/// The acknowledgement of a request that states up to 65525 bytes fits a
/// tunnel frame; a frame without a whole request needs no room.
pub proof fn law_acknowledgement_has_room(frame: Seq<u8>, protocol: u16, packet: Seq<u8>)
    requires
        carries(frame, protocol as int, packet),
    ensures
        asks(packet) ==> (reply_fits(frame, protocol, 1) <==> (packet[2] * 256 + packet[3] + 4)
            % 65536 <= 65529),
        !asks(packet) ==> reply_fits(frame, protocol, 1),
{
    lemma_carried(frame, protocol, packet, protocol);
}

} // verus!
