//! Framing of PPP packets inside the TLS stream.
//!
//! A tunnel frame is `total_size` (two bytes, most significant first, the
//! payload and these six bytes together), the letters `PP`, `ppp_size` (two
//! bytes) and the payload. The payload is a PPP frame, with or without the
//! HDLC address and control bytes.

pub mod proto;

use vstd::prelude::*;
use vstd::slice::slice_subrange;
use vstd::slice::slice_to_vec;

use crate::bytes::append_bytes;

verus! {

/// The number of bytes before the payload of a tunnel frame.
pub const TUNNEL_HEADER_SIZE: usize = 6;

/// The largest payload whose tunnel frame states its own size.
pub const TUNNEL_PAYLOAD_MAX: usize = 65529;

// ---------------------------------------------------------------------------
// What the frames are
// ---------------------------------------------------------------------------

/// The two bytes of a number below 65536, most significant first.
pub open spec fn be16(v: nat) -> Seq<u8> {
    seq![(v / 256) as u8, (v % 256) as u8]
}

/// The number that two bytes spell, most significant first.
pub open spec fn from_be16(hi: u8, lo: u8) -> nat {
    (hi * 256 + lo) as nat
}

/// The payload size that fits the size field: the length modulo 65536.
pub open spec fn stated_size(len: nat) -> nat {
    len % 65536
}

/// The stated size leaves room for the header in the total size.
pub open spec fn frame_fits(len: nat) -> bool {
    stated_size(len) + 6 <= 65535
}

/// The tunnel frame around a payload.
pub open spec fn tunnel_frame(payload: Seq<u8>) -> Seq<u8> {
    be16(stated_size(payload.len()) + 6) + seq![0x50u8, 0x50u8] + be16(stated_size(payload.len()))
        + payload
}

/// The payload of the tunnel frame at the start of the data, if it is there
/// in full.
pub open spec fn tunnel_payload(data: Seq<u8>) -> Option<Seq<u8>> {
    if data.len() < 6 || data[2] != 0x50 || data[3] != 0x50 || data.len() < 6 + from_be16(
        data[4],
        data[5],
    ) {
        None
    } else {
        Some(data.subrange(6, 6 + from_be16(data[4], data[5]) as int))
    }
}

/// The data after the tunnel frame at its start.
pub open spec fn after_frame(data: Seq<u8>) -> Seq<u8> {
    match tunnel_payload(data) {
        Some(p) => data.skip(6 + p.len() as int),
        None => data,
    }
}

/// The PPP frame with HDLC address and control bytes.
pub open spec fn hdlc_frame(protocol: u16, payload: Seq<u8>) -> Seq<u8> {
    seq![proto::HDLC_ADDR, proto::HDLC_CTRL] + be16(protocol as nat) + payload
}

/// Where the protocol number of a PPP frame stands.
pub open spec fn protocol_offset(frame: Seq<u8>) -> int {
    if frame.len() >= 4 && frame[0] == proto::HDLC_ADDR && frame[1] == proto::HDLC_CTRL {
        2
    } else {
        0
    }
}

/// The protocol number and the packet of a PPP frame.
pub open spec fn ppp_packet(frame: Seq<u8>) -> Option<(u16, Seq<u8>)> {
    let at = protocol_offset(frame);
    if frame.len() < at + 2 {
        None
    } else {
        Some((from_be16(frame[at], frame[at + 1]) as u16, frame.skip(at + 2)))
    }
}

/// The header of an LCP or IPCP packet with the given payload length.
pub open spec fn packet_header(code: u8, identifier: u8, payload_len: nat) -> Seq<u8> {
    seq![code, identifier] + be16(payload_len + 4)
}

// ---------------------------------------------------------------------------
// Code
// ---------------------------------------------------------------------------

/// The number that two bytes spell.
pub(crate) fn read_be16(hi: u8, lo: u8) -> (r: u16)
    ensures
        r == from_be16(hi, lo),
{
    (hi as u16) * 256 + lo as u16
}

/// Appends the two bytes of a number.
pub(crate) fn push_be16(out: &mut Vec<u8>, v: u16)
    ensures
        final(out)@ == old(out)@ + be16(v as nat),
{
    let ghost before = out@;
    out.push((v / 256) as u8);
    out.push((v % 256) as u8);
    proof {
        assert(out@ =~= before + be16(v as nat));
    }
}

/// Puts a PPP frame into a tunnel frame. The size fields hold the length of
/// the frame modulo 65536.
pub fn encode_tunnel_frame(ppp_hdlc_frame: &[u8]) -> (r: Vec<u8>)
    requires
        frame_fits(ppp_hdlc_frame@.len()),
    ensures
        r@ == tunnel_frame(ppp_hdlc_frame@),
{
    let ppp_size: u16 = (ppp_hdlc_frame.len() % 65536) as u16;
    let total_size: u16 = ppp_size + 6;
    let mut frame: Vec<u8> = Vec::new();
    push_be16(&mut frame, total_size);
    frame.push(0x50);
    frame.push(0x50);
    push_be16(&mut frame, ppp_size);
    append_bytes(&mut frame, ppp_hdlc_frame);
    proof {
        assert(frame@ =~= tunnel_frame(ppp_hdlc_frame@));
    }
    frame
}

/// The payload of the tunnel frame at the start of the data.
pub fn decode_tunnel_frame(data: &[u8]) -> (r: Option<&[u8]>)
    ensures
        match r {
            Some(p) => tunnel_payload(data@) == Some(p@),
            None => tunnel_payload(data@) is None,
        },
{
    if data.len() < TUNNEL_HEADER_SIZE {
        return None;
    }
    if data[2] != 0x50 || data[3] != 0x50 {
        return None;
    }
    let ppp_size: usize = read_be16(data[4], data[5]) as usize;
    if data.len() - TUNNEL_HEADER_SIZE < ppp_size {
        return None;
    }
    Some(slice_subrange(data, TUNNEL_HEADER_SIZE, TUNNEL_HEADER_SIZE + ppp_size))
}

/// Takes the tunnel frame at the start of the buffer out of it. The stream
/// may cut frames anywhere, so a frame that is not there in full stays in
/// the buffer.
pub fn pop_tunnel_frame(buf: &mut Vec<u8>) -> (r: Option<Vec<u8>>)
    ensures
        final(buf)@ == after_frame(old(buf)@),
        match r {
            Some(p) => tunnel_payload(old(buf)@) == Some(p@),
            None => tunnel_payload(old(buf)@) is None,
        },
{
    let inner: Vec<u8> = match decode_tunnel_frame(buf.as_slice()) {
        Some(p) => slice_to_vec(p),
        None => {
            return None;
        },
    };
    drop_front(buf, TUNNEL_HEADER_SIZE + inner.len());
    Some(inner)
}

/// Removes the first `n` bytes.
pub(crate) fn drop_front(buf: &mut Vec<u8>, n: usize)
    requires
        n <= old(buf)@.len(),
    ensures
        final(buf)@ == old(buf)@.skip(n as int),
{
    let rest: Vec<u8> = slice_to_vec(slice_subrange(buf.as_slice(), n, buf.len()));
    proof {
        assert(rest@ =~= old(buf)@.skip(n as int));
    }
    *buf = rest;
}

/// Builds a PPP frame with HDLC address and control bytes.
pub fn build_hdlc_frame(protocol: u16, payload: &[u8]) -> (r: Vec<u8>)
    ensures
        r@ == hdlc_frame(protocol, payload@),
{
    let mut frame: Vec<u8> = Vec::new();
    frame.push(proto::HDLC_ADDR);
    frame.push(proto::HDLC_CTRL);
    push_be16(&mut frame, protocol);
    append_bytes(&mut frame, payload);
    proof {
        assert(frame@ =~= hdlc_frame(protocol, payload@));
    }
    frame
}

/// Reads a PPP frame with or without HDLC address and control bytes. The
/// protocol number always takes two bytes.
pub fn parse_hdlc_frame(frame: &[u8]) -> (r: Option<(u16, &[u8])>)
    ensures
        match r {
            Some((protocol, packet)) => ppp_packet(frame@) == Some((protocol, packet@)),
            None => ppp_packet(frame@) is None,
        },
{
    if frame.len() < 2 {
        return None;
    }
    let offset: usize = if frame.len() >= 4 && frame[0] == proto::HDLC_ADDR && frame[1]
        == proto::HDLC_CTRL {
        2
    } else {
        0
    };
    let protocol: u16 = read_be16(frame[offset], frame[offset + 1]);
    let packet = slice_subrange(frame, offset + 2, frame.len());
    proof {
        assert(packet@ =~= frame@.skip(offset + 2));
    }
    Some((protocol, packet))
}

/// The header of an LCP packet.
pub fn build_lcp_header(code: u8, identifier: u8, payload_len: u16) -> (r: Vec<u8>)
    requires
        payload_len + 4 <= 65535,
    ensures
        r@ == packet_header(code, identifier, payload_len as nat),
{
    let mut out: Vec<u8> = Vec::new();
    out.push(code);
    out.push(identifier);
    push_be16(&mut out, payload_len + 4);
    proof {
        assert(out@ =~= packet_header(code, identifier, payload_len as nat));
    }
    out
}

/// The header of an IPCP packet, which is that of an LCP packet.
pub fn build_ipcp_header(code: u8, identifier: u8, payload_len: u16) -> (r: Vec<u8>)
    requires
        payload_len + 4 <= 65535,
    ensures
        r@ == packet_header(code, identifier, payload_len as nat),
{
    build_lcp_header(code, identifier, payload_len)
}

// ---------------------------------------------------------------------------
// Laws
// ---------------------------------------------------------------------------

/// A number below 65536 is what its two bytes spell.
pub proof fn lemma_be16(v: nat)
    requires
        v < 65536,
    ensures
        from_be16(be16(v)[0], be16(v)[1]) == v,
        be16(v).len() == 2,
{
}

/// An encoded frame is read back as it went in, whatever follows it in the
/// stream, and what follows it is what is left.
pub proof fn law_tunnel_frame_reads_back(payload: Seq<u8>, rest: Seq<u8>)
    requires
        payload.len() <= TUNNEL_PAYLOAD_MAX,
    ensures
        frame_fits(payload.len()),
        tunnel_payload(tunnel_frame(payload) + rest) == Some(payload),
        after_frame(tunnel_frame(payload) + rest) == rest,
{
    let data = tunnel_frame(payload) + rest;
    let n = payload.len();
    lemma_be16(n);
    assert(data[2] == 0x50 && data[3] == 0x50);
    assert(data[4] == be16(n)[0] && data[5] == be16(n)[1]);
    assert(data.subrange(6, 6 + n as int) =~= payload);
    assert(data.skip(6 + n as int) =~= rest);
}

/// The first two bytes of a tunnel frame spell the length of the whole frame,
/// the letters `PP` follow, the next two bytes spell the length of the
/// payload, and the rest is the payload. Sizes that two bytes cannot spell are
/// cut to them.
pub proof fn law_tunnel_frame_states_its_size(payload: Seq<u8>)
    requires
        payload.len() % 65536 <= 65529,
    ensures
        tunnel_frame(payload).len() == payload.len() + 6,
        payload.len() <= 65529 ==> tunnel_frame(payload)[0] * 256 + tunnel_frame(payload)[1]
            == tunnel_frame(payload).len(),
        payload.len() <= 65529 ==> tunnel_frame(payload)[4] * 256 + tunnel_frame(payload)[5]
            == payload.len(),
        tunnel_frame(payload)[0] * 256 + tunnel_frame(payload)[1] == payload.len() % 65536 + 6,
        tunnel_frame(payload)[2] == 0x50 && tunnel_frame(payload)[3] == 0x50,
        tunnel_frame(payload)[4] * 256 + tunnel_frame(payload)[5] == payload.len() % 65536,
        forall|i: int|
            0 <= i < payload.len() ==> tunnel_frame(payload)[6 + i] == #[trigger] payload[i],
{
    let f = tunnel_frame(payload);
    let n = stated_size(payload.len());
    assert(f[0] == be16(n + 6)[0] && f[1] == be16(n + 6)[1]);
    assert(f[4] == be16(n)[0] && f[5] == be16(n)[1]);
    assert forall|i: int| 0 <= i < payload.len() implies f[6 + i] == #[trigger] payload[i] by {}
}

/// A payload is given out once all the bytes are there that bytes 4 and 5
/// announce, and it is made of just those bytes; what follows it stays. Data
/// that does not have the letters `PP` in their place gives nothing and stays
/// as it is.
pub proof fn law_payload_is_cut_out(data: Seq<u8>)
    ensures
        tunnel_payload(data) is Some <==> data.len() >= 6 && data[2] == 0x50 && data[3] == 0x50
            && data.len() >= 6 + data[4] * 256 + data[5],
        tunnel_payload(data) matches Some(p) ==> p.len() == data[4] * 256 + data[5] && data
            == data.take(6) + p + after_frame(data),
        tunnel_payload(data) is None ==> after_frame(data) == data,
{
    if let Some(p) = tunnel_payload(data) {
        assert(data =~= data.take(6) + p + after_frame(data));
    }
}

/// A built PPP frame begins with FF 03 and the two bytes of the protocol
/// number, and ends with the payload.
pub proof fn law_hdlc_frame_is_laid_out(protocol: u16, payload: Seq<u8>)
    ensures
        hdlc_frame(protocol, payload).len() == payload.len() + 4,
        hdlc_frame(protocol, payload)[0] == 0xFF,
        hdlc_frame(protocol, payload)[1] == 0x03,
        hdlc_frame(protocol, payload)[2] * 256 + hdlc_frame(protocol, payload)[3] == protocol,
        hdlc_frame(protocol, payload).skip(4) == payload,
{
    let f = hdlc_frame(protocol, payload);
    assert(f[2] == be16(protocol as nat)[0] && f[3] == be16(protocol as nat)[1]);
    assert(f.skip(4) =~= payload);
}

/// The packet of a PPP frame is all that follows the protocol number, and the
/// number is spelled by the two bytes in front of the packet. Nothing stands
/// before that number but FF 03.
pub proof fn law_ppp_frame_is_read(frame: Seq<u8>)
    ensures
        ppp_packet(frame) is Some <==> frame.len() >= 2,
        ppp_packet(frame) matches Some((protocol, packet)) ==> {
            let at = frame.len() - packet.len();
            &&& at == 2 || at == 4 && frame[0] == 0xFF && frame[1] == 0x03
            &&& at == 2 ==> frame.len() < 4 || frame[0] != 0xFF || frame[1] != 0x03
            &&& protocol == frame[at - 2] * 256 + frame[at - 1]
            &&& packet == frame.skip(at)
        },
{
}

/// The header of a control packet: the code, the identifier, and in two bytes
/// the length of the header and the payload together.
pub proof fn law_packet_header_is_laid_out(code: u8, identifier: u8, payload_len: nat)
    requires
        payload_len + 4 <= 65535,
    ensures
        packet_header(code, identifier, payload_len).len() == 4,
        packet_header(code, identifier, payload_len)[0] == code,
        packet_header(code, identifier, payload_len)[1] == identifier,
        packet_header(code, identifier, payload_len)[2] * 256 + packet_header(
            code,
            identifier,
            payload_len,
        )[3] == payload_len + 4,
{
}

/// A built PPP frame is read back with its protocol number and its packet.
pub proof fn law_hdlc_frame_reads_back(protocol: u16, payload: Seq<u8>)
    ensures
        ppp_packet(hdlc_frame(protocol, payload)) == Some((protocol, payload)),
{
    let frame = hdlc_frame(protocol, payload);
    lemma_be16(protocol as nat);
    assert(frame[2] == be16(protocol as nat)[0] && frame[3] == be16(protocol as nat)[1]);
    assert(frame.skip(4) =~= payload);
}

/// A frame without address and control bytes is read the same way, unless
/// its first two bytes look like them.
pub proof fn law_compact_frame_reads_back(protocol: u16, payload: Seq<u8>)
    requires
        protocol != 0xFF03 || payload.len() < 2,
    ensures
        ppp_packet(be16(protocol as nat) + payload) == Some((protocol, payload)),
{
    let frame = be16(protocol as nat) + payload;
    lemma_be16(protocol as nat);
    assert(frame[0] == be16(protocol as nat)[0] && frame[1] == be16(protocol as nat)[1]);
    assert(frame.skip(2) =~= payload);
}

/// More bytes from the stream never change a frame that is already complete.
pub proof fn law_frame_stays(data: Seq<u8>, more: Seq<u8>)
    ensures
        tunnel_payload(data) is Some ==> tunnel_payload(data + more) == tunnel_payload(data)
            && after_frame(data + more) == after_frame(data) + more,
{
    if let Some(p) = tunnel_payload(data) {
        let n = p.len() as int;
        assert((data + more).subrange(6, 6 + n) =~= data.subrange(6, 6 + n));
        assert((data + more).skip(6 + n) =~= data.skip(6 + n) + more);
    }
}

} // verus!
