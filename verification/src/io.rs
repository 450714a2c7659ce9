//! The data phase: IP packets go from the TUN device into tunnel frames and
//! back.

use vstd::prelude::*;
use vstd::slice::slice_to_vec;

use crate::bytes::append_bytes;
use crate::ppp_proto;
use crate::ppp_proto::proto;
use crate::text;

verus! {

/// The size of the buffers for one read from the TUN device or from TLS.
pub const TUN_TLS_BUFFER: usize = 2048;

/// The pause after a read that found nothing, in milliseconds.
pub const IDLE_PAUSE_MS: u64 = 1;

/// The decisions of the data phase.
pub struct IoLoop;

/// What happened to the data phase.
pub enum IoEvent {
    /// The user wants to disconnect.
    Cancelled,
    /// Bytes from TLS; none when the peer closed the connection.
    TlsData(Vec<u8>),
    /// TLS had nothing to read.
    TlsWouldBlock,
    /// The read from TLS failed.
    TlsError,
    /// A packet from the TUN device.
    TunPacket(Vec<u8>),
    /// The read from the TUN device failed, with the words of the error.
    TunError(String),
    /// The frame could not be written to TLS.
    TlsWriteError,
}

/// What the data phase does next.
pub enum IoStep {
    /// End the data phase.
    Stop,
    /// Wait for the next event.
    Resume,
    /// Pause, then wait for the next event.
    Pause,
    /// Write these packets to the TUN device, then wait for the next event.
    Deliver(Vec<Vec<u8>>),
    /// Write this frame to TLS and flush, then wait for the next event.
    Transmit(Vec<u8>),
}

/// A step without its representation.
pub enum IoStepView {
    Stop,
    Resume,
    Pause,
    Deliver(Seq<Seq<u8>>),
    Transmit(Seq<u8>),
}

impl View for IoStep {
    type V = IoStepView;

    open spec fn view(&self) -> IoStepView {
        match self {
            IoStep::Stop => IoStepView::Stop,
            IoStep::Resume => IoStepView::Resume,
            IoStep::Pause => IoStepView::Pause,
            IoStep::Deliver(ps) => IoStepView::Deliver(byte_views(ps@)),
            IoStep::Transmit(f) => IoStepView::Transmit(f@),
        }
    }
}

/// The bytes that do not make up a frame yet, and the step, after an event.
pub open spec fn io_stepped(pending: Seq<u8>, event: IoEvent) -> (Seq<u8>, IoStepView) {
    match event {
        IoEvent::TlsData(b) => if b@.len() == 0 {
            (pending, IoStepView::Stop)
        } else {
            (left_over(pending + b@), IoStepView::Deliver(ip_packets(pending + b@)))
        },
        IoEvent::TlsWouldBlock => (pending, IoStepView::Resume),
        IoEvent::TunPacket(p) => (pending, IoStepView::Transmit(packet_frame(p@))),
        IoEvent::TunError(e) => (
            pending,
            if text::has_part(e@, "WouldBlock"@) {
                IoStepView::Pause
            } else {
                IoStepView::Stop
            },
        ),
        _ => (pending, IoStepView::Stop),
    }
}

/// The byte strings of a list.
pub open spec fn byte_views(v: Seq<Vec<u8>>) -> Seq<Seq<u8>> {
    v.map_values(|x: Vec<u8>| x@)
}

/// The IP packet in a PPP frame, if it carries one.
pub open spec fn ip_packet(frame: Seq<u8>) -> Option<Seq<u8>> {
    match ppp_proto::ppp_packet(frame) {
        Some((protocol, packet)) => if protocol == proto::PPP_IP {
            Some(packet)
        } else {
            None
        },
        None => None,
    }
}

/// The IP packets in the complete tunnel frames at the start of the data.
pub open spec fn ip_packets(data: Seq<u8>) -> Seq<Seq<u8>>
    decreases data.len(),
{
    match ppp_proto::tunnel_payload(data) {
        None => Seq::empty(),
        Some(frame) => {
            let rest = ip_packets(data.skip(6 + frame.len() as int));
            match ip_packet(frame) {
                Some(p) => seq![p] + rest,
                None => rest,
            }
        },
    }
}

/// What is left of the data after the complete tunnel frames at its start.
pub open spec fn left_over(data: Seq<u8>) -> Seq<u8>
    decreases data.len(),
{
    match ppp_proto::tunnel_payload(data) {
        None => data,
        Some(frame) => left_over(data.skip(6 + frame.len() as int)),
    }
}

/// The tunnel frame that carries an IP packet.
pub open spec fn packet_frame(packet: Seq<u8>) -> Seq<u8> {
    ppp_proto::tunnel_frame(ppp_proto::hdlc_frame(proto::PPP_IP, packet))
}

/// The packet is small enough for one tunnel frame.
pub open spec fn packet_fits(len: nat) -> bool {
    ppp_proto::frame_fits(len + 4)
}

impl IoLoop {
    /// The data phase.
    pub fn new() -> (r: Self) {
        IoLoop
    }

    /// Decides what follows an event. `pending` holds the bytes from TLS that
    /// do not make up a frame yet.
    pub fn step(&self, pending: &mut Vec<u8>, event: IoEvent) -> (r: IoStep)
        requires
            event matches IoEvent::TunPacket(p) ==> packet_fits(p@.len()),
        ensures
            final(pending)@ == io_stepped(old(pending)@, event).0,
            r@ == io_stepped(old(pending)@, event).1,
            match event {
                IoEvent::TlsData(b) => if b@.len() == 0 {
                    r is Stop && final(pending)@ == old(pending)@
                } else {
                    r matches IoStep::Deliver(ps) && byte_views(ps@) == ip_packets(
                        old(pending)@ + b@,
                    ) && final(pending)@ == left_over(old(pending)@ + b@)
                },
                _ => final(pending)@ == old(pending)@,
            },
            match event {
                IoEvent::Cancelled => r is Stop,
                IoEvent::TlsData(_) => true,
                IoEvent::TlsWouldBlock => r is Resume,
                IoEvent::TlsError => r is Stop,
                IoEvent::TunPacket(p) => r matches IoStep::Transmit(f) && f@ == packet_frame(p@),
                IoEvent::TunError(e) => if text::has_part(e@, "WouldBlock"@) {
                    r is Pause
                } else {
                    r is Stop
                },
                IoEvent::TlsWriteError => r is Stop,
            },
    {
        match event {
            IoEvent::Cancelled => IoStep::Stop,
            IoEvent::TlsData(bytes) => {
                if bytes.len() == 0 {
                    return IoStep::Stop;
                }
                append_bytes(pending, bytes.as_slice());
                IoStep::Deliver(drain_ip_packets(pending))
            },
            IoEvent::TlsWouldBlock => IoStep::Resume,
            IoEvent::TlsError => IoStep::Stop,
            IoEvent::TunPacket(packet) => {
                let frame = ppp_proto::build_hdlc_frame(proto::PPP_IP, packet.as_slice());
                IoStep::Transmit(ppp_proto::encode_tunnel_frame(frame.as_slice()))
            },
            IoEvent::TunError(words) => {
                let cs = text::to_chars(words.as_str());
                if text::contains_text(cs.as_slice(), "WouldBlock") {
                    IoStep::Pause
                } else {
                    IoStep::Stop
                }
            },
            IoEvent::TlsWriteError => IoStep::Stop,
        }
    }
}

/// Takes the complete tunnel frames out of the buffer and gives the IP
/// packets that they carry.
pub fn drain_ip_packets(pending: &mut Vec<u8>) -> (r: Vec<Vec<u8>>)
    ensures
        byte_views(r@) == ip_packets(old(pending)@),
        final(pending)@ == left_over(old(pending)@),
{
    let mut out: Vec<Vec<u8>> = Vec::new();
    let ghost all = pending@;
    proof {
        assert(byte_views(out@) + ip_packets(all) =~= ip_packets(all));
    }
    loop
        invariant
            all == old(pending)@,
            byte_views(out@) + ip_packets(pending@) == ip_packets(all),
            left_over(pending@) == left_over(all),
        decreases pending@.len(),
    {
        let ghost before = pending@;
        match ppp_proto::pop_tunnel_frame(pending) {
            None => {
                proof {
                    assert(byte_views(out@) + ip_packets(before) =~= byte_views(out@));
                }
                return out;
            },
            Some(frame) => {
                match ppp_proto::parse_hdlc_frame(frame.as_slice()) {
                    Some((protocol, packet)) => {
                        if protocol == proto::PPP_IP {
                            let ghost had = byte_views(out@);
                            out.push(slice_to_vec(packet));
                            proof {
                                assert(byte_views(out@) =~= had.push(packet@));
                                assert(had + (seq![packet@] + ip_packets(pending@)) =~= byte_views(
                                    out@,
                                ) + ip_packets(pending@));
                            }
                        }
                    },
                    None => {},
                }
            },
        }
    }
}

// ---------------------------------------------------------------------------
// Laws
// ---------------------------------------------------------------------------

/// It makes no difference where the stream is cut into reads: the packets
/// that come out of two reads one after the other, and what is left, are
/// those of the two together.
pub proof fn law_cuts_make_no_difference(data: Seq<u8>, more: Seq<u8>)
    ensures
        ip_packets(data + more) == ip_packets(data) + ip_packets(left_over(data) + more),
        left_over(data + more) == left_over(left_over(data) + more),
    decreases data.len(),
{
    match ppp_proto::tunnel_payload(data) {
        None => {
            assert(Seq::<Seq<u8>>::empty() + ip_packets(data + more) =~= ip_packets(data + more));
        },
        Some(frame) => {
            let rest = data.skip(6 + frame.len() as int);
            ppp_proto::law_frame_stays(data, more);
            law_cuts_make_no_difference(rest, more);
            assert((data + more).skip(6 + frame.len() as int) == rest + more);
            match ip_packet(frame) {
                Some(p) => {
                    assert(seq![p] + (ip_packets(rest) + ip_packets(left_over(rest) + more)) =~= (
                    seq![p] + ip_packets(rest)) + ip_packets(left_over(rest) + more));
                },
                None => {},
            }
        },
    }
}

/// A packet travels in a tunnel frame that states its sizes, under the
/// protocol number of IP.
pub proof fn law_packet_frame_is_laid_out(packet: Seq<u8>)
    requires
        packet.len() <= 65525,
    ensures
        packet_frame(packet).len() == packet.len() + 10,
        packet_frame(packet)[0] * 256 + packet_frame(packet)[1] == packet.len() + 10,
        packet_frame(packet)[2] == 0x50 && packet_frame(packet)[3] == 0x50,
        packet_frame(packet)[4] * 256 + packet_frame(packet)[5] == packet.len() + 4,
        packet_frame(packet)[6] == 0xFF && packet_frame(packet)[7] == 0x03,
        packet_frame(packet)[8] == 0x00 && packet_frame(packet)[9] == 0x21,
        packet_frame(packet).skip(10) == packet,
{
    let inner = ppp_proto::hdlc_frame(proto::PPP_IP, packet);
    let f = packet_frame(packet);
    ppp_proto::law_hdlc_frame_is_laid_out(proto::PPP_IP, packet);
    ppp_proto::law_tunnel_frame_states_its_size(inner);
    assert(f[6] == inner[0] && f[7] == inner[1] && f[8] == inner[2] && f[9] == inner[3]);
    assert(f.skip(10) =~= packet) by {
        assert forall|i: int| 0 <= i < packet.len() implies f.skip(10)[i] == packet[i] by {
            assert(inner.skip(4)[i] == inner[4 + i]);
            assert(f[6 + (4 + i)] == inner[4 + i]);
        }
    }
}

/// A tunnel frame at the start of the data whose PPP frame has the protocol
/// number of IP is delivered in front of all that follows, from behind the
/// number to the end of the frame. One with another number, or with too few
/// bytes for a number, is dropped, and what follows is delivered all the same.
pub proof fn law_only_ip_is_delivered(data: Seq<u8>)
    requires
        data.len() >= 6,
        data[2] == 0x50 && data[3] == 0x50,
        data.len() >= 6 + data[4] * 256 + data[5],
    ensures
        ({
            let size = data[4] * 256 + data[5];
            let at: int = if size >= 4 && data[6] == 0xFF && data[7] == 0x03 {
                8
            } else {
                6
            };
            let rest = data.skip(6 + size);
            let is_ip = size >= at - 4 && data[at] == 0x00 && data[at + 1] == 0x21;
            &&& left_over(data) == left_over(rest)
            &&& is_ip ==> ip_packets(data) == seq![data.subrange(at + 2, 6 + size)] + ip_packets(
                rest,
            )
            &&& !is_ip ==> ip_packets(data) == ip_packets(rest)
        }),
{
    let size = data[4] * 256 + data[5];
    ppp_proto::law_payload_is_cut_out(data);
    let frame = data.subrange(6, 6 + size);
    assert(ppp_proto::tunnel_payload(data) == Some(frame));
    if size >= 2 {
        assert(frame[0] == data[6] && frame[1] == data[7]);
    }
    if size >= 4 {
        assert(frame[2] == data[8] && frame[3] == data[9]);
    }
    ppp_proto::law_ppp_frame_is_read(frame);
    if let Some((_, packet)) = ppp_proto::ppp_packet(frame) {
        let at = frame.len() - packet.len();
        assert(data.subrange(6 + at, 6 + size) =~= frame.skip(at));
    }
}

/// Data without a whole frame at its start delivers nothing and stays.
pub proof fn law_cut_frame_waits(data: Seq<u8>)
    requires
        data.len() < 6 || data[2] != 0x50 || data[3] != 0x50 || data.len() < 6 + data[4] * 256
            + data[5],
    ensures
        ip_packets(data).len() == 0,
        left_over(data) == data,
{
    ppp_proto::law_payload_is_cut_out(data);
}

/// The frames of several packets one after the other.
pub open spec fn packet_stream(packets: Seq<Seq<u8>>) -> Seq<u8>
    decreases packets.len(),
{
    if packets.len() == 0 {
        Seq::empty()
    } else {
        packet_frame(packets[0]) + packet_stream(packets.skip(1))
    }
}

/// The packets that one side transmits are those that the other side
/// delivers, in order, and nothing is left.
pub proof fn law_packets_arrive(packets: Seq<Seq<u8>>)
    requires
        forall|i: int|
            0 <= i < packets.len() ==> (#[trigger] packets[i]).len() + 4
                <= ppp_proto::TUNNEL_PAYLOAD_MAX,
    ensures
        ip_packets(packet_stream(packets)) == packets,
        left_over(packet_stream(packets)) == Seq::<u8>::empty(),
    decreases packets.len(),
{
    if packets.len() == 0 {
        assert(packets =~= Seq::empty());
    } else {
        let p = packets[0];
        let rest = packet_stream(packets.skip(1));
        let frame = ppp_proto::hdlc_frame(proto::PPP_IP, p);
        law_packets_arrive(packets.skip(1));
        assert(frame.len() == p.len() + 4);
        ppp_proto::law_tunnel_frame_reads_back(frame, rest);
        ppp_proto::law_hdlc_frame_reads_back(proto::PPP_IP, p);
        assert(packet_stream(packets).skip(6 + frame.len() as int) == rest);
        assert(seq![p] + packets.skip(1) =~= packets);
    }
}

/// The data phase ends when the user wants it, when the peer closes the
/// connection, and when a read or a write fails; a TUN device that has nothing
/// to read is no failure.
pub proof fn law_data_phase_ends(pending: Seq<u8>, event: IoEvent)
    ensures
        io_stepped(pending, event).1 is Stop <==> event is Cancelled || event is TlsError || event
            is TlsWriteError || (event matches IoEvent::TlsData(b) && b@.len() == 0) || (
        event matches IoEvent::TunError(e) && !text::has_part(e@, "WouldBlock"@)),
        !(event is TlsData) ==> io_stepped(pending, event).0 == pending,
        event is TlsWouldBlock ==> io_stepped(pending, event).1 is Resume,
        event matches IoEvent::TunError(e) ==> (text::has_part(e@, "WouldBlock"@) ==> io_stepped(
            pending,
            event,
        ).1 is Pause),
{
}

/// A packet from the TUN device is sent in a frame that brings it to the other
/// side, where it comes out alone and as it was.
pub proof fn law_packet_is_transmitted(pending: Seq<u8>, packet: Vec<u8>)
    requires
        packet@.len() <= 65525,
    ensures
        io_stepped(pending, IoEvent::TunPacket(packet)).1 matches IoStepView::Transmit(f)
            && ip_packets(f) == seq![packet@] && left_over(f).len() == 0 && f.len()
            == packet@.len() + 10 && f[0] * 256 + f[1] == f.len(),
{
    law_packets_arrive(seq![packet@]);
    law_packet_frame_is_laid_out(packet@);
    reveal_with_fuel(packet_stream, 2);
    assert(packet_frame(packet@) + packet_stream(seq![packet@].skip(1)) =~= packet_frame(
        packet@,
    )) by {
        assert(seq![packet@].skip(1) =~= Seq::empty());
    }
    assert(packet_stream(seq![packet@]) == packet_frame(packet@));
}

/// Two reads one after the other deliver the packets, and leave the bytes,
/// that one read of both would.
pub proof fn law_reads_deliver_in_order(
    pending: Seq<u8>,
    first: Vec<u8>,
    second: Vec<u8>,
    both: Vec<u8>,
)
    requires
        first@.len() > 0,
        second@.len() > 0,
        both@ == first@ + second@,
    ensures
        ({
            let (rest, a) = io_stepped(pending, IoEvent::TlsData(first));
            let (end, b) = io_stepped(rest, IoEvent::TlsData(second));
            let (whole_end, whole) = io_stepped(pending, IoEvent::TlsData(both));
            &&& a is Deliver && b is Deliver && whole is Deliver
            &&& whole->Deliver_0 == a->Deliver_0 + b->Deliver_0
            &&& whole_end == end
        }),
{
    law_cuts_make_no_difference(pending + first@, second@);
    assert(pending + both@ =~= pending + first@ + second@);
}

/// A packet of up to 65525 bytes fits a tunnel frame.
pub proof fn law_packets_that_fit(len: nat)
    ensures
        packet_fits(len) <==> (len + 4) % 65536 <= 65529,
        len <= 65525 ==> packet_fits(len),
{
}

} // verus!
