use vpn_core::ppp::{
    accept_read, extract_ipcp_ip, extract_magic_number, ipcp_configure_ack_from_peer,
    lcp_configure_ack_from_peer, parse_ipv4, reply_has_room, IpcpNegotiation, LcpNegotiation,
    PppSession, PppState,
};
use vpn_core::ppp_proto::proto;
use vpn_core::ppp_proto::{
    build_hdlc_frame, build_ipcp_header, build_lcp_header, decode_tunnel_frame,
    encode_tunnel_frame, parse_hdlc_frame, pop_tunnel_frame,
};
use vpn_core::stream::ReadOutcome;

#[test]
fn tunnel_frames_have_a_header() {
    assert_eq!(
        encode_tunnel_frame(&[1, 2, 3]),
        vec![0x00, 0x09, 0x50, 0x50, 0x00, 0x03, 1, 2, 3]
    );
    let data = [0x00, 0x09, 0x50, 0x50, 0x00, 0x03, 1, 2, 3, 4];
    assert_eq!(decode_tunnel_frame(&data), Some(&[1u8, 2, 3][..]));
    assert_eq!(decode_tunnel_frame(&data[..8]), None);
    assert_eq!(decode_tunnel_frame(&[0, 9, 0x50, 0x51, 0, 0]), None);
}

#[test]
fn frames_are_taken_out_of_the_buffer() {
    let mut buf = encode_tunnel_frame(&[7; 300]);
    buf.extend_from_slice(&encode_tunnel_frame(&[8]));
    buf.push(0);
    assert_eq!(pop_tunnel_frame(&mut buf), Some(vec![7; 300]));
    assert_eq!(pop_tunnel_frame(&mut buf), Some(vec![8]));
    assert_eq!(pop_tunnel_frame(&mut buf), None);
    assert_eq!(buf, vec![0]);
}

#[test]
fn hdlc_frames_with_and_without_address() {
    let frame = build_hdlc_frame(proto::LCP, &[1, 2]);
    assert_eq!(frame, vec![0xFF, 0x03, 0xC0, 0x21, 1, 2]);
    assert_eq!(parse_hdlc_frame(&frame), Some((0xC021, &[1u8, 2][..])));
    assert_eq!(parse_hdlc_frame(&[0x00, 0x21, 9]), Some((0x0021, &[9u8][..])));
    assert_eq!(parse_hdlc_frame(&[0x00]), None);
    assert_eq!(parse_hdlc_frame(&[0xFF, 0x03]), Some((0xFF03, &[][..])));
}

#[test]
fn control_packet_headers() {
    assert_eq!(build_lcp_header(1, 7, 10), vec![1, 7, 0, 14]);
    assert_eq!(build_ipcp_header(2, 8, 300), vec![2, 8, 0x01, 0x30]);
}

#[test]
fn an_acknowledgement_repeats_the_request() {
    let req = [1, 42, 0, 8, 5, 6, 7, 8, 99];
    assert_eq!(lcp_configure_ack_from_peer(&req), Some(vec![2, 42, 0, 8, 5, 6, 7, 8]));
    assert_eq!(ipcp_configure_ack_from_peer(&req), Some(vec![2, 42, 0, 8, 5, 6, 7, 8]));
    assert_eq!(lcp_configure_ack_from_peer(&req[..7]), None);
    assert_eq!(lcp_configure_ack_from_peer(&[1, 2, 0, 3]), None);
    assert_eq!(ipcp_configure_ack_from_peer(&[1, 2, 0]), None);
}

#[test]
fn options_are_scanned_in_order() {
    assert_eq!(extract_magic_number(&[1, 4, 5, 0x14, 5, 6, 1, 2, 3, 4]), 0x01020304);
    assert_eq!(extract_magic_number(&[5, 4, 1, 2]), 0);
    assert_eq!(extract_magic_number(&[1, 0, 5, 6, 1, 2, 3, 4]), 0);
    assert_eq!(extract_ipcp_ip(&[3, 6, 192, 168, 0, 1]), Some("192.168.0.1".to_string()));
    assert_eq!(extract_ipcp_ip(&[3, 6, 192, 168, 0]), None);
}

#[test]
fn addresses_as_bytes() {
    assert_eq!(parse_ipv4("10.20.30.40"), [10, 20, 30, 40]);
    assert_eq!(parse_ipv4("10.x.30"), [10, 30, 0, 0]);
    assert_eq!(parse_ipv4("1.2.3.4.5"), [1, 2, 3, 4]);
    assert_eq!(parse_ipv4("300.1"), [1, 0, 0, 0]);
    assert_eq!(parse_ipv4(""), [0, 0, 0, 0]);
}

#[test]
fn requests_of_a_session() {
    let s = PppSession::with_magic(0xA1B2C3D4, 1300);
    assert_eq!(
        s.build_lcp_configure_request(),
        vec![1, 1, 0, 14, 1, 4, 0x05, 0x14, 5, 6, 0xA1, 0xB2, 0xC3, 0xD4]
    );
    assert_eq!(
        s.build_ipcp_configure_request("10.0.0.7"),
        vec![1, 1, 0, 10, 3, 6, 10, 0, 0, 7]
    );
}

#[test]
fn a_magic_number_is_drawn() {
    let magics: Vec<u32> = (0..8).map(|_| PppSession::new(1400).local_magic).collect();
    assert!(magics.iter().any(|m| *m != magics[0]));
    let s = PppSession::new(1400);
    assert_eq!((s.remote_magic, s.lcp_identifier, s.ipcp_identifier, s.mru), (0, 1, 1, 1400));
}

fn payload(frame: Vec<u8>) -> Vec<u8> {
    let mut buf = frame;
    let inner = pop_tunnel_frame(&mut buf).unwrap();
    assert!(buf.is_empty());
    inner
}

#[test]
fn lcp_completes_in_either_order() {
    let request = build_hdlc_frame(proto::LCP, &[1, 9, 0, 10, 5, 6, 0, 0, 0, 5]);
    let ack = build_hdlc_frame(proto::LCP, &[2, 1, 0, 4]);
    for frames in [[&request, &ack], [&ack, &request]] {
        let mut s = PppSession::with_magic(1, 1300);
        let mut n = LcpNegotiation::new();
        let open = payload(s.lcp_open());
        assert_eq!(parse_hdlc_frame(&open).unwrap().0, proto::LCP);
        assert_eq!(s.lcp_identifier, 2);
        let mut replies = Vec::new();
        for f in frames {
            assert!(!n.is_complete());
            if let Some(r) = s.lcp_receive(&mut n, f) {
                replies.push(payload(r));
            }
        }
        assert!(n.is_complete());
        assert_eq!(s.remote_magic, 5);
        assert_eq!(
            replies,
            vec![build_hdlc_frame(proto::LCP, &[2, 9, 0, 10, 5, 6, 0, 0, 0, 5])]
        );
    }
}

#[test]
fn lcp_passes_over_other_frames() {
    let mut s = PppSession::with_magic(1, 1300);
    let mut n = LcpNegotiation::new();
    for f in [
        vec![],
        build_hdlc_frame(proto::IPCP, &[1, 1, 0, 4]),
        build_hdlc_frame(proto::LCP, &[1, 1, 0]),
        build_hdlc_frame(proto::LCP, &[1, 1, 0, 20, 1, 1]),
        build_hdlc_frame(proto::LCP, &[3, 1, 0, 4]),
    ] {
        assert_eq!(s.lcp_receive(&mut n, &f), None);
    }
    assert!(!n.acked_peer && !n.peer_acked);
}

#[test]
fn ipcp_takes_the_proposed_address() {
    let mut s = PppSession::with_magic(1, 1300);
    let mut n = IpcpNegotiation::new("10.0.0.1");
    let request = build_hdlc_frame(proto::IPCP, &[1, 3, 0, 4]);
    let reply = s.ipcp_receive(&mut n, &request).unwrap();
    assert_eq!(payload(reply), build_hdlc_frame(proto::IPCP, &[2, 3, 0, 4]));
    assert!(n.state == PppState::SendRequest);
    let ours = payload(s.ipcp_send_request(&mut n));
    assert_eq!(ours, build_hdlc_frame(proto::IPCP, &[1, 1, 0, 10, 3, 6, 10, 0, 0, 1]));
    assert!(n.state == PppState::WaitRequest);
    assert_eq!(s.ipcp_identifier, 2);
    let nak = build_hdlc_frame(proto::IPCP, &[3, 1, 0, 10, 3, 6, 172, 16, 5, 9]);
    let again = payload(s.ipcp_receive(&mut n, &nak).unwrap());
    assert_eq!(again, build_hdlc_frame(proto::IPCP, &[1, 2, 0, 10, 3, 6, 172, 16, 5, 9]));
    assert_eq!(s.ipcp_identifier, 3);
    let ack = build_hdlc_frame(proto::IPCP, &[2, 2, 0, 4]);
    assert_eq!(s.ipcp_receive(&mut n, &ack), None);
    assert!(n.state == PppState::Done);
    assert_eq!(n.address(), "172.16.5.9");
}

#[test]
fn ipcp_keeps_the_assigned_address() {
    let mut s = PppSession::with_magic(1, 1300);
    let mut n = IpcpNegotiation::new("10.0.0.1");
    let nak = build_hdlc_frame(proto::IPCP, &[3, 1, 0, 2, 0, 0]);
    let again = payload(s.ipcp_receive(&mut n, &nak).unwrap());
    assert_eq!(again, build_hdlc_frame(proto::IPCP, &[1, 1, 0, 10, 3, 6, 10, 0, 0, 1]));
    assert_eq!(s.ipcp_receive(&mut n, &[0x00, 0x21, 1, 2, 3, 4]), None);
    assert_eq!(n.address(), "10.0.0.1");
}

#[test]
fn ipcp_uses_the_last_proposal() {
    let request = build_hdlc_frame(proto::IPCP, &[1, 3, 0, 4]);
    let first = build_hdlc_frame(proto::IPCP, &[3, 1, 0, 10, 3, 6, 172, 16, 5, 9]);
    let second = build_hdlc_frame(proto::IPCP, &[3, 2, 0, 10, 3, 6, 172, 16, 5, 10]);
    let without = build_hdlc_frame(proto::IPCP, &[3, 3, 0, 4]);
    let other = build_hdlc_frame(proto::LCP, &[2, 1, 0, 4]);
    let ack = build_hdlc_frame(proto::IPCP, &[2, 4, 0, 4]);
    for (frames, address) in [
        (vec![&first, &request, &second, &without, &other, &ack], "172.16.5.10"),
        (vec![&second, &first, &ack], "172.16.5.9"),
        (vec![&without, &request, &ack], "10.0.0.1"),
    ] {
        let mut s = PppSession::with_magic(1, 1300);
        let mut n = IpcpNegotiation::new("10.0.0.1");
        for frame in frames {
            assert!(n.state == PppState::WaitRequest);
            s.ipcp_receive(&mut n, frame);
            if n.state == PppState::SendRequest {
                s.ipcp_send_request(&mut n);
            }
        }
        assert!(n.state == PppState::Done);
        assert_eq!(n.address(), address);
    }
}

#[test]
fn a_reply_may_have_no_room() {
    let mut packet = vec![1, 1, 0xFF, 0xF7];
    packet.resize(65527, 0);
    let mut compact = vec![0xC0, 0x21];
    compact.extend_from_slice(&packet);
    assert!(!reply_has_room(&compact, proto::LCP, proto::LCP_CONF_REQ));
    assert!(reply_has_room(&compact, proto::IPCP, proto::IPCP_CONF_REQ));
    assert!(reply_has_room(&build_hdlc_frame(proto::LCP, &[1, 1, 0, 4]), proto::LCP, 1));
}

#[test]
fn reads_during_the_negotiation() {
    let mut pending = vec![1];
    assert_eq!(accept_read(&mut pending, ReadOutcome::Data(vec![2, 3])), Ok(()));
    assert_eq!(pending, vec![1, 2, 3]);
    assert_eq!(
        accept_read(&mut pending, ReadOutcome::TimedOut),
        Err("PPP: nessun frame dal gateway entro 30 s (LCP/IPCP)".to_string())
    );
    assert_eq!(
        accept_read(&mut pending, ReadOutcome::Failed("boom".to_string())),
        Err("PPP stream read error: boom".to_string())
    );
    assert_eq!(
        accept_read(&mut pending, ReadOutcome::Data(vec![])),
        Err("PPP: connessione chiusa".to_string())
    );
    assert_eq!(
        accept_read(&mut pending, ReadOutcome::Data(vec![0; 524286])),
        Err("PPP: buffer di lettura eccessivo".to_string())
    );
}
