use vpn_core::io::{drain_ip_packets, IoEvent, IoLoop, IoStep};
use vpn_core::ppp_proto::proto;
use vpn_core::ppp_proto::{build_hdlc_frame, encode_tunnel_frame, pop_tunnel_frame};

fn frame(packet: &[u8]) -> Vec<u8> {
    encode_tunnel_frame(&build_hdlc_frame(proto::PPP_IP, packet))
}

#[test]
fn packets_come_out_in_order() {
    let mut pending = frame(&[0x45, 1]);
    pending.extend_from_slice(&encode_tunnel_frame(&build_hdlc_frame(proto::LCP, &[9, 9])));
    pending.extend_from_slice(&frame(&[0x45, 2]));
    pending.extend_from_slice(&[0, 8, 0x50]);
    assert_eq!(drain_ip_packets(&mut pending), vec![vec![0x45, 1], vec![0x45, 2]]);
    assert_eq!(pending, vec![0, 8, 0x50]);
}

#[test]
fn cuts_make_no_difference() {
    let mut data = frame(&[1, 2, 3]);
    data.extend_from_slice(&frame(&[4]));
    for cut in 0..=data.len() {
        let io = IoLoop::new();
        let mut pending = Vec::new();
        let mut got = Vec::new();
        for part in [&data[..cut], &data[cut..]] {
            if part.is_empty() {
                continue;
            }
            match io.step(&mut pending, IoEvent::TlsData(part.to_vec())) {
                IoStep::Deliver(packets) => got.extend(packets),
                _ => panic!("no delivery"),
            }
        }
        assert_eq!(got, vec![vec![1, 2, 3], vec![4]]);
        assert!(pending.is_empty());
    }
}

#[test]
fn a_packet_arrives_as_it_was_sent() {
    let io = IoLoop::new();
    let mut pending = Vec::new();
    let sent = match io.step(&mut pending, IoEvent::TunPacket(vec![0x45, 0, 7])) {
        IoStep::Transmit(f) => f,
        _ => panic!("nothing sent"),
    };
    assert_eq!(
        sent,
        vec![0, 13, 0x50, 0x50, 0, 7, 0xFF, 0x03, 0x00, 0x21, 0x45, 0, 7]
    );
    let mut buf = sent.clone();
    assert!(pop_tunnel_frame(&mut buf).is_some());
    let mut incoming = sent;
    assert_eq!(drain_ip_packets(&mut incoming), vec![vec![0x45, 0, 7]]);
}

#[test]
fn events_of_the_data_phase() {
    let io = IoLoop::new();
    let mut pending = vec![5];
    assert!(matches!(io.step(&mut pending, IoEvent::Cancelled), IoStep::Stop));
    assert!(matches!(io.step(&mut pending, IoEvent::TlsData(vec![])), IoStep::Stop));
    assert!(matches!(io.step(&mut pending, IoEvent::TlsWouldBlock), IoStep::Resume));
    assert!(matches!(io.step(&mut pending, IoEvent::TlsError), IoStep::Stop));
    assert!(matches!(io.step(&mut pending, IoEvent::TlsWriteError), IoStep::Stop));
    let blocked = IoEvent::TunError("TUN read error: WouldBlock".to_string());
    assert!(matches!(io.step(&mut pending, blocked), IoStep::Pause));
    let broken = IoEvent::TunError("gone".to_string());
    assert!(matches!(io.step(&mut pending, broken), IoStep::Stop));
    assert_eq!(pending, vec![5]);
}
