use bytes::Bytes;
use crossbeam_channel::bounded;
use ironplayer::net::error::RtpEvent;
use ironplayer::net::rtp::{
    ts_payload_shape, RtpHeader, RtpStripper, RTP_PT_MPEGTS, TS_PACKET_LEN, TS_SYNC_BYTE,
};

const RTP_VERSION_2: u8 = 0x80;

fn make_rtp_packet(seq: u16, cc: u8, payload: &[u8]) -> Bytes {
    let byte0 = RTP_VERSION_2 | (cc & 0x0F);
    let byte1 = RTP_PT_MPEGTS;
    let mut pkt = vec![
        byte0,
        byte1,
        (seq >> 8) as u8,
        (seq & 0xFF) as u8,
        0,
        0,
        0,
        0,
        0,
        0,
        0,
        0,
    ];
    for _ in 0..cc {
        pkt.extend_from_slice(&[0u8; 4]);
    }
    pkt.extend_from_slice(payload);
    Bytes::from(pkt)
}

#[test]
fn spec_net_003_rtp_header_stripped() {
    let (tx, _rx) = bounded(8);
    let mut s = RtpStripper::new(tx);
    let payload = vec![0x47u8; 188];
    let pkt = make_rtp_packet(1, 0, &payload);
    let result = s.strip(pkt);
    assert_eq!(result.as_ref(), payload.as_slice());
}

#[test]
fn spec_net_003_csrc_count_2() {
    let (tx, _rx) = bounded(8);
    let mut s = RtpStripper::new(tx);
    let payload = vec![0x47u8; 188];
    let pkt = make_rtp_packet(1, 2, &payload);
    assert_eq!(pkt.len(), 20 + 188);
    let result = s.strip(pkt);
    assert_eq!(result.as_ref(), payload.as_slice());
}

#[test]
fn spec_net_003_passthrough_raw_ts() {
    let (tx, _rx) = bounded(8);
    let mut s = RtpStripper::new(tx);
    let raw = Bytes::from(vec![0x47u8; 188]);
    let result = s.strip(raw.clone());
    assert_eq!(result, raw);
}

#[test]
fn spec_net_003_sequence_wrap_no_out_of_order() {
    let (tx, rx) = bounded(8);
    let mut s = RtpStripper::new(tx);
    let payload = vec![0u8; 188];
    s.strip(make_rtp_packet(0xFFFF, 0, &payload));
    s.strip(make_rtp_packet(0x0001, 0, &payload));
    assert!(
        rx.try_recv().is_err(),
        "wrap-around should not emit OutOfOrder"
    );
}

#[test]
fn spec_net_003_sequence_out_of_order() {
    let (tx, rx) = bounded(8);
    let mut s = RtpStripper::new(tx);
    let payload = vec![0u8; 188];
    s.strip(make_rtp_packet(100, 0, &payload));
    s.strip(make_rtp_packet(102, 0, &payload));
    match rx.try_recv().expect("should emit OutOfOrder") {
        RtpEvent::OutOfOrder { expected, got } => {
            assert_eq!(expected, 101);
            assert_eq!(got, 102);
        }
    }
}

#[test]
fn spec_probe_ip_014_parses_every_header_field() {
    let pkt = [
        0xB1,
        0xA1,
        0x12, 0x34,
        0x00, 0x00, 0x10, 0x00,
        0x1A, 0x2B, 0x3C, 0x4D,
        0x00, 0x00, 0x00, 0x01,
        0xBE, 0xDE, 0x00, 0x01,
        0x00, 0x00, 0x00, 0x00,
        0x47,
    ];
    let h = RtpHeader::parse(&pkt).expect("header válido");
    assert_eq!(h.version, 2);
    assert!(h.padding);
    assert!(h.extension);
    assert!(h.marker);
    assert_eq!(h.csrc_count, 1);
    assert_eq!(h.payload_type, RTP_PT_MPEGTS);
    assert_eq!(h.sequence, 0x1234);
    assert_eq!(h.timestamp, 0x0000_1000);
    assert_eq!(h.ssrc, 0x1A2B_3C4D);
    assert_eq!(h.ssrc_hex(), "0x1A2B3C4D");
    assert_eq!(h.header_len, 24);
    assert_eq!(pkt[h.header_len], TS_SYNC_BYTE);
}

#[test]
fn spec_probe_ip_014_extension_header_is_skipped() {
    let mut pkt = vec![
        0x90,
        RTP_PT_MPEGTS,
        0x00, 0x01,
        0, 0, 0, 0,
        0, 0, 0, 0,
        0xBE, 0xDE, 0x00, 0x01,
        0xAA, 0xBB, 0xCC, 0xDD,
    ];
    pkt.extend_from_slice(&[TS_SYNC_BYTE; 188]);

    let h = RtpHeader::parse(&pkt).expect("header válido");
    assert_eq!(h.header_len, 20, "12 fixos + 8 de extensão");

    let (tx, _rx) = bounded(8);
    let mut s = RtpStripper::new(tx);
    let payload = s.strip(Bytes::from(pkt));
    assert_eq!(payload.len(), 188);
    assert_eq!(payload[0], TS_SYNC_BYTE);
}

#[test]
fn spec_probe_ip_014_truncated_input_is_rejected() {
    assert!(RtpHeader::parse(&[]).is_none());
    assert!(RtpHeader::parse(&[0x80, 33, 0, 1]).is_none());
    assert!(RtpHeader::parse(&[0x40; 16]).is_none());
    let truncated = [
        0x90, 33, 0, 1, 0, 0, 0, 0, 0, 0, 0, 0, 0xBE, 0xDE, 0x00, 0x04,
    ];
    assert!(RtpHeader::parse(&truncated).is_none());
}

#[test]
fn spec_probe_ip_017_payload_shape_detects_bad_size() {
    let good = vec![TS_SYNC_BYTE; 7 * TS_PACKET_LEN];
    let shape = ts_payload_shape(&good);
    assert!(shape.well_formed);
    assert_eq!(shape.ts_packets, 7);

    let bad = vec![TS_SYNC_BYTE; 1315];
    assert!(!ts_payload_shape(&bad).well_formed);

    let mut no_sync = vec![0u8; TS_PACKET_LEN];
    no_sync[0] = 0x00;
    assert!(!ts_payload_shape(&no_sync).well_formed);

    assert!(!ts_payload_shape(&[]).well_formed);
}
