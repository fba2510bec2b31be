use bytes::Bytes;
use crossbeam_channel::bounded;
use ironplayer::av::codec::{MediaCodec, VideoCodec};
use ironplayer::av::pes::{decode_timestamp, PesAssembler, PesPacket};

fn encode_timestamp(ts: u64, marker: u8) -> [u8; 5] {
    let ts = ts & 0x1_FFFF_FFFF;
    [
        ((marker & 0x0F) << 4) | (((ts >> 30) & 0x07) as u8) << 1 | 0x01,
        ((ts >> 22) & 0xFF) as u8,
        (((ts >> 15) & 0x7F) as u8) << 1 | 0x01,
        ((ts >> 7) & 0xFF) as u8,
        ((ts & 0x7F) as u8) << 1 | 0x01,
    ]
}

fn build_pes_packet(pts: u64, es_payload: &[u8]) -> Vec<u8> {
    let opt_header_len: u16 = 8;
    let pes_packet_length: u16 = opt_header_len + es_payload.len() as u16;

    let pts_bytes = encode_timestamp(pts, 0b0010);

    let mut buf = Vec::new();
    buf.extend_from_slice(&[0x00, 0x00, 0x01, 0xE0]);
    buf.extend_from_slice(&pes_packet_length.to_be_bytes());
    buf.push(0x80);
    buf.push(0x80);
    buf.push(0x05);
    buf.extend_from_slice(&pts_bytes);
    buf.extend_from_slice(es_payload);
    buf
}

fn build_pes_packet_with_dts(pts: u64, dts: u64, es_payload: &[u8]) -> Vec<u8> {
    let opt_header_len: u16 = 13;
    let pes_packet_length: u16 = opt_header_len + es_payload.len() as u16;

    let pts_bytes = encode_timestamp(pts, 0b0011);
    let dts_bytes = encode_timestamp(dts, 0b0001);

    let mut buf = Vec::new();
    buf.extend_from_slice(&[0x00, 0x00, 0x01, 0xE0]);
    buf.extend_from_slice(&pes_packet_length.to_be_bytes());
    buf.push(0x80);
    buf.push(0xC0);
    buf.push(0x0A);
    buf.extend_from_slice(&pts_bytes);
    buf.extend_from_slice(&dts_bytes);
    buf.extend_from_slice(es_payload);
    buf
}

#[test]
fn spec_av_001_timestamp_decode_zero() {
    let encoded = encode_timestamp(0, 0b0010);
    let ts = decode_timestamp(&encoded).unwrap();
    assert_eq!(ts, 0);
}

#[test]
fn spec_av_001_timestamp_decode_max_33bit() {
    let max = 0x1_FFFF_FFFF_u64;
    let encoded = encode_timestamp(max, 0b0010);
    let ts = decode_timestamp(&encoded).unwrap();
    assert_eq!(ts, max);
}

#[test]
fn spec_av_001_timestamp_decode_one_second() {
    let one_sec = 90_000_u64;
    let encoded = encode_timestamp(one_sec, 0b0010);
    let ts = decode_timestamp(&encoded).unwrap();
    assert_eq!(ts, one_sec);
}

#[test]
fn spec_av_001_pts_duration_simple() {
    let codec = MediaCodec::Video(VideoCodec::H264);
    let p1 = PesPacket::new(0x100, codec, Some(90_000), None, Bytes::new());
    let p2 = PesPacket::new(0x100, codec, Some(93_600), None, Bytes::new());
    assert_eq!(p1.pts_duration(&p2), Some(3_600));
}

#[test]
fn spec_av_001_pts_duration_none_when_missing() {
    let codec = MediaCodec::Video(VideoCodec::H264);
    let p1 = PesPacket::new(0x100, codec, None, None, Bytes::new());
    let p2 = PesPacket::new(0x100, codec, Some(90_000), None, Bytes::new());
    assert_eq!(p1.pts_duration(&p2), None);
    assert_eq!(p2.pts_duration(&p1), None);
}

#[test]
fn spec_av_001_pts_duration_wraparound() {
    let codec = MediaCodec::Video(VideoCodec::H264);
    let max_33 = 0x1_FFFF_FFFF_u64;
    let p1 = PesPacket::new(0x100, codec, Some(max_33 - 100), None, Bytes::new());
    let p2 = PesPacket::new(0x100, codec, Some(100), None, Bytes::new());
    assert_eq!(p1.pts_duration(&p2), Some(201));
}

#[test]
fn spec_av_001_reassemble_h264_four_ts_packets() {
    let (tx, rx) = bounded::<PesPacket>(16);
    let mut assembler = PesAssembler::new(tx);
    let pid: u16 = 0x0100;
    assembler.register_pid(pid, MediaCodec::Video(VideoCodec::H264));

    let es_data: Vec<u8> = (0u8..=255).chain(0u8..44).collect();
    assert_eq!(es_data.len(), 300);

    let pes = build_pes_packet(90_000, &es_data);

    let (part1, rest) = pes.split_at(60);
    let (part2, rest) = rest.split_at(80);
    let (part3, part4) = rest.split_at(80);

    assembler.push(pid, true, Bytes::copy_from_slice(part1));
    assembler.push(pid, false, Bytes::copy_from_slice(part2));
    assembler.push(pid, false, Bytes::copy_from_slice(part3));
    assembler.push(pid, false, Bytes::copy_from_slice(part4));

    let packets: Vec<PesPacket> = rx.try_iter().collect();
    assert_eq!(packets.len(), 1, "deve emitir exatamente um PesPacket");

    let pkt = &packets[0];
    assert_eq!(pkt.pid, pid);
    assert_eq!(pkt.pts, Some(90_000));
    assert_eq!(pkt.dts, None);
    assert_eq!(
        pkt.payload.as_ref(),
        es_data.as_slice(),
        "payload ES remontado deve ser idêntico ao original"
    );
    assert_eq!(pkt.codec, MediaCodec::Video(VideoCodec::H264));
}

#[test]
fn spec_av_001_unbounded_pes_emitted_on_next_pusi() {
    let (tx, rx) = bounded::<PesPacket>(16);
    let mut assembler = PesAssembler::new(tx);
    let pid: u16 = 0x0200;
    assembler.register_pid(pid, MediaCodec::Video(VideoCodec::H264));

    let es_data_1 = vec![0xAAu8; 50];
    let es_data_2 = vec![0xBBu8; 30];

    let mut pes1 = vec![0x00u8, 0x00, 0x01, 0xE0, 0x00, 0x00];
    pes1.push(0x80);
    pes1.push(0x00);
    pes1.push(0x00);
    pes1.extend_from_slice(&es_data_1);

    let mut pes2 = vec![0x00u8, 0x00, 0x01, 0xE0, 0x00, 0x00];
    pes2.push(0x80);
    pes2.push(0x00);
    pes2.push(0x00);
    pes2.extend_from_slice(&es_data_2);

    assembler.push(pid, true, Bytes::from(pes1));
    assert!(
        rx.try_recv().is_err(),
        "ainda não deve emitir antes do próximo PUSI"
    );

    assembler.push(pid, true, Bytes::from(pes2));

    let pkts: Vec<PesPacket> = rx.try_iter().collect();
    assert_eq!(pkts.len(), 1, "deve emitir o PES anterior ao segundo PUSI");
    assert_eq!(pkts[0].payload.as_ref(), es_data_1.as_slice());
}

#[test]
fn spec_av_001_data_without_prior_pusi_discarded() {
    let (tx, rx) = bounded::<PesPacket>(16);
    let mut assembler = PesAssembler::new(tx);
    let pid: u16 = 0x0300;
    assembler.register_pid(pid, MediaCodec::Video(VideoCodec::H264));

    assembler.push(pid, false, Bytes::from_static(b"\xDE\xAD\xBE\xEF"));

    assert!(
        rx.try_recv().is_err(),
        "pacote sem PUSI prévio não deve ser emitido"
    );
}

#[test]
fn spec_av_001_unknown_pid_ignored() {
    let (tx, rx) = bounded::<PesPacket>(16);
    let mut assembler = PesAssembler::new(tx);

    let es_data = vec![0xCCu8; 10];
    let pes = build_pes_packet(1000, &es_data);
    assembler.push(0x0400, true, Bytes::from(pes));

    assert!(rx.try_recv().is_err(), "PID desconhecido deve ser ignorado");
}

#[test]
fn spec_av_001_pts_and_dts_decoded() {
    let (tx, rx) = bounded::<PesPacket>(16);
    let mut assembler = PesAssembler::new(tx);
    let pid: u16 = 0x0150;
    assembler.register_pid(pid, MediaCodec::Video(VideoCodec::H264));

    let pts_val = 900_000_u64;
    let dts_val = 897_000_u64;
    let es_data = vec![0x11u8; 10];

    let pes = build_pes_packet_with_dts(pts_val, dts_val, &es_data);

    assembler.push(pid, true, Bytes::from(pes));

    let dummy_header = vec![0x00u8, 0x00, 0x01, 0xE0, 0x00, 0x00, 0x80, 0x00, 0x00];
    assembler.push(pid, true, Bytes::from(dummy_header));

    let pkts: Vec<PesPacket> = rx.try_iter().collect();
    assert!(!pkts.is_empty(), "deve ter ao menos o primeiro PesPacket");
    let first = &pkts[0];
    assert_eq!(first.pts, Some(pts_val));
    assert_eq!(first.dts, Some(dts_val));
    assert_eq!(first.payload.as_ref(), es_data.as_slice());
}

#[test]
fn spec_av_001_invalid_magic_bytes_no_panic() {
    let (tx, rx) = bounded::<PesPacket>(16);
    let mut assembler = PesAssembler::new(tx);
    let pid: u16 = 0x0500;
    assembler.register_pid(pid, MediaCodec::Video(VideoCodec::H264));

    assembler.push(
        pid,
        true,
        Bytes::from_static(b"\xFF\xFF\xFF\xE0\x00\x10garbage"),
    );

    assert!(rx.try_recv().is_err(), "PES inválido não deve emitir nada");
}

#[test]
fn spec_av_001a_pts_duration_25fps_in_90khz() {
    let codec = MediaCodec::Video(VideoCodec::H264);
    let p1 = PesPacket::new(0x100, codec, Some(0), None, Bytes::new());
    let p2 = PesPacket::new(0x100, codec, Some(3_600), None, Bytes::new());
    assert_eq!(p1.pts_duration(&p2), Some(3_600));
}
