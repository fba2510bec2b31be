use bytes::Bytes;
use crossbeam_channel::bounded;
use ironplayer::av::audio::{
    buffer_capacity_samples, prime_threshold_samples, AudioFrame, AudioPlaybackState,
    AudioRingBuffer,
};
use ironplayer::av::clock::{
    audio_pts, saturated_nanos, wall_pts, AudioClockHandle, Clock, MasterClock, WallClockHandle,
};
use ironplayer::av::codec::{
    AudioCodec, CodecConfig, Descriptor, MediaCodec, ThreadType, VideoCodec,
};
use ironplayer::av::error::AvError;
use ironplayer::av::hw::adapter::AdapterInfo;
use ironplayer::av::hw::hwaccel_mode::HwAccelState;
use ironplayer::av::hw::tdr::{TdrState, TDR_RETRY_COOLDOWN};
use ironplayer::av::loas::{latm_packets, split_loas_frames};
use ironplayer::av::pes::{parse_pes_header, PesAssembler, PesPacket};
use ironplayer::av::scan_type::{
    detect_h264_scan_type, find_start_code, iter_h264_nal_units,
    remove_emulation_prevention_bytes, DeinterlaceReason, ScanType,
};
use ironplayer::av::video_queue::{
    PopResult, PushResult, VideoFrame, VideoQueue, YuvColorRange, YuvColorspace, YuvFrame,
};

fn frame(pts: u64) -> VideoFrame {
    VideoFrame::Sw(YuvFrame {
        planes: [vec![], vec![], vec![]],
        width: 2,
        height: 2,
        pts: Some(pts),
        sar_num: 1,
        sar_den: 1,
        colorspace: YuvColorspace::Unspecified,
        color_range: YuvColorRange::Limited,
        ten_bit: false,
    })
}

#[test]
fn audio_comes_out_in_any_portions() {
    let mut a = AudioRingBuffer::new(8, 0i16);
    let mut b = AudioRingBuffer::new(8, 0i16);
    assert!(a.is_empty());
    a.push(&[1, 2, 3, 4, 5]);
    b.push(&[1, 2, 3, 4, 5]);
    let mut whole = [9i16; 7];
    a.pop(&mut whole);
    assert_eq!(whole, [1, 2, 3, 4, 5, 0, 0]);
    let (mut first, mut second) = ([9i16; 3], [9i16; 4]);
    b.pop(&mut first);
    let report = b.pop_report(&mut second);
    assert_eq!((first, second), ([1, 2, 3], [4, 5, 0, 0]));
    assert_eq!((report.copied_samples, report.missing_samples), (2, 2));
}

#[test]
fn audio_latency_is_bounded() {
    let mut buf = AudioRingBuffer::new(3, 0i16);
    assert_eq!(buf.capacity(), 3);
    assert_eq!(buf.push_with_drop_oldest(&[1, 2, 3, 4, 5, 6]), 0);
    assert_eq!(buf.len(), 6);
    assert_eq!(buf.push_with_drop_oldest(&[7]), 4);
    assert_eq!(buf.level(), (3, 3));
    let mut out = [0i16; 3];
    buf.pop(&mut out);
    assert_eq!(out, [5, 6, 7]);
    let mut none = AudioRingBuffer::new(0, 0i16);
    assert!(!none.push(&[1]));
    assert!(none.is_empty());
    assert_eq!(none.level(), (0, 1));
}

#[test]
fn audio_sizes_are_exact() {
    assert_eq!(buffer_capacity_samples(48_000, 2, 100), 9_600);
    assert_eq!(buffer_capacity_samples(10, 6, 1), 6);
    assert_eq!(buffer_capacity_samples(0, 0, 1), 1);
    assert_eq!(prime_threshold_samples(0, 2), 0);
    assert_eq!(prime_threshold_samples(9_600, 2), 4_800);
    assert_eq!(prime_threshold_samples(3, 6), 6);
    assert_eq!(AudioFrame::new(48_000, 2, None, vec![0i16; 7]).frame_count(), 3);
    assert_eq!(AudioFrame::new(48_000, 0, None, vec![0i16; 7]).frame_count(), 0);
}

#[test]
fn playback_waits_again_after_an_underrun() {
    let mut p = AudioPlaybackState::new(8, 2, 0i16);
    p.push_samples(&[1, 2, 3, 4, 5]);
    let mut out = [7i16; 6];
    assert_eq!(p.pop_for_output(&mut out).missing_samples, 6);
    assert_eq!(out, [0; 6]);
    assert_eq!(p.buffer.len(), 5);
    p.push_samples(&[6]);
    assert_eq!(p.buffer_level(), (6, 8));
    assert_eq!(p.pop_for_output(&mut out).missing_samples, 0);
    assert_eq!(out, [1, 2, 3, 4, 5, 6]);
    p.push_samples(&[7, 8]);
    let mut out = [9i16; 3];
    assert_eq!(p.pop_for_output(&mut out).missing_samples, 1);
    assert!(!p.primed);
}

#[test]
fn clocks_count_exactly() {
    assert_eq!(audio_pts(48_000 * 2 - 1, 10, 48_000, 2), 10 + 89_998);
    assert_eq!(audio_pts(44_100, -5, 44_100, 1), 89_995);
    assert_eq!(audio_pts(96_000, i64::MAX, 48_000, 2), i64::MAX);
    assert_eq!(audio_pts(u64::MAX, 0, 1, 1), -1);
    assert_eq!(wall_pts(0, 7), 7);
    assert_eq!(wall_pts(1_000_000_000, 7), 90_007);
    assert_eq!(wall_pts(11_111, 0), 0);
    assert_eq!(wall_pts(11_112, 0), 1);
    assert_eq!(wall_pts(u64::MAX, i64::MAX), i64::MAX);
}

#[test]
fn wall_clocks_count_in_double_precision() {
    assert_eq!(wall_pts(700_000_000, 0), 62_999);
    assert_eq!(wall_pts(1_700_000_000, 0), 153_000);
    assert_eq!(wall_pts(u64::MAX, 0), 1_660_206_966_633_859);
    let mut state = 1u64;
    for round in 0..20_000u32 {
        state = state.wrapping_mul(6_364_136_223_846_793_005).wrapping_add(1_442_695_040_888_963_407);
        let elapsed = match round % 4 {
            0 => state >> (round % 64),
            1 => (state >> 34) * 100_000,
            2 => (state >> 33) * 11_111,
            _ => state % 5_000_000_000,
        };
        let seconds = std::time::Duration::from_nanos(elapsed).as_secs_f64();
        assert_eq!(wall_pts(elapsed, -3), (seconds * 90_000.0) as i64 - 3, "{elapsed}");
    }
}

#[test]
fn wall_clocks_stay_near_the_exact_count() {
    for whole in [0u64, 1, 59, 86_400, 31_536_000, 18_446_744_073] {
        let start = whole * 1_000_000_000;
        assert_eq!(wall_pts(start, 5), whole as i64 * 90_000 + 5);
        let mut last = wall_pts(start, 5);
        for step in 1..=700u64 {
            let elapsed = start + step * 1_000_003;
            let exact = (u128::from(elapsed) * 90_000 / 1_000_000_000) as i64 + 5;
            let shown = wall_pts(elapsed, 5);
            assert!(shown >= last && (shown - exact).abs() <= 1);
            last = shown;
        }
    }
}

#[test]
fn audio_clocks_start_at_their_anchor() {
    let clock = AudioClockHandle::new(48_000, 2, 1_234);
    assert_eq!(clock.now_pts90(), 1_234);
    let copy = clock.clone();
    copy.reset(i64::MIN);
    assert_eq!(clock.now_pts90(), i64::MIN);
    clock.reset(i64::MAX);
    assert_eq!(copy.now_pts90(), i64::MAX);
    clock.reset(-7);
    clock.samples_played.store(96_000, std::sync::atomic::Ordering::Relaxed);
    assert_eq!(copy.now_pts90(), 89_993);
    let master = MasterClock::audio(44_100, 1, -90_000);
    assert_eq!(master.now_pts90(), -90_000);
    master.reset(3);
    assert_eq!(master.now_pts90(), 3);
}

#[test]
fn more_bytes_keep_the_scan_type() {
    let with = |flags: &[u8], more: &[u8]| {
        let mut data = vec![0, 0, 1, 0x09, 0x10, 0, 0, 1, 0x67, 0x42, 0, 0x1E, 0xFB];
        data.extend_from_slice(flags);
        data.extend_from_slice(more);
        detect_h264_scan_type(&data)
    };
    for more in [&[][..], &[0x03], &[0x80, 0xFF], &[0x55, 0, 0, 1, 0x67, 0x42, 0, 0x1E, 0xFB, 0x80]] {
        assert_eq!(with(&[0x80], more), Some(ScanType::Progressive));
        assert_eq!(with(&[0x20], more), Some(ScanType::Interlaced));
        assert_eq!(with(&[0, 0], more), Some(ScanType::Interlaced));
    }
    assert_eq!(with(&[0, 0], &[0x01]), None);
}

#[test]
fn states_can_be_copied() {
    let mut accel = HwAccelState::new();
    accel.activate();
    let before = accel.clone();
    accel.fallback("x");
    assert!(before.is_active() && !accel.is_active());
    assert_eq!(accel.clone().fallback_reason(), Some("x"));
    let mut tdr = TdrState::new();
    let fresh = tdr.clone();
    tdr.signal_device_removed();
    assert!(tdr.is_recovering() && !fresh.is_recovering());
    let info = AdapterInfo { name: "a".to_string(), luid: 2, vendor_id: 3 };
    assert_eq!(info.clone(), info);
    assert_ne!(info, AdapterInfo::default());
}

#[test]
fn clocks_run_on_from_where_they_are_reset() {
    let clock = AudioClockHandle::new(48_000, 1, 0);
    let shared = AudioClockHandle::with_counter(clock.samples_counter(), 48_000, 2, 50);
    clock.samples_played.store(48_000, std::sync::atomic::Ordering::Relaxed);
    assert_eq!(shared.now_pts90(), 45_050);
    shared.reset(8);
    assert_eq!(shared.now_pts90(), 8);
    assert_eq!(clock.now_pts90(), 0);
    let wall = WallClockHandle::new(0);
    let start = std::time::Instant::now();
    while start.elapsed().as_millis() < 20 {}
    let before = wall.now_pts90();
    assert!(before >= 1_800 && before < 90_000);
    wall.reset(500_000);
    let after = wall.now_pts90();
    assert!(after >= 500_000 && after < 500_000 + 90_000);
    let far = MasterClock::wall(i64::MIN);
    assert!(far.now_pts90() >= i64::MIN && far.now_pts90() < i64::MIN + 90_000);
    far.reset(i64::MAX - 900_000);
    assert!(far.now_pts90() >= i64::MAX - 900_000);
    assert_eq!(saturated_nanos(7), 7);
    assert_eq!(saturated_nanos(u128::from(u64::MAX) + 1), u64::MAX);
}

#[test]
fn stream_types_are_of_one_kind() {
    for t in 0..=255u8 {
        let video = VideoCodec::from_stream_type(t);
        let audio = AudioCodec::from_stream_type(t);
        assert!(video.is_none() || audio.is_none());
        assert_eq!(
            MediaCodec::from_stream_type(t),
            video.map(MediaCodec::Video).or(audio.map(MediaCodec::Audio))
        );
    }
    assert_eq!(MediaCodec::from_pmt(0x06, &[Descriptor::new(0x05, b"BSSD".to_vec())]), None);
    let config = CodecConfig::cautious(12);
    assert_eq!(config.thread_count, 12);
    assert_eq!(config.thread_type, ThreadType::Auto);
    assert!(!config.skip_loop_filter && !config.flag2_fast);
}

#[test]
fn media_errors_have_their_texts() {
    for (e, text) in [
        (AvError::UnsupportedCodec { stream_type: 0x1b }, "codec não suportado: stream_type=0x1B"),
        (AvError::InvalidPes { reason: "x" }, "PES packet inválido: x"),
        (AvError::FfmpegError { code: -22 }, "erro FFmpeg: código -22"),
        (AvError::FfmpegUnavailable { message: "m".to_string() }, "FFmpeg indisponível: m"),
        (AvError::ChannelFull { pid: 256 }, "canal cheio; frame descartado no PID 256"),
        (AvError::HwInitFailed("a".to_string()), "falha na inicialização de hwaccel: a"),
        (AvError::HwDeviceRemoved("b".to_string()), "device D3D11 removido/resetado: b"),
        (AvError::Other("c".to_string()), "c"),
    ] {
        assert_eq!(e.message(), text);
    }
}

fn reason(data: &[u8]) -> &'static str {
    match parse_pes_header(data, MediaCodec::Video(VideoCodec::H264)) {
        Err(AvError::InvalidPes { reason }) => reason,
        _ => panic!("expected an error"),
    }
}

#[test]
fn bad_packet_headers_say_why() {
    assert_eq!(reason(&[0, 0, 1, 0xE0, 0]), "payload PES truncado (< 6 bytes)");
    assert_eq!(
        reason(&[0, 0, 2, 0xE0, 0, 0]),
        "magic bytes PES inválidos (esperado 0x000001)"
    );
    assert!(parse_pes_header(
        &[0, 0, 1, 0xE0, 0, 0, 0x80, 0x80, 5, 0x21, 0, 1, 0],
        MediaCodec::Video(VideoCodec::H264)
    )
    .is_err());
}

fn unbounded(fill: u8) -> Bytes {
    let mut data = vec![0, 0, 1, 0xE0, 0, 0, 0x80, 0, 0];
    data.extend_from_slice(&[fill; 4]);
    Bytes::from(data)
}

#[test]
fn streams_do_not_mix() {
    let (tx, rx) = bounded::<PesPacket>(8);
    let mut assembler = PesAssembler::new(tx);
    assembler.register_pid(1, MediaCodec::Video(VideoCodec::H264));
    assembler.register_pid(2, MediaCodec::Audio(AudioCodec::Ac3));
    assembler.push(1, true, unbounded(0x11));
    assembler.push(2, true, unbounded(0x22));
    assembler.push(1, false, Bytes::from(vec![0x33]));
    assembler.push(2, true, unbounded(0x44));
    assembler.push(1, true, unbounded(0x55));
    let packets: Vec<PesPacket> = rx.try_iter().collect();
    assert_eq!(packets.len(), 2);
    assert_eq!((packets[0].pid, packets[0].payload.as_ref()), (2, &[0x22u8; 4][..]));
    assert_eq!((packets[1].pid, packets[1].payload.as_ref()), (1, &[0x11u8, 0x11, 0x11, 0x11, 0x33][..]));
    assert_eq!(packets[0].codec, MediaCodec::Audio(AudioCodec::Ac3));
    let copy = packets[1].clone();
    assert_eq!(copy.payload, packets[1].payload);
}

#[test]
fn a_full_channel_drops_packets() {
    let (tx, rx) = bounded::<PesPacket>(1);
    let mut assembler = PesAssembler::new(tx);
    assembler.register_pid(1, MediaCodec::Video(VideoCodec::H264));
    for fill in 0..4u8 {
        assembler.push(1, true, unbounded(fill));
    }
    let packets: Vec<PesPacket> = rx.try_iter().collect();
    assert_eq!(packets.len(), 1);
    assert_eq!(packets[0].payload.as_ref(), &[0u8; 4]);
}

#[test]
fn escapes_are_undone() {
    assert_eq!(
        remove_emulation_prevention_bytes(&[0, 0, 3, 1, 0, 0, 3, 0, 0, 3, 3]),
        vec![0, 0, 1, 0, 0, 0, 0, 3]
    );
    assert_eq!(remove_emulation_prevention_bytes(&[0, 3, 0, 3]), vec![0, 3, 0, 3]);
}

#[test]
fn units_stand_between_start_codes() {
    let data = [0, 0, 1, 0x67, 1, 0, 0, 0, 1, 0x68, 2, 3];
    assert_eq!(find_start_code(&data, 0), Some(0));
    let mut units = iter_h264_nal_units(&data);
    assert_eq!(units.next(), Some(&[0x67, 1][..]));
    assert_eq!(units.next(), Some(&[0x68, 2, 3][..]));
    assert_eq!(units.next(), None);
}

#[test]
fn scan_types_have_names() {
    assert!(ScanType::Interlaced.is_interlaced() && ScanType::Interlaced.is_resolved());
    assert!(!ScanType::Unknown.is_resolved());
    assert_ne!(ScanType::Progressive.label(), ScanType::Interlaced.label());
    assert!(!DeinterlaceReason::default().label().is_empty());
}

#[test]
fn concatenated_audio_frames_are_split() {
    let mut data = Vec::new();
    for n in [1usize, 0, 5] {
        data.extend_from_slice(&[0x56, 0xE0, n as u8]);
        data.extend_from_slice(&vec![n as u8; n]);
    }
    let frames = split_loas_frames(&data);
    let lens: Vec<usize> = frames.iter().map(|f| f.len()).collect();
    assert_eq!(lens, vec![4, 3, 8]);
    assert_eq!(latm_packets(&data), frames);
    assert!(split_loas_frames(&[1, 2, 3, 4]).is_empty());
    assert_eq!(latm_packets(&[1, 2, 3, 4]), vec![&[1, 2, 3, 4][..]]);
}

#[test]
fn pictures_come_out_in_order_across_the_wrap() {
    let mut q = VideoQueue::new(8);
    let end = 1u64 << 33;
    assert_eq!(q.push(frame(end - 3_600)), PushResult::Inserted);
    assert_eq!(q.push(frame(0)), PushResult::WrapDetected);
    assert_eq!(q.push(frame(3_600)), PushResult::Inserted);
    assert_eq!(q.front_pts(), Some(end as i64 - 3_600));
    let mut shown = Vec::new();
    for k in 0..3i64 {
        match q.pop_ready(end as i64 + (k - 1) * 3_600) {
            PopResult::Ready(f) => shown.push(f.pts().unwrap()),
            other => panic!("{other:?}"),
        }
    }
    assert_eq!(shown, vec![end - 3_600, 0, 3_600]);
}

#[test]
fn recovery_attempts_are_spaced() {
    let mut s = TdrState::new();
    s.signal_device_removed();
    assert!(s.should_attempt(5));
    s.record_failure(5, "x");
    assert!(!s.should_attempt(5 + TDR_RETRY_COOLDOWN - 1));
    assert!(s.should_attempt(5 + TDR_RETRY_COOLDOWN));
    let mut h = HwAccelState::new();
    h.activate();
    h.record_failure();
    h.record_failure();
    h.record_success();
    assert!(!h.record_failure());
    assert_eq!(h.consecutive_failures(), 1);
}
