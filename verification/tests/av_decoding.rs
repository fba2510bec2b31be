use ironplayer::av::codec::{AudioCodec, CodecConfig, MediaCodec, ThreadType, VideoCodec};
use ironplayer::av::audio::AudioFrame;
use ironplayer::av::decoder::{
    DecodeAction, DecodeEvent, DecodeSession, DecodedFrame, FfmpegDecoder, HW_INIT_TIMEOUT,
};
use ironplayer::av::error::AvError;
use ironplayer::av::ffmpeg::{
    allocation_result, call_result, codec_options, hardware_config, missing_library,
    missing_symbol, packet_pts, packet_size, plan_resampling, pts_raw_to_option, receive_result,
    resampled_len, resampled_room, send_result, unknown_code_text, AVERROR_EAGAIN, AVERROR_EOF,
    AV_CODEC_ID_AAC_LATM, AV_CODEC_ID_H264, AV_PIX_FMT_D3D11, AV_PIX_FMT_NV12,
    AV_PIX_FMT_YUV420P10LE,
};
use ironplayer::av::hw::hwaccel_mode::HwAccelMode;
use ironplayer::av::hw::surface::TransferFunction;
use ironplayer::av::opening::{first_place, search_place, OpenStep, SearchPlace};
use ironplayer::av::picture::{
    compact_plane, extract_nv12_planes, extract_surface_planes, extract_yuv420p_planes,
    hardware_frame, plan_download, plan_planar, software_frame, FrameHeader, PlaneSource,
};
use ironplayer::av::video_queue::{YuvColorRange, YuvColorspace};

const H264: MediaCodec = MediaCodec::Video(VideoCodec::H264);

fn boom() -> DecodeEvent {
    DecodeEvent::Failed(AvError::FfmpegError { code: -5 })
}

fn open_software(d: &mut FfmpegDecoder, sizes: Vec<usize>) -> (DecodeSession, DecodeAction) {
    let (mut s, action) = d.begin(256, H264);
    assert!(matches!(action, DecodeAction::OpenSoftware { codec_id: AV_CODEC_ID_H264, .. }));
    let action = d.advance(&mut s, DecodeEvent::Succeeded, 0);
    assert!(matches!(action, DecodeAction::Prepare { parser: Some(AV_CODEC_ID_H264) }));
    let action = d.advance(&mut s, DecodeEvent::Succeeded, 0);
    assert!(matches!(action, DecodeAction::Split { loas: false }));
    let action = d.advance(&mut s, DecodeEvent::Packets(sizes), 0);
    (s, action)
}

#[test]
fn packets_are_sent_in_order_and_empty_ones_are_not() {
    let mut d = FfmpegDecoder::new(8, false);
    let (mut s, action) = open_software(&mut d, vec![0, 5, 0, 7, 0]);
    assert!(matches!(action, DecodeAction::Send { index: 1 }));
    assert!(matches!(d.advance(&mut s, DecodeEvent::Rejected, 0), DecodeAction::Send { index: 3 }));
    assert!(matches!(d.advance(&mut s, DecodeEvent::Succeeded, 0), DecodeAction::Receive));
    let action = d.advance(&mut s, DecodeEvent::NoFrame, 0);
    assert!(matches!(action, DecodeAction::Finish { close: false }));
    let (_, action) = d.begin(256, H264);
    assert!(matches!(action, DecodeAction::Split { loas: false }));
    d.reset();
    let (_, action) = d.begin(256, H264);
    assert!(matches!(action, DecodeAction::OpenSoftware { .. }));
}

#[test]
fn decoders_can_be_asked() {
    let config = CodecConfig { thread_count: 3, ..CodecConfig::cautious(8) };
    let mut d = FfmpegDecoder::new_with_config(config, false);
    assert_eq!(d.threads_used(), 3);
    assert_eq!(FfmpegDecoder::new(8, true).threads_used(), 8);
    assert_eq!(d.hwaccel_mode(), &HwAccelMode::Off);
    assert_eq!(d.hw_frame_pool_in_use(), 0);
    let _ = open_hardware(&mut d, 0);
    assert_eq!(d.hw_frame_pool_in_use(), 1);
    assert_eq!(d.hwaccel_mode(), &HwAccelMode::D3d11Va);
    d.fallback_to_sw("x");
    assert_eq!(d.hw_frame_pool_in_use(), 0);
    d.reset_with_hw_state();
    assert!(d.is_hwaccel_active());
    assert_eq!(d.fallback_reason(), None);
    assert_eq!(d.hw_decode_codec(), None);
}

#[test]
fn interlaced_software_frames_are_filtered() {
    let mut d = FfmpegDecoder::new_with_config(CodecConfig::cautious(8), true);
    let (mut s, _) = open_software(&mut d, vec![5]);
    assert!(!d.has_deinterlacer_active());
    d.advance(&mut s, DecodeEvent::Succeeded, 0);
    let interlaced = || DecodeEvent::Frame { hw: false, interlaced: true };
    let action = d.advance(&mut s, interlaced(), 0);
    assert!(matches!(action, DecodeAction::Deinterlace { create: true }));
    assert!(d.has_deinterlacer_active());
    let action = d.advance(&mut s, DecodeEvent::Filtered { output: true }, 0);
    assert!(matches!(action, DecodeAction::ExtractPicture { deinterlaced: true }));
    assert!(matches!(d.advance(&mut s, DecodeEvent::Succeeded, 0), DecodeAction::Receive));
    let action = d.advance(&mut s, interlaced(), 0);
    assert!(matches!(action, DecodeAction::Deinterlace { create: false }));
    let action = d.advance(&mut s, boom(), 0);
    assert!(matches!(action, DecodeAction::ExtractPicture { deinterlaced: false }));
}

#[test]
fn progressive_frames_are_not_filtered() {
    let mut d = FfmpegDecoder::new_with_config(CodecConfig::cautious(8), true);
    let (mut s, _) = open_software(&mut d, vec![5]);
    d.advance(&mut s, DecodeEvent::Succeeded, 0);
    let action = d.advance(&mut s, DecodeEvent::Frame { hw: false, interlaced: false }, 0);
    assert!(matches!(action, DecodeAction::ExtractPicture { deinterlaced: false }));
    let action = d.advance(&mut s, boom(), 0);
    assert!(matches!(action, DecodeAction::Fail(AvError::FfmpegError { code: -5 })));
}

fn open_hardware(d: &mut FfmpegDecoder, now: u64) -> DecodeSession {
    d.enable_hwaccel(HwAccelMode::D3d11Va).unwrap();
    let (mut s, action) = d.begin(256, H264);
    match action {
        DecodeAction::OpenHardware { codec_id, config } => {
            assert_eq!(codec_id, AV_CODEC_ID_H264);
            assert_eq!(config.thread_count, 1);
        }
        _ => panic!("expected a hardware decoder"),
    }
    d.advance(&mut s, DecodeEvent::Succeeded, now);
    assert_eq!(d.hw_decode_codec(), Some("h264_d3d11va"));
    d.advance(&mut s, DecodeEvent::Succeeded, now);
    d.advance(&mut s, DecodeEvent::Packets(vec![9]), now);
    d.advance(&mut s, DecodeEvent::Succeeded, now);
    s
}

#[test]
fn a_hardware_decoder_that_does_not_open_is_replaced() {
    let mut d = FfmpegDecoder::new(8, false);
    d.enable_hwaccel(HwAccelMode::D3d11Va).unwrap();
    let (mut s, _) = d.begin(256, H264);
    let action = d.advance(&mut s, boom(), 0);
    assert!(matches!(action, DecodeAction::OpenSoftware { .. }));
    assert!(!d.is_hwaccel_active());
    assert_eq!(d.fallback_reason(), Some("hwaccel init: erro FFmpeg: código -5"));
}

#[test]
fn interlaced_hardware_frames_lead_to_software() {
    let mut d = FfmpegDecoder::new(8, false);
    let mut s = open_hardware(&mut d, 0);
    let action = d.advance(&mut s, DecodeEvent::Frame { hw: true, interlaced: true }, 0);
    assert!(matches!(action, DecodeAction::Finish { close: true }));
    assert_eq!(d.fallback_reason(), Some("frame HW interlaced requer bwdif SW"));
    let (_, action) = d.begin(256, H264);
    assert!(matches!(action, DecodeAction::OpenSoftware { .. }));
}

#[test]
fn hardware_frames_are_copied_or_downloaded() {
    let mut d = FfmpegDecoder::new(8, false);
    let mut s = open_hardware(&mut d, 0);
    let action = d.advance(&mut s, DecodeEvent::Frame { hw: true, interlaced: false }, 0);
    assert!(matches!(action, DecodeAction::CopySurface));
    let action = d.advance(&mut s, boom(), 0);
    assert!(matches!(action, DecodeAction::DownloadSurface));
    assert!(matches!(d.advance(&mut s, DecodeEvent::Succeeded, 0), DecodeAction::Receive));
    let action = d.advance(&mut s, DecodeEvent::NoFrame, HW_INIT_TIMEOUT * 2);
    assert!(matches!(action, DecodeAction::Finish { close: false }));
    assert!(d.is_hwaccel_active());
}

#[test]
fn hardware_that_stays_silent_is_given_up() {
    let mut d = FfmpegDecoder::new(8, false);
    let mut s = open_hardware(&mut d, 100);
    let action = d.advance(&mut s, DecodeEvent::NoFrame, 100 + HW_INIT_TIMEOUT + 1);
    assert!(matches!(action, DecodeAction::Finish { close: true }));
    assert_eq!(d.fallback_reason(), Some("timeout HW init (2 s)"));
    let mut d = FfmpegDecoder::new(8, false);
    let mut s = open_hardware(&mut d, 100);
    let action = d.advance(&mut s, DecodeEvent::NoFrame, 100 + HW_INIT_TIMEOUT);
    assert!(matches!(action, DecodeAction::Finish { close: false }));
}

#[test]
fn audio_is_decoded_in_software() {
    let mut d = FfmpegDecoder::new(8, false);
    d.enable_hwaccel(HwAccelMode::D3d11Va).unwrap();
    let (mut s, action) = d.begin(257, MediaCodec::Audio(AudioCodec::AacLatm));
    assert!(matches!(action, DecodeAction::OpenSoftware { codec_id: AV_CODEC_ID_AAC_LATM, .. }));
    let action = d.advance(&mut s, DecodeEvent::Succeeded, 0);
    assert!(matches!(action, DecodeAction::Prepare { parser: None }));
    let action = d.advance(&mut s, DecodeEvent::Succeeded, 0);
    assert!(matches!(action, DecodeAction::Split { loas: true }));
    let action = d.advance(&mut s, DecodeEvent::Packets(vec![0]), 0);
    assert!(matches!(action, DecodeAction::Send { index: 0 }));
    d.advance(&mut s, DecodeEvent::Succeeded, 0);
    let action = d.advance(&mut s, DecodeEvent::Frame { hw: false, interlaced: false }, 0);
    assert!(matches!(action, DecodeAction::ExtractAudio));
    assert!(matches!(d.advance(&mut s, DecodeEvent::NoFrame, 0), DecodeAction::Broken));
}

#[test]
fn libraries_are_looked_for_in_order() {
    assert_eq!(search_place(0), Some(SearchPlace::Environment));
    assert_eq!(search_place(3), Some(SearchPlace::WorkingSubdirectory));
    assert_eq!(search_place(9), Some(SearchPlace::Above(4)));
    assert_eq!(search_place(10), None);
    assert_eq!(first_place(&[false, false, true, true]), Some(SearchPlace::Program));
    assert_eq!(first_place(&[false; 10]), None);
}

#[test]
fn decoders_are_opened_step_by_step() {
    let steps = |hardware: bool| {
        let mut steps = vec![OpenStep::FindCodec];
        while let Some(next) = steps[steps.len() - 1].advance(hardware, 27, 0).unwrap() {
            steps.push(next);
        }
        steps
    };
    assert_eq!(
        steps(false),
        vec![OpenStep::FindCodec, OpenStep::AllocateContext, OpenStep::Open]
    );
    assert_eq!(steps(true).len(), 5);
    assert_eq!(
        OpenStep::FindCodec.advance(false, 27, -1).unwrap_err().message(),
        "FFmpeg indisponível: codec id=27 não encontrado no FFmpeg"
    );
    assert_eq!(
        OpenStep::FindCodec.advance(true, 27, -1).unwrap_err().message(),
        "FFmpeg indisponível: codec id=27 não encontrado para hwaccel"
    );
    for (step, code) in [
        (OpenStep::AllocateContext, -12),
        (OpenStep::CreateDevice, -40),
        (OpenStep::ReferDevice, -12),
        (OpenStep::Open, -40),
    ] {
        assert_eq!(
            step.advance(true, 27, -40).unwrap_err().message(),
            format!("erro FFmpeg: código {code}")
        );
    }
    assert!(OpenStep::ReferDevice.leaves_device() && !OpenStep::Open.leaves_device());
    assert!(OpenStep::CreateDevice.leaves_context() && !OpenStep::AllocateContext.leaves_context());
}

#[test]
fn results_of_the_decoder_are_told_apart() {
    assert!(send_result(0).is_ok() && send_result(AVERROR_EAGAIN).is_ok());
    assert!(matches!(send_result(-1), Err(AvError::FfmpegError { code: -1 })));
    assert_eq!(receive_result(0).unwrap(), true);
    assert_eq!(receive_result(AVERROR_EOF).unwrap(), false);
    assert!(receive_result(-1).is_err());
    assert!(call_result(3).is_ok() && call_result(-3).is_err());
    assert!(matches!(allocation_result(0, false), Err(AvError::FfmpegError { code: -12 })));
    assert!(matches!(allocation_result(-9, false), Err(AvError::FfmpegError { code: -9 })));
    assert!(allocation_result(0, true).is_ok());
}

#[test]
fn audio_is_resampled_within_bounds() {
    assert_eq!(plan_resampling(1024, 48_000, 6).unwrap(), 2);
    assert!(plan_resampling(0, 48_000, 6).is_err());
    assert_eq!(resampled_room(10, 1024).unwrap(), 1024);
    assert_eq!(resampled_room(0, 0).unwrap(), 1);
    assert!(resampled_room(-5, 10).is_err());
    assert_eq!(resampled_len(1024, 2).unwrap(), 2048);
    assert!(resampled_len(-1, 2).is_err());
}

#[test]
fn times_pass_through_the_decoder() {
    for t in [0u64, 90_000, (1 << 33) - 1] {
        assert_eq!(pts_raw_to_option(packet_pts(Some(t))), Some(t));
    }
    assert_eq!(pts_raw_to_option(packet_pts(None)), None);
    assert_eq!(packet_size(188).unwrap(), 188);
    assert!(packet_size(1 << 31).is_err());
}

#[test]
fn options_follow_the_configuration() {
    let config = CodecConfig {
        thread_count: 4,
        thread_type: ThreadType::Slice,
        skip_loop_filter: true,
        flag2_fast: true,
    };
    let text = |hardware: bool| {
        codec_options(&config, hardware)
            .iter()
            .map(|o| format!("{}={}", o.key, o.value))
            .collect::<Vec<String>>()
            .join(",")
    };
    assert_eq!(text(false), "threads=4,thread_type=slice,skip_loop_filter=noref,flags2=+fast");
    assert_eq!(text(true), "threads=4,thread_type=slice,skip_loop_filter=noref");
    assert_eq!(hardware_config(&config).thread_count, 1);
    assert_eq!(
        missing_library("libavutil", "gone").message(),
        "FFmpeg indisponível: falha ao carregar libavutil: gone"
    );
    assert_eq!(
        missing_symbol("av_free", "gone").message(),
        "FFmpeg indisponível: símbolo 'av_free' não encontrado: gone"
    );
    assert_eq!(unknown_code_text(-7), "código -7");
}

fn header(format: i32) -> FrameHeader {
    FrameHeader {
        width: 4,
        height: 2,
        nb_samples: 0,
        format,
        sar_num: 0,
        sar_den: 1,
        pts: 9,
        sample_rate: 0,
        flags: 0,
        color_range: 2,
        color_trc: 16,
        colorspace: 9,
        channels: 0,
    }
}

#[test]
fn planes_lose_their_padding() {
    assert_eq!(compact_plane(&[1, 2, 9, 3, 4], 3, 2, 2), vec![1, 2, 3, 4]);
    let y = PlaneSource { data: &[1, 2, 3, 4, 0, 5, 6, 7, 8], stride: 5 };
    let u = PlaneSource { data: &[10, 11], stride: 2 };
    let v = PlaneSource { data: &[20, 21], stride: 2 };
    let layout = plan_planar(&header(0)).unwrap();
    let planes = extract_yuv420p_planes(y, u, v, &layout);
    assert_eq!(planes, [vec![1, 2, 3, 4, 5, 6, 7, 8], vec![10, 11], vec![20, 21]]);
    let uv = PlaneSource { data: &[10, 20, 11, 21], stride: 4 };
    let layout = plan_download(&header(AV_PIX_FMT_NV12)).unwrap();
    assert_eq!(extract_nv12_planes(y, uv, &layout), planes);
    let nv = extract_surface_planes(y, uv, 4, 2, false).unwrap();
    assert_eq!((nv.y_data.len(), nv.uv_data), (8, vec![10, 20, 11, 21]));
    assert!(extract_surface_planes(y, uv, 0, 2, false).is_err());
}

#[test]
fn pictures_keep_what_their_frame_says() {
    assert!(plan_planar(&header(AV_PIX_FMT_YUV420P10LE)).unwrap().ten_bit);
    assert!(plan_planar(&header(AV_PIX_FMT_NV12)).is_err());
    assert!(plan_download(&header(AV_PIX_FMT_YUV420P10LE)).is_err());
    assert!(header(AV_PIX_FMT_D3D11).is_hw() && !header(0).is_hw());
    let f = software_frame(&header(0), [vec![1], vec![2], vec![3]], false);
    assert_eq!((f.width, f.height, f.pts), (4, 2, Some(9)));
    assert_eq!((f.sar_num, f.sar_den), (1, 1));
    assert_eq!(f.colorspace, YuvColorspace::Bt2020);
    assert_eq!(f.color_range, YuvColorRange::Full);
    let copy = f.clone();
    assert_eq!(copy.planes, f.planes);
    let decoded: DecodedFrame<i16> = DecodedFrame::Video(copy.into());
    assert!(decoded.is_video() && !decoded.is_audio());
    assert_eq!(decoded.pts(), Some(9));
    let decoded = DecodedFrame::Audio(AudioFrame::new(48_000, 2, Some(5), vec![0i16]));
    assert!(decoded.is_audio() && !decoded.is_video());
    assert_eq!(decoded.pts(), Some(5));
    let y = PlaneSource { data: &[1], stride: 1 };
    let planes = extract_surface_planes(y, PlaneSource { data: &[1], stride: 1 }, 1, 1, false);
    let h = hardware_frame(&header(AV_PIX_FMT_D3D11), planes.unwrap(), 1, 1);
    assert_eq!(h.transfer, TransferFunction::Pq);
    assert_eq!((h.width, h.height), (1, 1));
}
