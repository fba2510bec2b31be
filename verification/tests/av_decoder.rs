use ironplayer::av::codec::{AudioCodec, MediaCodec, VideoCodec};
use ironplayer::av::decoder::FfmpegDecoder;
use ironplayer::av::ffmpeg::{
    codec_to_avid, hw_codec_label, pts_raw_to_option, resolve_audio_pts, AV_CODEC_ID_AAC,
    AV_CODEC_ID_AAC_LATM, AV_CODEC_ID_AC3, AV_CODEC_ID_EAC3, AV_CODEC_ID_H264, AV_CODEC_ID_HEVC,
    AV_CODEC_ID_MP2, AV_CODEC_ID_MPEG2VIDEO,
};
use ironplayer::av::hw::hwaccel_mode::HwAccelMode;
use ironplayer::av::loas::split_loas_frames;

fn dummy_decoder() -> Option<FfmpegDecoder> {
    Some(FfmpegDecoder::new(1, false))
}

#[test]
fn spec_av_002b_pts_raw_to_option_nopts() {
    assert_eq!(pts_raw_to_option(i64::MIN), None);
}

#[test]
fn spec_av_002b_pts_raw_to_option_valid() {
    assert_eq!(pts_raw_to_option(90_000), Some(90_000u64));
    assert_eq!(pts_raw_to_option(0), Some(0u64));
}

#[test]
fn spec_av_002b_resolve_audio_pts_falls_back_to_packet() {
    assert_eq!(
        resolve_audio_pts(i64::MIN, Some(4_875_238_029), Some(99)),
        Some(4_875_238_029)
    );
    assert_eq!(
        resolve_audio_pts(i64::MIN, None, Some(4_875_238_029)),
        Some(4_875_238_029)
    );
    assert_eq!(resolve_audio_pts(123, Some(456), Some(789)), Some(123));
}

#[test]
fn spec_av_002b_codec_to_avid_all_codecs() {
    assert_eq!(
        codec_to_avid(MediaCodec::Video(VideoCodec::H264)).unwrap(),
        AV_CODEC_ID_H264
    );
    assert_eq!(
        codec_to_avid(MediaCodec::Video(VideoCodec::Hevc)).unwrap(),
        AV_CODEC_ID_HEVC
    );
    assert_eq!(
        codec_to_avid(MediaCodec::Video(VideoCodec::Mpeg2)).unwrap(),
        AV_CODEC_ID_MPEG2VIDEO
    );
    assert_eq!(
        codec_to_avid(MediaCodec::Audio(AudioCodec::AacAdts)).unwrap(),
        AV_CODEC_ID_AAC
    );
    assert_eq!(
        codec_to_avid(MediaCodec::Audio(AudioCodec::AacLatm)).unwrap(),
        AV_CODEC_ID_AAC_LATM
    );
    assert_eq!(
        codec_to_avid(MediaCodec::Audio(AudioCodec::Ac3)).unwrap(),
        AV_CODEC_ID_AC3
    );
    assert_eq!(
        codec_to_avid(MediaCodec::Audio(AudioCodec::Eac3)).unwrap(),
        AV_CODEC_ID_EAC3
    );
    assert_eq!(
        codec_to_avid(MediaCodec::Audio(AudioCodec::Mp2)).unwrap(),
        AV_CODEC_ID_MP2
    );
}

#[test]
fn spec_av_002b_split_loas_empty_input() {
    let frames = split_loas_frames(&[]);
    assert!(frames.is_empty());
}

#[test]
fn spec_av_002b_split_loas_no_sync_word() {
    let data = [0x00u8; 64];
    let frames = split_loas_frames(&data);
    assert!(frames.is_empty());
}

#[test]
fn spec_av_002b_split_loas_single_frame() {
    let mut data = vec![0x00u8; 1027];
    data[0] = 0x56;
    data[1] = 0xE4;
    data[2] = 0x00;

    let frames = split_loas_frames(&data);
    assert_eq!(frames.len(), 1);
    assert_eq!(frames[0].len(), 1027);
    assert_eq!(frames[0][0], 0x56);
}

#[test]
fn spec_av_002b_split_loas_two_frames() {
    let len_a = 8112usize;
    let len_b = 8191usize;
    let mut data = vec![0x00u8; len_a + len_b];

    data[0] = 0x56;
    data[1] = 0xE0 | ((((len_a - 3) >> 8) & 0x1F) as u8);
    data[2] = ((len_a - 3) & 0xFF) as u8;

    data[len_a] = 0x56;
    data[len_a + 1] = 0xE0 | ((((len_b - 3) >> 8) & 0x1F) as u8);
    data[len_a + 2] = ((len_b - 3) & 0xFF) as u8;

    let frames = split_loas_frames(&data);
    assert_eq!(frames.len(), 2, "esperava 2 frames LOAS");
    assert_eq!(frames[0].len(), len_a, "frame A tamanho incorreto");
    assert_eq!(frames[1].len(), len_b, "frame B tamanho incorreto");
}

#[test]
fn spec_av_002b_split_loas_truncated_frame() {
    let length: usize = 500;
    let mut data = vec![0x00u8; 3 + 100];
    data[0] = 0x56;
    data[1] = 0xE0 | (((length >> 8) & 0x1F) as u8);
    data[2] = (length & 0xFF) as u8;

    let frames = split_loas_frames(&data);
    assert!(frames.is_empty(), "frame truncado não deve ser emitido");
}

#[test]
fn spec_av_002b_split_loas_leading_padding() {
    let frame_len = 100usize;
    let total = 5 + 3 + frame_len;
    let mut data = vec![0xFFu8; total];
    data[5] = 0x56;
    data[6] = 0xE0 | (((frame_len >> 8) & 0x1F) as u8);
    data[7] = (frame_len & 0xFF) as u8;

    let frames = split_loas_frames(&data);
    assert_eq!(frames.len(), 1);
    assert_eq!(frames[0].len(), 3 + frame_len);
}

#[test]
fn spec_av_hw_dec_001_decoder_starts_in_cpu_mode() {
    let Some(d) = dummy_decoder() else {
        return;
    };
    assert!(matches!(d.hwaccel_mode(), HwAccelMode::Off));
    assert!(!d.is_hwaccel_active());
    assert!(d.fallback_reason().is_none());
}

#[test]
fn spec_av_hw_dec_001_enable_off_idempotent() {
    let Some(mut d) = dummy_decoder() else {
        return;
    };
    d.enable_hwaccel(HwAccelMode::Off).unwrap();
    assert!(!d.is_hwaccel_active());
    assert!(d.fallback_reason().is_none());
}

#[test]
fn spec_av_hw_dec_001_three_failures_signal_fallback() {
    let Some(mut d) = dummy_decoder() else {
        return;
    };
    assert!(!d.record_hw_failure());
    assert!(!d.record_hw_failure());
    assert!(d.record_hw_failure(), "3ª falha deve disparar fallback");
    d.fallback_to_sw("simulated");
    assert!(!d.is_hwaccel_active());
    assert_eq!(d.fallback_reason(), Some("simulated"));
}

#[test]
fn spec_av_hw_dec_001_fallback_preserves_first_reason() {
    let Some(mut d) = dummy_decoder() else {
        return;
    };
    d.fallback_to_sw("driver ausente");
    d.fallback_to_sw("outra causa");
    assert_eq!(d.fallback_reason(), Some("driver ausente"));
}

#[test]
fn spec_av_hw_dec_001_hw_codec_labels_are_stable() {
    assert_eq!(
        hw_codec_label(MediaCodec::Video(VideoCodec::Mpeg2)),
        Some("mpeg2video_d3d11va")
    );
    assert_eq!(
        hw_codec_label(MediaCodec::Video(VideoCodec::H264)),
        Some("h264_d3d11va")
    );
    assert_eq!(
        hw_codec_label(MediaCodec::Video(VideoCodec::Hevc)),
        Some("hevc_d3d11va")
    );
    assert_eq!(hw_codec_label(MediaCodec::Audio(AudioCodec::Mp2)), None);
}
