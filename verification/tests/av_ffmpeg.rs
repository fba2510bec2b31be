use ironplayer::av::error::AvError;
use ironplayer::av::ffmpeg::{
    normalize_audio_params, output_channels_for_input, AVERROR_EAGAIN, AVERROR_EOF,
    AV_CODEC_ID_AAC, AV_CODEC_ID_AAC_LATM, AV_CODEC_ID_AC3, AV_CODEC_ID_EAC3, AV_CODEC_ID_H264,
    AV_CODEC_ID_HEVC, AV_CODEC_ID_MP2, AV_CODEC_ID_MPEG2VIDEO,
};
use ironplayer::av::picture::FrameHeader;

#[test]
fn spec_av_002b_normalize_audio_params_validates_values() {
    assert_eq!(normalize_audio_params(48_000, 2).unwrap(), (48_000, 2));
    assert!(matches!(
        normalize_audio_params(0, 2),
        Err(AvError::FfmpegError { code: -22 })
    ));
    assert!(matches!(
        normalize_audio_params(48_000, 0),
        Err(AvError::FfmpegError { code: -22 })
    ));
}

#[test]
fn spec_av_002b_output_channels_for_input_downmixes_multichannel() {
    assert_eq!(output_channels_for_input(1), 1);
    assert_eq!(output_channels_for_input(2), 2);
    assert_eq!(output_channels_for_input(6), 2);
    assert_eq!(output_channels_for_input(8), 2);
}

#[test]
fn spec_av_002b_audio_frame_metadata_offsets_match_ffmpeg_8_layout() {
    let mut frame = vec![0u8; 416];
    frame[180..184].copy_from_slice(&48_000i32.to_le_bytes());
    frame[388..392].copy_from_slice(&2i32.to_le_bytes());

    let header = FrameHeader::parse(&frame).unwrap();
    let (sample_rate, channels) = (header.sample_rate, header.channels);

    assert_eq!(sample_rate, 48_000);
    assert_eq!(channels, 2);
}

#[test]
fn spec_av_002b_codec_id_constants() {
    assert_eq!(AV_CODEC_ID_MPEG2VIDEO, 2);
    assert_eq!(AV_CODEC_ID_H264, 27);
    assert_eq!(AV_CODEC_ID_HEVC, 173);
    assert_eq!(AV_CODEC_ID_MP2, 0x15000);
    assert_eq!(AV_CODEC_ID_AAC, 0x15002);
    assert_eq!(AV_CODEC_ID_AC3, 0x15003);
    assert_eq!(AV_CODEC_ID_EAC3, 0x15028);
    assert_eq!(AV_CODEC_ID_AAC_LATM, 0x15031);
}

#[test]
fn spec_av_002b_averror_eof_value() {
    assert_eq!(AVERROR_EOF, -541_478_725_i32);
}

#[test]
fn spec_av_002b_averror_eagain_value() {
    assert_eq!(AVERROR_EAGAIN, -11);
}
