use ironplayer::av::codec::{AudioCodec, Descriptor, MediaCodec, PmtStream, VideoCodec};

#[test]
fn spec_av_002a_video_codec_from_stream_type() {
    assert_eq!(VideoCodec::from_stream_type(0x02), Some(VideoCodec::Mpeg2));
    assert_eq!(VideoCodec::from_stream_type(0x1B), Some(VideoCodec::H264));
    assert_eq!(VideoCodec::from_stream_type(0x24), Some(VideoCodec::Hevc));
}

#[test]
fn spec_av_002a_video_codec_unknown_returns_none() {
    assert_eq!(VideoCodec::from_stream_type(0x00), None);
    assert_eq!(VideoCodec::from_stream_type(0x0F), None);
    assert_eq!(VideoCodec::from_stream_type(0x81), None);
    assert_eq!(VideoCodec::from_stream_type(0xFF), None);
}

#[test]
fn spec_av_002a_audio_codec_from_stream_type() {
    assert_eq!(AudioCodec::from_stream_type(0x03), Some(AudioCodec::Mp2));
    assert_eq!(AudioCodec::from_stream_type(0x04), Some(AudioCodec::Mp2));
    assert_eq!(
        AudioCodec::from_stream_type(0x0F),
        Some(AudioCodec::AacAdts)
    );
    assert_eq!(
        AudioCodec::from_stream_type(0x11),
        Some(AudioCodec::AacLatm)
    );
    assert_eq!(AudioCodec::from_stream_type(0x81), Some(AudioCodec::Ac3));
    assert_eq!(AudioCodec::from_stream_type(0x87), Some(AudioCodec::Eac3));
}

#[test]
fn spec_av_002a_audio_codec_unknown_returns_none() {
    assert_eq!(AudioCodec::from_stream_type(0x00), None);
    assert_eq!(AudioCodec::from_stream_type(0x02), None);
    assert_eq!(AudioCodec::from_stream_type(0x1B), None);
    assert_eq!(AudioCodec::from_stream_type(0xFF), None);
}

#[test]
fn spec_av_002a_audio_codec_private_stream_uses_descriptors() {
    assert_eq!(
        AudioCodec::from_pmt(0x06, &[Descriptor::new(0x6A, vec![])]),
        Some(AudioCodec::Ac3)
    );
    assert_eq!(
        AudioCodec::from_pmt(0x06, &[Descriptor::new(0x7A, vec![])]),
        Some(AudioCodec::Eac3)
    );
    assert_eq!(
        AudioCodec::from_pmt(0x06, &[Descriptor::new(0x7C, vec![0x11, 0x90, 0x00])]),
        Some(AudioCodec::AacLatm)
    );
}

#[test]
fn spec_av_002a_audio_codec_private_stream_uses_registration_descriptor() {
    assert_eq!(
        AudioCodec::from_pmt(0x06, &[Descriptor::new(0x05, b"AC-3".to_vec())]),
        Some(AudioCodec::Ac3)
    );
    assert_eq!(
        AudioCodec::from_pmt(0x06, &[Descriptor::new(0x05, b"EAC3".to_vec())]),
        Some(AudioCodec::Eac3)
    );
}

#[test]
fn spec_av_002c_media_codec_video_routes() {
    assert_eq!(
        MediaCodec::from_stream_type(0x1B),
        Some(MediaCodec::Video(VideoCodec::H264))
    );
    assert_eq!(
        MediaCodec::from_stream_type(0x24),
        Some(MediaCodec::Video(VideoCodec::Hevc))
    );
}

#[test]
fn spec_av_002c_media_codec_audio_routes() {
    assert_eq!(
        MediaCodec::from_stream_type(0x81),
        Some(MediaCodec::Audio(AudioCodec::Ac3))
    );
    assert_eq!(
        MediaCodec::from_stream_type(0x87),
        Some(MediaCodec::Audio(AudioCodec::Eac3))
    );
}

#[test]
fn spec_av_002c_media_codec_unsupported_returns_none() {
    assert_eq!(MediaCodec::from_stream_type(0x06), None);
    assert_eq!(MediaCodec::from_stream_type(0xFF), None);
}

#[test]
fn spec_av_002c_media_codec_from_pmt_stream_supports_private_audio() {
    let stream = PmtStream {
        stream_type: 0x06,
        elementary_pid: 0x0120,
        descriptors: vec![Descriptor::new(0x6A, vec![])],
    };

    assert_eq!(
        MediaCodec::from_pmt_stream(&stream),
        Some(MediaCodec::Audio(AudioCodec::Ac3))
    );
}
