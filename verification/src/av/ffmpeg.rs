use vstd::prelude::*;
use vstd::string::StringExecFns;

use crate::av::codec::{AudioCodec, CodecConfig, MediaCodec, ThreadType, VideoCodec};
use crate::av::error::AvError;
use crate::text::{decimal, push_decimal, push_signed, signed_decimal};

verus! {

/// Codec identifiers of the decoder library.
pub const AV_CODEC_ID_MPEG2VIDEO: u32 = 2;

pub const AV_CODEC_ID_H264: u32 = 27;

pub const AV_CODEC_ID_HEVC: u32 = 173;

pub const AV_CODEC_ID_MP2: u32 = 0x15000;

pub const AV_CODEC_ID_AAC: u32 = 0x15002;

pub const AV_CODEC_ID_AC3: u32 = 0x15003;

pub const AV_CODEC_ID_EAC3: u32 = 0x15028;

pub const AV_CODEC_ID_AAC_LATM: u32 = 0x15031;

/// Pixel formats of the decoder library.
pub const AV_PIX_FMT_YUV420P: i32 = 0;

pub const AV_PIX_FMT_NV12: i32 = 23;

pub const AV_PIX_FMT_YUV420P10LE: i32 = 63;

pub const AV_PIX_FMT_D3D11: i32 = 224;

/// Sample format of interleaved 32-bit floats.
pub const AV_SAMPLE_FMT_FLT: i32 = 3;

pub const AV_SAMPLE_FMT_S16P: i32 = 6;

pub const AV_SAMPLE_FMT_FLTP: i32 = 8;

/// More input is needed before there is output.
pub const AVERROR_EAGAIN: i32 = -11;

/// The end of the stream.
pub const AVERROR_EOF: i32 = -541_478_725;

/// Out of memory.
pub const AVERROR_ENOMEM: i32 = -12;

/// An invalid argument.
pub const AVERROR_EINVAL: i32 = -22;

/// Frame flag of interlaced pictures.
pub const AV_FRAME_FLAG_INTERLACED: i32 = 1;

/// Hardware device type of Direct3D 11 video acceleration.
pub const AV_HWDEVICE_TYPE_D3D11VA: i32 = 7;

/// Colour range code of full range pictures.
pub const AV_COL_RANGE_JPEG: i32 = 2;

/// The decoder library's identifier of a codec.
pub open spec fn avid_of(codec: MediaCodec) -> u32 {
    match codec {
        MediaCodec::Video(VideoCodec::H264) => AV_CODEC_ID_H264,
        MediaCodec::Video(VideoCodec::Hevc) => AV_CODEC_ID_HEVC,
        MediaCodec::Video(VideoCodec::Mpeg2) => AV_CODEC_ID_MPEG2VIDEO,
        MediaCodec::Audio(AudioCodec::AacAdts) => AV_CODEC_ID_AAC,
        MediaCodec::Audio(AudioCodec::AacLatm) => AV_CODEC_ID_AAC_LATM,
        MediaCodec::Audio(AudioCodec::Ac3) => AV_CODEC_ID_AC3,
        MediaCodec::Audio(AudioCodec::Eac3) => AV_CODEC_ID_EAC3,
        MediaCodec::Audio(AudioCodec::Mp2) => AV_CODEC_ID_MP2,
    }
}

/// The decoder library's identifier of a codec; every codec has one.
pub fn codec_to_avid(codec: MediaCodec) -> (r: Result<u32, AvError>)
    ensures
        r == Ok::<u32, AvError>(avid_of(codec)),
{
    match codec {
        MediaCodec::Video(VideoCodec::H264) => Ok(AV_CODEC_ID_H264),
        MediaCodec::Video(VideoCodec::Hevc) => Ok(AV_CODEC_ID_HEVC),
        MediaCodec::Video(VideoCodec::Mpeg2) => Ok(AV_CODEC_ID_MPEG2VIDEO),
        MediaCodec::Audio(AudioCodec::AacAdts) => Ok(AV_CODEC_ID_AAC),
        MediaCodec::Audio(AudioCodec::AacLatm) => Ok(AV_CODEC_ID_AAC_LATM),
        MediaCodec::Audio(AudioCodec::Ac3) => Ok(AV_CODEC_ID_AC3),
        MediaCodec::Audio(AudioCodec::Eac3) => Ok(AV_CODEC_ID_EAC3),
        MediaCodec::Audio(AudioCodec::Mp2) => Ok(AV_CODEC_ID_MP2),
    }
}

/// No two codecs share an identifier.
pub proof fn law_codec_identifiers_are_distinct(a: MediaCodec, b: MediaCodec)
    requires
        avid_of(a) == avid_of(b),
    ensures
        a == b,
{
}

/// The name of a codec's hardware decoder; audio has none.
pub fn hw_codec_label(codec: MediaCodec) -> (r: Option<&'static str>)
    ensures
        match codec {
            MediaCodec::Video(VideoCodec::Mpeg2) => r matches Some(s) && s@
                == "mpeg2video_d3d11va"@,
            MediaCodec::Video(VideoCodec::H264) => r matches Some(s) && s@ == "h264_d3d11va"@,
            MediaCodec::Video(VideoCodec::Hevc) => r matches Some(s) && s@ == "hevc_d3d11va"@,
            MediaCodec::Audio(_) => r is None,
        },
{
    match codec {
        MediaCodec::Video(VideoCodec::Mpeg2) => Some("mpeg2video_d3d11va"),
        MediaCodec::Video(VideoCodec::H264) => Some("h264_d3d11va"),
        MediaCodec::Video(VideoCodec::Hevc) => Some("hevc_d3d11va"),
        MediaCodec::Audio(_) => None,
    }
}

/// The 64-bit pattern of a signed number.
pub open spec fn pattern64(v: i64) -> u64 {
    if v >= 0 {
        v as u64
    } else {
        (v + 0x1_0000_0000_0000_0000) as u64
    }
}

fn bits64(v: i64) -> (r: u64)
    ensures
        r == pattern64(v),
{
    if v >= 0 {
        v as u64
    } else {
        u64::MAX - ((-(v + 1)) as u64)
    }
}

/// The presentation time of a decoded frame: the smallest number means none.
pub open spec fn frame_time(pts_raw: i64) -> Option<u64> {
    if pts_raw == i64::MIN {
        None
    } else {
        Some(pattern64(pts_raw))
    }
}

/// The presentation time of a decoded frame, if it has one.
pub fn pts_raw_to_option(pts_raw: i64) -> (r: Option<u64>)
    ensures
        r == frame_time(pts_raw),
{
    if pts_raw == i64::MIN {
        None
    } else {
        Some(bits64(pts_raw))
    }
}

/// The presentation time of decoded audio: the frame's own, else that of its
/// packet, else that of its PES packet.
pub fn resolve_audio_pts(
    pts_raw: i64,
    packet_pts: Option<u64>,
    pes_pts: Option<u64>,
) -> (r: Option<u64>)
    ensures
        r == if pts_raw != i64::MIN {
            frame_time(pts_raw)
        } else if packet_pts is Some {
            packet_pts
        } else {
            pes_pts
        },
{
    match pts_raw_to_option(pts_raw) {
        Some(t) => Some(t),
        None => match packet_pts {
            Some(t) => Some(t),
            None => pes_pts,
        },
    }
}

/// The time that a packet carries to the decoder.
pub fn packet_pts(pts: Option<u64>) -> (r: i64)
    ensures
        r == (match pts {
            Some(t) => crate::av::clock::signed64(t),
            None => i64::MIN,
        }),
{
    match pts {
        Some(t) => if t <= i64::MAX as u64 {
            t as i64
        } else {
            -((u64::MAX - t) as i64) - 1
        },
        None => i64::MIN,
    }
}

/// A time below half the 64-bit range survives the way through the decoder.
pub proof fn law_times_pass_through_the_decoder(t: u64)
    requires
        t <= i64::MAX,
    ensures
        frame_time(crate::av::clock::signed64(t)) == Some(t),
{
}

/// The size of a packet of `len` bytes, which the decoder counts in 32 bits.
pub fn packet_size(len: usize) -> (r: Result<i32, AvError>)
    ensures
        match r {
            Ok(n) => len <= i32::MAX && n == len,
            Err(e) => len > i32::MAX && e == (AvError::InvalidPes {
                reason: "payload PES excede 2 GiB",
            }),
        },
{
    if len > i32::MAX as usize {
        Err(AvError::InvalidPes { reason: "payload PES excede 2 GiB" })
    } else {
        Ok(len as i32)
    }
}

/// What the result of sending a packet means: waiting for output to be fetched
/// is no error.
pub fn send_result(ret: i32) -> (r: Result<(), AvError>)
    ensures
        match r {
            Ok(_) => ret >= 0 || ret == AVERROR_EAGAIN,
            Err(e) => ret < 0 && ret != AVERROR_EAGAIN && e == (AvError::FfmpegError {
                code: ret,
            }),
        },
{
    if ret < 0 && ret != AVERROR_EAGAIN {
        Err(AvError::FfmpegError { code: ret })
    } else {
        Ok(())
    }
}

/// What the result of fetching a frame means: a frame, none for now, or an
/// error.  A filter sink answers in the same way.
pub fn receive_result(ret: i32) -> (r: Result<bool, AvError>)
    ensures
        match r {
            Ok(true) => ret == 0,
            Ok(false) => ret == AVERROR_EAGAIN || ret == AVERROR_EOF,
            Err(e) => ret != 0 && ret != AVERROR_EAGAIN && ret != AVERROR_EOF && e == (
            AvError::FfmpegError { code: ret }),
        },
{
    if ret == 0 {
        Ok(true)
    } else if ret == AVERROR_EAGAIN || ret == AVERROR_EOF {
        Ok(false)
    } else {
        Err(AvError::FfmpegError { code: ret })
    }
}

/// What any other result means: negative is an error.
pub fn call_result(ret: i32) -> (r: Result<(), AvError>)
    ensures
        match r {
            Ok(_) => ret >= 0,
            Err(e) => ret < 0 && e == (AvError::FfmpegError { code: ret }),
        },
{
    if ret < 0 {
        Err(AvError::FfmpegError { code: ret })
    } else {
        Ok(())
    }
}

/// The result of a call that allocates: `allocated` says whether it gave
/// memory back, `ret` what it returned.
pub fn allocation_result(ret: i32, allocated: bool) -> (r: Result<(), AvError>)
    ensures
        match r {
            Ok(_) => ret >= 0 && allocated,
            Err(e) => (ret < 0 || !allocated) && e == (AvError::FfmpegError {
                code: if ret < 0 {
                    ret
                } else {
                    AVERROR_ENOMEM
                },
            }),
        },
{
    if ret < 0 {
        Err(AvError::FfmpegError { code: ret })
    } else if !allocated {
        Err(AvError::FfmpegError { code: AVERROR_ENOMEM })
    } else {
        Ok(())
    }
}

/// Sampling rate and channel count of decoded audio, where they make sense.
pub fn normalize_audio_params(sample_rate: i64, channels: i64) -> (r: Result<(u32, u16), AvError>)
    ensures
        match r {
            Ok(p) => p.0 == sample_rate && p.0 > 0 && p.1 == channels && p.1 > 0,
            Err(e) => (sample_rate <= 0 || sample_rate > u32::MAX || channels <= 0 || channels
                > u16::MAX) && e == (AvError::FfmpegError { code: AVERROR_EINVAL }),
        },
{
    if sample_rate <= 0 || sample_rate > u32::MAX as i64 || channels <= 0 || channels
        > u16::MAX as i64 {
        return Err(AvError::FfmpegError { code: AVERROR_EINVAL });
    }
    Ok((sample_rate as u32, channels as u16))
}

/// How many channels are played: more than two are mixed down to two.
pub open spec fn played_channels(channels: u16) -> u16 {
    if channels > 2 {
        2
    } else {
        channels
    }
}

/// How many channels are played for a given number decoded.
pub fn output_channels_for_input(channels: u16) -> (r: u16)
    ensures
        r == played_channels(channels),
{
    if channels > 2 {
        2
    } else {
        channels
    }
}

/// Whether a decoded audio frame can be resampled, and to how many channels.
pub fn plan_resampling(nb_samples: i32, sample_rate: u32, channels: u16) -> (r: Result<
    u16,
    AvError,
>)
    ensures
        match r {
            Ok(out) => nb_samples > 0 && channels > 0 && sample_rate > 0 && out
                == played_channels(channels),
            Err(e) => (nb_samples <= 0 || channels == 0 || sample_rate == 0) && e == (
            AvError::FfmpegError { code: AVERROR_EINVAL }),
        },
{
    if nb_samples <= 0 || channels == 0 || sample_rate == 0 {
        return Err(AvError::FfmpegError { code: AVERROR_EINVAL });
    }
    Ok(output_channels_for_input(channels))
}

/// How many sample frames the output of a resampler must have room for:
/// `announced` is what the resampler says, negative for an error.
pub fn resampled_room(announced: i32, nb_samples: i32) -> (r: Result<usize, AvError>)
    ensures
        match r {
            Ok(n) => announced >= 0 && n >= 1 && n >= announced && n >= nb_samples && (n == 1 || n
                == announced || n == nb_samples),
            Err(e) => announced < 0 && e == (AvError::FfmpegError { code: announced }),
        },
{
    if announced < 0 {
        return Err(AvError::FfmpegError { code: announced });
    }
    let mut room: usize = announced as usize;
    if nb_samples > 0 && nb_samples as usize > room {
        room = nb_samples as usize;
    }
    if room < 1 {
        room = 1;
    }
    Ok(room)
}

/// How many interleaved samples are valid after a resampler wrote `converted`
/// sample frames, negative for an error.
pub fn resampled_len(converted: i32, out_channels: u16) -> (r: Result<u64, AvError>)
    ensures
        match r {
            Ok(n) => converted >= 0 && n == converted * out_channels,
            Err(e) => converted < 0 && e == (AvError::FfmpegError { code: converted }),
        },
{
    if converted < 0 {
        return Err(AvError::FfmpegError { code: converted });
    }
    assert(0 <= converted * out_channels <= 0x7FFF_FFFF * 0xFFFF) by (nonlinear_arith)
        requires
            0 <= converted <= 0x7FFF_FFFF,
            0 <= out_channels <= 0xFFFF,
    ;
    Ok(converted as u64 * out_channels as u64)
}

/// An option handed to a decoder when it is opened.
#[derive(Debug)]
pub struct CodecOption {
    pub key: &'static str,
    pub value: String,
}

/// The value of a [`CodecOption`].
pub ghost struct OptionText {
    pub key: Seq<char>,
    pub value: Seq<char>,
}

impl View for CodecOption {
    type V = OptionText;

    open spec fn view(&self) -> OptionText {
        OptionText { key: self.key@, value: self.value@ }
    }
}

/// The options that a configuration asks for, in order.  The fast flag is for
/// software decoders only.
pub open spec fn options_of(config: CodecConfig, hardware: bool) -> Seq<OptionText> {
    let threads = if config.thread_count > 0 {
        seq![OptionText { key: "threads"@, value: decimal(config.thread_count as nat) }]
    } else {
        Seq::empty()
    };
    let kind = match config.thread_type {
        ThreadType::Frame => seq![OptionText { key: "thread_type"@, value: "frame"@ }],
        ThreadType::Slice => seq![OptionText { key: "thread_type"@, value: "slice"@ }],
        ThreadType::Auto => Seq::empty(),
    };
    let loop_filter = if config.skip_loop_filter {
        seq![OptionText { key: "skip_loop_filter"@, value: "noref"@ }]
    } else {
        Seq::empty()
    };
    let fast = if config.flag2_fast && !hardware {
        seq![OptionText { key: "flags2"@, value: "+fast"@ }]
    } else {
        Seq::empty()
    };
    threads + kind + loop_filter + fast
}

/// The options that a configuration asks for, in order.
pub fn codec_options(config: &CodecConfig, hardware: bool) -> (r: Vec<CodecOption>)
    ensures
        r@.map_values(|o: CodecOption| o@) == options_of(*config, hardware),
{
    let mut options: Vec<CodecOption> = Vec::new();
    if config.thread_count > 0 {
        let mut value = String::new();
        push_decimal(&mut value, config.thread_count as u64);
        assert(value@ =~= decimal(config.thread_count as nat));
        options.push(CodecOption { key: "threads", value });
    }
    match config.thread_type {
        ThreadType::Frame => {
            options.push(CodecOption { key: "thread_type", value: String::from_str("frame") });
        },
        ThreadType::Slice => {
            options.push(CodecOption { key: "thread_type", value: String::from_str("slice") });
        },
        ThreadType::Auto => {},
    }
    if config.skip_loop_filter {
        options.push(CodecOption { key: "skip_loop_filter", value: String::from_str("noref") });
    }
    if config.flag2_fast && !hardware {
        options.push(CodecOption { key: "flags2", value: String::from_str("+fast") });
    }
    assert(options@.map_values(|o: CodecOption| o@) =~= options_of(*config, hardware));
    options
}

/// The configuration of a hardware decoder: one thread, the rest unchanged.
pub fn hardware_config(config: &CodecConfig) -> (r: CodecConfig)
    ensures
        r == (CodecConfig { thread_count: 1, thread_type: ThreadType::Auto, ..*config }),
{
    CodecConfig {
        thread_count: 1,
        thread_type: ThreadType::Auto,
        skip_loop_filter: config.skip_loop_filter,
        flag2_fast: config.flag2_fast,
    }
}

/// The error for a codec that the decoder library does not have.
pub fn missing_codec(codec_id: u32, hardware: bool) -> (r: AvError)
    ensures
        r matches AvError::FfmpegUnavailable { message } && message@ == "codec id="@ + decimal(
            codec_id as nat,
        ) + (if hardware {
            " não encontrado para hwaccel"@
        } else {
            " não encontrado no FFmpeg"@
        }),
{
    let mut message = String::from_str("codec id=");
    push_decimal(&mut message, codec_id as u64);
    if hardware {
        message.append(" não encontrado para hwaccel");
    } else {
        message.append(" não encontrado no FFmpeg");
    }
    AvError::FfmpegUnavailable { message }
}

/// The error for a library that could not be loaded.
pub fn missing_library(library: &str, cause: &str) -> (r: AvError)
    ensures
        r matches AvError::FfmpegUnavailable { message } && message@ == "falha ao carregar "@
            + library@ + ": "@ + cause@,
{
    let mut message = String::from_str("falha ao carregar ");
    message.append(library);
    message.append(": ");
    message.append(cause);
    AvError::FfmpegUnavailable { message }
}

/// The error for a function that a library lacks.
pub fn missing_symbol(symbol: &str, cause: &str) -> (r: AvError)
    ensures
        r matches AvError::FfmpegUnavailable { message } && message@ == "símbolo '"@ + symbol@
            + "' não encontrado: "@ + cause@,
{
    let mut message = String::from_str("símbolo '");
    message.append(symbol);
    message.append("' não encontrado: ");
    message.append(cause);
    AvError::FfmpegUnavailable { message }
}

/// The error for a filter that the filter library lacks.
pub fn missing_filter(filter: &str) -> (r: AvError)
    ensures
        r matches AvError::FfmpegUnavailable { message } && message@ == "filtro '"@ + filter@
            + "' não encontrado em avfilter"@,
{
    let mut message = String::from_str("filtro '");
    message.append(filter);
    message.append("' não encontrado em avfilter");
    AvError::FfmpegUnavailable { message }
}

/// The text for a decoder error code that the library cannot describe.
pub fn unknown_code_text(code: i32) -> (r: String)
    ensures
        r@ == "código "@ + signed_decimal(code as int),
{
    let mut s = String::from_str("código ");
    push_signed(&mut s, code as i64);
    s
}

/// Times that are not negative are kept, negative ones count down from the
/// largest number, and the smallest is none.
pub proof fn law_frame_times(pts: i64)
    ensures
        pts >= 0 ==> frame_time(pts) is Some && frame_time(pts)->0 == pts,
        i64::MIN < pts < 0 ==> frame_time(pts) is Some && frame_time(pts)->0 - pts
            == 0x1_0000_0000_0000_0000,
        frame_time(pts) is None <==> pts == -0x8000_0000_0000_0000,
{
}

/// One and two channels are played as they are, more as two.
pub proof fn law_at_most_two_channels_are_played(channels: u16)
    ensures
        channels <= 2 ==> played_channels(channels) == channels,
        channels >= 2 ==> played_channels(channels) == 2,
{
}

/// An option is handed over exactly when the configuration asks for it: the
/// number of threads unless it is left open, how they share the work unless
/// that is, what is skipped, and, in software only, speed over exactness.
pub proof fn law_options_follow_the_configuration(
    config: CodecConfig,
    hardware: bool,
    o: OptionText,
)
    ensures
        options_of(config, hardware).contains(o) <==> {
            ||| config.thread_count > 0 && o.key == "threads"@ && o.value == decimal(
                config.thread_count as nat,
            )
            ||| config.thread_type is Frame && o.key == "thread_type"@ && o.value == "frame"@
            ||| config.thread_type is Slice && o.key == "thread_type"@ && o.value == "slice"@
            ||| config.skip_loop_filter && o.key == "skip_loop_filter"@ && o.value == "noref"@
            ||| config.flag2_fast && !hardware && o.key == "flags2"@ && o.value == "+fast"@
        },
{
    let options = options_of(config, hardware);
    let n: int = if config.thread_count > 0 {
        1
    } else {
        0
    };
    let k: int = if config.thread_type is Auto {
        n
    } else {
        n + 1
    };
    let l: int = if config.skip_loop_filter {
        k + 1
    } else {
        k
    };
    if config.thread_count > 0 {
        assert(options[0] == OptionText {
            key: "threads"@,
            value: decimal(config.thread_count as nat),
        });
    }
    if config.thread_type is Frame {
        assert(options[n] == OptionText { key: "thread_type"@, value: "frame"@ });
    }
    if config.thread_type is Slice {
        assert(options[n] == OptionText { key: "thread_type"@, value: "slice"@ });
    }
    if config.skip_loop_filter {
        assert(options[k] == OptionText { key: "skip_loop_filter"@, value: "noref"@ });
    }
    if config.flag2_fast && !hardware {
        assert(options[l] == OptionText { key: "flags2"@, value: "+fast"@ });
    }
}

} // verus!
