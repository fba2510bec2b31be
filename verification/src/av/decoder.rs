use std::collections::HashMap;

use vstd::prelude::*;
use vstd::string::StringExecFns;

use crate::av::audio::AudioFrame;
use crate::av::codec::{AudioCodec, CodecConfig, MediaCodec, ThreadType, VideoCodec};
use crate::av::error::AvError;
use crate::av::ffmpeg::{avid_of, codec_to_avid, hardware_config, hw_codec_label};
use crate::av::hw::hwaccel_mode::{
    HwAccelMode, HwAccelModel, HwAccelState, HW_FALLBACK_THRESHOLD,
};
use crate::av::video_queue::VideoFrame;

verus! {

/// What a stream decodes to: a picture, or samples of type `S`.
#[derive(Debug)]
pub enum DecodedFrame<S> {
    Video(VideoFrame),
    Audio(AudioFrame<S>),
}

impl<S> DecodedFrame<S> {
    /// Presentation time in 90 kHz ticks.
    pub fn pts(&self) -> (r: Option<u64>)
        ensures
            r == match self {
                DecodedFrame::Video(VideoFrame::Sw(f)) => f.pts,
                DecodedFrame::Video(VideoFrame::Hw(f)) => f.pts,
                DecodedFrame::Audio(f) => f.pts,
            },
    {
        match self {
            DecodedFrame::Video(f) => f.pts(),
            DecodedFrame::Audio(f) => f.pts,
        }
    }

    pub fn is_video(&self) -> (r: bool)
        ensures
            r == (self is Video),
    {
        match self {
            DecodedFrame::Video(_) => true,
            DecodedFrame::Audio(_) => false,
        }
    }

    pub fn is_audio(&self) -> (r: bool)
        ensures
            r == (self is Audio),
    {
        match self {
            DecodedFrame::Video(_) => false,
            DecodedFrame::Audio(_) => true,
        }
    }
}

/// Nanoseconds that a hardware decoder gets to deliver its first frame.
pub const HW_INIT_TIMEOUT: u64 = 2_000_000_000;

/// What is remembered of an open elementary stream.
#[derive(Debug, Clone, Copy)]
pub struct StreamState {
    pub is_video: bool,
    /// Whether its pictures go through the deinterlacing filter.
    pub deinterlacing: bool,
    /// When the first hardware frame is due; `None` once it came, and for
    /// streams decoded in software.
    pub hw_init_deadline: Option<u64>,
}

/// Everything that the decisions of a decoder depend on.
#[verifier::ext_equal]
pub ghost struct DecoderModel {
    pub config: CodecConfig,
    /// Whether the deinterlacing filter is available.
    pub filters: bool,
    pub streams: Map<u16, StreamState>,
    pub mode: HwAccelMode,
    pub hw: HwAccelModel,
    /// Name of the hardware decoder opened last.
    pub hw_codec: Option<Seq<char>>,
}

/// What the caller is to do next for a packet being decoded.
#[derive(Debug)]
pub enum DecodeAction {
    /// Open a hardware decoder.
    OpenHardware { codec_id: u32, config: CodecConfig },
    /// Open a software decoder.
    OpenSoftware { codec_id: u32, config: CodecConfig },
    /// Allocate a frame and, where a codec is given, set up its parser.
    Prepare { parser: Option<u32> },
    /// Cut the payload into packets: LOAS frames, or what the parser finds.
    Split { loas: bool },
    /// Send one packet to the decoder.
    Send { index: usize },
    /// Fetch a frame from the decoder, after releasing the one before.
    Receive,
    ExtractAudio,
    /// Copy the picture out of the frame, or of the filter's output.
    ExtractPicture { deinterlaced: bool },
    /// Put the frame through the deinterlacing filter, setting it up first
    /// where asked to.
    Deinterlace { create: bool },
    /// Copy the picture out of its hardware surface.
    CopySurface,
    /// Let the decoder library download the hardware surface.
    DownloadSurface,
    /// The packet is done; close the stream where asked to.
    Finish { close: bool },
    /// The packet failed.
    Fail(AvError),
    /// The event does not answer the action asked for.
    Broken,
}

/// What came of an action.
#[derive(Debug)]
pub enum DecodeEvent {
    Succeeded,
    Failed(AvError),
    /// The sizes of the packets that a payload was cut into.
    Packets(Vec<usize>),
    /// The decoder did not take the packet, which may pass.
    Rejected,
    Frame { hw: bool, interlaced: bool },
    NoFrame,
    /// The filter took the frame; it may not have one to give back yet.
    Filtered { output: bool },
}

/// The step that a packet being decoded is at.
#[derive(Debug, Clone, Copy, PartialEq, Eq, Structural)]
pub enum DecodePhase {
    OpeningHardware,
    OpeningSoftware,
    Preparing,
    Splitting,
    Sending,
    Receiving,
    ExtractingAudio,
    ExtractingPicture,
    Deinterlacing,
    CopyingSurface,
    DownloadingSurface,
    Done,
}

/// What is remembered of a packet being decoded.
#[verifier::ext_equal]
pub ghost struct SessionModel {
    pub pid: u16,
    pub codec: MediaCodec,
    pub phase: DecodePhase,
    pub deadline: Option<u64>,
    /// Whether hardware surfaces can be copied directly.
    pub surfaces: bool,
    pub sizes: Seq<usize>,
    /// The packet to look at next.
    pub next: nat,
    pub hw_frame_ok: bool,
    pub hw_download_failed: bool,
    pub hw_interlaced: bool,
}

/// A packet being decoded.
#[derive(Debug)]
pub struct DecodeSession {
    pid: u16,
    codec: MediaCodec,
    phase: DecodePhase,
    deadline: Option<u64>,
    surfaces: bool,
    sizes: Vec<usize>,
    next: usize,
    hw_frame_ok: bool,
    hw_download_failed: bool,
    hw_interlaced: bool,
}

impl View for DecodeSession {
    type V = SessionModel;

    closed spec fn view(&self) -> SessionModel {
        SessionModel {
            pid: self.pid,
            codec: self.codec,
            phase: self.phase,
            deadline: self.deadline,
            surfaces: self.surfaces,
            sizes: self.sizes@,
            next: self.next as nat,
            hw_frame_ok: self.hw_frame_ok,
            hw_download_failed: self.hw_download_failed,
            hw_interlaced: self.hw_interlaced,
        }
    }
}

pub open spec fn is_video_codec(codec: MediaCodec) -> bool {
    codec is Video
}

pub open spec fn is_latm(codec: MediaCodec) -> bool {
    codec == MediaCodec::Audio(AudioCodec::AacLatm)
}

/// The name of a codec's hardware decoder.
pub open spec fn hw_label(codec: MediaCodec) -> Option<Seq<char>> {
    match codec {
        MediaCodec::Video(VideoCodec::Mpeg2) => Some("mpeg2video_d3d11va"@),
        MediaCodec::Video(VideoCodec::H264) => Some("h264_d3d11va"@),
        MediaCodec::Video(VideoCodec::Hevc) => Some("hevc_d3d11va"@),
        MediaCodec::Audio(_) => None,
    }
}

/// The first packet from `from` on that is sent: empty ones are not, except
/// LOAS payloads.
pub open spec fn next_packet(sizes: Seq<usize>, from: nat, loas: bool) -> nat
    decreases sizes.len() - from,
{
    if from >= sizes.len() || loas || sizes[from as int] > 0 {
        from
    } else {
        next_packet(sizes, from + 1, loas)
    }
}

impl DecoderModel {
    pub open spec fn initial(config: CodecConfig, filters: bool) -> Self {
        DecoderModel {
            config,
            filters,
            streams: Map::empty(),
            mode: HwAccelMode::Off,
            hw: HwAccelModel::initial(),
            hw_codec: None,
        }
    }

    pub open spec fn fallen_back(self, reason: Seq<char>) -> Self {
        DecoderModel { hw: self.hw.fallen_back(reason), ..self }
    }

    /// The streams that are video.
    pub open spec fn video_streams(self) -> Set<u16> {
        self.streams.dom().filter(|pid: u16| self.streams[pid].is_video)
    }

    /// What is asked for first when a packet of `pid` is to be decoded.
    pub open spec fn begun(self, pid: u16, codec: MediaCodec) -> (SessionModel, DecodeAction) {
        let fresh = SessionModel {
            pid,
            codec,
            phase: DecodePhase::OpeningSoftware,
            deadline: None,
            surfaces: false,
            sizes: Seq::empty(),
            next: 0,
            hw_frame_ok: false,
            hw_download_failed: false,
            hw_interlaced: false,
        };
        if self.streams.contains_key(pid) {
            self.splitting(fresh)
        } else if is_video_codec(codec) && self.hw.active {
            (
                SessionModel { phase: DecodePhase::OpeningHardware, ..fresh },
                DecodeAction::OpenHardware {
                    codec_id: avid_of(codec),
                    config: CodecConfig {
                        thread_count: 1,
                        thread_type: ThreadType::Auto,
                        ..self.config
                    },
                },
            )
        } else {
            (
                fresh,
                DecodeAction::OpenSoftware { codec_id: avid_of(codec), config: self.config },
            )
        }
    }

    pub open spec fn splitting(self, s: SessionModel) -> (SessionModel, DecodeAction) {
        (
            SessionModel {
                phase: DecodePhase::Splitting,
                surfaces: self.mode == HwAccelMode::D3d11Va && self.hw.active,
                ..s
            },
            DecodeAction::Split { loas: is_latm(s.codec) },
        )
    }

    /// The decoder is open: a hardware decoder gets a deadline.
    pub open spec fn opened(self, s: SessionModel, now: u64) -> (SessionModel, DecodeAction) {
        (
            SessionModel {
                phase: DecodePhase::Preparing,
                deadline: if is_video_codec(s.codec) && self.hw.active {
                    Some(
                        if now + HW_INIT_TIMEOUT > u64::MAX {
                            u64::MAX
                        } else {
                            (now + HW_INIT_TIMEOUT) as u64
                        },
                    )
                } else {
                    None
                },
                ..s
            },
            DecodeAction::Prepare {
                parser: if is_latm(s.codec) {
                    None
                } else {
                    Some(avid_of(s.codec))
                },
            },
        )
    }

    /// The next packet is sent, or the packet is done.
    pub open spec fn proceeded(self, s: SessionModel, now: u64) -> (
        Self,
        SessionModel,
        DecodeAction,
    ) {
        let i = next_packet(s.sizes, s.next, is_latm(s.codec));
        if i < s.sizes.len() {
            (
                self,
                SessionModel { phase: DecodePhase::Sending, next: i + 1, ..s },
                DecodeAction::Send { index: i as usize },
            )
        } else {
            self.finished(SessionModel { next: i, ..s }, now)
        }
    }

    /// The packet is done: what happened in hardware decides whether hardware
    /// decoding goes on.
    pub open spec fn finished(self, s: SessionModel, now: u64) -> (Self, SessionModel, DecodeAction) {
        let done = SessionModel { phase: DecodePhase::Done, ..s };
        if is_latm(s.codec) {
            (self, done, DecodeAction::Finish { close: false })
        } else {
            let m = self.settled(s, now);
            (m, done, DecodeAction::Finish { close: !m.streams.contains_key(s.pid) })
        }
    }

    pub open spec fn settled(self, s: SessionModel, now: u64) -> Self {
        let m = if s.hw_frame_ok {
            DecoderModel { hw: self.hw.succeeded(), ..self }
        } else {
            self
        };
        if s.hw_interlaced {
            m.fallen_back("frame HW interlaced requer bwdif SW"@).without(s.pid)
        } else {
            m.downloads_settled(s).deadline_settled(s.pid, now)
        }
    }

    pub open spec fn without(self, pid: u16) -> Self {
        DecoderModel { streams: self.streams.remove(pid), ..self }
    }

    pub open spec fn downloads_settled(self, s: SessionModel) -> Self {
        if s.hw_download_failed {
            let m = DecoderModel { hw: self.hw.failed_once_more(), ..self };
            if m.hw.failures >= HW_FALLBACK_THRESHOLD {
                m.fallen_back("3 falhas consecutivas no download HW"@).without(s.pid)
            } else {
                m
            }
        } else {
            self
        }
    }

    pub open spec fn deadline_settled(self, pid: u16, now: u64) -> Self {
        if self.streams.contains_key(pid) && (self.streams[pid].hw_init_deadline matches Some(d)
            && now > d) {
            self.fallen_back("timeout HW init (2 s)"@).without(pid)
        } else {
            self
        }
    }

    /// A frame came out of the decoder.
    pub open spec fn frame_received(
        self,
        s: SessionModel,
        hw: bool,
        interlaced: bool,
        now: u64,
    ) -> (Self, SessionModel, DecodeAction) {
        if !self.streams.contains_key(s.pid) {
            (self, s, DecodeAction::Broken)
        } else {
            let stream = self.streams[s.pid];
            if is_latm(s.codec) || !stream.is_video {
                (
                    self,
                    SessionModel { phase: DecodePhase::ExtractingAudio, ..s },
                    DecodeAction::ExtractAudio,
                )
            } else if hw && interlaced {
                // Hardware frames cannot be deinterlaced: decode in software.
                self.finished(SessionModel { hw_interlaced: true, ..s }, now)
            } else if hw {
                let m = DecoderModel {
                    streams: self.streams.insert(
                        s.pid,
                        StreamState { hw_init_deadline: None, ..stream },
                    ),
                    ..self
                };
                if s.surfaces {
                    (
                        m,
                        SessionModel { phase: DecodePhase::CopyingSurface, ..s },
                        DecodeAction::CopySurface,
                    )
                } else {
                    (
                        m,
                        SessionModel { phase: DecodePhase::DownloadingSurface, ..s },
                        DecodeAction::DownloadSurface,
                    )
                }
            } else if interlaced && (stream.deinterlacing || self.filters) {
                (
                    DecoderModel {
                        streams: self.streams.insert(
                            s.pid,
                            StreamState { deinterlacing: true, ..stream },
                        ),
                        ..self
                    },
                    SessionModel { phase: DecodePhase::Deinterlacing, ..s },
                    DecodeAction::Deinterlace { create: !stream.deinterlacing },
                )
            } else {
                (
                    self,
                    SessionModel { phase: DecodePhase::ExtractingPicture, ..s },
                    DecodeAction::ExtractPicture { deinterlaced: false },
                )
            }
        }
    }

    /// State and next action after `event` answered the action before.
    pub open spec fn advanced(self, s: SessionModel, event: DecodeEvent, now: u64) -> (
        Self,
        SessionModel,
        DecodeAction,
    ) {
        match (s.phase, event) {
            (DecodePhase::OpeningHardware, DecodeEvent::Succeeded) => {
                let m = DecoderModel { hw_codec: hw_label(s.codec), ..self };
                let (next, action) = m.opened(s, now);
                (m, next, action)
            },
            (DecodePhase::OpeningHardware, DecodeEvent::Failed(e)) => (
                self.fallen_back("hwaccel init: "@ + e.message_spec()),
                SessionModel { phase: DecodePhase::OpeningSoftware, ..s },
                DecodeAction::OpenSoftware { codec_id: avid_of(s.codec), config: self.config },
            ),
            (DecodePhase::OpeningSoftware, DecodeEvent::Succeeded) => {
                let (next, action) = self.opened(s, now);
                (self, next, action)
            },
            (DecodePhase::Preparing, DecodeEvent::Succeeded) => {
                let m = DecoderModel {
                    streams: self.streams.insert(
                        s.pid,
                        StreamState {
                            is_video: is_video_codec(s.codec),
                            deinterlacing: false,
                            hw_init_deadline: s.deadline,
                        },
                    ),
                    ..self
                };
                let (next, action) = m.splitting(s);
                (m, next, action)
            },
            (DecodePhase::Splitting, DecodeEvent::Packets(sizes)) => self.proceeded(
                SessionModel { sizes: sizes@, next: 0, ..s },
                now,
            ),
            (DecodePhase::Sending, DecodeEvent::Succeeded) => (
                self,
                SessionModel { phase: DecodePhase::Receiving, ..s },
                DecodeAction::Receive,
            ),
            (DecodePhase::Sending, DecodeEvent::Rejected) => self.proceeded(s, now),
            (DecodePhase::Receiving, DecodeEvent::Frame { hw, interlaced }) => self.frame_received(
                s,
                hw,
                interlaced,
                now,
            ),
            (DecodePhase::Receiving, DecodeEvent::NoFrame) => self.proceeded(s, now),
            (DecodePhase::ExtractingAudio, DecodeEvent::Succeeded) => (
                self,
                SessionModel { phase: DecodePhase::Receiving, ..s },
                DecodeAction::Receive,
            ),
            (DecodePhase::ExtractingPicture, DecodeEvent::Succeeded) => (
                self,
                SessionModel { phase: DecodePhase::Receiving, ..s },
                DecodeAction::Receive,
            ),
            (DecodePhase::Deinterlacing, DecodeEvent::Filtered { output }) => (
                self,
                SessionModel { phase: DecodePhase::ExtractingPicture, ..s },
                DecodeAction::ExtractPicture { deinterlaced: output },
            ),
            (DecodePhase::Deinterlacing, DecodeEvent::Failed(_)) => (
                self,
                SessionModel { phase: DecodePhase::ExtractingPicture, ..s },
                DecodeAction::ExtractPicture { deinterlaced: false },
            ),
            (DecodePhase::CopyingSurface, DecodeEvent::Succeeded) => (
                self,
                SessionModel { phase: DecodePhase::Receiving, hw_frame_ok: true, ..s },
                DecodeAction::Receive,
            ),
            (DecodePhase::CopyingSurface, DecodeEvent::Failed(_)) => (
                self,
                SessionModel { phase: DecodePhase::DownloadingSurface, ..s },
                DecodeAction::DownloadSurface,
            ),
            (DecodePhase::DownloadingSurface, DecodeEvent::Succeeded) => (
                self,
                SessionModel { phase: DecodePhase::Receiving, hw_frame_ok: true, ..s },
                DecodeAction::Receive,
            ),
            (DecodePhase::DownloadingSurface, DecodeEvent::Failed(_)) => (
                self,
                SessionModel { phase: DecodePhase::Receiving, hw_download_failed: true, ..s },
                DecodeAction::Receive,
            ),
            (DecodePhase::OpeningSoftware, DecodeEvent::Failed(e)) => self.failed(s, e),
            (DecodePhase::Preparing, DecodeEvent::Failed(e)) => self.failed(s, e),
            (DecodePhase::Sending, DecodeEvent::Failed(e)) => self.failed(s, e),
            (DecodePhase::ExtractingAudio, DecodeEvent::Failed(e)) => self.failed(s, e),
            (DecodePhase::ExtractingPicture, DecodeEvent::Failed(e)) => self.failed(s, e),
            _ => (self, s, DecodeAction::Broken),
        }
    }

    pub open spec fn failed(self, s: SessionModel, e: AvError) -> (
        Self,
        SessionModel,
        DecodeAction,
    ) {
        (self, SessionModel { phase: DecodePhase::Done, ..s }, DecodeAction::Fail(e))
    }
}

/// Decides how packets are decoded: which decoder to open, when to deinterlace
/// and when to give hardware decoding up.  The decoder contexts themselves stay
/// with the caller, which carries out the actions asked for.
#[derive(Debug)]
pub struct FfmpegDecoder {
    codec_config: CodecConfig,
    filters: bool,
    streams: HashMap<u16, StreamState>,
    hwaccel: HwAccelMode,
    hw_state: HwAccelState,
    last_hw_codec: Option<&'static str>,
}

impl View for FfmpegDecoder {
    type V = DecoderModel;

    closed spec fn view(&self) -> DecoderModel {
        DecoderModel {
            config: self.codec_config,
            filters: self.filters,
            streams: self.streams@,
            mode: self.hwaccel,
            hw: self.hw_state@,
            hw_codec: match self.last_hw_codec {
                Some(s) => Some(s@),
                None => None,
            },
        }
    }
}

impl FfmpegDecoder {
    /// A decoder with as many threads as there are processors, and nothing
    /// left out for speed; `filters` says whether the deinterlacing filter is
    /// available.
    pub fn new(processors: u32, filters: bool) -> (r: Self)
        ensures
            r@ == DecoderModel::initial(
                CodecConfig {
                    thread_count: processors,
                    thread_type: ThreadType::Auto,
                    skip_loop_filter: false,
                    flag2_fast: false,
                },
                filters,
            ),
    {
        FfmpegDecoder::new_with_config(CodecConfig::cautious(processors), filters)
    }

    /// A decoder with the given options; `filters` says whether the
    /// deinterlacing filter is available.
    pub fn new_with_config(config: CodecConfig, filters: bool) -> (r: Self)
        ensures
            r@ == DecoderModel::initial(config, filters),
    {
        FfmpegDecoder {
            codec_config: config,
            filters,
            streams: HashMap::new(),
            hwaccel: HwAccelMode::Off,
            hw_state: HwAccelState::new(),
            last_hw_codec: None,
        }
    }

    /// Forgets all streams.
    pub fn reset(&mut self)
        ensures
            final(self)@ == (DecoderModel { streams: Map::empty(), ..old(self)@ }),
    {
        self.streams.clear();
    }

    /// Forgets all streams and starts the chosen acceleration anew.
    pub fn reset_with_hw_state(&mut self)
        ensures
            final(self)@ == (DecoderModel {
                streams: Map::empty(),
                hw_codec: None,
                hw: if old(self)@.mode == HwAccelMode::D3d11Va {
                    HwAccelModel::activated()
                } else {
                    HwAccelModel::initial()
                },
                ..old(self)@
            }),
    {
        self.streams.clear();
        self.hw_state = HwAccelState::new();
        self.last_hw_codec = None;
        if self.hwaccel.is_gpu() {
            self.hw_state.activate();
        }
    }

    /// Whether some video stream goes through the deinterlacing filter.
    pub fn has_deinterlacer_active(&self) -> (r: bool)
        ensures
            r == exists|pid: u16| #[trigger]
                self@.streams.contains_key(pid) && self@.streams[pid].is_video
                    && self@.streams[pid].deinterlacing,
    {
        broadcast use vstd::std_specs::hash::group_hash_axioms;

        let ghost entries = vstd::std_specs::iter::IteratorSpec::remaining(
            &vstd::std_specs::hash::spec_hash_map_iter(&self.streams),
        );
        for entry in it: self.streams.iter()
            invariant
                it.seq() == entries,
                forall|i: int|
                    0 <= i < entries.len() ==> self.streams@.contains_key(
                        *(#[trigger] entries[i]).0,
                    ) && self.streams@[*entries[i].0] == *entries[i].1,
                forall|i: int|
                    0 <= i < it.index() ==> !((#[trigger] entries[i]).1.is_video
                        && entries[i].1.deinterlacing),
        {
            let (pid, stream) = entry;
            assert(entries[it.index()] == entry);
            if stream.is_video && stream.deinterlacing {
                assert(self@.streams.contains_key(*pid));
                return true;
            }
        }
        proof {
            assert forall|pid: u16| #[trigger] self@.streams.contains_key(pid) implies !(
            self@.streams[pid].is_video && self@.streams[pid].deinterlacing) by {
                assert(entries.contains((&pid, &self.streams@[pid])));
                let j = choose|j: int|
                    0 <= j < entries.len() && entries[j] == (&pid, &self.streams@[pid]);
                assert(!(entries[j].1.is_video && entries[j].1.deinterlacing));
            }
        }
        false
    }

    /// The number of decoding threads asked for.
    pub fn threads_used(&self) -> (r: u32)
        ensures
            r == self@.config.thread_count,
    {
        self.codec_config.thread_count
    }

    /// Chooses the acceleration for streams opened from now on.
    pub fn enable_hwaccel(&mut self, mode: HwAccelMode) -> (r: Result<(), AvError>)
        ensures
            r is Ok,
            final(self)@ == (DecoderModel {
                mode,
                hw: if mode == HwAccelMode::D3d11Va {
                    HwAccelModel::activated()
                } else {
                    HwAccelModel::initial()
                },
                ..old(self)@
            }),
    {
        self.hw_state = HwAccelState::new();
        if mode.is_gpu() {
            self.hw_state.activate();
        }
        self.hwaccel = mode;
        Ok(())
    }

    /// The acceleration chosen, whether or not it was given up since.
    pub fn hwaccel_mode(&self) -> (r: &HwAccelMode)
        ensures
            *r == self@.mode,
    {
        &self.hwaccel
    }

    /// Whether frames are being decoded in hardware.
    pub fn is_hwaccel_active(&self) -> (r: bool)
        ensures
            r == self@.hw.active,
    {
        self.hw_state.is_active()
    }

    /// Why hardware decoding was given up, if it was.
    pub fn fallback_reason(&self) -> (r: Option<&str>)
        ensures
            match r {
                Some(s) => self@.hw.reason == Some(s@),
                None => self@.hw.reason is None,
            },
    {
        self.hw_state.fallback_reason()
    }

    /// The name of the hardware decoder opened last.
    pub fn hw_decode_codec(&self) -> (r: Option<&'static str>)
        ensures
            match r {
                Some(s) => self@.hw_codec == Some(s@),
                None => self@.hw_codec is None,
            },
    {
        self.last_hw_codec
    }

    /// How many video streams are decoded in hardware.
    pub fn hw_frame_pool_in_use(&self) -> (r: u32)
        ensures
            r == if self@.hw.active {
                self@.video_streams().len() as int
            } else {
                0
            },
    {
        if !self.hw_state.is_active() {
            return 0;
        }
        self.count_video_streams()
    }

    fn count_video_streams(&self) -> (r: u32)
        ensures
            r == self@.video_streams().len(),
    {
        broadcast use vstd::std_specs::hash::group_hash_axioms;

        let mut count: u32 = 0;
        let ghost mut found: Set<u16> = Set::empty();
        let ghost entries = vstd::std_specs::iter::IteratorSpec::remaining(
            &vstd::std_specs::hash::spec_hash_map_iter(&self.streams),
        );
        for entry in it: self.streams.iter()
            invariant
                it.seq() == entries,
                entries.no_duplicates(),
                forall|i: int|
                    0 <= i < entries.len() ==> self.streams@.contains_key(
                        *(#[trigger] entries[i]).0,
                    ) && self.streams@[*entries[i].0] == *entries[i].1,
                found.finite(),
                count == found.len(),
                count <= 0x1_0000,
                forall|k: u16| found.contains(k) ==> self.video_streams_contains(k),
                forall|k: u16|
                    found.contains(k) ==> exists|i: int|
                        0 <= i < it.index() && *(#[trigger] entries[i]).0 == k,
                forall|i: int|
                    0 <= i < it.index() && (#[trigger] entries[i]).1.is_video ==> found.contains(
                        *entries[i].0,
                    ),
        {
            let (pid, stream) = entry;
            let ghost n = it.index();
            assert(entries[n] == entry);
            if stream.is_video {
                proof {
                    if found.contains(*pid) {
                        let i = choose|i: int| 0 <= i < n && *(#[trigger] entries[i]).0 == *pid;
                        assert(entries[i] == entries[n]);
                    }
                    let before = found;
                    found = found.insert(*pid);
                    lemma_pid_set_is_small(found);
                    assert forall|k: u16| found.contains(k) implies exists|i: int|
                        0 <= i < n + 1 && *(#[trigger] entries[i]).0 == k by {
                        if k == *pid {
                            assert(*entries[n].0 == k);
                        } else {
                            assert(before.contains(k));
                        }
                    }
                }
                count = count + 1;
            }
        }
        proof {
            assert(found =~= self@.video_streams()) by {
                assert forall|k: u16| self@.video_streams().contains(k) implies found.contains(
                    k,
                ) by {
                    assert(entries.contains((&k, &self.streams@[k])));
                    let j = choose|j: int|
                        0 <= j < entries.len() && entries[j] == (&k, &self.streams@[k]);
                    assert(entries[j].1.is_video);
                }
            }
        }
        count
    }

    spec fn video_streams_contains(&self, k: u16) -> bool {
        self@.video_streams().contains(k)
    }

    /// Gives hardware decoding up.
    pub fn fallback_to_sw(&mut self, reason: &str)
        ensures
            final(self)@ == old(self)@.fallen_back(reason@),
    {
        self.hw_state.fallback(reason);
    }

    /// Counts a hardware failure and says whether to fall back.
    #[must_use]
    pub fn record_hw_failure(&mut self) -> (r: bool)
        ensures
            final(self)@ == (DecoderModel {
                hw: old(self)@.hw.failed_once_more(),
                ..old(self)@
            }),
            r == (final(self)@.hw.failures >= HW_FALLBACK_THRESHOLD),
    {
        self.hw_state.record_failure()
    }

    /// A hardware frame arrived: earlier failures no longer count.
    pub fn record_hw_success(&mut self)
        ensures
            final(self)@ == (DecoderModel { hw: old(self)@.hw.succeeded(), ..old(self)@ }),
    {
        self.hw_state.record_success();
    }
}

/// There are only so many packet identifiers.
proof fn lemma_pid_set_is_small(s: Set<u16>)
    requires
        s.finite(),
    ensures
        s.len() <= 0x1_0000,
{
    let all = Set::<int>::new(|i: int| 0 <= i < 0x1_0000);
    vstd::set_lib::lemma_int_range(0, 0x1_0000);
    assert(all =~= vstd::set_lib::set_int_range(0, 0x1_0000));
    let ints = s.map(|k: u16| k as int);
    vstd::set_lib::lemma_map_size(s, ints, |k: u16| k as int);
    assert(ints.subset_of(all));
    vstd::set_lib::lemma_len_subset(ints, all);
}

fn codec_is_latm(codec: MediaCodec) -> (r: bool)
    ensures
        r == is_latm(codec),
{
    match codec {
        MediaCodec::Audio(AudioCodec::AacLatm) => true,
        _ => false,
    }
}

fn codec_is_video(codec: MediaCodec) -> (r: bool)
    ensures
        r == is_video_codec(codec),
{
    match codec {
        MediaCodec::Video(_) => true,
        MediaCodec::Audio(_) => false,
    }
}

fn codec_id(codec: MediaCodec) -> (r: u32)
    ensures
        r == avid_of(codec),
{
    match codec_to_avid(codec) {
        Ok(id) => id,
        Err(_) => 0,
    }
}

impl FfmpegDecoder {
    /// Starts decoding a packet and says what to do first.
    pub fn begin(&self, pid: u16, codec: MediaCodec) -> (r: (DecodeSession, DecodeAction))
        ensures
            (r.0@, r.1) == self@.begun(pid, codec),
    {
        broadcast use vstd::std_specs::hash::group_hash_axioms;

        let mut session = DecodeSession {
            pid,
            codec,
            phase: DecodePhase::OpeningSoftware,
            deadline: None,
            surfaces: false,
            sizes: Vec::new(),
            next: 0,
            hw_frame_ok: false,
            hw_download_failed: false,
            hw_interlaced: false,
        };
        assert(session@.sizes =~= Seq::<usize>::empty());
        if self.streams.contains_key(&pid) {
            let action = self.split(&mut session);
            (session, action)
        } else if codec_is_video(codec) && self.hw_state.is_active() {
            session.phase = DecodePhase::OpeningHardware;
            let config = hardware_config(&self.codec_config);
            (session, DecodeAction::OpenHardware { codec_id: codec_id(codec), config })
        } else {
            (
                session,
                DecodeAction::OpenSoftware {
                    codec_id: codec_id(codec),
                    config: self.codec_config,
                },
            )
        }
    }

    fn split(&self, session: &mut DecodeSession) -> (r: DecodeAction)
        ensures
            (final(session)@, r) == self@.splitting(old(session)@),
    {
        session.phase = DecodePhase::Splitting;
        session.surfaces = self.hwaccel.is_gpu() && self.hw_state.is_active();
        DecodeAction::Split { loas: codec_is_latm(session.codec) }
    }

    fn prepare(&self, session: &mut DecodeSession, now: u64) -> (r: DecodeAction)
        ensures
            (final(session)@, r) == self@.opened(old(session)@, now),
    {
        session.phase = DecodePhase::Preparing;
        session.deadline = if codec_is_video(session.codec) && self.hw_state.is_active() {
            Some(now.saturating_add(HW_INIT_TIMEOUT))
        } else {
            None
        };
        DecodeAction::Prepare {
            parser: if codec_is_latm(session.codec) {
                None
            } else {
                Some(codec_id(session.codec))
            },
        }
    }

    fn proceed(&mut self, session: &mut DecodeSession, now: u64) -> (r: DecodeAction)
        ensures
            (final(self)@, final(session)@, r) == old(self)@.proceeded(old(session)@, now),
    {
        let loas = codec_is_latm(session.codec);
        let mut i: usize = session.next;
        while i < session.sizes.len() && !loas && session.sizes[i] == 0
            invariant
                session.next <= i,
                loas == is_latm(session.codec),
                i <= session.sizes@.len() || i == session.next,
                next_packet(session.sizes@, session.next as nat, loas) == next_packet(
                    session.sizes@,
                    i as nat,
                    loas,
                ),
                *session == *old(session),
            decreases session.sizes.len() - i,
        {
            i = i + 1;
        }
        session.next = i;
        if i < session.sizes.len() {
            session.next = i + 1;
            session.phase = DecodePhase::Sending;
            DecodeAction::Send { index: i }
        } else {
            self.finish(session, now)
        }
    }

    fn finish(&mut self, session: &mut DecodeSession, now: u64) -> (r: DecodeAction)
        ensures
            (final(self)@, final(session)@, r) == old(self)@.finished(old(session)@, now),
    {
        broadcast use vstd::std_specs::hash::group_hash_axioms;

        session.phase = DecodePhase::Done;
        if codec_is_latm(session.codec) {
            return DecodeAction::Finish { close: false };
        }
        if session.hw_frame_ok {
            self.record_hw_success();
        }
        if session.hw_interlaced {
            self.fallback_to_sw("frame HW interlaced requer bwdif SW");
            self.streams.remove(&session.pid);
            return DecodeAction::Finish { close: true };
        }
        if session.hw_download_failed && self.record_hw_failure() {
            self.fallback_to_sw("3 falhas consecutivas no download HW");
            self.streams.remove(&session.pid);
        }
        let overdue = match self.streams.get(&session.pid) {
            Some(stream) => match stream.hw_init_deadline {
                Some(deadline) => now > deadline,
                None => false,
            },
            None => false,
        };
        if overdue {
            self.fallback_to_sw("timeout HW init (2 s)");
            self.streams.remove(&session.pid);
        }
        DecodeAction::Finish { close: !self.streams.contains_key(&session.pid) }
    }

    fn take_frame(
        &mut self,
        session: &mut DecodeSession,
        hw: bool,
        interlaced: bool,
        now: u64,
    ) -> (r: DecodeAction)
        ensures
            (final(self)@, final(session)@, r) == old(self)@.frame_received(
                old(session)@,
                hw,
                interlaced,
                now,
            ),
    {
        broadcast use vstd::std_specs::hash::group_hash_axioms;

        let stream: StreamState = match self.streams.get(&session.pid) {
            Some(stream) => *stream,
            None => {
                return DecodeAction::Broken;
            },
        };
        if codec_is_latm(session.codec) || !stream.is_video {
            session.phase = DecodePhase::ExtractingAudio;
            DecodeAction::ExtractAudio
        } else if hw && interlaced {
            session.hw_interlaced = true;
            self.finish(session, now)
        } else if hw {
            self.streams.insert(
                session.pid,
                StreamState {
                    is_video: stream.is_video,
                    deinterlacing: stream.deinterlacing,
                    hw_init_deadline: None,
                },
            );
            if session.surfaces {
                session.phase = DecodePhase::CopyingSurface;
                DecodeAction::CopySurface
            } else {
                session.phase = DecodePhase::DownloadingSurface;
                DecodeAction::DownloadSurface
            }
        } else if interlaced && (stream.deinterlacing || self.filters) {
            self.streams.insert(
                session.pid,
                StreamState {
                    is_video: stream.is_video,
                    deinterlacing: true,
                    hw_init_deadline: stream.hw_init_deadline,
                },
            );
            session.phase = DecodePhase::Deinterlacing;
            DecodeAction::Deinterlace { create: !stream.deinterlacing }
        } else {
            session.phase = DecodePhase::ExtractingPicture;
            DecodeAction::ExtractPicture { deinterlaced: false }
        }
    }

    /// Takes in what came of the action asked for and says what to do next.
    pub fn advance(&mut self, session: &mut DecodeSession, event: DecodeEvent, now: u64) -> (r:
        DecodeAction)
        ensures
            (final(self)@, final(session)@, r) == old(self)@.advanced(old(session)@, event, now),
    {
        broadcast use vstd::std_specs::hash::group_hash_axioms;

        match (session.phase, event) {
            (DecodePhase::OpeningHardware, DecodeEvent::Succeeded) => {
                self.last_hw_codec = hw_codec_label(session.codec);
                self.prepare(session, now)
            },
            (DecodePhase::OpeningHardware, DecodeEvent::Failed(e)) => {
                let mut reason = String::from_str("hwaccel init: ");
                reason.append(e.message().as_str());
                self.fallback_to_sw(reason.as_str());
                session.phase = DecodePhase::OpeningSoftware;
                DecodeAction::OpenSoftware {
                    codec_id: codec_id(session.codec),
                    config: self.codec_config,
                }
            },
            (DecodePhase::OpeningSoftware, DecodeEvent::Succeeded) => self.prepare(session, now),
            (DecodePhase::Preparing, DecodeEvent::Succeeded) => {
                self.streams.insert(
                    session.pid,
                    StreamState {
                        is_video: codec_is_video(session.codec),
                        deinterlacing: false,
                        hw_init_deadline: session.deadline,
                    },
                );
                self.split(session)
            },
            (DecodePhase::Splitting, DecodeEvent::Packets(sizes)) => {
                session.sizes = sizes;
                session.next = 0;
                self.proceed(session, now)
            },
            (DecodePhase::Sending, DecodeEvent::Succeeded) => {
                session.phase = DecodePhase::Receiving;
                DecodeAction::Receive
            },
            (DecodePhase::Sending, DecodeEvent::Rejected) => self.proceed(session, now),
            (DecodePhase::Receiving, DecodeEvent::Frame { hw, interlaced }) => self.take_frame(
                session,
                hw,
                interlaced,
                now,
            ),
            (DecodePhase::Receiving, DecodeEvent::NoFrame) => self.proceed(session, now),
            (DecodePhase::ExtractingAudio, DecodeEvent::Succeeded) => {
                session.phase = DecodePhase::Receiving;
                DecodeAction::Receive
            },
            (DecodePhase::ExtractingPicture, DecodeEvent::Succeeded) => {
                session.phase = DecodePhase::Receiving;
                DecodeAction::Receive
            },
            (DecodePhase::Deinterlacing, DecodeEvent::Filtered { output }) => {
                session.phase = DecodePhase::ExtractingPicture;
                DecodeAction::ExtractPicture { deinterlaced: output }
            },
            (DecodePhase::Deinterlacing, DecodeEvent::Failed(_)) => {
                session.phase = DecodePhase::ExtractingPicture;
                DecodeAction::ExtractPicture { deinterlaced: false }
            },
            (DecodePhase::CopyingSurface, DecodeEvent::Succeeded) => {
                session.hw_frame_ok = true;
                session.phase = DecodePhase::Receiving;
                DecodeAction::Receive
            },
            (DecodePhase::CopyingSurface, DecodeEvent::Failed(_)) => {
                session.phase = DecodePhase::DownloadingSurface;
                DecodeAction::DownloadSurface
            },
            (DecodePhase::DownloadingSurface, DecodeEvent::Succeeded) => {
                session.hw_frame_ok = true;
                session.phase = DecodePhase::Receiving;
                DecodeAction::Receive
            },
            (DecodePhase::DownloadingSurface, DecodeEvent::Failed(_)) => {
                session.hw_download_failed = true;
                session.phase = DecodePhase::Receiving;
                DecodeAction::Receive
            },
            (DecodePhase::OpeningSoftware, DecodeEvent::Failed(e)) => {
                session.phase = DecodePhase::Done;
                DecodeAction::Fail(e)
            },
            (DecodePhase::Preparing, DecodeEvent::Failed(e)) => {
                session.phase = DecodePhase::Done;
                DecodeAction::Fail(e)
            },
            (DecodePhase::Sending, DecodeEvent::Failed(e)) => {
                session.phase = DecodePhase::Done;
                DecodeAction::Fail(e)
            },
            (DecodePhase::ExtractingAudio, DecodeEvent::Failed(e)) => {
                session.phase = DecodePhase::Done;
                DecodeAction::Fail(e)
            },
            (DecodePhase::ExtractingPicture, DecodeEvent::Failed(e)) => {
                session.phase = DecodePhase::Done;
                DecodeAction::Fail(e)
            },
            _ => DecodeAction::Broken,
        }
    }
}

proof fn lemma_next_packet_bounds(sizes: Seq<usize>, from: nat, loas: bool)
    ensures
        next_packet(sizes, from, loas) >= from,
        from <= sizes.len() ==> next_packet(sizes, from, loas) <= sizes.len(),
        !loas && next_packet(sizes, from, loas) < sizes.len() ==> sizes[next_packet(
            sizes,
            from,
            loas,
        ) as int] > 0,
        forall|i: int|
            from <= i < next_packet(sizes, from, loas) && i < sizes.len() ==> sizes[i] == 0,
    decreases sizes.len() - from,
{
    if from < sizes.len() && !loas && sizes[from as int] == 0 {
        lemma_next_packet_bounds(sizes, from + 1, loas);
    }
}

/// Nothing that happens while decoding brings hardware decoding back once it
/// was given up, and the reason for giving it up is kept.
pub proof fn law_decoding_never_reactivates_hardware(
    m: DecoderModel,
    s: SessionModel,
    event: DecodeEvent,
    now: u64,
)
    requires
        !m.hw.active,
    ensures
        !m.advanced(s, event, now).0.hw.active,
        m.hw.reason is Some ==> m.advanced(s, event, now).0.hw.reason == m.hw.reason,
        !(m.advanced(s, event, now).2 is OpenHardware),
{
}

/// A hardware decoder that cannot be opened does not fail the packet: it is
/// decoded in software, with the options asked for.
pub proof fn law_failed_hardware_open_falls_back(
    m: DecoderModel,
    pid: u16,
    codec: MediaCodec,
    e: AvError,
    now: u64,
)
    requires
        m.begun(pid, codec).1 is OpenHardware,
    ensures
        ({
            let (n, s, action) = m.advanced(m.begun(pid, codec).0, DecodeEvent::Failed(e), now);
            &&& action == DecodeAction::OpenSoftware {
                codec_id: avid_of(codec),
                config: m.config,
            }
            &&& !n.hw.active
            &&& n.streams == m.streams
            &&& s.phase == DecodePhase::OpeningSoftware
        }),
{
}

/// An interlaced hardware frame ends the packet at once: the stream is closed
/// and hardware decoding is given up, so that the next packet is decoded in
/// software and deinterlaced.
pub proof fn law_interlaced_hardware_frame_reopens_in_software(
    m: DecoderModel,
    s: SessionModel,
    now: u64,
)
    requires
        s.phase == DecodePhase::Receiving,
        m.streams.contains_key(s.pid),
        m.streams[s.pid].is_video,
        !is_latm(s.codec),
    ensures
        ({
            let (n, t, action) = m.advanced(
                s,
                DecodeEvent::Frame { hw: true, interlaced: true },
                now,
            );
            &&& action == DecodeAction::Finish { close: true }
            &&& !n.hw.active
            &&& !n.streams.contains_key(s.pid)
            &&& n.begun(s.pid, s.codec).1 is OpenSoftware
        }),
{
}

/// Decoding a packet of one stream never touches another.
pub proof fn law_decoding_leaves_other_streams_alone(
    m: DecoderModel,
    s: SessionModel,
    event: DecodeEvent,
    now: u64,
    other: u16,
)
    requires
        other != s.pid,
    ensures
        m.advanced(s, event, now).0.streams.contains_key(other) == m.streams.contains_key(other),
        m.streams.contains_key(other) ==> m.advanced(s, event, now).0.streams[other]
            == m.streams[other],
        m.advanced(s, event, now).1.pid == s.pid,
{
}

/// Packets are sent in order, each at most once; those that are passed over
/// are empty.
pub proof fn law_packets_are_sent_in_order(
    m: DecoderModel,
    s: SessionModel,
    event: DecodeEvent,
    now: u64,
)
    requires
        m.advanced(s, event, now).2 is Send,
    ensures
        ({
            let (n, t, action) = m.advanced(s, event, now);
            let index = action->Send_index;
            let from = if s.phase == DecodePhase::Splitting {
                0nat
            } else {
                s.next
            };
            &&& from <= next_packet(t.sizes, from, is_latm(s.codec)) < t.sizes.len()
            &&& index == next_packet(t.sizes, from, is_latm(s.codec)) as usize
            &&& t.next == next_packet(t.sizes, from, is_latm(s.codec)) + 1
            &&& forall|i: int| from <= i < t.next - 1 ==> t.sizes[i] == 0
        }),
{
    let t = m.advanced(s, event, now).1;
    let from = if s.phase == DecodePhase::Splitting {
        0nat
    } else {
        s.next
    };
    lemma_next_packet_bounds(t.sizes, from, is_latm(s.codec));
}

/// What a decoder cannot use for now never fails the packet: rejected packets
/// and missing frames lead on to the next packet or to the end.
pub proof fn law_transient_trouble_is_not_fatal(m: DecoderModel, s: SessionModel, now: u64)
    ensures
        s.phase == DecodePhase::Sending ==> (m.advanced(s, DecodeEvent::Rejected, now).2 is Send
            || m.advanced(s, DecodeEvent::Rejected, now).2 is Finish),
        s.phase == DecodePhase::Receiving ==> (m.advanced(s, DecodeEvent::NoFrame, now).2 is Send
            || m.advanced(s, DecodeEvent::NoFrame, now).2 is Finish),
{
}

/// The frames of an audio stream, and of LATM, are taken as audio, whatever
/// they are marked as; nothing else changes.
pub proof fn law_audio_frames_are_taken_as_audio(
    m: DecoderModel,
    s: SessionModel,
    hw: bool,
    interlaced: bool,
    now: u64,
)
    requires
        s.phase == DecodePhase::Receiving,
        m.streams.contains_key(s.pid),
        !m.streams[s.pid].is_video || s.codec == MediaCodec::Audio(AudioCodec::AacLatm),
    ensures
        m.advanced(s, DecodeEvent::Frame { hw, interlaced }, now) == (
            m,
            SessionModel { phase: DecodePhase::ExtractingAudio, ..s },
            DecodeAction::ExtractAudio,
        ),
{
}

/// The frames of a video stream are never taken as audio.  One from software
/// goes through the filter where it is interlaced and the filter is there, and
/// is copied as it is otherwise; one from hardware is copied from its surface,
/// or downloaded where surfaces cannot be copied.
pub proof fn law_video_frames_are_taken_as_pictures(
    m: DecoderModel,
    s: SessionModel,
    hw: bool,
    interlaced: bool,
    now: u64,
)
    requires
        s.phase == DecodePhase::Receiving,
        m.streams.contains_key(s.pid),
        m.streams[s.pid].is_video,
        s.codec != MediaCodec::Audio(AudioCodec::AacLatm),
    ensures
        ({
            let (n, t, action) = m.advanced(s, DecodeEvent::Frame { hw, interlaced }, now);
            let stream = m.streams[s.pid];
            let filtered = interlaced && (m.filters || stream.deinterlacing);
            &&& !(action is ExtractAudio)
            &&& t.pid == s.pid && t.codec == s.codec && t.sizes == s.sizes
            &&& !hw && !filtered ==> n == m && action == (DecodeAction::ExtractPicture {
                deinterlaced: false,
            }) && t == (SessionModel { phase: DecodePhase::ExtractingPicture, ..s })
            &&& !hw && filtered ==> action == (DecodeAction::Deinterlace {
                create: !stream.deinterlacing,
            }) && t == (SessionModel { phase: DecodePhase::Deinterlacing, ..s }) && n == (
            DecoderModel {
                streams: m.streams.insert(
                    s.pid,
                    StreamState {
                        is_video: true,
                        deinterlacing: true,
                        hw_init_deadline: stream.hw_init_deadline,
                    },
                ),
                ..m
            })
            &&& hw && !interlaced ==> n == (DecoderModel {
                streams: m.streams.insert(
                    s.pid,
                    StreamState {
                        is_video: true,
                        deinterlacing: stream.deinterlacing,
                        hw_init_deadline: None,
                    },
                ),
                ..m
            })
            &&& hw && !interlaced && s.surfaces ==> action is CopySurface && t == (SessionModel {
                phase: DecodePhase::CopyingSurface,
                ..s
            })
            &&& hw && !interlaced && !s.surfaces ==> action is DownloadSurface && t == (
            SessionModel { phase: DecodePhase::DownloadingSurface, ..s })
            &&& hw && interlaced ==> action == (DecodeAction::Finish { close: true })
        }),
{
}

/// What is done with a frame is asked for in turn: the filter's output, where
/// it has one, or the frame itself is copied; a surface that cannot be copied
/// is downloaded; and the next frame is fetched when a frame is done with.
pub proof fn law_frames_are_worked_off(m: DecoderModel, s: SessionModel, output: bool, e: AvError)
    ensures
        forall|now: u64|
            s.phase == DecodePhase::Deinterlacing ==> #[trigger] m.advanced(
                s,
                DecodeEvent::Filtered { output },
                now,
            ) == (
                m,
                SessionModel { phase: DecodePhase::ExtractingPicture, ..s },
                DecodeAction::ExtractPicture { deinterlaced: output },
            ),
        forall|now: u64|
            s.phase == DecodePhase::Deinterlacing ==> #[trigger] m.advanced(
                s,
                DecodeEvent::Failed(e),
                now,
            ) == (
                m,
                SessionModel { phase: DecodePhase::ExtractingPicture, ..s },
                DecodeAction::ExtractPicture { deinterlaced: false },
            ),
        forall|now: u64|
            s.phase == DecodePhase::Sending || s.phase == DecodePhase::ExtractingAudio || s.phase
                == DecodePhase::ExtractingPicture ==> #[trigger] m.advanced(
                s,
                DecodeEvent::Succeeded,
                now,
            ) == (
                m,
                SessionModel { phase: DecodePhase::Receiving, ..s },
                DecodeAction::Receive,
            ),
        forall|now: u64|
            s.phase == DecodePhase::CopyingSurface || s.phase == DecodePhase::DownloadingSurface
                ==> #[trigger] m.advanced(s, DecodeEvent::Succeeded, now) == (
                m,
                SessionModel { phase: DecodePhase::Receiving, hw_frame_ok: true, ..s },
                DecodeAction::Receive,
            ),
        forall|now: u64|
            s.phase == DecodePhase::CopyingSurface ==> #[trigger] m.advanced(
                s,
                DecodeEvent::Failed(e),
                now,
            ) == (
                m,
                SessionModel { phase: DecodePhase::DownloadingSurface, ..s },
                DecodeAction::DownloadSurface,
            ),
        forall|now: u64|
            s.phase == DecodePhase::DownloadingSurface ==> #[trigger] m.advanced(
                s,
                DecodeEvent::Failed(e),
                now,
            ) == (
                m,
                SessionModel { phase: DecodePhase::Receiving, hw_download_failed: true, ..s },
                DecodeAction::Receive,
            ),
{
}

/// A failure to open in software, to prepare, to send or to copy a frame fails
/// the packet with that very error, and leaves the streams as they are.
pub proof fn law_other_failures_fail_the_packet(
    m: DecoderModel,
    s: SessionModel,
    e: AvError,
    now: u64,
)
    requires
        s.phase == DecodePhase::OpeningSoftware || s.phase == DecodePhase::Preparing || s.phase
            == DecodePhase::Sending || s.phase == DecodePhase::ExtractingAudio || s.phase
            == DecodePhase::ExtractingPicture,
    ensures
        m.advanced(s, DecodeEvent::Failed(e), now) == (
            m,
            SessionModel { phase: DecodePhase::Done, ..s },
            DecodeAction::Fail(e),
        ),
{
}

/// The number by which the decoder library knows a codec.
pub open spec fn library_number(codec: MediaCodec) -> u32 {
    match codec {
        MediaCodec::Video(VideoCodec::Mpeg2) => 2,
        MediaCodec::Video(VideoCodec::H264) => 27,
        MediaCodec::Video(VideoCodec::Hevc) => 173,
        MediaCodec::Audio(AudioCodec::Mp2) => 86016,
        MediaCodec::Audio(AudioCodec::AacAdts) => 86018,
        MediaCodec::Audio(AudioCodec::Ac3) => 86019,
        MediaCodec::Audio(AudioCodec::Eac3) => 86056,
        MediaCodec::Audio(AudioCodec::AacLatm) => 86065,
    }
}

/// A stream that is not open yet is opened with the decoder of its codec: in
/// hardware, on one thread, where it is video and hardware is in use, and else
/// in software with the options asked for.  One that is open is cut into
/// packets at once.
pub proof fn law_streams_are_opened_once(m: DecoderModel, pid: u16, codec: MediaCodec)
    ensures
        ({
            let (s, action) = m.begun(pid, codec);
            &&& s.pid == pid && s.codec == codec
            &&& s.sizes == Seq::<usize>::empty() && s.next == 0 && s.deadline is None
            &&& !s.hw_frame_ok && !s.hw_download_failed && !s.hw_interlaced
            &&& m.streams.contains_key(pid) ==> s.phase == DecodePhase::Splitting && action == (
            DecodeAction::Split { loas: codec == MediaCodec::Audio(AudioCodec::AacLatm) })
                && s.surfaces == (m.mode == HwAccelMode::D3d11Va && m.hw.active)
            &&& !m.streams.contains_key(pid) && codec is Video && m.hw.active ==> s.phase
                == DecodePhase::OpeningHardware && action == (DecodeAction::OpenHardware {
                codec_id: library_number(codec),
                config: CodecConfig {
                    thread_count: 1,
                    thread_type: ThreadType::Auto,
                    skip_loop_filter: m.config.skip_loop_filter,
                    flag2_fast: m.config.flag2_fast,
                },
            })
            &&& !m.streams.contains_key(pid) && !(codec is Video && m.hw.active) ==> s.phase
                == DecodePhase::OpeningSoftware && action == (DecodeAction::OpenSoftware {
                codec_id: library_number(codec),
                config: m.config,
            })
        }),
{
}

/// An opened decoder is prepared, with a parser unless the stream is LATM; a
/// hardware decoder has two seconds for its first frame.  The stream is then
/// known as video exactly where its codec is, and is cut into packets.
pub proof fn law_opened_streams_are_prepared(m: DecoderModel, s: SessionModel, now: u64)
    ensures
        s.phase == DecodePhase::OpeningHardware || s.phase == DecodePhase::OpeningSoftware ==> ({
            let (n, t, action) = m.advanced(s, DecodeEvent::Succeeded, now);
            &&& action == (DecodeAction::Prepare {
                parser: if s.codec == MediaCodec::Audio(AudioCodec::AacLatm) {
                    None
                } else {
                    Some(library_number(s.codec))
                },
            })
            &&& t == (SessionModel {
                phase: DecodePhase::Preparing,
                deadline: if s.codec is Video && m.hw.active {
                    Some(
                        if now > u64::MAX - 2_000_000_000 {
                            u64::MAX
                        } else {
                            (now + 2_000_000_000) as u64
                        },
                    )
                } else {
                    None
                },
                ..s
            })
            &&& n == (DecoderModel { hw_codec: n.hw_codec, ..m })
            &&& s.phase == DecodePhase::OpeningSoftware ==> n == m
            &&& s.phase == DecodePhase::OpeningHardware ==> n.hw_codec == match s.codec {
                MediaCodec::Video(VideoCodec::Mpeg2) => Some("mpeg2video_d3d11va"@),
                MediaCodec::Video(VideoCodec::H264) => Some("h264_d3d11va"@),
                MediaCodec::Video(VideoCodec::Hevc) => Some("hevc_d3d11va"@),
                MediaCodec::Audio(_) => None,
            }
        }),
        s.phase == DecodePhase::Preparing ==> ({
            let (n, t, action) = m.advanced(s, DecodeEvent::Succeeded, now);
            &&& n == (DecoderModel {
                streams: m.streams.insert(
                    s.pid,
                    StreamState {
                        is_video: s.codec is Video,
                        deinterlacing: false,
                        hw_init_deadline: s.deadline,
                    },
                ),
                ..m
            })
            &&& t == (SessionModel {
                phase: DecodePhase::Splitting,
                surfaces: m.mode == HwAccelMode::D3d11Va && m.hw.active,
                ..s
            })
            &&& action == (DecodeAction::Split {
                loas: s.codec == MediaCodec::Audio(AudioCodec::AacLatm),
            })
        }),
{
}

/// Of the packets that a payload was cut into, the next one that is not empty
/// is sent; of a LATM stream, the next one.  The payload is done only where
/// there is none left.
pub proof fn law_next_packet_with_content_is_sent(
    m: DecoderModel,
    s: SessionModel,
    event: DecodeEvent,
    now: u64,
)
    requires
        (s.phase == DecodePhase::Splitting && event is Packets) || (s.phase
            == DecodePhase::Sending && event is Rejected) || (s.phase == DecodePhase::Receiving
            && event is NoFrame),
    ensures
        ({
            let (n, t, action) = m.advanced(s, event, now);
            let loas = s.codec == MediaCodec::Audio(AudioCodec::AacLatm);
            let sizes = match event {
                DecodeEvent::Packets(sizes) => sizes@,
                _ => s.sizes,
            };
            let from = if event is Packets {
                0
            } else {
                s.next as int
            };
            &&& t.sizes == sizes
            &&& action is Send || action is Finish
            &&& action is Send ==> n == m && t.phase == DecodePhase::Sending && from <= t.next - 1
                < sizes.len() && action->Send_index == (t.next - 1) as usize && (loas || sizes[t.next
                - 1] > 0) && (loas ==> t.next - 1 == from) && forall|i: int|
                from <= i < t.next - 1 ==> sizes[i] == 0
            &&& action is Finish ==> t.phase == DecodePhase::Done && (loas ==> from >= sizes.len())
                && forall|i: int| from <= i < sizes.len() ==> sizes[i] == 0
        }),
{
    let t = m.advanced(s, event, now).1;
    let from = if event is Packets {
        0nat
    } else {
        s.next
    };
    lemma_next_packet_bounds(t.sizes, from, is_latm(s.codec));
    lemma_next_packet_has_content(t.sizes, from, is_latm(s.codec));
}

proof fn lemma_next_packet_has_content(sizes: Seq<usize>, from: nat, loas: bool)
    ensures
        ({
            let i = next_packet(sizes, from, loas);
            &&& loas ==> i == from
            &&& i < sizes.len() ==> loas || sizes[i as int] > 0
            &&& forall|k: int| from <= k < i && k < sizes.len() ==> sizes[k] == 0
        }),
    decreases sizes.len() - from,
{
    if !(from >= sizes.len() || loas || sizes[from as int] > 0) {
        lemma_next_packet_has_content(sizes, from + 1, loas);
    }
}

/// When a packet is done, what came of the hardware is settled.  A good frame
/// ends a row of failures, a failed download adds to it, and the third in a
/// row gives hardware up; so does a first frame that is overdue.  The stream
/// is then closed, to be opened again in software.  Otherwise nothing changes.
pub proof fn law_hardware_is_given_up_after_trouble(m: DecoderModel, s: SessionModel, now: u64)
    requires
        s.phase == DecodePhase::Receiving,
        s.next >= s.sizes.len(),
        !s.hw_interlaced,
        m.streams.contains_key(s.pid),
    ensures
        ({
            let (n, t, action) = m.advanced(s, DecodeEvent::NoFrame, now);
            let before = if s.hw_frame_ok {
                0
            } else {
                m.hw.failures as int
            };
            let failures = if !s.hw_download_failed {
                before
            } else if before == u32::MAX {
                before
            } else {
                before + 1
            };
            let deadline = m.streams[s.pid].hw_init_deadline;
            let too_many = s.hw_download_failed && failures >= 3;
            let overdue = deadline is Some && now > deadline->0;
            let latm = s.codec == MediaCodec::Audio(AudioCodec::AacLatm);
            &&& t.phase == DecodePhase::Done
            &&& n.config == m.config && n.filters == m.filters && n.mode == m.mode && n.hw_codec
                == m.hw_codec
            &&& action == (DecodeAction::Finish { close: !latm && (too_many || overdue) })
            &&& latm ==> n == m
            &&& !latm && (too_many || overdue) ==> {
                &&& !n.hw.active
                &&& n.hw.failures == 0
                &&& n.hw.reason == if m.hw.reason is Some {
                    m.hw.reason
                } else if too_many {
                    Some("3 falhas consecutivas no download HW"@)
                } else {
                    Some("timeout HW init (2 s)"@)
                }
                &&& n.streams == m.streams.remove(s.pid)
            }
            &&& !latm && !too_many && !overdue ==> {
                &&& n.hw.active == m.hw.active
                &&& n.hw.reason == m.hw.reason
                &&& n.hw.failures == failures
                &&& n.streams == m.streams
            }
        }),
{
    lemma_next_packet_has_content(s.sizes, s.next, is_latm(s.codec));
    assert(next_packet(s.sizes, s.next, is_latm(s.codec)) == s.next);
}

/// An interlaced frame from hardware gives hardware up for that reason, unless
/// it had been given up for another before.
pub proof fn law_interlaced_hardware_frame_gives_hardware_up(
    m: DecoderModel,
    s: SessionModel,
    now: u64,
)
    requires
        s.phase == DecodePhase::Receiving,
        m.streams.contains_key(s.pid),
        m.streams[s.pid].is_video,
        s.codec != MediaCodec::Audio(AudioCodec::AacLatm),
    ensures
        ({
            let n = m.advanced(s, DecodeEvent::Frame { hw: true, interlaced: true }, now).0;
            &&& n.hw.failures == 0
            &&& n.hw.reason == if m.hw.reason is Some {
                m.hw.reason
            } else {
                Some("frame HW interlaced requer bwdif SW"@)
            }
            &&& n.streams == m.streams.remove(s.pid)
            &&& n.config == m.config && n.filters == m.filters && n.mode == m.mode && n.hw_codec
                == m.hw_codec
        }),
{
}

/// A hardware decoder that cannot be opened says why in the reason for the
/// fallback, unless there is one already.
pub proof fn law_failed_hardware_open_gives_its_reason(
    m: DecoderModel,
    s: SessionModel,
    e: AvError,
    now: u64,
)
    requires
        s.phase == DecodePhase::OpeningHardware,
    ensures
        m.advanced(s, DecodeEvent::Failed(e), now).0.hw.reason == if m.hw.reason is Some {
            m.hw.reason
        } else {
            Some("hwaccel init: "@ + e.message_spec())
        },
        m.advanced(s, DecodeEvent::Failed(e), now).0.hw.failures == 0,
        m.advanced(s, DecodeEvent::Failed(e), now).2 == (DecodeAction::OpenSoftware {
            codec_id: library_number(s.codec),
            config: m.config,
        }),
{
}

/// A new decoder knows no stream, decodes in software, and keeps its options.
pub proof fn law_new_decoders_know_nothing(config: CodecConfig, filters: bool)
    ensures
        ({
            let m = DecoderModel::initial(config, filters);
            &&& m.config == config && m.filters == filters
            &&& m.streams == Map::<u16, StreamState>::empty()
            &&& m.mode == HwAccelMode::Off && !m.hw.active && m.hw.failures == 0 && m.hw.reason
                is None && m.hw_codec is None
        }),
{
}

/// A packet begins with nothing known of it but its stream and codec, and with
/// nothing held against the hardware; the way of surfaces is open to it where
/// hardware decoding was asked for and is in use.
pub proof fn law_packets_begin_afresh(m: DecoderModel, pid: u16, codec: MediaCodec)
    ensures
        ({
            let s = m.begun(pid, codec).0;
            &&& s.pid == pid && s.codec == codec
            &&& s.deadline is None
            &&& s.sizes.len() == 0 && s.next == 0
            &&& !s.hw_frame_ok && !s.hw_download_failed && !s.hw_interlaced
            &&& !m.streams.contains_key(pid) ==> !s.surfaces
            &&& m.streams.contains_key(pid) ==> (s.surfaces <==> m.mode == HwAccelMode::D3d11Va
                && m.hw.active)
        }),
{
}

} // verus!
