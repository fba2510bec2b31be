use vstd::prelude::*;

verus! {

/// Video codecs that are decoded.
#[derive(Debug, Clone, Copy, PartialEq, Eq, Hash, Structural)]
pub enum VideoCodec {
    Mpeg2,
    H264,
    Hevc,
}

/// Audio codecs that are decoded.
#[derive(Debug, Clone, Copy, PartialEq, Eq, Hash, Structural)]
pub enum AudioCodec {
    /// MPEG-1/2 audio, layers I and II.
    Mp2,
    AacAdts,
    AacLatm,
    Ac3,
    Eac3,
}

/// A codec of either sort.
#[derive(Debug, Clone, Copy, PartialEq, Eq, Hash, Structural)]
pub enum MediaCodec {
    Video(VideoCodec),
    Audio(AudioCodec),
}

/// How the decoder spreads its work over threads.
#[derive(Debug, Clone, Copy, PartialEq, Eq, Structural)]
pub enum ThreadType {
    /// The decoder chooses.
    Auto,
    Frame,
    Slice,
}

/// When decoded video is deinterlaced.
#[derive(Debug, Clone, Copy, PartialEq, Eq, Structural)]
pub enum DeinterlaceMode {
    /// When the stream is found to be interlaced.
    Auto,
    Off,
    Force,
}

/// Options for opening a decoder.
#[derive(Debug, Clone, Copy, PartialEq, Eq, Structural)]
pub struct CodecConfig {
    /// Number of threads; zero leaves the choice to the decoder.
    pub thread_count: u32,
    pub thread_type: ThreadType,
    pub skip_loop_filter: bool,
    pub flag2_fast: bool,
}

impl CodecConfig {
    /// The cautious choice: as many threads as there are processors, and
    /// nothing left out for speed.
    pub fn cautious(processors: u32) -> (r: Self)
        ensures
            r == (CodecConfig {
                thread_count: processors,
                thread_type: ThreadType::Auto,
                skip_loop_filter: false,
                flag2_fast: false,
            }),
    {
        CodecConfig {
            thread_count: processors,
            thread_type: ThreadType::Auto,
            skip_loop_filter: false,
            flag2_fast: false,
        }
    }
}

/// A descriptor of an elementary stream in a program map table.
#[derive(Debug, Clone)]
pub struct Descriptor {
    pub tag: u8,
    pub data: Vec<u8>,
}

/// An elementary stream entry of a program map table.
#[derive(Debug, Clone)]
pub struct PmtStream {
    pub stream_type: u8,
    pub elementary_pid: u16,
    pub descriptors: Vec<Descriptor>,
}

/// Tag of the registration descriptor.
pub const REGISTRATION_TAG: u8 = 0x05;

/// Stream type of private data, whose codec only the descriptors tell.
pub const PRIVATE_STREAM_TYPE: u8 = 0x06;

impl Descriptor {
    pub fn new(tag: u8, data: Vec<u8>) -> (r: Self)
        ensures
            r == (Descriptor { tag, data }),
    {
        Descriptor { tag, data }
    }

    /// A registration descriptor whose data begins with `format`.
    pub open spec fn registers(self, format: Seq<u8>) -> bool {
        self.tag == REGISTRATION_TAG && format.is_prefix_of(self.data@)
    }

    /// Whether this is a registration descriptor for the four-byte `format`.
    pub fn is_registration_format(&self, format: &[u8; 4]) -> (r: bool)
        ensures
            r == self.registers(format@),
    {
        let r = self.tag == REGISTRATION_TAG && self.data.len() >= 4 && self.data[0] == format[0]
            && self.data[1] == format[1] && self.data[2] == format[2] && self.data[3] == format[3];
        proof {
            if r {
                assert(format@ =~= self.data@.subrange(0, 4));
            } else if format@.is_prefix_of(self.data@) {
                let head = self.data@.subrange(0, 4);
                assert(format@[0] == head[0] && format@[1] == head[1] && format@[2] == head[2]
                    && format@[3] == head[3]);
            }
        }
        r
    }
}

/// Whether some descriptor has `tag`.
pub open spec fn any_tag(descriptors: Seq<Descriptor>, tag: u8) -> bool {
    exists|i: int| 0 <= i < descriptors.len() && (#[trigger] descriptors[i]).tag == tag
}

/// Whether some descriptor registers `format`.
pub open spec fn any_registration(descriptors: Seq<Descriptor>, format: Seq<u8>) -> bool {
    exists|i: int| 0 <= i < descriptors.len() && (#[trigger] descriptors[i]).registers(format)
}

fn has_descriptor_tag(descriptors: &[Descriptor], tag: u8) -> (r: bool)
    ensures
        r == any_tag(descriptors@, tag),
{
    let mut i: usize = 0;
    while i < descriptors.len()
        invariant
            i <= descriptors.len(),
            forall|j: int| 0 <= j < i ==> (#[trigger] descriptors@[j]).tag != tag,
        decreases descriptors.len() - i,
    {
        if descriptors[i].tag == tag {
            assert(descriptors@[i as int].tag == tag);
            return true;
        }
        i = i + 1;
    }
    false
}

fn has_registration(descriptors: &[Descriptor], format: &[u8; 4]) -> (r: bool)
    ensures
        r == any_registration(descriptors@, format@),
{
    let mut i: usize = 0;
    while i < descriptors.len()
        invariant
            i <= descriptors.len(),
            forall|j: int| 0 <= j < i ==> !(#[trigger] descriptors@[j]).registers(format@),
        decreases descriptors.len() - i,
    {
        if descriptors[i].is_registration_format(format) {
            assert(descriptors@[i as int].registers(format@));
            return true;
        }
        i = i + 1;
    }
    false
}

/// The four bytes `EAC3`.
pub open spec fn eac3_format() -> Seq<u8> {
    seq![0x45u8, 0x41u8, 0x43u8, 0x33u8]
}

/// The four bytes `AC-3`.
pub open spec fn ac3_format() -> Seq<u8> {
    seq![0x41u8, 0x43u8, 0x2Du8, 0x33u8]
}

impl VideoCodec {
    /// The codec that a stream type stands for.
    pub open spec fn of_stream_type(stream_type: u8) -> Option<Self> {
        if stream_type == 0x02 {
            Some(VideoCodec::Mpeg2)
        } else if stream_type == 0x1B {
            Some(VideoCodec::H264)
        } else if stream_type == 0x24 {
            Some(VideoCodec::Hevc)
        } else {
            None
        }
    }

    /// The video codec of a stream type, if it is one.
    pub fn from_stream_type(stream_type: u8) -> (r: Option<Self>)
        ensures
            r == Self::of_stream_type(stream_type),
    {
        match stream_type {
            0x02 => Some(VideoCodec::Mpeg2),
            0x1B => Some(VideoCodec::H264),
            0x24 => Some(VideoCodec::Hevc),
            _ => None,
        }
    }

    /// A readable name.
    pub fn name(self) -> (r: &'static str)
        ensures
            r@ == (match self {
                VideoCodec::Mpeg2 => "MPEG-2 Video"@,
                VideoCodec::H264 => "H.264 / AVC"@,
                VideoCodec::Hevc => "H.265 / HEVC"@,
            }),
    {
        match self {
            VideoCodec::Mpeg2 => "MPEG-2 Video",
            VideoCodec::H264 => "H.264 / AVC",
            VideoCodec::Hevc => "H.265 / HEVC",
        }
    }
}

impl AudioCodec {
    /// The codec that a stream type stands for by itself.
    pub open spec fn of_stream_type(stream_type: u8) -> Option<Self> {
        if stream_type == 0x03 || stream_type == 0x04 {
            Some(AudioCodec::Mp2)
        } else if stream_type == 0x0F {
            Some(AudioCodec::AacAdts)
        } else if stream_type == 0x11 {
            Some(AudioCodec::AacLatm)
        } else if stream_type == 0x81 {
            Some(AudioCodec::Ac3)
        } else if stream_type == 0x87 {
            Some(AudioCodec::Eac3)
        } else {
            None
        }
    }

    /// The codec of a table entry: by its stream type, or for private data by
    /// its descriptors, E-AC-3 first and LATM last.
    pub open spec fn of_pmt(stream_type: u8, descriptors: Seq<Descriptor>) -> Option<Self> {
        if Self::of_stream_type(stream_type) is Some {
            Self::of_stream_type(stream_type)
        } else if stream_type != PRIVATE_STREAM_TYPE {
            None
        } else if any_tag(descriptors, 0x7A) || any_registration(descriptors, eac3_format()) {
            Some(AudioCodec::Eac3)
        } else if any_tag(descriptors, 0x6A) || any_registration(descriptors, ac3_format()) {
            Some(AudioCodec::Ac3)
        } else if any_tag(descriptors, 0x7C) {
            Some(AudioCodec::AacLatm)
        } else {
            None
        }
    }

    /// The audio codec of a stream type, if it is one.
    pub fn from_stream_type(stream_type: u8) -> (r: Option<Self>)
        ensures
            r == Self::of_stream_type(stream_type),
    {
        match stream_type {
            0x03 | 0x04 => Some(AudioCodec::Mp2),
            0x0F => Some(AudioCodec::AacAdts),
            0x11 => Some(AudioCodec::AacLatm),
            0x81 => Some(AudioCodec::Ac3),
            0x87 => Some(AudioCodec::Eac3),
            _ => None,
        }
    }

    /// The audio codec of a table entry, if it has one.
    pub fn from_pmt(stream_type: u8, descriptors: &[Descriptor]) -> (r: Option<Self>)
        ensures
            r == Self::of_pmt(stream_type, descriptors@),
    {
        let direct = Self::from_stream_type(stream_type);
        if direct.is_some() {
            return direct;
        }
        if stream_type != PRIVATE_STREAM_TYPE {
            return None;
        }
        let eac3: [u8; 4] = [0x45, 0x41, 0x43, 0x33];
        let ac3: [u8; 4] = [0x41, 0x43, 0x2D, 0x33];
        assert(eac3@ =~= eac3_format());
        assert(ac3@ =~= ac3_format());
        if has_descriptor_tag(descriptors, 0x7A) || has_registration(descriptors, &eac3) {
            return Some(AudioCodec::Eac3);
        }
        if has_descriptor_tag(descriptors, 0x6A) || has_registration(descriptors, &ac3) {
            return Some(AudioCodec::Ac3);
        }
        if has_descriptor_tag(descriptors, 0x7C) {
            return Some(AudioCodec::AacLatm);
        }
        None
    }

    /// A readable name.
    pub fn name(self) -> (r: &'static str)
        ensures
            r@ == (match self {
                AudioCodec::Mp2 => "MPEG-1/2 Audio (MP2)"@,
                AudioCodec::AacAdts => "AAC (ADTS)"@,
                AudioCodec::AacLatm => "AAC (LATM)"@,
                AudioCodec::Ac3 => "AC-3 / Dolby Digital"@,
                AudioCodec::Eac3 => "E-AC-3 / Dolby Digital Plus"@,
            }),
    {
        match self {
            AudioCodec::Mp2 => "MPEG-1/2 Audio (MP2)",
            AudioCodec::AacAdts => "AAC (ADTS)",
            AudioCodec::AacLatm => "AAC (LATM)",
            AudioCodec::Ac3 => "AC-3 / Dolby Digital",
            AudioCodec::Eac3 => "E-AC-3 / Dolby Digital Plus",
        }
    }
}

impl MediaCodec {
    /// The codec that a stream type stands for by itself.
    pub open spec fn of_stream_type(stream_type: u8) -> Option<Self> {
        match (
            VideoCodec::of_stream_type(stream_type),
            AudioCodec::of_stream_type(stream_type),
        ) {
            (Some(v), _) => Some(MediaCodec::Video(v)),
            (None, Some(a)) => Some(MediaCodec::Audio(a)),
            (None, None) => None,
        }
    }

    /// The codec of a table entry.
    pub open spec fn of_pmt(stream_type: u8, descriptors: Seq<Descriptor>) -> Option<Self> {
        match (
            VideoCodec::of_stream_type(stream_type),
            AudioCodec::of_pmt(stream_type, descriptors),
        ) {
            (Some(v), _) => Some(MediaCodec::Video(v)),
            (None, Some(a)) => Some(MediaCodec::Audio(a)),
            (None, None) => None,
        }
    }

    /// The codec of a stream type, if it is supported.
    pub fn from_stream_type(stream_type: u8) -> (r: Option<Self>)
        ensures
            r == Self::of_stream_type(stream_type),
    {
        if let Some(v) = VideoCodec::from_stream_type(stream_type) {
            return Some(MediaCodec::Video(v));
        }
        if let Some(a) = AudioCodec::from_stream_type(stream_type) {
            return Some(MediaCodec::Audio(a));
        }
        None
    }

    /// The codec of a stream type and its descriptors, if it is supported.
    pub fn from_pmt(stream_type: u8, descriptors: &[Descriptor]) -> (r: Option<Self>)
        ensures
            r == Self::of_pmt(stream_type, descriptors@),
    {
        if let Some(v) = VideoCodec::from_stream_type(stream_type) {
            return Some(MediaCodec::Video(v));
        }
        if let Some(a) = AudioCodec::from_pmt(stream_type, descriptors) {
            return Some(MediaCodec::Audio(a));
        }
        None
    }

    /// The codec of a table entry, if it is supported.
    pub fn from_pmt_stream(stream: &PmtStream) -> (r: Option<Self>)
        ensures
            r == Self::of_pmt(stream.stream_type, stream.descriptors@),
    {
        Self::from_pmt(stream.stream_type, stream.descriptors.as_slice())
    }
}

/// No stream type stands for both a video and an audio codec, and descriptors
/// never change what a supported stream type means.
pub proof fn law_stream_types_are_unambiguous(stream_type: u8, descriptors: Seq<Descriptor>)
    ensures
        VideoCodec::of_stream_type(stream_type) is None || AudioCodec::of_pmt(
            stream_type,
            descriptors,
        ) is None,
        MediaCodec::of_stream_type(stream_type) is Some ==> MediaCodec::of_pmt(
            stream_type,
            descriptors,
        ) == MediaCodec::of_stream_type(stream_type),
{
}

/// Which stream type stands for which codec.
pub proof fn law_stream_types_stand_for_codecs(t: u8)
    ensures
        MediaCodec::of_stream_type(t) == if t == 2 {
            Some(MediaCodec::Video(VideoCodec::Mpeg2))
        } else if t == 27 {
            Some(MediaCodec::Video(VideoCodec::H264))
        } else if t == 36 {
            Some(MediaCodec::Video(VideoCodec::Hevc))
        } else if t == 3 || t == 4 {
            Some(MediaCodec::Audio(AudioCodec::Mp2))
        } else if t == 15 {
            Some(MediaCodec::Audio(AudioCodec::AacAdts))
        } else if t == 17 {
            Some(MediaCodec::Audio(AudioCodec::AacLatm))
        } else if t == 129 {
            Some(MediaCodec::Audio(AudioCodec::Ac3))
        } else if t == 135 {
            Some(MediaCodec::Audio(AudioCodec::Eac3))
        } else {
            None
        },
        VideoCodec::of_stream_type(t) == match MediaCodec::of_stream_type(t) {
            Some(MediaCodec::Video(v)) => Some(v),
            _ => None,
        },
        AudioCodec::of_stream_type(t) == match MediaCodec::of_stream_type(t) {
            Some(MediaCodec::Audio(a)) => Some(a),
            _ => None,
        },
{
}

/// A descriptor that says which audio codec private data hold.
pub open spec fn says(d: Descriptor, codec: AudioCodec) -> bool {
    match codec {
        AudioCodec::Eac3 => d.tag == 0x7A || (d.tag == 5 && d.data@.len() >= 4 && d.data@[0] == 0x45
            && d.data@[1] == 0x41 && d.data@[2] == 0x43 && d.data@[3] == 0x33),
        AudioCodec::Ac3 => d.tag == 0x6A || (d.tag == 5 && d.data@.len() >= 4 && d.data@[0] == 0x41
            && d.data@[1] == 0x43 && d.data@[2] == 0x2D && d.data@[3] == 0x33),
        AudioCodec::AacLatm => d.tag == 0x7C,
        _ => false,
    }
}

/// Of private data any one descriptor is enough: E-AC-3 goes before AC-3, and
/// that before LATM.  Other stream types without a codec have none, whatever
/// their descriptors say.
pub proof fn law_descriptors_tell_private_data(descriptors: Seq<Descriptor>, t: u8)
    ensures
        ({
            let eac3 = exists|i: int|
                0 <= i < descriptors.len() && #[trigger] says(descriptors[i], AudioCodec::Eac3);
            let ac3 = exists|i: int|
                0 <= i < descriptors.len() && #[trigger] says(descriptors[i], AudioCodec::Ac3);
            let latm = exists|i: int|
                0 <= i < descriptors.len() && #[trigger] says(descriptors[i], AudioCodec::AacLatm);
            MediaCodec::of_pmt(6, descriptors) == if eac3 {
                Some(MediaCodec::Audio(AudioCodec::Eac3))
            } else if ac3 {
                Some(MediaCodec::Audio(AudioCodec::Ac3))
            } else if latm {
                Some(MediaCodec::Audio(AudioCodec::AacLatm))
            } else {
                None
            }
        }),
        t != 6 ==> MediaCodec::of_pmt(t, descriptors) == MediaCodec::of_stream_type(t),
{
    assert forall|d: Descriptor, format: Seq<u8>|
        format.len() == 4 implies #[trigger] d.registers(format) == (d.tag == 5 && d.data@.len()
        >= 4 && d.data@[0] == format[0] && d.data@[1] == format[1] && d.data@[2] == format[2]
        && d.data@[3] == format[3]) by {
        if d.data@.len() >= 4 && d.data@[0] == format[0] && d.data@[1] == format[1] && d.data@[2]
            == format[2] && d.data@[3] == format[3] {
            assert(d.data@.subrange(0, 4) =~= format);
        }
        if format.is_prefix_of(d.data@) {
            let head = d.data@.subrange(0, 4);
            assert(head == format);
            assert(head[0] == d.data@[0] && head[1] == d.data@[1] && head[2] == d.data@[2]
                && head[3] == d.data@[3]);
        }
    }
    assert forall|i: int| 0 <= i < descriptors.len() implies #[trigger] says(
        descriptors[i],
        AudioCodec::Eac3,
    ) == (descriptors[i].tag == 0x7A || descriptors[i].registers(eac3_format())) by {}
    assert forall|i: int| 0 <= i < descriptors.len() implies #[trigger] says(
        descriptors[i],
        AudioCodec::Ac3,
    ) == (descriptors[i].tag == 0x6A || descriptors[i].registers(ac3_format())) by {}
    assert forall|i: int| 0 <= i < descriptors.len() implies #[trigger] says(
        descriptors[i],
        AudioCodec::AacLatm,
    ) == (descriptors[i].tag == 0x7C) by {}
    assert((any_tag(descriptors, 0x7A) || any_registration(descriptors, eac3_format())) == (
    exists|i: int|
        0 <= i < descriptors.len() && #[trigger] says(descriptors[i], AudioCodec::Eac3))) by {
        if any_tag(descriptors, 0x7A) {
            let i = choose|i: int| 0 <= i < descriptors.len() && descriptors[i].tag == 0x7A;
            assert(says(descriptors[i], AudioCodec::Eac3));
        }
        if any_registration(descriptors, eac3_format()) {
            let i = choose|i: int|
                0 <= i < descriptors.len() && descriptors[i].registers(eac3_format());
            assert(says(descriptors[i], AudioCodec::Eac3));
        }
    }
    assert((any_tag(descriptors, 0x6A) || any_registration(descriptors, ac3_format())) == (
    exists|i: int| 0 <= i < descriptors.len() && #[trigger] says(descriptors[i], AudioCodec::Ac3)))
        by {
        if any_tag(descriptors, 0x6A) {
            let i = choose|i: int| 0 <= i < descriptors.len() && descriptors[i].tag == 0x6A;
            assert(says(descriptors[i], AudioCodec::Ac3));
        }
        if any_registration(descriptors, ac3_format()) {
            let i = choose|i: int|
                0 <= i < descriptors.len() && descriptors[i].registers(ac3_format());
            assert(says(descriptors[i], AudioCodec::Ac3));
        }
    }
    assert(any_tag(descriptors, 0x7C) == (exists|i: int|
        0 <= i < descriptors.len() && #[trigger] says(descriptors[i], AudioCodec::AacLatm))) by {
        if any_tag(descriptors, 0x7C) {
            let i = choose|i: int| 0 <= i < descriptors.len() && descriptors[i].tag == 0x7C;
            assert(says(descriptors[i], AudioCodec::AacLatm));
        }
    }
}

} // verus!
