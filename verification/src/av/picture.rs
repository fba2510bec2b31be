use vstd::prelude::*;
use vstd::string::StringExecFns;

use crate::av::error::AvError;
use crate::av::ffmpeg::{
    frame_time, pts_raw_to_option, AVERROR_EINVAL, AV_COL_RANGE_JPEG, AV_FRAME_FLAG_INTERLACED,
    AV_PIX_FMT_D3D11, AV_PIX_FMT_NV12, AV_PIX_FMT_YUV420P, AV_PIX_FMT_YUV420P10LE,
};
use crate::av::hw::surface::{ColorSpace, NvPlanes, TransferFunction};
use crate::av::video_queue::{HwVideoFrame, YuvColorRange, YuvColorspace, YuvFrame};

verus! {

/// How many bytes of a decoder frame are read for its [`FrameHeader`].
pub const FRAME_HEADER_LEN: usize = 392;

/// What a decoder frame says of itself.
#[derive(Debug, Clone, Copy, PartialEq, Eq, Structural)]
pub struct FrameHeader {
    pub width: i32,
    pub height: i32,
    pub nb_samples: i32,
    pub format: i32,
    /// Sample aspect ratio, as far as it is known.
    pub sar_num: i32,
    pub sar_den: i32,
    pub pts: i64,
    pub sample_rate: i32,
    pub flags: i32,
    pub color_range: i32,
    pub color_trc: i32,
    pub colorspace: i32,
    pub channels: i32,
}

/// The unsigned little-endian number in the `n` bytes at `i`.
pub open spec fn le_number(data: Seq<u8>, i: int, n: nat) -> int
    decreases n,
{
    if n == 0 {
        0
    } else {
        data[i] + 256 * le_number(data, i + 1, (n - 1) as nat)
    }
}

/// The signed 32-bit little-endian number at `i`.
pub open spec fn le_i32(data: Seq<u8>, i: int) -> int {
    let n = le_number(data, i, 4);
    if n < 0x8000_0000 {
        n
    } else {
        n - 0x1_0000_0000
    }
}

/// The signed 64-bit little-endian number at `i`.
pub open spec fn le_i64(data: Seq<u8>, i: int) -> int {
    let n = le_number(data, i, 8);
    if n < 0x8000_0000_0000_0000 {
        n
    } else {
        n - 0x1_0000_0000_0000_0000
    }
}

fn read_u32(data: &[u8], i: usize) -> (r: u32)
    requires
        i + 4 <= data@.len(),
    ensures
        r == le_number(data@, i as int, 4),
{
    proof {
        reveal_with_fuel(le_number, 5);
    }
    data[i] as u32 + 256 * (data[i + 1] as u32 + 256 * (data[i + 2] as u32 + 256 * (data[i
        + 3] as u32)))
}

fn read_i32(data: &[u8], i: usize) -> (r: i32)
    requires
        i + 4 <= data@.len(),
    ensures
        r == le_i32(data@, i as int),
{
    let n: u32 = read_u32(data, i);
    if n < 0x8000_0000 {
        n as i32
    } else {
        (n as i64 - 0x1_0000_0000) as i32
    }
}

fn read_i64(data: &[u8], i: usize) -> (r: i64)
    requires
        i + 8 <= data@.len(),
    ensures
        r == le_i64(data@, i as int),
{
    assert(data.len() == data@.len());
    let low: u32 = read_u32(data, i);
    let high: u32 = read_u32(data, i + 4);
    proof {
        reveal_with_fuel(le_number, 9);
    }
    let n: u64 = low as u64 + 0x1_0000_0000 * (high as u64);
    assert(n == le_number(data@, i as int, 8));
    if n < 0x8000_0000_0000_0000 {
        n as i64
    } else {
        (n as i128 - 0x1_0000_0000_0000_0000) as i64
    }
}

impl FrameHeader {
    /// The fields at their places in a frame of the decoder library.
    pub open spec fn describes(self, data: Seq<u8>) -> bool {
        &&& self.width == le_i32(data, 104)
        &&& self.height == le_i32(data, 108)
        &&& self.nb_samples == le_i32(data, 112)
        &&& self.format == le_i32(data, 116)
        &&& self.sar_num == le_i32(data, 128)
        &&& self.sar_den == le_i32(data, 132)
        &&& self.pts == le_i64(data, 136)
        &&& self.sample_rate == le_i32(data, 180)
        &&& self.flags == le_i32(data, 276)
        &&& self.color_range == le_i32(data, 280)
        &&& self.color_trc == le_i32(data, 288)
        &&& self.colorspace == le_i32(data, 292)
        &&& self.channels == le_i32(data, 388)
    }

    /// Reads the header of a frame; `None` where there are too few bytes.
    pub fn parse(data: &[u8]) -> (r: Option<Self>)
        ensures
            match r {
                Some(h) => data@.len() >= FRAME_HEADER_LEN && h.describes(data@),
                None => data@.len() < FRAME_HEADER_LEN,
            },
    {
        if data.len() < FRAME_HEADER_LEN {
            return None;
        }
        Some(
            FrameHeader {
                width: read_i32(data, 104),
                height: read_i32(data, 108),
                nb_samples: read_i32(data, 112),
                format: read_i32(data, 116),
                sar_num: read_i32(data, 128),
                sar_den: read_i32(data, 132),
                pts: read_i64(data, 136),
                sample_rate: read_i32(data, 180),
                flags: read_i32(data, 276),
                color_range: read_i32(data, 280),
                color_trc: read_i32(data, 288),
                colorspace: read_i32(data, 292),
                channels: read_i32(data, 388),
            },
        )
    }

    /// Whether the picture is in a hardware surface.
    pub fn is_hw(&self) -> (r: bool)
        ensures
            r == (self.format == AV_PIX_FMT_D3D11),
    {
        self.format == AV_PIX_FMT_D3D11
    }

    pub open spec fn interlaced(self) -> bool {
        self.flags & AV_FRAME_FLAG_INTERLACED != 0
    }

    /// Whether the picture consists of two fields.
    pub fn is_interlaced(&self) -> (r: bool)
        ensures
            r == self.interlaced(),
    {
        self.flags & AV_FRAME_FLAG_INTERLACED != 0
    }

    /// The sample aspect ratio, or square pixels where none is given.
    pub open spec fn aspect(self) -> (u32, u32) {
        if self.sar_num > 0 && self.sar_den > 0 {
            (self.sar_num as u32, self.sar_den as u32)
        } else {
            (1, 1)
        }
    }

    /// The sample aspect ratio, or square pixels where none is given.
    pub fn sample_aspect(&self) -> (r: (u32, u32))
        ensures
            r == self.aspect(),
    {
        if self.sar_num > 0 && self.sar_den > 0 {
            (self.sar_num as u32, self.sar_den as u32)
        } else {
            (1, 1)
        }
    }
}

/// The first `row` bytes of each of `rows` rows that start `stride` apart.
pub open spec fn compacted(src: Seq<u8>, stride: int, row: int, rows: nat) -> Seq<u8>
    decreases rows,
{
    if rows == 0 {
        Seq::empty()
    } else {
        compacted(src, stride, row, (rows - 1) as nat) + src.subrange(
            (rows - 1) * stride,
            (rows - 1) * stride + row,
        )
    }
}

/// `src` holds `rows` rows of `row` bytes that start `stride` apart.
pub open spec fn holds_rows(src: Seq<u8>, stride: int, row: int, rows: int) -> bool {
    rows > 0 ==> (rows - 1) * stride + row <= src.len()
}

proof fn lemma_row_within(r: int, rows: int, stride: int, row: int, len: int)
    requires
        0 <= r < rows,
        0 <= stride,
        (rows - 1) * stride + row <= len,
    ensures
        0 <= r * stride,
        r * stride + row <= len,
{
    assert(0 <= r * stride <= (rows - 1) * stride) by (nonlinear_arith)
        requires
            0 <= r <= rows - 1,
            0 <= stride,
    ;
}

/// Copies rows together, leaving out the padding between them.
pub fn compact_plane(src: &[u8], stride: usize, row: usize, rows: usize) -> (r: Vec<u8>)
    requires
        holds_rows(src@, stride as int, row as int, rows as int),
    ensures
        r@ == compacted(src@, stride as int, row as int, rows as nat),
{
    let mut out: Vec<u8> = Vec::new();
    let mut i: usize = 0;
    while i < rows
        invariant
            i <= rows,
            holds_rows(src@, stride as int, row as int, rows as int),
            out@ == compacted(src@, stride as int, row as int, i as nat),
        decreases rows - i,
    {
        proof {
            lemma_row_within(
                i as int,
                rows as int,
                stride as int,
                row as int,
                src@.len() as int,
            );
        }
        assert(src.len() == src@.len());
        let start: usize = i * stride;
        out.extend_from_slice(vstd::slice::slice_subrange(src, start, start + row));
        i = i + 1;
        assert(out@ =~= compacted(src@, stride as int, row as int, i as nat));
    }
    out
}

/// Compacting keeps every byte of every row in its place.
pub proof fn law_compaction_keeps_the_rows(
    src: Seq<u8>,
    stride: int,
    row: int,
    rows: nat,
    y: int,
    x: int,
)
    requires
        0 <= stride,
        0 <= x < row,
        0 <= y < rows,
        holds_rows(src, stride, row, rows as int),
    ensures
        compacted(src, stride, row, rows).len() == rows * row,
        0 <= y * row + x < rows * row,
        compacted(src, stride, row, rows)[y * row + x] == src[y * stride + x],
    decreases rows,
{
    let last = rows - 1;
    lemma_row_within(last, rows as int, stride, row, src.len() as int);
    if last > 0 {
        lemma_row_within(last - 1, rows as int, stride, row, src.len() as int);
    }
    lemma_compacted_len(src, stride, row, rows);
    lemma_compacted_len(src, stride, row, last as nat);
    assert(rows * row == last * row + row) by (nonlinear_arith)
        requires
            last == rows - 1,
    ;
    assert(0 <= y * row && y * row + row <= rows * row) by (nonlinear_arith)
        requires
            0 <= y < rows,
            0 < row,
    ;
    if y < last {
        law_compaction_keeps_the_rows(src, stride, row, last as nat, y, x);
    }
}

proof fn lemma_compacted_len(src: Seq<u8>, stride: int, row: int, rows: nat)
    requires
        0 <= stride,
        0 <= row,
        holds_rows(src, stride, row, rows as int),
    ensures
        compacted(src, stride, row, rows).len() == rows * row,
    decreases rows,
{
    if rows > 0 {
        lemma_row_within(rows - 1, rows as int, stride, row, src.len() as int);
        if rows > 1 {
            lemma_row_within(rows - 2, rows as int, stride, row, src.len() as int);
        }
        lemma_compacted_len(src, stride, row, (rows - 1) as nat);
        assert(rows * row == (rows - 1) * row + row) by (nonlinear_arith);
    } else {
        assert(rows * row == 0) by (nonlinear_arith)
            requires
                rows == 0,
        ;
    }
}

/// One component of `pairs` interleaved pairs in each of `rows` rows: the first
/// of each pair for `phase` zero, the second for one.
pub open spec fn component(src: Seq<u8>, stride: int, pairs: nat, rows: nat, phase: int) -> Seq<u8>
    decreases rows,
{
    if rows == 0 {
        Seq::empty()
    } else {
        component(src, stride, pairs, (rows - 1) as nat, phase) + Seq::new(
            pairs,
            |x: int| src[(rows - 1) * stride + 2 * x + phase],
        )
    }
}

/// Separates the interleaved chroma samples of an NV12 plane.
pub fn separate_chroma(src: &[u8], stride: usize, pairs: usize, rows: usize) -> (r: (
    Vec<u8>,
    Vec<u8>,
))
    requires
        holds_rows(src@, stride as int, 2 * pairs, rows as int),
    ensures
        r.0@ == component(src@, stride as int, pairs as nat, rows as nat, 0),
        r.1@ == component(src@, stride as int, pairs as nat, rows as nat, 1),
{
    let mut u: Vec<u8> = Vec::new();
    let mut v: Vec<u8> = Vec::new();
    let mut i: usize = 0;
    while i < rows
        invariant
            i <= rows,
            holds_rows(src@, stride as int, 2 * pairs, rows as int),
            u@ == component(src@, stride as int, pairs as nat, i as nat, 0),
            v@ == component(src@, stride as int, pairs as nat, i as nat, 1),
        decreases rows - i,
    {
        proof {
            lemma_row_within(i as int, rows as int, stride as int, 2 * pairs, src@.len() as int);
        }
        assert(src.len() == src@.len());
        let start: usize = i * stride;
        let ghost u0 = u@;
        let ghost v0 = v@;
        let mut x: usize = 0;
        while x < pairs
            invariant
                x <= pairs,
                start == i * stride,
                start + 2 * pairs <= src@.len(),
                src.len() == src@.len(),
                u@ == u0 + Seq::new(x as nat, |k: int| src@[i * stride + 2 * k]),
                v@ == v0 + Seq::new(x as nat, |k: int| src@[i * stride + 2 * k + 1]),
            decreases pairs - x,
        {
            u.push(src[start + 2 * x]);
            v.push(src[start + 2 * x + 1]);
            x = x + 1;
            assert(u@ =~= u0 + Seq::new(x as nat, |k: int| src@[i * stride + 2 * k]));
            assert(v@ =~= v0 + Seq::new(x as nat, |k: int| src@[i * stride + 2 * k + 1]));
        }
        i = i + 1;
        assert(u@ =~= component(src@, stride as int, pairs as nat, i as nat, 0));
        assert(v@ =~= component(src@, stride as int, pairs as nat, i as nat, 1));
    }
    (u, v)
}

/// Sizes of the planes of a decoded picture, in bytes per row and rows.
#[derive(Debug, Clone, Copy, PartialEq, Eq, Structural)]
pub struct PlaneLayout {
    pub ten_bit: bool,
    pub luma_row: usize,
    pub luma_rows: usize,
    pub chroma_row: usize,
    pub chroma_rows: usize,
}

/// The planes of a `width` by `height` picture with chroma at half resolution
/// in both directions, rounded down.
pub open spec fn layout_of(width: i32, height: i32, ten_bit: bool) -> PlaneLayout {
    let sample: int = if ten_bit {
        2
    } else {
        1
    };
    PlaneLayout {
        ten_bit,
        luma_row: (width * sample) as usize,
        luma_rows: height as usize,
        chroma_row: (width as int / 2 * sample) as usize,
        chroma_rows: (height as int / 2) as usize,
    }
}

/// The layout of a picture decoded in software: planar, eight or ten bits.
pub open spec fn planar_layout(header: FrameHeader) -> Option<PlaneLayout> {
    if header.width <= 0 || header.height <= 0 {
        None
    } else if header.format == AV_PIX_FMT_YUV420P {
        Some(layout_of(header.width, header.height, false))
    } else if header.format == AV_PIX_FMT_YUV420P10LE {
        Some(layout_of(header.width, header.height, true))
    } else {
        None
    }
}

/// The layout of a picture downloaded from a hardware surface: eight bits,
/// planar or with interleaved chroma.
pub open spec fn downloaded_layout(header: FrameHeader) -> Option<PlaneLayout> {
    if header.width > 0 && header.height > 0 && (header.format == AV_PIX_FMT_YUV420P
        || header.format == AV_PIX_FMT_NV12) {
        Some(layout_of(header.width, header.height, false))
    } else {
        None
    }
}

fn make_layout(width: i32, height: i32, ten_bit: bool) -> (r: PlaneLayout)
    requires
        width > 0,
        height > 0,
    ensures
        r == layout_of(width, height, ten_bit),
{
    let sample: usize = if ten_bit {
        2
    } else {
        1
    };
    let w: usize = width as usize;
    let h: usize = height as usize;
    assert(w * sample <= 0xFFFF_FFFF && w / 2 * sample <= 0xFFFF_FFFF);
    PlaneLayout {
        ten_bit,
        luma_row: w * sample,
        luma_rows: h,
        chroma_row: w / 2 * sample,
        chroma_rows: h / 2,
    }
}

/// The layout of a picture decoded in software, or an error for a picture that
/// has no size or another format.
pub fn plan_planar(header: &FrameHeader) -> (r: Result<PlaneLayout, AvError>)
    ensures
        match r {
            Ok(layout) => planar_layout(*header) == Some(layout),
            Err(e) => planar_layout(*header) is None && e == (AvError::FfmpegError {
                code: AVERROR_EINVAL,
            }),
        },
{
    if header.width <= 0 || header.height <= 0 {
        return Err(AvError::FfmpegError { code: AVERROR_EINVAL });
    }
    let ten_bit = header.format == AV_PIX_FMT_YUV420P10LE;
    if header.format != AV_PIX_FMT_YUV420P && header.format != AV_PIX_FMT_YUV420P10LE {
        return Err(AvError::FfmpegError { code: AVERROR_EINVAL });
    }
    Ok(make_layout(header.width, header.height, ten_bit))
}

/// The layout of a picture downloaded from a hardware surface, or an error for
/// a picture that has no size or another format.
pub fn plan_download(header: &FrameHeader) -> (r: Result<PlaneLayout, AvError>)
    ensures
        match r {
            Ok(layout) => downloaded_layout(*header) == Some(layout),
            Err(e) => downloaded_layout(*header) is None && e == (AvError::FfmpegError {
                code: AVERROR_EINVAL,
            }),
        },
{
    if header.width <= 0 || header.height <= 0 {
        return Err(AvError::FfmpegError { code: AVERROR_EINVAL });
    }
    if header.format != AV_PIX_FMT_YUV420P && header.format != AV_PIX_FMT_NV12 {
        return Err(AvError::FfmpegError { code: AVERROR_EINVAL });
    }
    Ok(make_layout(header.width, header.height, false))
}

/// A plane in memory: its bytes and how far apart its rows start.
#[derive(Debug, Clone, Copy)]
pub struct PlaneSource<'a> {
    pub data: &'a [u8],
    pub stride: usize,
}

impl<'a> PlaneSource<'a> {
    pub open spec fn holds(self, row: int, rows: int) -> bool {
        holds_rows(self.data@, self.stride as int, row, rows)
    }

    pub open spec fn rows(self, row: int, rows: int) -> Seq<u8> {
        compacted(self.data@, self.stride as int, row, rows as nat)
    }
}

/// The three planes of a planar picture, without padding.
pub fn extract_yuv420p_planes(
    y: PlaneSource<'_>,
    u: PlaneSource<'_>,
    v: PlaneSource<'_>,
    layout: &PlaneLayout,
) -> (r: [Vec<u8>; 3])
    requires
        y.holds(layout.luma_row as int, layout.luma_rows as int),
        u.holds(layout.chroma_row as int, layout.chroma_rows as int),
        v.holds(layout.chroma_row as int, layout.chroma_rows as int),
    ensures
        r[0]@ == y.rows(layout.luma_row as int, layout.luma_rows as int),
        r[1]@ == u.rows(layout.chroma_row as int, layout.chroma_rows as int),
        r[2]@ == v.rows(layout.chroma_row as int, layout.chroma_rows as int),
{
    [
        compact_plane(y.data, y.stride, layout.luma_row, layout.luma_rows),
        compact_plane(u.data, u.stride, layout.chroma_row, layout.chroma_rows),
        compact_plane(v.data, v.stride, layout.chroma_row, layout.chroma_rows),
    ]
}

/// The three planes of a picture with interleaved chroma, without padding.
pub fn extract_nv12_planes(
    y: PlaneSource<'_>,
    uv: PlaneSource<'_>,
    layout: &PlaneLayout,
) -> (r: [Vec<u8>; 3])
    requires
        y.holds(layout.luma_row as int, layout.luma_rows as int),
        uv.holds(2 * layout.chroma_row, layout.chroma_rows as int),
    ensures
        r[0]@ == y.rows(layout.luma_row as int, layout.luma_rows as int),
        r[1]@ == component(
            uv.data@,
            uv.stride as int,
            layout.chroma_row as nat,
            layout.chroma_rows as nat,
            0,
        ),
        r[2]@ == component(
            uv.data@,
            uv.stride as int,
            layout.chroma_row as nat,
            layout.chroma_rows as nat,
            1,
        ),
{
    let luma = compact_plane(y.data, y.stride, layout.luma_row, layout.luma_rows);
    let (u, v) = separate_chroma(uv.data, uv.stride, layout.chroma_row, layout.chroma_rows);
    [luma, u, v]
}

/// A software frame made of `planes`, with what the header says of it.
pub fn software_frame(header: &FrameHeader, planes: [Vec<u8>; 3], ten_bit: bool) -> (r: YuvFrame)
    requires
        header.width > 0,
        header.height > 0,
    ensures
        r.planes == planes,
        r.width == header.width,
        r.height == header.height,
        r.pts == frame_time(header.pts),
        (r.sar_num, r.sar_den) == header.aspect(),
        r.colorspace == if header.colorspace == 1 {
            YuvColorspace::Bt709
        } else if header.colorspace == 5 || header.colorspace == 6 {
            YuvColorspace::Bt601
        } else if header.colorspace == 9 || header.colorspace == 10 {
            YuvColorspace::Bt2020
        } else {
            YuvColorspace::Unspecified
        },
        r.color_range == if header.color_range == 2 {
            YuvColorRange::Full
        } else {
            YuvColorRange::Limited
        },
        r.ten_bit == ten_bit,
{
    let (sar_num, sar_den): (u32, u32) = header.sample_aspect();
    YuvFrame {
        planes,
        width: header.width as u32,
        height: header.height as u32,
        pts: pts_raw_to_option(header.pts),
        sar_num,
        sar_den,
        colorspace: YuvColorspace::from_avutil(header.colorspace),
        color_range: YuvColorRange::from_avutil(header.color_range),
        ten_bit,
    }
}

/// The luma and interleaved chroma rows of a hardware surface of `width` by
/// `height`, without padding; chroma rows are half as many, rounded up.
pub fn extract_surface_planes(
    y: PlaneSource<'_>,
    uv: PlaneSource<'_>,
    width: u32,
    height: u32,
    ten_bit: bool,
) -> (r: Result<NvPlanes, AvError>)
    requires
        width > 0 && height > 0 ==> y.holds(
            width * (if ten_bit {
                2int
            } else {
                1int
            }),
            height as int,
        ),
        width > 0 && height > 0 ==> uv.holds(
            width * (if ten_bit {
                2int
            } else {
                1int
            }),
            (height + 1) / 2,
        ),
        width * 2 <= usize::MAX,
    ensures
        match r {
            Ok(p) => {
                let row = width * (if ten_bit {
                    2int
                } else {
                    1int
                });
                &&& width > 0 && height > 0
                &&& p.y_data@ == y.rows(row, height as int)
                &&& p.uv_data@ == uv.rows(row, (height + 1) / 2)
                &&& p.width == width
                &&& p.height == height
                &&& p.ten_bit == ten_bit
            },
            Err(e) => {
                &&& width == 0 || height == 0
                &&& e matches AvError::HwInitFailed(m) && m@
                    == "extract_nv12_planes: dimensões inválidas"@
            },
        },
{
    if width == 0 || height == 0 {
        return Err(
            AvError::HwInitFailed(
                String::from_str("extract_nv12_planes: dimensões inválidas"),
            ),
        );
    }
    let sample: usize = if ten_bit {
        2
    } else {
        1
    };
    let row: usize = width as usize * sample;
    let rows: usize = height as usize;
    let chroma_rows: usize = rows / 2 + rows % 2;
    Ok(
        NvPlanes {
            y_data: compact_plane(y.data, y.stride, row, rows),
            uv_data: compact_plane(uv.data, uv.stride, row, chroma_rows),
            width,
            height,
            ten_bit,
        },
    )
}

/// A hardware frame made of `planes`, with what the header says of it.
pub fn hardware_frame(header: &FrameHeader, planes: NvPlanes, width: u32, height: u32) -> (r:
    HwVideoFrame)
    ensures
        r.planes == planes,
        r.width == width,
        r.height == height,
        r.pts == frame_time(header.pts),
        (r.sar_num, r.sar_den) == header.aspect(),
        r.colorspace == if header.colorspace == 5 || header.colorspace == 6 {
            YuvColorspace::Bt601
        } else if header.colorspace == 9 {
            YuvColorspace::Bt2020
        } else {
            YuvColorspace::Bt709
        },
        r.color_range == if header.color_range == AV_COL_RANGE_JPEG {
            YuvColorRange::Full
        } else {
            YuvColorRange::Limited
        },
        r.transfer == if header.color_trc == 16 {
            TransferFunction::Pq
        } else if header.color_trc == 18 {
            TransferFunction::Hlg
        } else if header.color_trc == 13 {
            TransferFunction::Srgb
        } else {
            TransferFunction::Bt1886
        },
{
    let (sar_num, sar_den): (u32, u32) = header.sample_aspect();
    let colorspace = match ColorSpace::from_avutil(header.colorspace) {
        ColorSpace::Bt601 => YuvColorspace::Bt601,
        ColorSpace::Bt709 => YuvColorspace::Bt709,
        ColorSpace::Bt2020 => YuvColorspace::Bt2020,
    };
    let color_range = if header.color_range == AV_COL_RANGE_JPEG {
        YuvColorRange::Full
    } else {
        YuvColorRange::Limited
    };
    HwVideoFrame {
        planes,
        colorspace,
        color_range,
        transfer: TransferFunction::from_avutil(header.color_trc),
        pts: pts_raw_to_option(header.pts),
        width,
        height,
        sar_num,
        sar_den,
    }
}

/// Separating chroma samples puts the first, or the second, of each pair at
/// the place of the pair.
pub proof fn law_separation_keeps_the_samples(
    src: Seq<u8>,
    stride: int,
    pairs: nat,
    rows: nat,
    phase: int,
    y: int,
    x: int,
)
    requires
        0 <= x < pairs,
        0 <= y < rows,
    ensures
        component(src, stride, pairs, rows, phase).len() == rows * pairs,
        0 <= y * pairs + x < rows * pairs,
        component(src, stride, pairs, rows, phase)[y * pairs + x] == src[y * stride + 2 * x
            + phase],
    decreases rows,
{
    lemma_component_len(src, stride, pairs, rows, phase);
    lemma_component_len(src, stride, pairs, (rows - 1) as nat, phase);
    let last = rows - 1;
    assert(rows * pairs == last * pairs + pairs) by (nonlinear_arith)
        requires
            last == rows - 1,
    ;
    assert(0 <= y * pairs && y * pairs + pairs <= rows * pairs) by (nonlinear_arith)
        requires
            0 <= y < rows,
            0 < pairs,
    ;
    if y < last {
        law_separation_keeps_the_samples(src, stride, pairs, last as nat, phase, y, x);
    }
}

proof fn lemma_component_len(src: Seq<u8>, stride: int, pairs: nat, rows: nat, phase: int)
    ensures
        component(src, stride, pairs, rows, phase).len() == rows * pairs,
    decreases rows,
{
    if rows > 0 {
        lemma_component_len(src, stride, pairs, (rows - 1) as nat, phase);
        assert(rows * pairs == (rows - 1) * pairs + pairs) by (nonlinear_arith);
    } else {
        assert(rows * pairs == 0) by (nonlinear_arith)
            requires
                rows == 0,
        ;
    }
}

/// A plane has a row for each line of the picture, of one byte for each sample
/// or of two with ten bits, and chroma has half as many of both, rounded down.
/// Software pictures are planar with eight or ten bits, downloaded ones have
/// eight, planar or with chroma in pairs; without a size there is no layout.
pub proof fn law_planes_follow_the_picture(header: FrameHeader)
    ensures
        header.width <= 0 || header.height <= 0 ==> planar_layout(header) is None
            && downloaded_layout(header) is None,
        header.width > 0 && header.height > 0 ==> ({
            let (w, h) = (header.width as int, header.height as int);
            let eight = PlaneLayout {
                ten_bit: false,
                luma_row: w as usize,
                luma_rows: h as usize,
                chroma_row: (w / 2) as usize,
                chroma_rows: (h / 2) as usize,
            };
            let ten = PlaneLayout {
                ten_bit: true,
                luma_row: (2 * w) as usize,
                luma_rows: h as usize,
                chroma_row: (2 * (w / 2)) as usize,
                chroma_rows: (h / 2) as usize,
            };
            &&& planar_layout(header) == if header.format == AV_PIX_FMT_YUV420P {
                Some(eight)
            } else if header.format == AV_PIX_FMT_YUV420P10LE {
                Some(ten)
            } else {
                None
            }
            &&& downloaded_layout(header) == if header.format == AV_PIX_FMT_YUV420P || header.format
                == AV_PIX_FMT_NV12 {
                Some(eight)
            } else {
                None
            }
        }),
{
}

/// Numbers are read with their least significant byte first, and the highest
/// bit as the sign.
pub proof fn law_numbers_are_little_endian(data: Seq<u8>, i: int)
    ensures
        ({
            let low = data[i] + data[i + 1] * 0x100 + data[i + 2] * 0x1_0000 + data[i + 3]
                * 0x100_0000;
            let high = data[i + 4] + data[i + 5] * 0x100 + data[i + 6] * 0x1_0000 + data[i + 7]
                * 0x100_0000;
            &&& le_i32(data, i) == if data[i + 3] >= 128 {
                low - 0x1_0000_0000
            } else {
                low
            }
            &&& le_i64(data, i) == if data[i + 7] >= 128 {
                low + high * 0x1_0000_0000 - 0x1_0000_0000_0000_0000
            } else {
                low + high * 0x1_0000_0000
            }
        }),
{
    reveal_with_fuel(le_number, 9);
}

/// An aspect ratio counts where both its parts are positive; else pixels are
/// square.
pub proof fn law_aspect_ratios_are_positive(header: FrameHeader)
    ensures
        header.sar_num > 0 && header.sar_den > 0 ==> header.aspect() == (
            header.sar_num as u32,
            header.sar_den as u32,
        ),
        header.sar_num <= 0 || header.sar_den <= 0 ==> header.aspect() == (1u32, 1u32),
{
}

} // verus!
