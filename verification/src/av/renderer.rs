use vstd::prelude::*;

use crate::av::hw::surface::TransferFunction;
use crate::av::video_queue::{VideoFrame, YuvColorRange, YuvColorspace};

verus! {

/// How many output textures are used in turn.
pub const OUTPUT_POOL_LEN: usize = 3;

/// How long uploads are counted before their rate is taken, in nanoseconds.
pub const UPLOAD_WINDOW: u64 = 1_000_000_000;

/// A number as a fraction.
#[derive(Debug, Clone, Copy, PartialEq, Eq, Structural)]
pub struct Ratio {
    pub num: i64,
    pub den: i64,
}

pub open spec fn ratio(num: int, den: int) -> Ratio {
    Ratio { num: num as i64, den: den as i64 }
}

/// One column of the conversion matrix, and a value that goes along with it.
#[derive(Debug, Clone, Copy, PartialEq, Eq, Structural)]
pub struct Column {
    pub r: Ratio,
    pub g: Ratio,
    pub b: Ratio,
    pub extra: Ratio,
}

/// What the shader is given to convert a picture: it computes
/// `matrix * ((y - luma_offset) * range_scale, u - uv_center, v - uv_center)`.
#[derive(Debug, Clone, Copy, PartialEq, Eq, Structural)]
pub struct YuvParamsGpu {
    /// Luma coefficients, and the transfer function's number.
    pub col0: Column,
    /// Blue difference coefficients, and whether highlights are clipped.
    pub col1: Column,
    /// Red difference coefficients.
    pub col2: Column,
    pub luma_offset: Ratio,
    pub uv_center: Ratio,
    /// Whether wide colours are mapped to the screen's.
    pub gamut_map: Ratio,
    pub range_scale: Ratio,
}

/// Coefficients of the blue difference for red, green and blue, in millionths.
pub open spec fn blue_coefficients(cs: YuvColorspace) -> (int, int, int) {
    match cs {
        YuvColorspace::Bt601 => (0, -344_136, 1_772_000),
        YuvColorspace::Bt709 | YuvColorspace::Unspecified => (0, -187_324, 1_855_600),
        YuvColorspace::Bt2020 => (0, -164_553, 1_881_400),
    }
}

/// Coefficients of the red difference for red, green and blue, in millionths.
pub open spec fn red_coefficients(cs: YuvColorspace) -> (int, int, int) {
    match cs {
        YuvColorspace::Bt601 => (1_402_000, -714_136, 0),
        YuvColorspace::Bt709 | YuvColorspace::Unspecified => (1_574_800, -468_124, 0),
        YuvColorspace::Bt2020 => (1_474_600, -571_353, 0),
    }
}

/// The shader's number for a transfer function.
pub open spec fn transfer_mode(t: TransferFunction) -> int {
    match t {
        TransferFunction::Bt1886 => 0,
        TransferFunction::Pq => 1,
        TransferFunction::Hlg => 2,
        TransferFunction::Srgb => 3,
    }
}

pub open spec fn flag(b: bool) -> int {
    if b {
        1
    } else {
        0
    }
}

/// Largest sample value, nominal black, nominal white, and nominal chroma
/// span of limited-range samples.
pub open spec fn limited_levels(ten_bit: bool) -> (int, int, int, int) {
    if ten_bit {
        (1023, 64, 940, 896)
    } else {
        (255, 16, 235, 224)
    }
}

/// A column of coefficients in millionths, scaled by a fraction.
pub open spec fn column(c: (int, int, int), num: int, den: int, extra: int) -> Column {
    Column {
        r: ratio(c.0 * num, 1_000_000 * den),
        g: ratio(c.1 * num, 1_000_000 * den),
        b: ratio(c.2 * num, 1_000_000 * den),
        extra: ratio(extra, 1),
    }
}

/// The conversion of a picture.  Limited-range samples are stretched so that
/// nominal black and white, and the nominal chroma span, become full.
pub open spec fn params_of(
    colorspace: YuvColorspace,
    color_range: YuvColorRange,
    transfer: TransferFunction,
    ten_bit: bool,
) -> YuvParamsGpu {
    let (max, black, white, span) = limited_levels(ten_bit);
    let clip = flag(transfer is Pq || transfer is Hlg);
    let (num, den) = if color_range is Limited {
        (max, span)
    } else {
        (1int, 1int)
    };
    YuvParamsGpu {
        col0: column((1_000_000, 1_000_000, 1_000_000), 1, 1, transfer_mode(transfer)),
        col1: column(blue_coefficients(colorspace), num, den, clip),
        col2: column(red_coefficients(colorspace), num, den, 0),
        luma_offset: if color_range is Limited {
            ratio(black, max)
        } else {
            ratio(0, 1)
        },
        uv_center: ratio(1, 2),
        gamut_map: ratio(flag(colorspace is Bt2020), 1),
        range_scale: if color_range is Limited {
            ratio(max, white - black)
        } else {
            ratio(1, 1)
        },
    }
}

fn scaled_column(r: i64, g: i64, b: i64, num: i64, den: i64, extra: i64) -> (c: Column)
    requires
        -2_000_000 <= r <= 2_000_000,
        -2_000_000 <= g <= 2_000_000,
        -2_000_000 <= b <= 2_000_000,
        0 < num <= 1023,
        0 < den <= 1023,
    ensures
        c == column((r as int, g as int, b as int), num as int, den as int, extra as int),
{
    assert(-2_046_000_000 <= r * num <= 2_046_000_000) by (nonlinear_arith)
        requires
            -2_000_000 <= r <= 2_000_000,
            0 < num <= 1023,
    ;
    assert(-2_046_000_000 <= g * num <= 2_046_000_000) by (nonlinear_arith)
        requires
            -2_000_000 <= g <= 2_000_000,
            0 < num <= 1023,
    ;
    assert(-2_046_000_000 <= b * num <= 2_046_000_000) by (nonlinear_arith)
        requires
            -2_000_000 <= b <= 2_000_000,
            0 < num <= 1023,
    ;
    Column {
        r: Ratio { num: r * num, den: 1_000_000 * den },
        g: Ratio { num: g * num, den: 1_000_000 * den },
        b: Ratio { num: b * num, den: 1_000_000 * den },
        extra: Ratio { num: extra, den: 1 },
    }
}

impl YuvParamsGpu {
    /// The conversion for pictures of the given kind.
    pub fn for_frame(
        colorspace: YuvColorspace,
        color_range: YuvColorRange,
        transfer: TransferFunction,
        ten_bit: bool,
    ) -> (r: Self)
        ensures
            r == params_of(colorspace, color_range, transfer, ten_bit),
    {
        let (ur, ug, ub): (i64, i64, i64) = match colorspace {
            YuvColorspace::Bt601 => (0, -344_136, 1_772_000),
            YuvColorspace::Bt709 | YuvColorspace::Unspecified => (0, -187_324, 1_855_600),
            YuvColorspace::Bt2020 => (0, -164_553, 1_881_400),
        };
        let (vr, vg, vb): (i64, i64, i64) = match colorspace {
            YuvColorspace::Bt601 => (1_402_000, -714_136, 0),
            YuvColorspace::Bt709 | YuvColorspace::Unspecified => (1_574_800, -468_124, 0),
            YuvColorspace::Bt2020 => (1_474_600, -571_353, 0),
        };
        let mode: i64 = match transfer {
            TransferFunction::Bt1886 => 0,
            TransferFunction::Pq => 1,
            TransferFunction::Hlg => 2,
            TransferFunction::Srgb => 3,
        };
        let clip: i64 = match transfer {
            TransferFunction::Pq | TransferFunction::Hlg => 1,
            _ => 0,
        };
        let gamut: i64 = match colorspace {
            YuvColorspace::Bt2020 => 1,
            _ => 0,
        };
        let (max, black, white, span): (i64, i64, i64, i64) = if ten_bit {
            (1023, 64, 940, 896)
        } else {
            (255, 16, 235, 224)
        };
        match color_range {
            YuvColorRange::Limited => YuvParamsGpu {
                col0: scaled_column(1_000_000, 1_000_000, 1_000_000, 1, 1, mode),
                col1: scaled_column(ur, ug, ub, max, span, clip),
                col2: scaled_column(vr, vg, vb, max, span, 0),
                luma_offset: Ratio { num: black, den: max },
                uv_center: Ratio { num: 1, den: 2 },
                gamut_map: Ratio { num: gamut, den: 1 },
                range_scale: Ratio { num: max, den: white - black },
            },
            YuvColorRange::Full => YuvParamsGpu {
                col0: scaled_column(1_000_000, 1_000_000, 1_000_000, 1, 1, mode),
                col1: scaled_column(ur, ug, ub, 1, 1, clip),
                col2: scaled_column(vr, vg, vb, 1, 1, 0),
                luma_offset: Ratio { num: 0, den: 1 },
                uv_center: Ratio { num: 1, den: 2 },
                gamut_map: Ratio { num: gamut, den: 1 },
                range_scale: Ratio { num: 1, den: 1 },
            },
        }
    }

    /// The values in the order in which the shader reads them.
    pub open spec fn values_spec(self) -> Seq<Ratio> {
        seq![
            self.col0.r,
            self.col0.g,
            self.col0.b,
            self.col0.extra,
            self.col1.r,
            self.col1.g,
            self.col1.b,
            self.col1.extra,
            self.col2.r,
            self.col2.g,
            self.col2.b,
            self.col2.extra,
            self.luma_offset,
            self.uv_center,
            self.gamut_map,
            self.range_scale,
        ]
    }

    /// The values in the order in which the shader reads them.
    pub fn values(&self) -> (r: [Ratio; 16])
        ensures
            r@ == self.values_spec(),
    {
        let r = [
            self.col0.r,
            self.col0.g,
            self.col0.b,
            self.col0.extra,
            self.col1.r,
            self.col1.g,
            self.col1.b,
            self.col1.extra,
            self.col2.r,
            self.col2.g,
            self.col2.b,
            self.col2.extra,
            self.luma_offset,
            self.uv_center,
            self.gamut_map,
            self.range_scale,
        ];
        assert(r@ =~= self.values_spec());
        r
    }
}

/// Nominal black becomes nothing and nominal white becomes one.
pub proof fn law_limited_luma_becomes_full(
    colorspace: YuvColorspace,
    transfer: TransferFunction,
    ten_bit: bool,
)
    ensures
        ({
            let p = params_of(colorspace, YuvColorRange::Limited, transfer, ten_bit);
            let (max, black, white, span) = limited_levels(ten_bit);
            // black / max - luma_offset == 0
            &&& black * p.luma_offset.den == p.luma_offset.num * max
            // (white / max - luma_offset) * range_scale == 1
            &&& (white * p.luma_offset.den - p.luma_offset.num * max) * p.range_scale.num == max
                * p.luma_offset.den * p.range_scale.den
        }),
{
    let p = params_of(colorspace, YuvColorRange::Limited, transfer, ten_bit);
    let (max, black, white, span) = limited_levels(ten_bit);
    let (n, d, s, t) = (
        p.luma_offset.num as int,
        p.luma_offset.den as int,
        p.range_scale.num as int,
        p.range_scale.den as int,
    );
    assert(n == black && d == max && s == max && t == white - black);
    assert(black * d == n * max && (white * d - n * max) * s == max * d * t) by (nonlinear_arith)
        requires
            n == black,
            d == max,
            s == max,
            t == white - black,
    ;
}

/// Whether `a` times the fraction `num / den` is `b`.
pub open spec fn scales_to(a: Ratio, num: int, den: int, b: Ratio) -> bool {
    a.num * num * b.den == b.num * (a.den * den)
}

/// The nominal chroma span counts as much as full chroma does: over that part
/// of the value range, limited chroma changes each colour as full chroma does
/// over all of it.
pub proof fn law_limited_chroma_becomes_full(
    colorspace: YuvColorspace,
    transfer: TransferFunction,
    ten_bit: bool,
)
    ensures
        ({
            let limited = params_of(colorspace, YuvColorRange::Limited, transfer, ten_bit);
            let full = params_of(colorspace, YuvColorRange::Full, transfer, ten_bit);
            let (max, black, white, span) = limited_levels(ten_bit);
            &&& scales_to(limited.col1.r, span, max, full.col1.r)
            &&& scales_to(limited.col1.g, span, max, full.col1.g)
            &&& scales_to(limited.col1.b, span, max, full.col1.b)
            &&& scales_to(limited.col2.r, span, max, full.col2.r)
            &&& scales_to(limited.col2.g, span, max, full.col2.g)
            &&& scales_to(limited.col2.b, span, max, full.col2.b)
        }),
{
    let (max, black, white, span) = limited_levels(ten_bit);
    let blue = blue_coefficients(colorspace);
    let red = red_coefficients(colorspace);
    lemma_stretch_undone(blue.0, max, span);
    lemma_stretch_undone(blue.1, max, span);
    lemma_stretch_undone(blue.2, max, span);
    lemma_stretch_undone(red.0, max, span);
    lemma_stretch_undone(red.1, max, span);
    lemma_stretch_undone(red.2, max, span);
}

proof fn lemma_stretch_undone(c: int, max: int, span: int)
    requires
        -2_000_000 <= c <= 2_000_000,
        0 < max <= 1023,
        0 < span <= 1023,
    ensures
        scales_to(
            ratio(c * max, 1_000_000 * span),
            span,
            max,
            ratio(c, 1_000_000),
        ),
{
    assert(-2_046_000_000 <= c * max <= 2_046_000_000) by (nonlinear_arith)
        requires
            -2_000_000 <= c <= 2_000_000,
            0 < max <= 1023,
    ;
    assert((c * max) * span * 1_000_000 == c * ((1_000_000 * span) * max)) by (nonlinear_arith);
}

/// The bytes of one word, least significant first.
pub open spec fn word_bytes(w: u32) -> Seq<u8> {
    seq![
        (w % 256) as u8,
        (w / 256 % 256) as u8,
        (w / 65536 % 256) as u8,
        (w / 16_777_216) as u8,
    ]
}

/// The bytes of all words, in order.
pub open spec fn words_bytes(words: Seq<u32>) -> Seq<u8>
    decreases words.len(),
{
    if words.len() == 0 {
        Seq::empty()
    } else {
        words_bytes(words.drop_last()) + word_bytes(words.last())
    }
}

/// The sixteen words of the shader's parameters, as the bytes uploaded to it.
pub fn to_bytes(words: &[u32; 16]) -> (r: Vec<u8>)
    ensures
        r@ == words_bytes(words@),
        r@.len() == 64,
{
    let mut out: Vec<u8> = Vec::new();
    let mut i: usize = 0;
    while i < 16
        invariant
            i <= 16,
            out@ == words_bytes(words@.take(i as int)),
            out@.len() == 4 * i,
        decreases 16 - i,
    {
        let w: u32 = words[i];
        out.push((w % 256) as u8);
        out.push((w / 256 % 256) as u8);
        out.push((w / 65536 % 256) as u8);
        out.push((w / 16_777_216) as u8);
        assert(words@.take(i + 1).drop_last() =~= words@.take(i as int));
        assert(out@ =~= words_bytes(words@.take(i as int)) + word_bytes(w));
        i += 1;
    }
    assert(words@.take(16) =~= words@);
    out
}

/// A ten-bit sample, two bytes, scaled to sixteen bits.
pub open spec fn scaled_sample(low: u8, high: u8) -> int {
    let v = (low + 256 * high) * 64;
    if v > 65535 {
        65535
    } else {
        v
    }
}

/// A plane of ten-bit samples scaled to sixteen bits, least significant byte
/// first.  A byte without its pair becomes zero.
pub open spec fn scaled_plane(plane: Seq<u8>) -> Seq<u8> {
    Seq::new(
        plane.len(),
        |i: int|
            if i == plane.len() - 1 && i % 2 == 0 {
                0u8
            } else if i % 2 == 0 {
                (scaled_sample(plane[i], plane[i + 1]) % 256) as u8
            } else {
                (scaled_sample(plane[i - 1], plane[i]) / 256) as u8
            },
    )
}

/// Scales ten-bit samples to sixteen bits.
pub fn scale_10bit_plane(plane: &[u8]) -> (r: Vec<u8>)
    ensures
        r@ == scaled_plane(plane@),
{
    assert(plane.len() == plane@.len());
    let mut out: Vec<u8> = Vec::new();
    let mut i: usize = 0;
    while i + 1 < plane.len()
        invariant
            i <= plane@.len() <= usize::MAX,
            plane.len() == plane@.len(),
            i % 2 == 0,
            out@ == scaled_plane(plane@).take(i as int),
        decreases plane@.len() - i,
    {
        let raw: u32 = plane[i] as u32 + 256 * (plane[i + 1] as u32);
        let scaled: u32 = if raw * 64 > 65535 {
            65535
        } else {
            raw * 64
        };
        out.push((scaled % 256) as u8);
        out.push((scaled / 256) as u8);
        i += 2;
        assert(out@ =~= scaled_plane(plane@).take(i as int));
    }
    if i < plane.len() {
        out.push(0);
    }
    assert(out@ =~= scaled_plane(plane@));
    out
}

/// The bytes of a plane as they are uploaded.
#[derive(Debug)]
pub enum PlaneData<'a> {
    Borrowed(&'a [u8]),
    Owned(Vec<u8>),
}

impl<'a> PlaneData<'a> {
    pub open spec fn content(&self) -> Seq<u8> {
        match self {
            PlaneData::Borrowed(s) => s@,
            PlaneData::Owned(v) => v@,
        }
    }

    pub fn as_slice(&self) -> (r: &[u8])
        ensures
            r@ == self.content(),
    {
        match self {
            PlaneData::Borrowed(s) => s,
            PlaneData::Owned(v) => v.as_slice(),
        }
    }
}

/// What is uploaded of a plane: eight-bit samples as they are, ten-bit ones
/// scaled.
pub open spec fn uploaded(plane: Seq<u8>, ten_bit: bool) -> Seq<u8> {
    if ten_bit {
        scaled_plane(plane)
    } else {
        plane
    }
}

/// Prepares a plane for upload.
pub fn prepare_plane_data<'a>(plane: &'a [u8], ten_bit: bool) -> (r: PlaneData<'a>)
    ensures
        r.content() == uploaded(plane@, ten_bit),
{
    if ten_bit {
        PlaneData::Owned(scale_10bit_plane(plane))
    } else {
        PlaneData::Borrowed(plane)
    }
}

/// The extent of a plane and of its rows.
#[derive(Debug, Clone, Copy, PartialEq, Eq, Structural)]
pub struct PlaneExtent {
    pub width: u32,
    pub height: u32,
    pub bytes_per_row: u32,
}

pub open spec fn half_up(n: int) -> int {
    (n + 1) / 2
}

pub open spec fn sample_bytes(ten_bit: bool) -> int {
    if ten_bit {
        2
    } else {
        1
    }
}

fn half(n: u32) -> (r: u32)
    ensures
        r == half_up(n as int),
{
    n / 2 + n % 2
}

/// Which of two ways a picture is drawn.
#[derive(Debug, Clone, Copy, PartialEq, Eq, Structural)]
pub enum RenderKind {
    /// Three planes.
    Yuv,
    /// Luma and interleaved chroma.
    NvCpu,
}

/// How a picture is uploaded and drawn.
#[derive(Debug, Clone, Copy)]
pub struct RenderPlan {
    pub kind: RenderKind,
    /// Whether the input textures have to be made anew.
    pub new_textures: bool,
    pub ten_bit: bool,
    pub luma: PlaneExtent,
    /// Each chroma plane, or the interleaved one.
    pub chroma: PlaneExtent,
    pub params: YuvParamsGpu,
    /// Whether the output textures have to be made anew.
    pub new_outputs: bool,
    /// Which output texture is drawn to.
    pub output: usize,
    /// Bytes uploaded and the time that took in nanoseconds, whenever a
    /// counting window ends.
    pub window: Option<(u64, u64)>,
}

/// A picture in a texture that the decoder shares.
#[derive(Debug, Clone, Copy)]
pub struct SharedPicture {
    pub width: u32,
    pub height: u32,
    pub colorspace: YuvColorspace,
    pub color_range: YuvColorRange,
    pub transfer: TransferFunction,
}

/// How a shared picture is drawn; nothing is uploaded but its parameters.
#[derive(Debug, Clone, Copy)]
pub struct SharedPlan {
    pub params: YuvParamsGpu,
    /// Whether the output textures have to be made anew.
    pub new_outputs: bool,
    /// Which output texture is drawn to.
    pub output: usize,
}

/// Textures that were made, and what for.
#[derive(Debug, Clone, Copy, PartialEq, Eq, Structural)]
pub struct TextureSet {
    pub width: u32,
    pub height: u32,
    pub ten_bit: bool,
}

/// What the renderer has set up, and what it has counted.
pub ghost struct RenderModel {
    pub yuv: Option<TextureSet>,
    pub nv: Option<TextureSet>,
    pub output_dims: Option<(u32, u32)>,
    pub next_output: int,
    pub window_bytes: int,
    pub window_start: int,
    pub colorspace: Option<YuvColorspace>,
    pub color_range: Option<YuvColorRange>,
}

/// Bytes of a picture: luma, and two chroma planes of half its extent.
pub open spec fn frame_bytes(width: int, height: int, ten_bit: bool) -> int {
    (width * height + 2 * (half_up(width) * half_up(height))) * sample_bytes(ten_bit)
}

/// What is uploaded for a frame; a hardware frame's planes have an extent of
/// their own.
pub open spec fn frame_set(frame: VideoFrame) -> TextureSet {
    match frame {
        VideoFrame::Sw(f) => TextureSet { width: f.width, height: f.height, ten_bit: f.ten_bit },
        VideoFrame::Hw(f) => TextureSet {
            width: f.planes.width,
            height: f.planes.height,
            ten_bit: f.planes.ten_bit,
        },
    }
}

pub open spec fn frame_dims(frame: VideoFrame) -> (u32, u32) {
    match frame {
        VideoFrame::Sw(f) => (f.width, f.height),
        VideoFrame::Hw(f) => (f.width, f.height),
    }
}

/// Whether the sizes of a frame can be counted.
pub open spec fn countable(frame: VideoFrame) -> bool {
    let set = frame_set(frame);
    &&& set.width * sample_bytes(set.ten_bit) <= u32::MAX
    &&& frame_bytes(set.width as int, set.height as int, set.ten_bit) <= u64::MAX
}

impl RenderModel {
    pub open spec fn fresh(now: int) -> Self {
        RenderModel {
            yuv: None,
            nv: None,
            output_dims: None,
            next_output: 0,
            window_bytes: 0,
            window_start: now,
            colorspace: None,
            color_range: None,
        }
    }

    pub open spec fn valid(self) -> bool {
        &&& 0 <= self.next_output < OUTPUT_POOL_LEN
        &&& 0 <= self.window_bytes <= u64::MAX
        &&& 0 <= self.window_start <= u64::MAX
    }

    /// Bytes counted once the frame is uploaded too.
    pub open spec fn counted(self, frame: VideoFrame) -> int {
        let set = frame_set(frame);
        let sum = self.window_bytes + frame_bytes(set.width as int, set.height as int, set.ten_bit);
        if sum > u64::MAX {
            u64::MAX as int
        } else {
            sum
        }
    }

    /// Time since the window began.
    pub open spec fn elapsed(self, now: int) -> int {
        if now > self.window_start {
            now - self.window_start
        } else {
            0
        }
    }

    pub open spec fn window_ends(self, now: int) -> bool {
        self.elapsed(now) >= UPLOAD_WINDOW
    }

    /// Which output texture a picture of the given dimensions is drawn to.
    pub open spec fn output(self, dims: (u32, u32)) -> int {
        if self.output_dims == Some(dims) {
            self.next_output
        } else {
            0
        }
    }

    pub open spec fn turned(self, dims: (u32, u32)) -> Self {
        RenderModel {
            output_dims: Some(dims),
            next_output: (self.output(dims) + 1) % (OUTPUT_POOL_LEN as int),
            ..self
        }
    }

    /// A shared picture has come; it is drawn if its texture can be shown.
    pub open spec fn shared(self, picture: SharedPicture, shown: bool) -> Self {
        if picture.width == 0 || picture.height == 0 {
            self
        } else {
            let noted = RenderModel {
                colorspace: Some(picture.colorspace),
                color_range: Some(picture.color_range),
                ..self
            };
            if shown {
                noted.turned((picture.width, picture.height))
            } else {
                noted
            }
        }
    }

    /// Whether planes of no extent leave the textures as they are.
    pub open spec fn uploads(frame: VideoFrame) -> bool {
        frame_set(frame).width > 0 && frame_set(frame).height > 0
    }

    pub open spec fn drawn(self, frame: VideoFrame, now: int) -> Self {
        RenderModel {
            yuv: if frame is Sw && Self::uploads(frame) {
                Some(frame_set(frame))
            } else {
                self.yuv
            },
            nv: if frame is Hw && Self::uploads(frame) {
                Some(frame_set(frame))
            } else {
                self.nv
            },
            output_dims: Some(frame_dims(frame)),
            next_output: self.turned(frame_dims(frame)).next_output,
            window_bytes: if self.window_ends(now) {
                0
            } else {
                self.counted(frame)
            },
            window_start: if self.window_ends(now) {
                now
            } else {
                self.window_start
            },
            colorspace: Some(
                match frame {
                    VideoFrame::Sw(f) => f.colorspace,
                    VideoFrame::Hw(f) => f.colorspace,
                },
            ),
            color_range: Some(
                match frame {
                    VideoFrame::Sw(f) => f.color_range,
                    VideoFrame::Hw(f) => f.color_range,
                },
            ),
        }
    }

    /// Whether a plan says how the frame is drawn at the time `now`.
    pub open spec fn plans(self, frame: VideoFrame, now: int, plan: RenderPlan) -> bool {
        let set = frame_set(frame);
        &&& plan.kind == if frame is Sw {
            RenderKind::Yuv
        } else {
            RenderKind::NvCpu
        }
        &&& plan.new_textures == (Self::uploads(frame) && (if frame is Sw {
            self.yuv
        } else {
            self.nv
        }) != Some(set))
        &&& plan.ten_bit == set.ten_bit
        &&& plan.luma.width == set.width
        &&& plan.luma.height == set.height
        &&& plan.luma.bytes_per_row == set.width * sample_bytes(set.ten_bit)
        &&& plan.chroma.width == half_up(set.width as int)
        &&& plan.chroma.height == half_up(set.height as int)
        // Interleaved rows hold both chroma samples of each pair of columns.
        &&& plan.chroma.bytes_per_row == (if frame is Sw {
            half_up(set.width as int)
        } else {
            set.width as int
        }) * sample_bytes(set.ten_bit)
        &&& plan.params == match frame {
            VideoFrame::Sw(f) => params_of(
                f.colorspace,
                f.color_range,
                TransferFunction::Bt1886,
                f.ten_bit,
            ),
            VideoFrame::Hw(f) => params_of(
                f.colorspace,
                f.color_range,
                f.transfer,
                f.planes.ten_bit,
            ),
        }
        &&& plan.new_outputs == (self.output_dims != Some(frame_dims(frame)))
        &&& plan.output == self.output(frame_dims(frame))
        &&& plan.window == if self.window_ends(now) {
            Some((self.counted(frame) as u64, self.elapsed(now) as u64))
        } else {
            None
        }
    }
}

/// Decides how frames are drawn: what is made anew, what is uploaded, and
/// which output texture comes next.
#[derive(Debug)]
pub struct VideoRenderer {
    yuv: Option<TextureSet>,
    nv: Option<TextureSet>,
    out_dims: Option<(u32, u32)>,
    pool_idx: usize,
    upload_bytes_window: u64,
    upload_window_start: u64,
    last_colorspace: Option<YuvColorspace>,
    last_color_range: Option<YuvColorRange>,
}

impl View for VideoRenderer {
    type V = RenderModel;

    closed spec fn view(&self) -> RenderModel {
        RenderModel {
            yuv: self.yuv,
            nv: self.nv,
            output_dims: self.out_dims,
            next_output: self.pool_idx as int,
            window_bytes: self.upload_bytes_window as int,
            window_start: self.upload_window_start as int,
            colorspace: self.last_colorspace,
            color_range: self.last_color_range,
        }
    }
}

fn count_bytes(set: TextureSet) -> (r: u64)
    requires
        frame_bytes(set.width as int, set.height as int, set.ten_bit) <= u64::MAX,
    ensures
        r == frame_bytes(set.width as int, set.height as int, set.ten_bit),
{
    let w: u64 = set.width as u64;
    let h: u64 = set.height as u64;
    let uw: u64 = half(set.width) as u64;
    let uh: u64 = half(set.height) as u64;
    let bps: u64 = if set.ten_bit {
        2
    } else {
        1
    };
    proof {
        assert(0 <= w * h) by (nonlinear_arith)
            requires
                w >= 0,
                h >= 0,
        ;
        assert(0 <= uw * uh) by (nonlinear_arith)
            requires
                uw >= 0,
                uh >= 0,
        ;
        let sum = w * h + 2 * (uw * uh);
        assert(sum <= sum * bps) by (nonlinear_arith)
            requires
                sum >= 0,
                bps >= 1,
        ;
    }
    (w * h + 2 * (uw * uh)) * bps
}

impl VideoRenderer {
    /// A renderer that has nothing set up, at the time `now` in nanoseconds.
    pub fn new(now: u64) -> (r: Self)
        ensures
            r@ == RenderModel::fresh(now as int),
            r@.valid(),
    {
        VideoRenderer {
            yuv: None,
            nv: None,
            out_dims: None,
            pool_idx: 0,
            upload_bytes_window: 0,
            upload_window_start: now,
            last_colorspace: None,
            last_color_range: None,
        }
    }

    /// Counts uploaded bytes.  Returns what was counted, and in how many
    /// nanoseconds, whenever that took a second or more.
    fn account_bytes(&mut self, set: TextureSet, now: u64) -> (r: Option<(u64, u64)>)
        requires
            old(self)@.valid(),
            frame_bytes(set.width as int, set.height as int, set.ten_bit) <= u64::MAX,
        ensures
            ({
                let sum = old(self)@.window_bytes + frame_bytes(
                    set.width as int,
                    set.height as int,
                    set.ten_bit,
                );
                let counted = if sum > u64::MAX {
                    u64::MAX as int
                } else {
                    sum
                };
                &&& r == if old(self)@.window_ends(now as int) {
                    Some((counted as u64, old(self)@.elapsed(now as int) as u64))
                } else {
                    None
                }
                &&& final(self)@ == (RenderModel {
                    window_bytes: if r is Some {
                        0
                    } else {
                        counted
                    },
                    window_start: if r is Some {
                        now as int
                    } else {
                        old(self)@.window_start
                    },
                    ..old(self)@
                })
            }),
    {
        let bytes: u64 = count_bytes(set);
        self.upload_bytes_window = self.upload_bytes_window.saturating_add(bytes);
        let elapsed: u64 = now.saturating_sub(self.upload_window_start);
        if elapsed >= UPLOAD_WINDOW {
            let total: u64 = self.upload_bytes_window;
            self.upload_bytes_window = 0;
            self.upload_window_start = now;
            Some((total, elapsed))
        } else {
            None
        }
    }

    /// Whether textures for `set` have to be made; notes that they are.
    fn refit(textures: &mut Option<TextureSet>, set: TextureSet) -> (r: bool)
        ensures
            r == (set.width > 0 && set.height > 0 && *old(textures) != Some(set)),
            *final(textures) == if set.width > 0 && set.height > 0 {
                Some(set)
            } else {
                *old(textures)
            },
    {
        if set.width == 0 || set.height == 0 {
            return false;
        }
        let fits = match *textures {
            Some(made) => made == set,
            None => false,
        };
        *textures = Some(set);
        !fits
    }

    /// Which output texture comes next, and whether all have to be made.
    fn next_output(&mut self, width: u32, height: u32) -> (r: (usize, bool))
        requires
            old(self)@.valid(),
        ensures
            r.0 == old(self)@.output((width, height)),
            r.1 == (old(self)@.output_dims != Some((width, height))),
            final(self)@ == old(self)@.turned((width, height)),
    {
        let same = match self.out_dims {
            Some((w, h)) => w == width && h == height,
            None => false,
        };
        if !same {
            self.out_dims = Some((width, height));
            self.pool_idx = 0;
        }
        let output: usize = self.pool_idx;
        self.pool_idx = (output + 1) % OUTPUT_POOL_LEN;
        (output, !same)
    }

    /// Decides how a frame is drawn at the time `now`, in nanoseconds.  Frames
    /// of no extent are not drawn.
    pub fn render_to_texture(&mut self, frame: &VideoFrame, now: u64) -> (r: Option<RenderPlan>)
        requires
            old(self)@.valid(),
            countable(*frame),
        ensures
            final(self)@.valid(),
            match r {
                Some(plan) => {
                    &&& frame_dims(*frame).0 > 0 && frame_dims(*frame).1 > 0
                    &&& old(self)@.plans(*frame, now as int, plan)
                    &&& final(self)@ == old(self)@.drawn(*frame, now as int)
                },
                None => {
                    &&& frame_dims(*frame).0 == 0 || frame_dims(*frame).1 == 0
                    &&& final(self)@ == old(self)@
                },
            },
    {
        let (width, height): (u32, u32) = match frame {
            VideoFrame::Sw(f) => (f.width, f.height),
            VideoFrame::Hw(f) => (f.width, f.height),
        };
        if width == 0 || height == 0 {
            return None;
        }
        let set: TextureSet = match frame {
            VideoFrame::Sw(f) => TextureSet {
                width: f.width,
                height: f.height,
                ten_bit: f.ten_bit,
            },
            VideoFrame::Hw(f) => TextureSet {
                width: f.planes.width,
                height: f.planes.height,
                ten_bit: f.planes.ten_bit,
            },
        };
        let window = self.account_bytes(set, now);
        let (kind, new_textures, colorspace, color_range, transfer) = match frame {
            VideoFrame::Sw(f) => (
                RenderKind::Yuv,
                Self::refit(&mut self.yuv, set),
                f.colorspace,
                f.color_range,
                TransferFunction::Bt1886,
            ),
            VideoFrame::Hw(f) => (
                RenderKind::NvCpu,
                Self::refit(&mut self.nv, set),
                f.colorspace,
                f.color_range,
                f.transfer,
            ),
        };
        self.last_colorspace = Some(colorspace);
        self.last_color_range = Some(color_range);
        let (output, new_outputs) = self.next_output(width, height);
        let bps: u32 = if set.ten_bit {
            2
        } else {
            1
        };
        let uv_width: u32 = half(set.width);
        let uv_height: u32 = half(set.height);
        assert(uv_width * bps <= set.width * bps) by (nonlinear_arith)
            requires
                uv_width <= set.width,
        ;
        let chroma_row: u32 = match kind {
            RenderKind::Yuv => uv_width * bps,
            RenderKind::NvCpu => set.width * bps,
        };
        Some(
            RenderPlan {
                kind,
                new_textures,
                ten_bit: set.ten_bit,
                luma: PlaneExtent {
                    width: set.width,
                    height: set.height,
                    bytes_per_row: set.width * bps,
                },
                chroma: PlaneExtent {
                    width: uv_width,
                    height: uv_height,
                    bytes_per_row: chroma_row,
                },
                params: YuvParamsGpu::for_frame(colorspace, color_range, transfer, set.ten_bit),
                new_outputs,
                output,
                window,
            },
        )
    }

    /// Decides how a shared picture is drawn, given whether its texture can
    /// be shown.  Pictures of no extent are not drawn.
    pub fn render_shared(&mut self, picture: &SharedPicture, shown: bool) -> (r: Option<SharedPlan>)
        requires
            old(self)@.valid(),
        ensures
            final(self)@.valid(),
            final(self)@ == old(self)@.shared(*picture, shown),
            r is Some <==> shown && picture.width > 0 && picture.height > 0,
            r matches Some(plan) ==> {
                let dims = (picture.width, picture.height);
                &&& plan.params == params_of(
                    picture.colorspace,
                    picture.color_range,
                    picture.transfer,
                    false,
                )
                &&& plan.new_outputs == (old(self)@.output_dims != Some(dims))
                &&& plan.output == old(self)@.output(dims)
            },
    {
        if picture.width == 0 || picture.height == 0 {
            return None;
        }
        self.last_colorspace = Some(picture.colorspace);
        self.last_color_range = Some(picture.color_range);
        if !shown {
            return None;
        }
        let (output, new_outputs) = self.next_output(picture.width, picture.height);
        let params = YuvParamsGpu::for_frame(
            picture.colorspace,
            picture.color_range,
            picture.transfer,
            false,
        );
        Some(SharedPlan { params, new_outputs, output })
    }

    /// The colour matrix of the last frame, as shown to the user.
    pub fn current_colorspace_label(&self) -> (r: Option<&'static str>)
        ensures
            match self@.colorspace {
                None => r is None,
                Some(cs) => r matches Some(s) && s@ == match cs {
                    YuvColorspace::Bt709 => "BT.709"@,
                    YuvColorspace::Bt601 => "BT.601"@,
                    YuvColorspace::Bt2020 => "BT.2020"@,
                    YuvColorspace::Unspecified => "Unspecified"@,
                },
            },
    {
        match self.last_colorspace {
            Some(YuvColorspace::Bt709) => Some("BT.709"),
            Some(YuvColorspace::Bt601) => Some("BT.601"),
            Some(YuvColorspace::Bt2020) => Some("BT.2020"),
            Some(YuvColorspace::Unspecified) => Some("Unspecified"),
            None => None,
        }
    }

    /// The value range of the last frame, as shown to the user.
    pub fn current_color_range_label(&self) -> (r: Option<&'static str>)
        ensures
            match self@.color_range {
                None => r is None,
                Some(range) => r matches Some(s) && s@ == match range {
                    YuvColorRange::Limited => "Limited"@,
                    YuvColorRange::Full => "Full"@,
                },
            },
    {
        match self.last_color_range {
            Some(YuvColorRange::Limited) => Some("Limited"),
            Some(YuvColorRange::Full) => Some("Full"),
            None => None,
        }
    }
}

/// A picture that is drawn.
pub ghost enum Drawing {
    /// A frame, at the given time.
    Frame(VideoFrame, int),
    Shared(SharedPicture),
}

impl Drawing {
    pub open spec fn dims(self) -> (u32, u32) {
        match self {
            Drawing::Frame(frame, now) => frame_dims(frame),
            Drawing::Shared(picture) => (picture.width, picture.height),
        }
    }

    pub open spec fn after(self, before: RenderModel) -> RenderModel {
        match self {
            Drawing::Frame(frame, now) => before.drawn(frame, now),
            Drawing::Shared(picture) => before.shared(picture, true),
        }
    }
}

/// An output texture is not drawn to again while the next two pictures of the
/// same dimensions are drawn, whichever way they come.
pub proof fn law_outputs_are_used_in_turn(start: RenderModel, a: Drawing, b: Drawing, c: Drawing)
    requires
        start.valid(),
        a.dims().0 > 0 && a.dims().1 > 0,
        a.dims() == b.dims(),
        b.dims() == c.dims(),
    ensures
        ({
            let second = a.after(start);
            let third = b.after(second);
            &&& start.output(a.dims()) != second.output(b.dims())
            &&& second.output(b.dims()) != third.output(c.dims())
            &&& start.output(a.dims()) != third.output(c.dims())
        }),
{
}

/// How much red, green and blue each count for luma in a colour space, in
/// ten-thousandths.
pub open spec fn luma_weights(cs: YuvColorspace) -> (int, int, int) {
    match cs {
        YuvColorspace::Bt601 => (2990, 5870, 1140),
        YuvColorspace::Bt709 | YuvColorspace::Unspecified => (2126, 7152, 722),
        YuvColorspace::Bt2020 => (2627, 6780, 593),
    }
}

/// The matrix follows from what the colours count for luma.  Luma goes to all
/// three alike.  Blue and red differences reach blue and red with twice what
/// the colour does not count, and leave luma as it is but for a rounding of
/// less than a millionth.
pub proof fn law_matrix_follows_the_luma_weights(
    colorspace: YuvColorspace,
    transfer: TransferFunction,
    ten_bit: bool,
)
    ensures
        ({
            let p = params_of(colorspace, YuvColorRange::Full, transfer, ten_bit);
            let (red, green, blue) = luma_weights(colorspace);
            let blue_luma = red * p.col1.r.num + green * p.col1.g.num + blue * p.col1.b.num;
            let red_luma = red * p.col2.r.num + green * p.col2.g.num + blue * p.col2.b.num;
            &&& red + green + blue == 10_000
            &&& p.col0.r.num == p.col0.r.den && p.col0.g.num == p.col0.g.den && p.col0.b.num
                == p.col0.b.den
            &&& p.col0.r.den == 1_000_000 && p.col0.g.den == 1_000_000 && p.col0.b.den == 1_000_000
            &&& p.col1.r.den == 1_000_000 && p.col1.g.den == 1_000_000 && p.col1.b.den == 1_000_000
            &&& p.col2.r.den == 1_000_000 && p.col2.g.den == 1_000_000 && p.col2.b.den == 1_000_000
            &&& p.col1.r.num == 0 && p.col2.b.num == 0
            &&& p.col1.b.num == 200 * (10_000 - blue)
            &&& p.col2.r.num == 200 * (10_000 - red)
            &&& -green < blue_luma < green
            &&& -green < red_luma < green
        }),
{
}

/// Full-range samples are taken as they are; chroma stands around the middle
/// whatever the range.
pub proof fn law_full_samples_are_not_stretched(
    colorspace: YuvColorspace,
    transfer: TransferFunction,
    ten_bit: bool,
)
    ensures
        ({
            let p = params_of(colorspace, YuvColorRange::Full, transfer, ten_bit);
            let limited = params_of(colorspace, YuvColorRange::Limited, transfer, ten_bit);
            &&& p.luma_offset == (Ratio { num: 0, den: 1 })
            &&& p.range_scale == (Ratio { num: 1, den: 1 })
            &&& p.uv_center == (Ratio { num: 1, den: 2 })
            &&& limited.uv_center == (Ratio { num: 1, den: 2 })
            &&& limited.col0 == p.col0
            &&& limited.gamut_map == p.gamut_map
            &&& limited.col1.extra == p.col1.extra
            &&& limited.col2.extra == p.col2.extra
        }),
{
}

/// Limited-range black of eight bits stands at 16, white 219 steps above it,
/// and chroma spans 224; of ten bits all three are four times as large.
pub proof fn law_limited_levels(
    colorspace: YuvColorspace,
    transfer: TransferFunction,
)
    ensures
        ({
            let eight = params_of(colorspace, YuvColorRange::Limited, transfer, false);
            let ten = params_of(colorspace, YuvColorRange::Limited, transfer, true);
            &&& eight.luma_offset == (Ratio { num: 16, den: 255 })
            &&& eight.range_scale == (Ratio { num: 255, den: 219 })
            &&& ten.luma_offset == (Ratio { num: 64, den: 1023 })
            &&& ten.range_scale == (Ratio { num: 1023, den: 876 })
            &&& limited_levels(false) == (255int, 16int, 235int, 224int)
            &&& limited_levels(true) == (1023int, 64int, 940int, 896int)
        }),
{
}

/// The shader is told the transfer function by a number of its own, to clip
/// highlights for the two of high dynamic range, and to map the colours of
/// the wide space.
pub proof fn law_shader_is_told_the_transfer(
    colorspace: YuvColorspace,
    color_range: YuvColorRange,
    transfer: TransferFunction,
    ten_bit: bool,
)
    ensures
        ({
            let p = params_of(colorspace, color_range, transfer, ten_bit);
            let told = p.col0.extra.num;
            let clips = p.col1.extra.num;
            &&& p.col0.extra.den == 1 && p.col1.extra.den == 1 && p.gamut_map.den == 1
            &&& p.col2.extra == (Ratio { num: 0, den: 1 })
            &&& transfer is Bt1886 <==> told == 0
            &&& transfer is Pq <==> told == 1
            &&& transfer is Hlg <==> told == 2
            &&& transfer is Srgb <==> told == 3
            &&& clips == 1 <==> told == 1 || told == 2
            &&& clips == 0 <==> told == 0 || told == 3
            &&& p.gamut_map.num == 1 <==> colorspace is Bt2020
            &&& p.gamut_map.num == 0 <==> !(colorspace is Bt2020)
        }),
{
}

/// The shader reads three columns of four values, then the four numbers that
/// go with them.
pub proof fn law_shader_reads_columns_first(p: YuvParamsGpu)
    ensures
        p.values_spec().len() == 16,
        p.values_spec().subrange(0, 4) == seq![p.col0.r, p.col0.g, p.col0.b, p.col0.extra],
        p.values_spec().subrange(4, 8) == seq![p.col1.r, p.col1.g, p.col1.b, p.col1.extra],
        p.values_spec().subrange(8, 12) == seq![p.col2.r, p.col2.g, p.col2.b, p.col2.extra],
        p.values_spec().subrange(12, 16) == seq![
            p.luma_offset,
            p.uv_center,
            p.gamut_map,
            p.range_scale,
        ],
{
}

/// A word is read back from its four bytes, and words stand one after another.
pub proof fn law_words_are_read_back(words: Seq<u32>, i: int)
    requires
        0 <= i < words.len(),
    ensures
        ({
            let bytes = words_bytes(words);
            &&& bytes.len() == 4 * words.len()
            &&& bytes[4 * i] + 256 * bytes[4 * i + 1] + 65_536 * bytes[4 * i + 2] + 16_777_216
                * bytes[4 * i + 3] == words[i]
        }),
    decreases words.len(),
{
    let rest = words.drop_last();
    if rest.len() > 0 {
        law_words_are_read_back(
            rest,
            if i < rest.len() {
                i
            } else {
                0
            },
        );
    }
    assert(words_bytes(words) == words_bytes(rest) + word_bytes(words.last()));
}

/// A ten-bit sample of a plane becomes 64 times as large, and no larger than
/// sixteen bits hold; nothing is added or left out, and a last byte without
/// its pair becomes zero.
pub proof fn law_ten_bit_samples_are_stretched(plane: Seq<u8>, k: int)
    requires
        0 <= k,
        2 * k + 1 < plane.len(),
    ensures
        ({
            let sample = plane[2 * k] + 256 * plane[2 * k + 1];
            let out = uploaded(plane, true);
            let stretched = out[2 * k] + 256 * out[2 * k + 1];
            &&& out.len() == plane.len()
            &&& sample < 1024 ==> stretched == 64 * sample
            &&& sample >= 1024 ==> stretched == 65_535
            &&& plane.len() % 2 == 1 ==> out.last() == 0
            &&& uploaded(plane, false) == plane
        }),
{
    let out = scaled_plane(plane);
    let v = scaled_sample(plane[2 * k], plane[2 * k + 1]);
    assert((2 * k) % 2 == 0 && (2 * k + 1) % 2 == 1);
    assert(out[2 * k] == v % 256);
    assert(out[2 * k + 1] == v / 256);
}

/// What a plan uploads: luma sample by sample, chroma at half the extent,
/// rounded up, in planes of their own or interleaved in rows as long as luma's.
pub proof fn law_plans_follow_the_planes(
    m: RenderModel,
    frame: VideoFrame,
    now: int,
    plan: RenderPlan,
)
    requires
        m.plans(frame, now, plan),
    ensures
        ({
            let (width, height, ten_bit) = match frame {
                VideoFrame::Sw(f) => (f.width, f.height, f.ten_bit),
                VideoFrame::Hw(f) => (f.planes.width, f.planes.height, f.planes.ten_bit),
            };
            &&& plan.kind is Yuv <==> frame is Sw
            &&& plan.ten_bit == ten_bit
            &&& plan.luma.width == width && plan.luma.height == height
            &&& 2 * plan.chroma.width - 1 <= width <= 2 * plan.chroma.width
            &&& 2 * plan.chroma.height - 1 <= height <= 2 * plan.chroma.height
            &&& !ten_bit ==> plan.luma.bytes_per_row == width
            &&& ten_bit ==> plan.luma.bytes_per_row == 2 * width
            &&& frame is Hw ==> plan.chroma.bytes_per_row == plan.luma.bytes_per_row
            &&& frame is Sw && !ten_bit ==> plan.chroma.bytes_per_row == plan.chroma.width
            &&& frame is Sw && ten_bit ==> plan.chroma.bytes_per_row == 2 * plan.chroma.width
        }),
{
}

/// Textures are made anew when, and only when, there is something to upload
/// and the last ones for such frames were made for another extent or depth.
pub proof fn law_textures_are_made_when_frames_change(
    m: RenderModel,
    first: VideoFrame,
    second: VideoFrame,
    then: int,
    now: int,
    plan: RenderPlan,
)
    requires
        first is Sw <==> second is Sw,
        frame_set(first).width > 0 && frame_set(first).height > 0,
        m.drawn(first, then).plans(second, now, plan),
    ensures
        frame_set(second).width == 0 || frame_set(second).height == 0 ==> !plan.new_textures,
        frame_set(second).width > 0 && frame_set(second).height > 0 ==> plan.new_textures == (
        frame_set(first) != frame_set(second)),
        // Frames of the other kind have textures of their own.
        first is Sw ==> m.drawn(first, then).nv == m.nv,
        first is Hw ==> m.drawn(first, then).yuv == m.yuv,
{
}

/// The first output texture follows a change of dimensions; otherwise they
/// are taken one after another and begin again behind the third.
pub proof fn law_outputs_begin_again(m: RenderModel, frame: VideoFrame, now: int, plan: RenderPlan)
    requires
        m.valid(),
        m.plans(frame, now, plan),
    ensures
        ({
            let dims = match frame {
                VideoFrame::Sw(f) => (f.width, f.height),
                VideoFrame::Hw(f) => (f.width, f.height),
            };
            let after = m.drawn(frame, now);
            &&& plan.new_outputs <==> m.output_dims != Some(dims)
            &&& plan.new_outputs ==> plan.output == 0
            &&& !plan.new_outputs ==> plan.output == m.next_output
            &&& after.output_dims == Some(dims)
            &&& plan.output == 0 ==> after.next_output == 1
            &&& plan.output == 1 ==> after.next_output == 2
            &&& plan.output == 2 ==> after.next_output == 0
            &&& plan.output < 3
        }),
{
}

/// The bytes of a software frame are those of the planes that its plan
/// uploads.  They are counted until a second has passed; then the sum and the
/// time are told and counting begins again.
pub proof fn law_uploads_are_counted_by_the_second(
    m: RenderModel,
    frame: VideoFrame,
    now: int,
    plan: RenderPlan,
)
    requires
        m.valid(),
        0 <= now <= u64::MAX,
        frame is Sw,
        m.plans(frame, now, plan),
        m.window_bytes + plan.luma.bytes_per_row * plan.luma.height + 2 * (
        plan.chroma.bytes_per_row * plan.chroma.height) <= u64::MAX,
    ensures
        ({
            let sum = m.window_bytes + plan.luma.bytes_per_row * plan.luma.height + 2 * (
            plan.chroma.bytes_per_row * plan.chroma.height);
            let after = m.drawn(frame, now);
            &&& plan.window is Some <==> now - m.window_start >= 1_000_000_000
            &&& plan.window matches Some((bytes, time)) ==> {
                &&& bytes == sum
                &&& time == now - m.window_start
                &&& after.window_bytes == 0
                &&& after.window_start == now
            }
            &&& plan.window is None ==> {
                &&& after.window_bytes == sum
                &&& after.window_start == m.window_start
            }
        }),
{
    let set = frame_set(frame);
    let (w, h) = (set.width as int, set.height as int);
    let (cw, ch) = (half_up(w), half_up(h));
    let bps = sample_bytes(set.ten_bit);
    assert((w * bps) * h + 2 * ((cw * bps) * ch) == (w * h + 2 * (cw * ch)) * bps)
        by (nonlinear_arith)
        requires
            bps == 1 || bps == 2,
    ;
    assert(plan.luma.bytes_per_row * plan.luma.height == (w * bps) * h);
    assert(plan.chroma.bytes_per_row * plan.chroma.height == (cw * bps) * ch);
}

/// A drawn frame leaves behind what is shown to the user of its colours.  So
/// does a shared picture, drawn or not, which uploads nothing.
pub proof fn law_colours_are_noted(
    m: RenderModel,
    frame: VideoFrame,
    picture: SharedPicture,
    now: int,
    shown: bool,
)
    requires
        picture.width > 0 && picture.height > 0,
    ensures
        frame matches VideoFrame::Sw(f) ==> m.drawn(frame, now).colorspace == Some(f.colorspace)
            && m.drawn(frame, now).color_range == Some(f.color_range),
        frame matches VideoFrame::Hw(f) ==> m.drawn(frame, now).colorspace == Some(f.colorspace)
            && m.drawn(frame, now).color_range == Some(f.color_range),
        ({
            let after = m.shared(picture, shown);
            &&& after.colorspace == Some(picture.colorspace)
            &&& after.color_range == Some(picture.color_range)
            &&& after.yuv == m.yuv && after.nv == m.nv
            &&& after.window_bytes == m.window_bytes && after.window_start == m.window_start
            &&& !shown ==> after.output_dims == m.output_dims && after.next_output == m.next_output
            &&& shown ==> after.output_dims == Some((picture.width, picture.height))
        }),
{
}

/// Pictures without an extent change nothing.
pub proof fn law_empty_pictures_change_nothing(
    m: RenderModel,
    picture: SharedPicture,
    shown: bool,
)
    requires
        picture.width == 0 || picture.height == 0,
    ensures
        m.shared(picture, shown) == m,
{
}

/// The conversion of a frame is that of its own colours; software frames are
/// taken to be of standard range.
pub proof fn law_frames_are_converted_by_their_colours(
    m: RenderModel,
    frame: VideoFrame,
    now: int,
    plan: RenderPlan,
)
    requires
        m.plans(frame, now, plan),
    ensures
        frame matches VideoFrame::Sw(f) ==> plan.params == params_of(
            f.colorspace,
            f.color_range,
            TransferFunction::Bt1886,
            plan.ten_bit,
        ),
        frame matches VideoFrame::Hw(f) ==> plan.params == params_of(
            f.colorspace,
            f.color_range,
            f.transfer,
            plan.ten_bit,
        ),
{
}

} // verus!
