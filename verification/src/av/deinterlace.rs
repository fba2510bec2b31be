use vstd::prelude::*;
use vstd::string::StringExecFns;

use crate::av::error::AvError;
use crate::av::ffmpeg::{missing_filter, AVERROR_ENOMEM};
use crate::av::hw::video_processor::D3d11VideoProcessor;
use crate::av::picture::FrameHeader;
use crate::text::{decimal, push_decimal, push_signed, signed_decimal};

verus! {

/// What a filter graph is made for.
#[derive(Debug, Clone, Copy, PartialEq, Eq, Structural)]
pub struct GraphParams {
    pub width: u32,
    pub height: u32,
    pub pix_fmt: i32,
    pub colorspace: i32,
    pub color_range: i32,
}

/// The two's complement pattern of a signed number, read without its sign.
pub open spec fn unsigned32(v: i32) -> u32 {
    if v < 0 {
        (v + 0x1_0000_0000) as u32
    } else {
        v as u32
    }
}

fn to_unsigned32(v: i32) -> (r: u32)
    ensures
        r == unsigned32(v),
{
    if v < 0 {
        u32::MAX - (-(v + 1)) as u32
    } else {
        v as u32
    }
}

impl GraphParams {
    /// The arguments of the graph's source.  It declares the colour space and
    /// range, as frames are refused that differ from what was declared.
    pub open spec fn source_args_spec(self) -> Seq<char> {
        "video_size="@ + decimal(self.width as nat) + "x"@ + decimal(self.height as nat)
            + ":pix_fmt="@ + signed_decimal(self.pix_fmt as int)
            + ":time_base=1/90000:pixel_aspect=0/1:colorspace="@ + signed_decimal(
            self.colorspace as int,
        ) + ":range="@ + signed_decimal(self.color_range as int)
    }

    /// The arguments of the graph's source.
    pub fn source_args(&self) -> (r: String)
        ensures
            r@ == self.source_args_spec(),
    {
        let mut s = String::from_str("video_size=");
        push_decimal(&mut s, self.width as u64);
        s.append("x");
        push_decimal(&mut s, self.height as u64);
        s.append(":pix_fmt=");
        push_signed(&mut s, self.pix_fmt as i64);
        s.append(":time_base=1/90000:pixel_aspect=0/1:colorspace=");
        push_signed(&mut s, self.colorspace as i64);
        s.append(":range=");
        push_signed(&mut s, self.color_range as i64);
        s
    }

    /// What a graph for the given frame is made for.  Dimensions below zero
    /// are passed on as the huge ones that they read as; the filters refuse
    /// them.
    pub fn of_frame(header: &FrameHeader) -> (r: Self)
        ensures
            r == (GraphParams {
                width: unsigned32(header.width),
                height: unsigned32(header.height),
                pix_fmt: header.format,
                colorspace: header.colorspace,
                color_range: header.color_range,
            }),
    {
        GraphParams {
            width: to_unsigned32(header.width),
            height: to_unsigned32(header.height),
            pix_fmt: header.format,
            colorspace: header.colorspace,
            color_range: header.color_range,
        }
    }
}

/// The arguments of the deinterlacing filter: which frames it works on.
pub fn filter_args(deint_all: bool) -> (r: &'static str)
    ensures
        r@ == if deint_all {
            "mode=send_frame:parity=auto:deint=all"@
        } else {
            "mode=send_frame:parity=auto:deint=interlaced"@
        },
{
    if deint_all {
        "mode=send_frame:parity=auto:deint=all"
    } else {
        "mode=send_frame:parity=auto:deint=interlaced"
    }
}

/// Half of `pts`, rounded towards zero; the mark of an unknown time stays.
pub open spec fn halved_pts(pts: i64) -> int {
    if pts == i64::MIN {
        pts as int
    } else if pts < 0 {
        -((-pts) / 2)
    } else {
        pts as int / 2
    }
}

/// The time of a filtered frame in units of the source: the filter counts in
/// units half as long.
pub fn rescale_bwdif_output_pts(pts: i64) -> (r: i64)
    ensures
        r == halved_pts(pts),
{
    if pts == i64::MIN {
        pts
    } else if pts < 0 {
        -((-pts) / 2)
    } else {
        pts / 2
    }
}

/// What a filtered frame says of itself, with its time in units of the source.
pub fn filtered_header(header: &FrameHeader) -> (r: FrameHeader)
    ensures
        r == (FrameHeader { pts: halved_pts(header.pts) as i64, ..*header }),
{
    let mut filtered: FrameHeader = *header;
    filtered.pts = rescale_bwdif_output_pts(header.pts);
    filtered
}

/// The steps in which a filter graph is built.
#[derive(Debug, Clone, Copy, PartialEq, Eq, Structural)]
pub enum GraphStep {
    Allocate,
    FindSource,
    CreateSource,
    FindFilter,
    CreateFilter,
    FindSink,
    CreateSink,
    LinkSource,
    LinkSink,
    Configure,
}

impl GraphStep {
    /// The place of the step in the order of building.
    pub open spec fn position(self) -> int {
        match self {
            GraphStep::Allocate => 0,
            GraphStep::FindSource => 1,
            GraphStep::CreateSource => 2,
            GraphStep::FindFilter => 3,
            GraphStep::CreateFilter => 4,
            GraphStep::FindSink => 5,
            GraphStep::CreateSink => 6,
            GraphStep::LinkSource => 7,
            GraphStep::LinkSink => 8,
            GraphStep::Configure => 9,
        }
    }

    /// The filter that the step looks up.
    pub open spec fn looked_up(self) -> Option<Seq<char>> {
        match self {
            GraphStep::FindSource => Some("buffer"@),
            GraphStep::FindFilter => Some("bwdif"@),
            GraphStep::FindSink => Some("buffersink"@),
            _ => None,
        }
    }

    /// Whether a failure of the step leaves a graph to be freed.
    pub fn leaves_graph(self) -> (r: bool)
        ensures
            r == (self.position() > 0),
    {
        match self {
            GraphStep::Allocate => false,
            _ => true,
        }
    }

    /// Moves on after a step: negative results fail, and after the last step
    /// the graph is complete.  A missing filter and a failed allocation are
    /// negative results too.
    pub fn advance(self, ret: i32) -> (r: Result<Option<GraphStep>, AvError>)
        ensures
            match r {
                Ok(Some(next)) => ret >= 0 && next.position() == self.position() + 1,
                Ok(None) => ret >= 0 && self.position() == 9,
                Err(e) => {
                    &&& ret < 0
                    &&& match self.looked_up() {
                        Some(filter) => e matches AvError::FfmpegUnavailable { message }
                            && message@ == "filtro '"@ + filter + "' não encontrado em avfilter"@,
                        None => e == (AvError::FfmpegError {
                            code: if self is Allocate {
                                AVERROR_ENOMEM
                            } else {
                                ret
                            },
                        }),
                    }
                },
            },
    {
        if ret < 0 {
            return Err(
                match self {
                    GraphStep::Allocate => AvError::FfmpegError { code: AVERROR_ENOMEM },
                    GraphStep::FindSource => missing_filter("buffer"),
                    GraphStep::FindFilter => missing_filter("bwdif"),
                    GraphStep::FindSink => missing_filter("buffersink"),
                    _ => AvError::FfmpegError { code: ret },
                },
            );
        }
        Ok(
            match self {
                GraphStep::Allocate => Some(GraphStep::FindSource),
                GraphStep::FindSource => Some(GraphStep::CreateSource),
                GraphStep::CreateSource => Some(GraphStep::FindFilter),
                GraphStep::FindFilter => Some(GraphStep::CreateFilter),
                GraphStep::CreateFilter => Some(GraphStep::FindSink),
                GraphStep::FindSink => Some(GraphStep::CreateSink),
                GraphStep::CreateSink => Some(GraphStep::LinkSource),
                GraphStep::LinkSource => Some(GraphStep::LinkSink),
                GraphStep::LinkSink => Some(GraphStep::Configure),
                GraphStep::Configure => None,
            },
        )
    }
}

/// Each place in the order of building is that of one step.
pub proof fn law_build_order_is_fixed(a: GraphStep, b: GraphStep)
    requires
        a.position() == b.position(),
    ensures
        a == b,
        0 <= a.position() < 10,
{
}

/// Deinterlaces frames with a filter graph, made anew when frames change.
#[derive(Debug)]
pub struct Deinterlacer {
    graph: Option<GraphParams>,
    deint_all: bool,
}

impl Deinterlacer {
    /// What the present graph is made for.
    pub closed spec fn graph_spec(&self) -> Option<GraphParams> {
        self.graph
    }

    pub closed spec fn deint_all_spec(&self) -> bool {
        self.deint_all
    }

    /// A deinterlacer without a graph.
    pub fn new(deint_all: bool) -> (r: Self)
        ensures
            r.graph_spec() is None,
            r.deint_all_spec() == deint_all,
    {
        Deinterlacer { graph: None, deint_all }
    }

    /// Whether frames that are not marked as interlaced are deinterlaced too.
    pub fn deint_all(&self) -> (r: bool)
        ensures
            r == self.deint_all_spec(),
    {
        self.deint_all
    }

    /// Prepares for a frame.  Returns whether a new graph has to be made for
    /// it, in which case the present one is given up.
    pub fn prepare(&mut self, params: GraphParams) -> (r: bool)
        ensures
            r == (old(self).graph_spec() != Some(params)),
            final(self).graph_spec() == if r {
                None
            } else {
                Some(params)
            },
            final(self).deint_all_spec() == old(self).deint_all_spec(),
    {
        let fits = match self.graph {
            Some(made_for) => made_for == params,
            None => false,
        };
        if !fits {
            self.graph = None;
        }
        !fits
    }

    /// Notes that a graph was made.
    pub fn built(&mut self, params: GraphParams)
        ensures
            final(self).graph_spec() == Some(params),
            final(self).deint_all_spec() == old(self).deint_all_spec(),
    {
        self.graph = Some(params);
    }
}

/// How the frames of a video stream are deinterlaced.
#[derive(Debug)]
pub enum DeinterlaceBackend {
    /// Not at all.
    Inactive,
    /// By a filter, on the processor.
    Bwdif(Deinterlacer),
    /// By the graphics device.
    D3d11Vp(D3d11VideoProcessor),
}

impl DeinterlaceBackend {
    /// Stops deinterlacing.
    pub fn clear(&mut self)
        ensures
            *final(self) == DeinterlaceBackend::Inactive,
    {
        *self = DeinterlaceBackend::Inactive;
    }

    /// The name shown for the method, if any is in use.
    pub fn label(&self) -> (r: Option<&'static str>)
        ensures
            match self {
                DeinterlaceBackend::Inactive => r is None,
                DeinterlaceBackend::Bwdif(_) => r matches Some(s) && s@ == "bwdif"@,
                DeinterlaceBackend::D3d11Vp(_) => r matches Some(s) && s@ == "D3D11 VP"@,
            },
    {
        match self {
            DeinterlaceBackend::Inactive => None,
            DeinterlaceBackend::Bwdif(_) => Some("bwdif"),
            DeinterlaceBackend::D3d11Vp(_) => Some("D3D11 VP"),
        }
    }

    /// Whether frames are deinterlaced.
    pub fn is_active(&self) -> (r: bool)
        ensures
            r == (*self != DeinterlaceBackend::Inactive),
    {
        match self {
            DeinterlaceBackend::Inactive => false,
            _ => true,
        }
    }
}

/// Twice the time of a filtered frame is what the filter said, or one unit
/// nearer to zero; an unknown time stays unknown, and a known one known.
pub proof fn law_filtered_times_are_halved(pts: i64)
    ensures
        pts >= 0 ==> 2 * halved_pts(pts) <= pts <= 2 * halved_pts(pts) + 1,
        i64::MIN < pts < 0 ==> 2 * halved_pts(pts) - 1 <= pts <= 2 * halved_pts(pts),
        pts == i64::MIN <==> halved_pts(pts) == i64::MIN,
{
}

/// Numbers that are not negative are kept; the others count down from the
/// largest, and distinct ones stay distinct.
pub proof fn law_patterns_are_kept(v: i32, w: i32)
    ensures
        v >= 0 ==> unsigned32(v) == v,
        v < 0 ==> unsigned32(v) - v == 0x1_0000_0000,
        unsigned32(v) == unsigned32(w) ==> v == w,
{
}

/// The graph is allocated first; source, filter and sink are each looked up
/// right before they are made, in this order; then source and sink are linked
/// to the filter, and the graph is configured last.
pub proof fn law_graph_is_built_in_order()
    ensures
        GraphStep::Allocate.position() == 0,
        GraphStep::FindSource.position() == GraphStep::Allocate.position() + 1,
        GraphStep::CreateSource.position() == GraphStep::FindSource.position() + 1,
        GraphStep::FindFilter.position() == GraphStep::CreateSource.position() + 1,
        GraphStep::CreateFilter.position() == GraphStep::FindFilter.position() + 1,
        GraphStep::FindSink.position() == GraphStep::CreateFilter.position() + 1,
        GraphStep::CreateSink.position() == GraphStep::FindSink.position() + 1,
        GraphStep::LinkSource.position() == GraphStep::CreateSink.position() + 1,
        GraphStep::LinkSink.position() == GraphStep::LinkSource.position() + 1,
        GraphStep::Configure.position() == GraphStep::LinkSink.position() + 1,
        GraphStep::FindSource.looked_up() == Some("buffer"@),
        GraphStep::FindFilter.looked_up() == Some("bwdif"@),
        GraphStep::FindSink.looked_up() == Some("buffersink"@),
        forall|step: GraphStep| #[trigger]
            step.looked_up() is Some ==> step is FindSource || step is FindFilter || step is FindSink,
{
}

} // verus!
