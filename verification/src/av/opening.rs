use vstd::prelude::*;

use crate::av::error::AvError;
use crate::av::ffmpeg::{missing_codec, AVERROR_ENOMEM};

verus! {

/// Where the decoder libraries are looked for.
#[derive(Debug, Clone, Copy, PartialEq, Eq, Structural)]
pub enum SearchPlace {
    /// The directory that the environment names.
    Environment,
    /// The subdirectory `ffmpeg` beside the program.
    ProgramSubdirectory,
    /// The directory of the program.
    Program,
    /// The subdirectory `ffmpeg` of the working directory.
    WorkingSubdirectory,
    /// The working directory.
    Working,
    /// The subdirectory `ffmpeg` of a directory above the program, counted
    /// from the program's own.
    Above(usize),
}

/// How many directories above the program are looked at.
pub const SEARCH_DEPTH: usize = 5;

/// The order in which the places are looked at.
pub open spec fn search_order() -> Seq<SearchPlace> {
    seq![
        SearchPlace::Environment,
        SearchPlace::ProgramSubdirectory,
        SearchPlace::Program,
        SearchPlace::WorkingSubdirectory,
        SearchPlace::Working,
        SearchPlace::Above(0),
        SearchPlace::Above(1),
        SearchPlace::Above(2),
        SearchPlace::Above(3),
        SearchPlace::Above(4),
    ]
}

/// The place that is looked at after `n` others.
pub fn search_place(n: usize) -> (r: Option<SearchPlace>)
    ensures
        r == if n < search_order().len() {
            Some(search_order()[n as int])
        } else {
            None
        },
{
    match n {
        0 => Some(SearchPlace::Environment),
        1 => Some(SearchPlace::ProgramSubdirectory),
        2 => Some(SearchPlace::Program),
        3 => Some(SearchPlace::WorkingSubdirectory),
        4 => Some(SearchPlace::Working),
        _ => {
            if n - 5 < SEARCH_DEPTH {
                Some(SearchPlace::Above(n - 5))
            } else {
                None
            }
        },
    }
}

/// The first place where the libraries are, out of those that were looked at:
/// whether each place, in order, holds them.
pub fn first_place(holds: &[bool]) -> (r: Option<SearchPlace>)
    requires
        holds@.len() <= search_order().len(),
    ensures
        match r {
            Some(place) => exists|n: int|
                0 <= n < holds@.len() && #[trigger] holds@[n] && place == search_order()[n] && forall|
                    i: int,
                |
                    0 <= i < n ==> !holds@[i],
            None => forall|i: int| 0 <= i < holds@.len() ==> !holds@[i],
        },
{
    let mut n: usize = 0;
    while n < holds.len()
        invariant
            n <= holds@.len() <= search_order().len(),
            forall|i: int| 0 <= i < n ==> !holds@[i],
        decreases holds@.len() - n,
    {
        if holds[n] {
            return search_place(n);
        }
        n += 1;
    }
    None
}

/// The steps in which a decoder is opened.
#[derive(Debug, Clone, Copy, PartialEq, Eq, Structural)]
pub enum OpenStep {
    FindCodec,
    AllocateContext,
    /// Make a hardware device.
    CreateDevice,
    /// Make the reference to it that the context keeps.
    ReferDevice,
    /// Open the context with its options, giving up the own reference to the
    /// device first.
    Open,
}

impl OpenStep {
    /// The step after one that succeeded.
    pub open spec fn next(self, hardware: bool) -> Option<OpenStep> {
        match self {
            OpenStep::FindCodec => Some(OpenStep::AllocateContext),
            OpenStep::AllocateContext => if hardware {
                Some(OpenStep::CreateDevice)
            } else {
                Some(OpenStep::Open)
            },
            OpenStep::CreateDevice => Some(OpenStep::ReferDevice),
            OpenStep::ReferDevice => Some(OpenStep::Open),
            OpenStep::Open => None,
        }
    }

    /// The steps of opening a decoder.
    pub open spec fn order(hardware: bool) -> Seq<OpenStep> {
        if hardware {
            seq![
                OpenStep::FindCodec,
                OpenStep::AllocateContext,
                OpenStep::CreateDevice,
                OpenStep::ReferDevice,
                OpenStep::Open,
            ]
        } else {
            seq![OpenStep::FindCodec, OpenStep::AllocateContext, OpenStep::Open]
        }
    }

    /// Whether a failure of the step leaves a context to be freed.
    pub open spec fn context_left(self) -> bool {
        self is CreateDevice || self is ReferDevice || self is Open
    }

    /// Whether a failure of the step leaves an own reference to a device.
    pub open spec fn device_left(self) -> bool {
        self is ReferDevice
    }

    /// Moves on after a step: negative results fail, as does a null pointer,
    /// which counts as one.  After the last step the decoder is open.
    pub fn advance(self, hardware: bool, codec_id: u32, ret: i32) -> (r: Result<
        Option<OpenStep>,
        AvError,
    >)
        ensures
            match r {
                Ok(next) => ret >= 0 && next == self.next(hardware),
                Err(e) => {
                    &&& ret < 0
                    &&& match self {
                        OpenStep::FindCodec => e matches AvError::FfmpegUnavailable { message }
                            && message@ == "codec id="@ + crate::text::decimal(codec_id as nat)
                            + (if hardware {
                            " não encontrado para hwaccel"@
                        } else {
                            " não encontrado no FFmpeg"@
                        }),
                        OpenStep::AllocateContext | OpenStep::ReferDevice => e
                            == (AvError::FfmpegError { code: AVERROR_ENOMEM }),
                        _ => e == (AvError::FfmpegError { code: ret }),
                    }
                },
            },
    {
        if ret < 0 {
            return Err(
                match self {
                    OpenStep::FindCodec => missing_codec(codec_id, hardware),
                    OpenStep::AllocateContext | OpenStep::ReferDevice => AvError::FfmpegError {
                        code: AVERROR_ENOMEM,
                    },
                    _ => AvError::FfmpegError { code: ret },
                },
            );
        }
        Ok(
            match self {
                OpenStep::FindCodec => Some(OpenStep::AllocateContext),
                OpenStep::AllocateContext => {
                    if hardware {
                        Some(OpenStep::CreateDevice)
                    } else {
                        Some(OpenStep::Open)
                    }
                },
                OpenStep::CreateDevice => Some(OpenStep::ReferDevice),
                OpenStep::ReferDevice => Some(OpenStep::Open),
                OpenStep::Open => None,
            },
        )
    }

    /// Whether a failure of the step leaves a context to be freed.
    pub fn leaves_context(self) -> (r: bool)
        ensures
            r == self.context_left(),
    {
        match self {
            OpenStep::FindCodec | OpenStep::AllocateContext => false,
            _ => true,
        }
    }

    /// Whether a failure of the step leaves an own reference to a device.
    pub fn leaves_device(self) -> (r: bool)
        ensures
            r == self.device_left(),
    {
        match self {
            OpenStep::ReferDevice => true,
            _ => false,
        }
    }
}

/// Each step leads to the one after it, and the last one ends the opening; in
/// software no step touches a device.
pub proof fn law_decoders_are_opened_in_order(hardware: bool, i: int)
    requires
        0 <= i < OpenStep::order(hardware).len(),
    ensures
        OpenStep::order(hardware)[i].next(hardware) == if i + 1 < OpenStep::order(hardware).len() {
            Some(OpenStep::order(hardware)[i + 1])
        } else {
            None
        },
        !hardware ==> !(OpenStep::order(hardware)[i] is CreateDevice) && !(OpenStep::order(
            hardware,
        )[i] is ReferDevice),
{
}

/// When a step fails, what is left to be given up is what the steps before it
/// have made: the context, and the device until its own reference is given
/// up, with which the last step begins.
pub proof fn law_failed_openings_leave_what_was_made(hardware: bool, i: int)
    requires
        0 <= i < OpenStep::order(hardware).len(),
    ensures
        ({
            let made = OpenStep::order(hardware).take(i);
            let failed = OpenStep::order(hardware)[i];
            &&& failed.context_left() == made.contains(OpenStep::AllocateContext)
            &&& failed.device_left() == (made.contains(OpenStep::CreateDevice)
                && !(failed is Open))
        }),
{
    let made = OpenStep::order(hardware).take(i);
    if i > 1 {
        assert(made[1] == OpenStep::AllocateContext);
    }
    if i > 2 && hardware {
        assert(made[2] == OpenStep::CreateDevice);
    }
}

/// A decoder is found, its context allocated and the context opened last; in
/// hardware, a device is made and referred to in between, and its own
/// reference is left only when referring to it failed.
pub proof fn law_steps_of_opening(hardware: bool)
    ensures
        OpenStep::FindCodec.next(hardware) == Some(OpenStep::AllocateContext),
        OpenStep::AllocateContext.next(true) == Some(OpenStep::CreateDevice),
        OpenStep::AllocateContext.next(false) == Some(OpenStep::Open),
        OpenStep::CreateDevice.next(hardware) == Some(OpenStep::ReferDevice),
        OpenStep::ReferDevice.next(hardware) == Some(OpenStep::Open),
        OpenStep::Open.next(hardware) is None,
        forall|step: OpenStep| #[trigger]
            step.context_left() <==> !(step is FindCodec) && !(step is AllocateContext),
        forall|step: OpenStep| #[trigger] step.device_left() <==> step is ReferDevice,
{
}

/// The environment is asked first, then the program's own place and the
/// working directory, each with its subdirectory first; then the directories
/// above the program, from the nearest.
pub proof fn law_places_are_searched_in_order(k: usize)
    requires
        k < 5,
    ensures
        search_order().len() == 10,
        search_order()[0] == SearchPlace::Environment,
        search_order()[1] == SearchPlace::ProgramSubdirectory,
        search_order()[2] == SearchPlace::Program,
        search_order()[3] == SearchPlace::WorkingSubdirectory,
        search_order()[4] == SearchPlace::Working,
        search_order()[5 + k] == SearchPlace::Above(k),
{
}

} // verus!
