use std::collections::VecDeque;

use vstd::prelude::*;

use crate::av::clock::{to_signed64, Pts90};
use crate::av::hw::surface::{NvPlanes, TransferFunction};

verus! {

/// Colour matrix of a decoded picture.
#[derive(Debug, Clone, Copy, PartialEq, Eq, Structural)]
pub enum YuvColorspace {
    Bt709,
    Bt601,
    Bt2020,
    Unspecified,
}

impl YuvColorspace {
    /// The matrix that a decoder colour space code stands for.
    pub fn from_avutil(v: i32) -> (r: Self)
        ensures
            r == if v == 1 {
                YuvColorspace::Bt709
            } else if v == 5 || v == 6 {
                YuvColorspace::Bt601
            } else if v == 9 || v == 10 {
                YuvColorspace::Bt2020
            } else {
                YuvColorspace::Unspecified
            },
    {
        match v {
            1 => YuvColorspace::Bt709,
            5 | 6 => YuvColorspace::Bt601,
            9 | 10 => YuvColorspace::Bt2020,
            _ => YuvColorspace::Unspecified,
        }
    }
}

/// Value range of a decoded picture.
#[derive(Debug, Clone, Copy, PartialEq, Eq, Structural)]
pub enum YuvColorRange {
    Limited,
    Full,
}

impl YuvColorRange {
    /// The range that a decoder range code stands for.
    pub fn from_avutil(v: i32) -> (r: Self)
        ensures
            r == if v == 2 {
                YuvColorRange::Full
            } else {
                YuvColorRange::Limited
            },
    {
        match v {
            2 => YuvColorRange::Full,
            _ => YuvColorRange::Limited,
        }
    }
}

/// A picture decoded in software: three planes, rows without padding.
#[derive(Debug, Clone)]
pub struct YuvFrame {
    /// Luma and the two chroma planes; ten-bit samples take two bytes each,
    /// least significant first.
    pub planes: [Vec<u8>; 3],
    pub width: u32,
    pub height: u32,
    /// Presentation time in 90 kHz ticks.
    pub pts: Option<u64>,
    pub sar_num: u32,
    pub sar_den: u32,
    pub colorspace: YuvColorspace,
    pub color_range: YuvColorRange,
    pub ten_bit: bool,
}

/// A picture decoded in hardware and copied out of its surface.
#[derive(Debug)]
pub struct HwVideoFrame {
    pub planes: NvPlanes,
    pub colorspace: YuvColorspace,
    pub color_range: YuvColorRange,
    pub transfer: TransferFunction,
    /// Presentation time in 90 kHz ticks.
    pub pts: Option<u64>,
    pub width: u32,
    pub height: u32,
    pub sar_num: u32,
    pub sar_den: u32,
}

/// A decoded picture of either origin.
#[derive(Debug)]
pub enum VideoFrame {
    Sw(YuvFrame),
    Hw(HwVideoFrame),
}

impl VideoFrame {
    pub open spec fn spec_pts(&self) -> Option<u64> {
        match self {
            VideoFrame::Sw(f) => f.pts,
            VideoFrame::Hw(f) => f.pts,
        }
    }

    #[verifier::when_used_as_spec(spec_pts)]
    pub fn pts(&self) -> (r: Option<u64>)
        ensures
            r == self.spec_pts(),
    {
        match self {
            VideoFrame::Sw(f) => f.pts,
            VideoFrame::Hw(f) => f.pts,
        }
    }

    pub fn width(&self) -> (r: u32)
        ensures
            r == (match self {
                VideoFrame::Sw(f) => f.width,
                VideoFrame::Hw(f) => f.width,
            }),
    {
        match self {
            VideoFrame::Sw(f) => f.width,
            VideoFrame::Hw(f) => f.width,
        }
    }

    pub fn height(&self) -> (r: u32)
        ensures
            r == (match self {
                VideoFrame::Sw(f) => f.height,
                VideoFrame::Hw(f) => f.height,
            }),
    {
        match self {
            VideoFrame::Sw(f) => f.height,
            VideoFrame::Hw(f) => f.height,
        }
    }

    pub fn sar_num(&self) -> (r: u32)
        ensures
            r == (match self {
                VideoFrame::Sw(f) => f.sar_num,
                VideoFrame::Hw(f) => f.sar_num,
            }),
    {
        match self {
            VideoFrame::Sw(f) => f.sar_num,
            VideoFrame::Hw(f) => f.sar_num,
        }
    }

    pub fn sar_den(&self) -> (r: u32)
        ensures
            r == (match self {
                VideoFrame::Sw(f) => f.sar_den,
                VideoFrame::Hw(f) => f.sar_den,
            }),
    {
        match self {
            VideoFrame::Sw(f) => f.sar_den,
            VideoFrame::Hw(f) => f.sar_den,
        }
    }
}

impl From<YuvFrame> for VideoFrame {
    fn from(f: YuvFrame) -> (r: Self) {
        VideoFrame::Sw(f)
    }
}

impl vstd::std_specs::convert::FromSpecImpl<YuvFrame> for VideoFrame {
    open spec fn obeys_from_spec() -> bool {
        true
    }

    open spec fn from_spec(f: YuvFrame) -> Self {
        VideoFrame::Sw(f)
    }
}

impl From<HwVideoFrame> for VideoFrame {
    fn from(f: HwVideoFrame) -> (r: Self) {
        VideoFrame::Hw(f)
    }
}

impl vstd::std_specs::convert::FromSpecImpl<HwVideoFrame> for VideoFrame {
    open spec fn obeys_from_spec() -> bool {
        true
    }

    open spec fn from_spec(f: HwVideoFrame) -> Self {
        VideoFrame::Hw(f)
    }
}

/// Frames further ahead of the clock than this are held back (20 ms).
pub const HOLD_PTS: i64 = 1_800;

/// Frames further behind the clock than this are dropped (100 ms).
pub const DROP_PTS: i64 = 9_000;

/// A jump ahead beyond this is a discontinuity (500 ms).
pub const RESYNC_PTS: i64 = 45_000;

/// A step back beyond this is a wrap of the 33-bit counter.
pub const WRAP_THRESHOLD: i64 = 0x1_0000_0000;

/// What one wrap of the 33-bit counter adds.
pub const WRAP_STEP: i64 = 0x2_0000_0000;

pub const DEFAULT_CAPACITY: usize = 16;

/// What [`VideoQueue::pop_ready`] found.
#[derive(Debug)]
pub enum PopResult {
    /// A frame to show now.
    Ready(VideoFrame),
    /// The next frame is not due yet.
    TooEarly,
    Empty,
    /// A frame after a discontinuity; the clock should move to `new_anchor`.
    Resync { frame: VideoFrame, new_anchor: Pts90 },
}

/// What [`VideoQueue::push`] did besides inserting the frame.
#[derive(Debug, PartialEq, Eq, Structural)]
pub enum PushResult {
    Inserted,
    /// The oldest frame had to make room.
    DroppedOldest,
    /// The 33-bit counter wrapped.
    WrapDetected,
}

/// Everything that the behaviour of a queue depends on.
#[verifier::ext_equal]
pub ghost struct QueueModel {
    /// Frames with their times, in presentation order.
    pub frames: Seq<(Pts90, VideoFrame)>,
    pub capacity: nat,
    /// What the wraps seen so far add up to.
    pub wrap_offset: i64,
    /// Time of the frame pushed last.
    pub last_pts: Option<Pts90>,
    pub dropped_late: int,
    pub held_early: int,
    pub discontinuities: int,
}

/// Times never decrease along the queue.
pub open spec fn in_order(frames: Seq<(Pts90, VideoFrame)>) -> bool {
    forall|i: int, j: int|
        0 <= i <= j < frames.len() ==> (#[trigger] frames[i]).0 <= (#[trigger] frames[j]).0
}

/// How many frames of an ordered queue are due no later than `pts`.
pub open spec fn rank(frames: Seq<(Pts90, VideoFrame)>, pts: Pts90) -> int
    decreases frames.len(),
{
    if frames.len() == 0 {
        0
    } else if frames.last().0 <= pts {
        frames.len() as int
    } else {
        rank(frames.drop_last(), pts)
    }
}

/// How many frames at the front are more than [`DROP_PTS`] late.
pub open spec fn late_frames(frames: Seq<(Pts90, VideoFrame)>, clock: Pts90) -> nat
    decreases frames.len(),
{
    if frames.len() == 0 || frames.first().0 - clock >= -DROP_PTS {
        0
    } else {
        1 + late_frames(frames.drop_first(), clock)
    }
}

impl QueueModel {
    pub open spec fn valid(self) -> bool {
        &&& self.capacity >= 1
        &&& self.frames.len() <= self.capacity
        &&& in_order(self.frames)
    }

    /// No counter is about to exceed 64 bits.
    pub open spec fn has_room(self) -> bool {
        &&& self.dropped_late + self.frames.len() <= u64::MAX
        &&& self.held_early < u64::MAX
        &&& self.discontinuities < u64::MAX
    }

    /// The unwrapped time of a raw 33-bit time, and whether it wrapped.
    pub open spec fn unwrapped(self, raw: u64) -> (Pts90, bool) {
        let here = crate::av::clock::signed64(raw).wrapping_add(self.wrap_offset);
        match self.last_pts {
            Some(last) if here - last < -WRAP_THRESHOLD => (
                crate::av::clock::signed64(raw).wrapping_add(self.wrap_offset.wrapping_add(WRAP_STEP)),
                true,
            ),
            _ => (here, false),
        }
    }

    /// The time that a frame gets: its own, unwrapped, or one tick after the
    /// frame before it.
    pub open spec fn time_of(self, pts: Option<u64>) -> (Pts90, bool) {
        match pts {
            Some(raw) => self.unwrapped(raw),
            None => (
                match self.last_pts {
                    Some(last) => if last == i64::MAX {
                        last
                    } else {
                        (last + 1) as i64
                    },
                    None => 0,
                },
                false,
            ),
        }
    }

    /// State and result after `frame` is pushed.
    pub open spec fn pushed(self, frame: VideoFrame) -> (Self, PushResult) {
        let (pts, wrapped) = self.time_of(frame.spec_pts());
        let full = self.frames.len() >= self.capacity;
        let kept = if full {
            self.frames.drop_first()
        } else {
            self.frames
        };
        (
            QueueModel {
                frames: kept.insert(rank(kept, pts), (pts, frame)),
                last_pts: Some(pts),
                wrap_offset: if wrapped {
                    self.wrap_offset.wrapping_add(WRAP_STEP)
                } else {
                    self.wrap_offset
                },
                ..self
            },
            if wrapped {
                PushResult::WrapDetected
            } else if full {
                PushResult::DroppedOldest
            } else {
                PushResult::Inserted
            },
        )
    }

    /// State and result after the queue is asked for a frame at `clock`.
    pub open spec fn popped(self, clock: Pts90, allow_resync: bool) -> (Self, PopResult) {
        let late = late_frames(self.frames, clock);
        let rest = QueueModel {
            frames: self.frames.skip(late as int),
            dropped_late: self.dropped_late + late,
            ..self
        };
        if rest.frames.len() == 0 {
            (rest, PopResult::Empty)
        } else {
            let (pts, frame) = rest.frames[0];
            let ahead = pts - clock;
            let taken = QueueModel { frames: rest.frames.drop_first(), ..rest };
            let held = QueueModel { held_early: rest.held_early + 1, ..rest };
            if ahead > RESYNC_PTS {
                if allow_resync {
                    (
                        QueueModel { discontinuities: taken.discontinuities + 1, ..taken },
                        PopResult::Resync { frame, new_anchor: pts },
                    )
                } else {
                    (held, PopResult::TooEarly)
                }
            } else if ahead > HOLD_PTS {
                (held, PopResult::TooEarly)
            } else {
                (taken, PopResult::Ready(frame))
            }
        }
    }
}

/// What a queue holds, and what it needs to place the next frame.
#[derive(Debug)]
pub struct WaitingFrames {
    frames: VecDeque<(Pts90, VideoFrame)>,
    capacity: usize,
    wrap_offset: i64,
    last_pts: Option<Pts90>,
}

/// Frames waiting to be shown, in presentation order.
///
/// A full queue drops its oldest frame for a new one.  Asking for a frame drops
/// those that are too late, holds back those that are too early, and reports a
/// jump ahead as a discontinuity.
#[derive(Debug)]
pub struct VideoQueue {
    /// The frames, and what is known of their times.
    pub waiting: WaitingFrames,
    /// Frames dropped because they were late.
    pub dropped_late: u64,
    /// Times that the next frame was not due yet.
    pub held_early: u64,
    /// Jumps ahead that were reported.
    pub discontinuities: u64,
}

impl View for VideoQueue {
    type V = QueueModel;

    closed spec fn view(&self) -> QueueModel {
        QueueModel {
            frames: self.waiting.frames@,
            capacity: self.waiting.capacity as nat,
            wrap_offset: self.waiting.wrap_offset,
            last_pts: self.waiting.last_pts,
            dropped_late: self.dropped_late as int,
            held_early: self.held_early as int,
            discontinuities: self.discontinuities as int,
        }
    }
}

/// Inserting a time at its rank keeps the order, and the rank splits the queue.
proof fn lemma_insert_keeps_order(
    frames: Seq<(Pts90, VideoFrame)>,
    pts: Pts90,
    frame: VideoFrame,
)
    requires
        in_order(frames),
    ensures
        0 <= rank(frames, pts) <= frames.len(),
        forall|i: int| 0 <= i < rank(frames, pts) ==> (#[trigger] frames[i]).0 <= pts,
        forall|i: int| rank(frames, pts) <= i < frames.len() ==> (#[trigger] frames[i]).0 > pts,
        in_order(frames.insert(rank(frames, pts), (pts, frame))),
    decreases frames.len(),
{
    if frames.len() > 0 && frames.last().0 > pts {
        let front = frames.drop_last();
        assert(in_order(front));
        lemma_insert_keeps_order(front, pts, frame);
        assert forall|i: int| 0 <= i < rank(frames, pts) implies (#[trigger] frames[i]).0
            <= pts by {
            assert(front[i].0 <= pts);
        }
        assert forall|i: int| rank(frames, pts) <= i < frames.len() implies (
        #[trigger] frames[i]).0 > pts by {
            if i < front.len() {
                assert(front[i].0 > pts);
            }
        }
    }
}

proof fn lemma_late_frames_bounded(frames: Seq<(Pts90, VideoFrame)>, clock: Pts90)
    ensures
        late_frames(frames, clock) <= frames.len(),
        late_frames(frames, clock) < frames.len() ==> frames[late_frames(
            frames,
            clock,
        ) as int].0 - clock >= -DROP_PTS,
        forall|i: int|
            0 <= i < late_frames(frames, clock) ==> (#[trigger] frames[i]).0 - clock < -DROP_PTS,
    decreases frames.len(),
{
    if frames.len() > 0 && frames.first().0 - clock < -DROP_PTS {
        let rest = frames.drop_first();
        lemma_late_frames_bounded(rest, clock);
        let n = late_frames(rest, clock) as int;
        assert(n < rest.len() ==> rest[n] == frames[n + 1]);
        assert forall|i: int| 0 <= i < n + 1 implies (#[trigger] frames[i]).0 - clock
            < -DROP_PTS by {
            if i > 0 {
                assert(rest[i - 1] == frames[i]);
            }
        }
    }
}

impl VideoQueue {
    /// The queue is ordered and within its capacity.
    pub closed spec fn wf(&self) -> bool {
        self@.valid()
    }

    /// The counters hold what was counted.
    pub open spec fn shows_counts(&self) -> bool {
        &&& self.dropped_late == self@.dropped_late
        &&& self.held_early == self@.held_early
        &&& self.discontinuities == self@.discontinuities
    }

    /// What holds of the model of a queue holds of every queue that the
    /// operations lead to: it is ordered and within its capacity.
    pub proof fn law_reachable_queues_are_valid(&self)
        requires
            self.wf(),
        ensures
            self@.valid(),
    {
    }

    /// The public counters of any queue are those of its model.
    pub proof fn law_counts_are_shown(&self)
        ensures
            self.shows_counts(),
    {
    }

    /// An empty queue for `capacity` frames, or for one where that is zero.
    pub fn new(capacity: usize) -> (r: Self)
        ensures
            r.wf(),
            r.shows_counts(),
            r@ == (QueueModel {
                frames: Seq::empty(),
                capacity: if capacity == 0 {
                    1
                } else {
                    capacity as nat
                },
                wrap_offset: 0,
                last_pts: None,
                dropped_late: 0,
                held_early: 0,
                discontinuities: 0,
            }),
    {
        let cap: usize = if capacity == 0 {
            1
        } else {
            capacity
        };
        VideoQueue {
            waiting: WaitingFrames {
                frames: VecDeque::with_capacity(cap),
                capacity: cap,
                wrap_offset: 0,
                last_pts: None,
            },
            dropped_late: 0,
            held_early: 0,
            discontinuities: 0,
        }
    }

    pub fn len(&self) -> (r: usize)
        ensures
            r == self@.frames.len(),
    {
        self.waiting.frames.len()
    }

    pub fn is_empty(&self) -> (r: bool)
        ensures
            r == (self@.frames.len() == 0),
    {
        self.waiting.frames.len() == 0
    }

    /// The time of the next frame, which stays in the queue.
    pub fn front_pts(&self) -> (r: Option<Pts90>)
        ensures
            r == if self@.frames.len() == 0 {
                None
            } else {
                Some(self@.frames[0].0)
            },
    {
        if self.waiting.frames.len() == 0 {
            None
        } else {
            Some(self.waiting.frames[0].0)
        }
    }

    /// Drops all frames and forgets the times seen; counters stay.
    pub fn clear(&mut self)
        requires
            old(self).wf(),
        ensures
            final(self).wf(),
            final(self).shows_counts(),
            final(self)@ == (QueueModel {
                frames: Seq::empty(),
                wrap_offset: 0,
                last_pts: None,
                ..old(self)@
            }),
    {
        self.waiting.frames.clear();
        self.waiting.wrap_offset = 0;
        self.waiting.last_pts = None;
    }

    /// Unwraps a raw time, taking a step far back for a wrap.
    fn adjust_pts(&mut self, raw_pts: u64) -> (r: (Pts90, bool))
        ensures
            r == old(self)@.unwrapped(raw_pts),
            final(self)@ == (QueueModel {
                wrap_offset: if r.1 {
                    old(self)@.wrap_offset.wrapping_add(WRAP_STEP)
                } else {
                    old(self)@.wrap_offset
                },
                ..old(self)@
            }),
    {
        let raw: i64 = to_signed64(raw_pts);
        let adjusted: i64 = raw.wrapping_add(self.waiting.wrap_offset);
        let wrap_detected = match self.waiting.last_pts {
            Some(last) => (adjusted as i128) - (last as i128) < -(WRAP_THRESHOLD as i128),
            None => false,
        };
        if wrap_detected {
            self.waiting.wrap_offset = self.waiting.wrap_offset.wrapping_add(WRAP_STEP);
            (raw.wrapping_add(self.waiting.wrap_offset), true)
        } else {
            (adjusted, false)
        }
    }

    /// Inserts a frame at its time.
    pub fn push(&mut self, frame: VideoFrame) -> (r: PushResult)
        requires
            old(self).wf(),
        ensures
            final(self).wf(),
            final(self).shows_counts(),
            (final(self)@, r) == old(self)@.pushed(frame),
    {
        let (adj_pts, wrap_detected): (i64, bool) = match frame.pts() {
            Some(raw) => self.adjust_pts(raw),
            None => {
                let pts: i64 = match self.waiting.last_pts {
                    Some(p) => if p == i64::MAX {
                        p
                    } else {
                        p + 1
                    },
                    None => 0,
                };
                (pts, false)
            },
        };
        self.waiting.last_pts = Some(adj_pts);
        let full = self.waiting.frames.len() >= self.waiting.capacity;
        if full {
            self.waiting.frames.pop_front();
        }
        let ghost kept = self.waiting.frames@;
        assert(kept =~= if full {
            old(self)@.frames.drop_first()
        } else {
            old(self)@.frames
        });
        assert(in_order(kept));
        let mut pos: usize = self.waiting.frames.len();
        assert(kept.take(pos as int) =~= kept);
        while pos > 0 && self.waiting.frames[pos - 1].0 > adj_pts
            invariant
                pos <= self.waiting.frames@.len(),
                kept == self.waiting.frames@,
                rank(kept, adj_pts) == rank(kept.take(pos as int), adj_pts),
            decreases pos,
        {
            assert(kept.take(pos as int).drop_last() =~= kept.take(pos - 1));
            pos = pos - 1;
        }
        proof {
            lemma_insert_keeps_order(kept, adj_pts, frame);
        }
        self.waiting.frames.insert(pos, (adj_pts, frame));
        if wrap_detected {
            PushResult::WrapDetected
        } else if full {
            PushResult::DroppedOldest
        } else {
            PushResult::Inserted
        }
    }

    /// Asks for the frame to show at `clock_pts`.
    pub fn pop_ready(&mut self, clock_pts: Pts90) -> (r: PopResult)
        requires
            old(self).wf(),
            old(self)@.has_room(),
        ensures
            final(self).wf(),
            final(self).shows_counts(),
            (final(self)@, r) == old(self)@.popped(clock_pts, true),
    {
        self.pop_ready_with_resync(clock_pts, true)
    }

    /// Asks for the frame to show at `clock_pts`.  Without `allow_resync` a
    /// frame far ahead is held back, for clocks that must not be moved.
    pub fn pop_ready_with_resync(&mut self, clock_pts: Pts90, allow_resync: bool) -> (r: PopResult)
        requires
            old(self).wf(),
            old(self)@.has_room(),
        ensures
            final(self).wf(),
            final(self).shows_counts(),
            (final(self)@, r) == old(self)@.popped(clock_pts, allow_resync),
    {
        let ghost all = self.waiting.frames@;
        let ghost mut gone: int = 0;
        assert(all.skip(0) =~= all);
        loop
            invariant
                old(self).wf(),
                old(self)@.has_room(),
                all == old(self)@.frames,
                0 <= gone <= all.len(),
                late_frames(all, clock_pts) == gone + late_frames(all.skip(gone), clock_pts),
                self@ == (QueueModel {
                    frames: all.skip(gone),
                    dropped_late: old(self)@.dropped_late + gone,
                    ..old(self)@
                }),
            decreases all.len() - gone,
        {
            proof {
                lemma_late_frames_bounded(all, clock_pts);
            }
            if self.waiting.frames.len() == 0 {
                return PopResult::Empty;
            }
            let frame_pts: i64 = self.waiting.frames[0].0;
            let diff: i128 = (frame_pts as i128) - (clock_pts as i128);
            if diff < -(DROP_PTS as i128) {
                self.waiting.frames.pop_front();
                self.dropped_late = self.dropped_late + 1;
                proof {
                    assert(all.skip(gone).drop_first() =~= all.skip(gone + 1));
                    gone = gone + 1;
                }
                continue ;
            }
            assert(late_frames(all.skip(gone), clock_pts) == 0);
            if diff > RESYNC_PTS as i128 {
                if !allow_resync {
                    self.held_early = self.held_early + 1;
                    return PopResult::TooEarly;
                }
                return match self.waiting.frames.pop_front() {
                    Some((_, frame)) => {
                        self.discontinuities = self.discontinuities + 1;
                        assert(self.waiting.frames@ =~= all.skip(gone).drop_first());
                        PopResult::Resync { frame, new_anchor: frame_pts }
                    },
                    None => PopResult::Empty,
                };
            }
            if diff > HOLD_PTS as i128 {
                self.held_early = self.held_early + 1;
                return PopResult::TooEarly;
            }
            return match self.waiting.frames.pop_front() {
                Some((_, frame)) => {
                    assert(self.waiting.frames@ =~= all.skip(gone).drop_first());
                    PopResult::Ready(frame)
                },
                None => PopResult::Empty,
            };
        }
    }
}

impl Default for VideoQueue {
    fn default() -> (r: Self)
        ensures
            r.wf(),
            r.shows_counts(),
            r@ == (QueueModel {
                frames: Seq::empty(),
                capacity: DEFAULT_CAPACITY as nat,
                wrap_offset: 0,
                last_pts: None,
                dropped_late: 0,
                held_early: 0,
                discontinuities: 0,
            }),
    {
        VideoQueue::new(DEFAULT_CAPACITY)
    }
}

/// Every queue that the operations lead to is ordered and within capacity,
/// and asking for a frame keeps it so.
pub proof fn law_queue_stays_ordered(
    m: QueueModel,
    frame: VideoFrame,
    clock: Pts90,
    allow_resync: bool,
)
    requires
        m.valid(),
    ensures
        m.pushed(frame).0.valid(),
        m.popped(clock, allow_resync).0.valid(),
{
    let (pts, _) = m.time_of(frame.spec_pts());
    let kept = if m.frames.len() >= m.capacity {
        m.frames.drop_first()
    } else {
        m.frames
    };
    assert(in_order(kept));
    lemma_insert_keeps_order(kept, pts, frame);
    lemma_late_frames_bounded(m.frames, clock);
}

/// A pushed frame is in the queue, and at most one other frame has left it:
/// the oldest, and only where the queue was full.
pub proof fn law_push_inserts_one_frame(m: QueueModel, frame: VideoFrame)
    requires
        m.valid(),
    ensures
        ({
            let n = m.pushed(frame).0;
            let pts = m.time_of(frame.spec_pts()).0;
            &&& n.frames.contains((pts, frame))
            &&& n.frames.len() == if m.frames.len() < m.capacity {
                m.frames.len() + 1
            } else {
                m.frames.len()
            }
            &&& forall|i: int|
                (if m.frames.len() < m.capacity {
                    0int
                } else {
                    1int
                }) <= i < m.frames.len() ==> n.frames.contains(#[trigger] m.frames[i])
        }),
{
    let (pts, _) = m.time_of(frame.spec_pts());
    let full = m.frames.len() >= m.capacity;
    let kept = if full {
        m.frames.drop_first()
    } else {
        m.frames
    };
    assert(in_order(kept));
    lemma_insert_keeps_order(kept, pts, frame);
    let n = m.pushed(frame).0;
    let k = rank(kept, pts);
    assert(n.frames[k] == (pts, frame));
    assert forall|i: int|
        (if m.frames.len() < m.capacity {
            0int
        } else {
            1int
        }) <= i < m.frames.len() implies n.frames.contains(#[trigger] m.frames[i]) by {
        let j = if full {
            i - 1
        } else {
            i
        };
        assert(kept[j] == m.frames[i]);
        if j < k {
            assert(n.frames[j] == kept[j]);
        } else {
            assert(n.frames[j + 1] == kept[j]);
        }
    }
}

/// Frames come out in presentation order: none left behind is due before one
/// that was handed out.
pub proof fn law_frames_come_out_in_order(m: QueueModel, clock: Pts90, allow_resync: bool)
    requires
        m.valid(),
        m.popped(clock, allow_resync).1 is Ready || m.popped(clock, allow_resync).1 is Resync,
    ensures
        ({
            let n = m.popped(clock, allow_resync).0;
            let late = late_frames(m.frames, clock) as int;
            &&& late < m.frames.len()
            &&& n.frames == m.frames.skip(late + 1)
            &&& forall|i: int|
                0 <= i < n.frames.len() ==> (#[trigger] n.frames[i]).0 >= m.frames[late].0
        }),
{
    lemma_late_frames_bounded(m.frames, clock);
    let late = late_frames(m.frames, clock) as int;
    assert(m.frames.skip(late).drop_first() =~= m.frames.skip(late + 1));
    let n = m.popped(clock, allow_resync).0;
    assert forall|i: int| 0 <= i < n.frames.len() implies (#[trigger] n.frames[i]).0
        >= m.frames[late].0 by {
        assert(n.frames[i] == m.frames[late + 1 + i]);
    }
}

/// A frame is shown only within its window around the clock, and a frame is
/// dropped only when it is later than that window.
pub proof fn law_shown_frames_are_due(m: QueueModel, clock: Pts90, allow_resync: bool)
    requires
        m.valid(),
    ensures
        ({
            let late = late_frames(m.frames, clock) as int;
            let outcome = m.popped(clock, allow_resync).1;
            &&& forall|i: int|
                0 <= i < late ==> (#[trigger] m.frames[i]).0 < clock - DROP_PTS
            &&& outcome is Ready ==> -DROP_PTS <= m.frames[late].0 - clock <= HOLD_PTS
            &&& outcome is Resync ==> m.frames[late].0 - clock > RESYNC_PTS && allow_resync
            &&& outcome is TooEarly ==> m.frames[late].0 - clock > HOLD_PTS
            &&& outcome is Empty <==> late == m.frames.len()
        }),
{
    lemma_late_frames_bounded(m.frames, clock);
}

/// Times keep growing across wraps of the 33-bit counter: a frame less than
/// half a wrap away from the one before, and not before the last wrap, gets its
/// true time.
pub proof fn law_wraps_are_unfolded(m: QueueModel, before: int, now: int)
    requires
        0 <= before,
        before - WRAP_THRESHOLD <= now < before + WRAP_THRESHOLD,
        now >= before / 0x2_0000_0000 * 0x2_0000_0000,
        now + WRAP_STEP <= i64::MAX,
        m.last_pts == Some(before as i64),
        m.wrap_offset == before / 0x2_0000_0000 * 0x2_0000_0000,
    ensures
        ({
            let raw = (now % 0x2_0000_0000) as u64;
            let (pts, wrapped) = m.unwrapped(raw);
            &&& pts == now
            &&& wrapped == (now / 0x2_0000_0000 != before / 0x2_0000_0000)
            &&& (if wrapped {
                m.wrap_offset.wrapping_add(WRAP_STEP)
            } else {
                m.wrap_offset
            }) == now / 0x2_0000_0000 * 0x2_0000_0000
        }),
{
    let raw = (now % 0x2_0000_0000) as u64;
    assert(crate::av::clock::signed64(raw) == now % 0x2_0000_0000);
    let cycle = before / 0x2_0000_0000;
    assert(now / 0x2_0000_0000 == cycle || now / 0x2_0000_0000 == cycle + 1);
    assert(now == now / 0x2_0000_0000 * 0x2_0000_0000 + now % 0x2_0000_0000);
}

/// Asking for a frame drops those that are more than 100 ms late.  Of the next
/// one, a time up to 20 ms ahead is shown, up to 500 ms ahead it is held back,
/// and beyond that it is shown after a jump of the clock, where that is
/// allowed.  `late` is how many are dropped.
pub proof fn law_clock_decides_what_is_shown(
    m: QueueModel,
    clock: Pts90,
    allow_resync: bool,
    late: int,
)
    requires
        0 <= late <= m.frames.len(),
        forall|i: int| 0 <= i < late ==> (#[trigger] m.frames[i]).0 < clock - 9_000,
        late < m.frames.len() ==> m.frames[late].0 >= clock - 9_000,
    ensures
        ({
            let (n, outcome) = m.popped(clock, allow_resync);
            &&& n.capacity == m.capacity && n.wrap_offset == m.wrap_offset && n.last_pts
                == m.last_pts
            &&& n.dropped_late == m.dropped_late + late
            &&& late == m.frames.len() ==> outcome is Empty && n.frames == Seq::<
                (Pts90, VideoFrame),
            >::empty() && n.held_early == m.held_early && n.discontinuities == m.discontinuities
            &&& late < m.frames.len() ==> ({
                let (pts, frame) = m.frames[late];
                let ahead = pts - clock;
                &&& ahead <= 1_800 ==> outcome == PopResult::Ready(frame) && n.frames
                    == m.frames.skip(late + 1) && n.held_early == m.held_early && n.discontinuities
                    == m.discontinuities
                &&& 1_800 < ahead && (ahead <= 45_000 || !allow_resync) ==> outcome is TooEarly
                    && n.frames == m.frames.skip(late) && n.held_early == m.held_early + 1
                    && n.discontinuities == m.discontinuities
                &&& ahead > 45_000 && allow_resync ==> outcome == (PopResult::Resync {
                    frame,
                    new_anchor: pts,
                }) && n.frames == m.frames.skip(late + 1) && n.held_early == m.held_early
                    && n.discontinuities == m.discontinuities + 1
            })
        }),
{
    lemma_late_count(m.frames, clock, late);
    if late < m.frames.len() {
        assert(m.frames.skip(late).drop_first() =~= m.frames.skip(late + 1));
        assert(m.frames.skip(late)[0] == m.frames[late]);
    } else {
        assert(m.frames.skip(late) =~= Seq::empty());
    }
}

proof fn lemma_late_count(frames: Seq<(Pts90, VideoFrame)>, clock: Pts90, late: int)
    requires
        0 <= late <= frames.len(),
        forall|i: int| 0 <= i < late ==> (#[trigger] frames[i]).0 < clock - 9_000,
        late < frames.len() ==> frames[late].0 >= clock - 9_000,
    ensures
        late_frames(frames, clock) == late,
    decreases frames.len(),
{
    if frames.len() > 0 && late > 0 {
        let rest = frames.drop_first();
        assert(frames[0].0 < clock - 9_000);
        assert forall|i: int| 0 <= i < late - 1 implies (#[trigger] rest[i]).0 < clock - 9_000 by {
            assert(rest[i] == frames[i + 1]);
        }
        lemma_late_count(rest, clock, late - 1);
    }
}

/// A frame goes behind those that are due no later and before all others.  A
/// full queue gives up its first frame for it.  The result says so, unless the
/// counter wrapped, which it says first.
pub proof fn law_frames_go_to_their_place(m: QueueModel, frame: VideoFrame, place: int)
    requires
        m.valid(),
        ({
            let pts = m.time_of(frame.spec_pts()).0;
            let first = if m.frames.len() == m.capacity {
                1int
            } else {
                0int
            };
            &&& first <= place <= m.frames.len()
            &&& forall|i: int| first <= i < place ==> (#[trigger] m.frames[i]).0 <= pts
            &&& forall|i: int| place <= i < m.frames.len() ==> (#[trigger] m.frames[i]).0 > pts
        }),
    ensures
        ({
            let (n, result) = m.pushed(frame);
            let (pts, wrapped) = m.time_of(frame.spec_pts());
            let full = m.frames.len() == m.capacity;
            let first = if full {
                1int
            } else {
                0int
            };
            &&& n.frames == m.frames.subrange(first, place) + seq![(pts, frame)]
                + m.frames.skip(place)
            &&& n.last_pts == Some(pts)
            &&& n.capacity == m.capacity && n.dropped_late == m.dropped_late && n.held_early
                == m.held_early && n.discontinuities == m.discontinuities
            &&& result == if wrapped {
                PushResult::WrapDetected
            } else if full {
                PushResult::DroppedOldest
            } else {
                PushResult::Inserted
            }
            &&& !wrapped ==> n.wrap_offset == m.wrap_offset
            &&& wrapped && m.wrap_offset <= i64::MAX - 0x2_0000_0000 ==> n.wrap_offset
                == m.wrap_offset + 0x2_0000_0000
        }),
{
    let pts = m.time_of(frame.spec_pts()).0;
    let full = m.frames.len() == m.capacity;
    let first = if full {
        1int
    } else {
        0int
    };
    let kept = m.frames.skip(first);
    if full {
        assert(m.frames.drop_first() =~= kept);
    } else {
        assert(m.frames =~= kept);
    }
    assert(in_order(kept));
    lemma_insert_keeps_order(kept, pts, frame);
    let k = rank(kept, pts);
    assert(k == place - first) by {
        if k < place - first {
            assert(kept[k] == m.frames[k + first]);
        }
        if k > place - first {
            assert(kept[place - first] == m.frames[place]);
        }
    }
    assert(kept.insert(k, (pts, frame)) =~= m.frames.subrange(first, place) + seq![(pts, frame)]
        + m.frames.skip(place));
}

/// The time of a frame is its own, moved by the wraps seen; a step back by
/// more than half the 33-bit range is another wrap.  A frame without a time
/// comes a tick after the one before, and the first at zero.
pub proof fn law_frames_get_their_times(m: QueueModel, raw: u64)
    requires
        raw < 0x2_0000_0000,
        0 <= m.wrap_offset <= i64::MAX - 0x4_0000_0000,
    ensures
        ({
            let here = raw + m.wrap_offset;
            let back = m.last_pts is Some && m.last_pts->0 - here > 0x1_0000_0000;
            m.time_of(Some(raw)) == if back {
                ((here + 0x2_0000_0000) as i64, true)
            } else {
                (here as i64, false)
            }
        }),
        m.last_pts is None ==> m.time_of(None) == (0i64, false),
        m.last_pts is Some && m.last_pts->0 < i64::MAX ==> m.time_of(None) == (
            (m.last_pts->0 + 1) as i64,
            false,
        ),
        m.last_pts == Some(i64::MAX) ==> m.time_of(None) == (i64::MAX, false),
{
}

} // verus!
