use std::collections::VecDeque;
use vstd::prelude::*;

use crate::av::ffmpeg::{frame_time, pts_raw_to_option};

verus! {

/// Capability bit of motion-adaptive deinterlacing.
pub const DEINT_MODE_ADAPTIVE: u32 = 0x4;

/// Capability bit of deinterlacing field by field.
pub const DEINT_MODE_BOB: u32 = 0x2;

/// One way in which the processor converts frame rates.
#[derive(Debug, Clone, Copy, PartialEq, Eq, Structural)]
pub struct RateConversion {
    /// Capability bits.
    pub caps: u32,
    /// How many earlier frames it looks at.
    pub past: u32,
    /// How many later frames it looks at.
    pub future: u32,
}

impl RateConversion {
    pub open spec fn offers(self, mode: u32) -> bool {
        self.caps & mode == mode
    }

    /// Earlier and later frames that are kept for it: none where it works on
    /// single fields only.
    pub open spec fn references(self) -> (nat, nat) {
        if self.offers(DEINT_MODE_BOB) && !self.offers(DEINT_MODE_ADAPTIVE) {
            (0, 0)
        } else {
            (self.past as nat, self.future as nat)
        }
    }
}

/// The conversion chosen for a mode: the first that offers it, else the first
/// that could be queried at all.
pub open spec fn is_selected(
    rates: Seq<Option<RateConversion>>,
    mode: u32,
    r: Option<(u32, RateConversion)>,
) -> bool {
    match r {
        Some((n, rate)) => {
            &&& n < rates.len()
            &&& rates[n as int] == Some(rate)
            &&& if rate.offers(mode) {
                forall|i: int|
                    0 <= i < n && (#[trigger] rates[i]) is Some ==> !rates[i]->0.offers(mode)
            } else {
                &&& forall|i: int| 0 <= i < n ==> (#[trigger] rates[i]) is None
                &&& forall|i: int|
                    0 <= i < rates.len() && (#[trigger] rates[i]) is Some ==> !rates[i]->0.offers(
                        mode,
                    )
            }
        },
        None => forall|i: int| 0 <= i < rates.len() ==> (#[trigger] rates[i]) is None,
    }
}

/// Selects a rate conversion that offers `mode`, out of those that could be
/// queried; failing that, the first of them.
pub fn select_rate_conversion_cap(rates: &[Option<RateConversion>], mode: u32) -> (r: Option<
    (u32, RateConversion),
>)
    requires
        rates@.len() <= u32::MAX,
    ensures
        is_selected(rates@, mode, r),
{
    let mut fallback: Option<(u32, RateConversion)> = None;
    let mut n: usize = 0;
    while n < rates.len()
        invariant
            rates@.len() <= u32::MAX,
            n <= rates@.len(),
            forall|i: int|
                0 <= i < n && (#[trigger] rates@[i]) is Some ==> !rates@[i]->0.offers(mode),
            match fallback {
                Some((k, rate)) => k < n && rates@[k as int] == Some(rate) && forall|i: int|
                    0 <= i < k ==> (#[trigger] rates@[i]) is None,
                None => forall|i: int| 0 <= i < n ==> (#[trigger] rates@[i]) is None,
            },
        decreases rates@.len() - n,
    {
        if let Some(rate) = rates[n] {
            if fallback.is_none() {
                fallback = Some((n as u32, rate));
            }
            if (rate.caps & mode) == mode {
                return Some((n as u32, rate));
            }
        }
        n += 1;
    }
    fallback
}

/// The presentation time of a field: that of its frame, later by a half step
/// for each field before it.  The mark of an unknown time stays.
pub fn vp_output_pts(field_pts: i64, field_idx: u32, half_step: i64) -> (r: i64)
    requires
        i64::MIN <= field_idx * half_step <= i64::MAX,
        field_pts != i64::MIN ==> i64::MIN <= field_pts + field_idx * half_step <= i64::MAX,
    ensures
        r == if field_pts == i64::MIN {
            field_pts as int
        } else {
            field_pts + field_idx * half_step
        },
{
    if field_pts == i64::MIN {
        return i64::MIN;
    }
    field_pts + (field_idx as i64) * half_step
}

/// Half the duration of a frame in a time base, at 25 frames per second.
pub open spec fn half_frame(num: i32, den: i32) -> int {
    if num > 0 && den > 0 {
        den as int / (num * 50)
    } else {
        1800
    }
}

/// Half the duration of a frame, where two frames have not been seen yet.
pub fn vp_half_frame_step_fallback(time_base_num: i32, time_base_den: i32) -> (r: i64)
    ensures
        r == half_frame(time_base_num, time_base_den),
{
    if time_base_num > 0 && time_base_den > 0 {
        (time_base_den as i64) / ((time_base_num as i64) * 25 * 2)
    } else {
        1800
    }
}

/// One run of the processor: the frame to deinterlace, those around it, and
/// the frame numbers to report.
#[derive(Debug)]
pub struct VpBlit {
    pub current: u64,
    pub field_pts: i64,
    pub past: Vec<u64>,
    pub future: Vec<u64>,
    pub input_frame: u32,
    pub output_frame: u32,
}

/// The last `n` elements of a sequence, or all of them.
pub open spec fn newest<T>(s: Seq<T>, n: nat) -> Seq<T> {
    if s.len() > n {
        s.skip(s.len() - n)
    } else {
        s
    }
}

/// A frame that waits: its view and its presentation time.
pub type Waiting = (u64, i64);

/// The frames that a processor keeps: those done, oldest first, and those that
/// wait for later ones.
#[verifier::ext_equal]
pub ghost struct VpModel {
    pub past: Seq<u64>,
    pub pending: Seq<Waiting>,
    pub num_past: nat,
    pub num_future: nat,
    pub last_pts: Option<i64>,
    pub step_without_delta: int,
    pub done: u32,
    pub top_field_first: bool,
}

impl VpModel {
    pub open spec fn valid(self) -> bool {
        self.past.len() <= self.num_past
    }

    /// Half the distance of two frames, where they are a frame apart at a
    /// usual rate.
    pub open spec fn half_step(self, field_pts: i64) -> int {
        match self.last_pts {
            Some(last) if 1500 <= field_pts - last <= 5000 => (field_pts - last) / 2,
            _ => self.step_without_delta,
        }
    }

    pub open spec fn queued(self, view: u64, field_pts: i64) -> Self {
        VpModel { pending: self.pending.push((view, field_pts)), ..self }
    }

    /// Whether the frame that has waited longest has all later ones it needs.
    pub open spec fn ready(self) -> bool {
        self.pending.len() > self.num_future
    }

    pub open spec fn finished(self) -> Self {
        VpModel {
            past: newest(self.past.push(self.pending[0].0), self.num_past),
            pending: self.pending.skip(1),
            done: if self.done == u32::MAX {
                0
            } else {
                (self.done + 1) as u32
            },
            ..self
        }
    }

    /// What the processor is run on.
    pub open spec fn blits(self, blit: VpBlit) -> bool {
        &&& (blit.current, blit.field_pts) == self.pending[0]
        &&& blit.past@ == self.past
        &&& blit.future@ == self.pending.subrange(1, self.num_future + 1int).map_values(
            |w: Waiting| w.0,
        )
        &&& blit.output_frame == self.done
        &&& blit.input_frame == (2 * self.done) % 0x1_0000_0000
    }

    /// Queues frames one after another and finishes each that is ready.
    pub open spec fn after_frames(self, frames: Seq<Waiting>) -> Self
        decreases frames.len(),
    {
        if frames.len() == 0 {
            self
        } else {
            let frame = frames.last();
            let queued = self.after_frames(frames.drop_last()).queued(frame.0, frame.1);
            if queued.ready() {
                queued.finished()
            } else {
                queued
            }
        }
    }

    /// The frames that come out meanwhile, in order.
    pub open spec fn output_of(self, frames: Seq<Waiting>) -> Seq<Waiting>
        decreases frames.len(),
    {
        if frames.len() == 0 {
            Seq::empty()
        } else {
            let frame = frames.last();
            let queued = self.after_frames(frames.drop_last()).queued(frame.0, frame.1);
            let before = self.output_of(frames.drop_last());
            if queued.ready() {
                before.push(queued.pending[0])
            } else {
                before
            }
        }
    }
}

/// Feeds a video processor with interlaced frames: which ones it is given as
/// references, and when.
#[derive(Debug)]
pub struct D3d11VideoProcessor {
    rate_index: u32,
    num_past: u32,
    num_future: u32,
    past: VecDeque<u64>,
    pending: VecDeque<Waiting>,
    time_base_num: i32,
    time_base_den: i32,
    last_field_pts: Option<i64>,
    output_seq: u32,
    top_field_first: bool,
}

impl View for D3d11VideoProcessor {
    type V = VpModel;

    closed spec fn view(&self) -> VpModel {
        VpModel {
            past: self.past@,
            pending: self.pending@,
            num_past: self.num_past as nat,
            num_future: self.num_future as nat,
            last_pts: self.last_field_pts,
            step_without_delta: half_frame(self.time_base_num, self.time_base_den),
            done: self.output_seq,
            top_field_first: self.top_field_first,
        }
    }
}

impl D3d11VideoProcessor {
    pub closed spec fn rate_index_spec(&self) -> u32 {
        self.rate_index
    }

    /// A processor for the rate conversions that a device has, `None` for each
    /// that could not be queried.  An adaptive one is preferred.
    pub fn new(
        rates: &[Option<RateConversion>],
        top_field_first: bool,
        time_base_num: i32,
        time_base_den: i32,
    ) -> (r: Self)
        requires
            rates@.len() <= u32::MAX,
        ensures
            r@.valid(),
            r@ == (VpModel {
                past: Seq::empty(),
                pending: Seq::empty(),
                num_past: r@.num_past,
                num_future: r@.num_future,
                last_pts: None,
                step_without_delta: half_frame(time_base_num, time_base_den),
                done: 0,
                top_field_first,
            }),
            exists|choice: Option<(u32, RateConversion)>|
                #![trigger is_selected(rates@, DEINT_MODE_ADAPTIVE, choice)]
                {
                    &&& is_selected(rates@, DEINT_MODE_ADAPTIVE, choice)
                    &&& match choice {
                        Some((n, rate)) => {
                            &&& r.rate_index_spec() == n
                            &&& (r@.num_past, r@.num_future) == rate.references()
                        },
                        None => {
                            &&& r.rate_index_spec() == 0
                            &&& r@.num_past == 0
                            &&& r@.num_future == 0
                        },
                    }
                },
    {
        let choice = select_rate_conversion_cap(rates, DEINT_MODE_ADAPTIVE);
        let (rate_index, num_past, num_future): (u32, u32, u32) = match choice {
            Some((n, rate)) => {
                if (rate.caps & DEINT_MODE_BOB) == DEINT_MODE_BOB && (rate.caps
                    & DEINT_MODE_ADAPTIVE) != DEINT_MODE_ADAPTIVE {
                    (n, 0, 0)
                } else {
                    (n, rate.past, rate.future)
                }
            },
            None => (0, 0, 0),
        };
        let r = D3d11VideoProcessor {
            rate_index,
            num_past,
            num_future,
            past: VecDeque::new(),
            pending: VecDeque::new(),
            time_base_num,
            time_base_den,
            last_field_pts: None,
            output_seq: 0,
            top_field_first,
        };
        assert(is_selected(rates@, DEINT_MODE_ADAPTIVE, choice));
        r
    }

    /// Which rate conversion is used.
    pub fn rate_index(&self) -> (r: u32)
        ensures
            r == self.rate_index_spec(),
    {
        self.rate_index
    }

    /// Notes which field of the next frame comes first.  Returns whether that
    /// changed, so that the processor is to be set up again.
    pub fn set_field_order(&mut self, top_field_first: bool) -> (r: bool)
        ensures
            r == (old(self)@.top_field_first != top_field_first),
            final(self)@ == (VpModel { top_field_first, ..old(self)@ }),
            final(self).rate_index_spec() == old(self).rate_index_spec(),
    {
        let changed = self.top_field_first != top_field_first;
        self.top_field_first = top_field_first;
        changed
    }

    /// Notes the time of the next frame.  Returns half the time of a frame.
    pub fn half_frame_pts_step(&mut self, field_pts: i64) -> (r: i64)
        ensures
            r == old(self)@.half_step(field_pts),
            final(self)@ == (VpModel { last_pts: Some(field_pts), ..old(self)@ }),
            final(self).rate_index_spec() == old(self).rate_index_spec(),
    {
        let step: i64 = match self.last_field_pts {
            Some(last) => {
                let delta: i128 = field_pts as i128 - last as i128;
                if 1500 <= delta && delta <= 5000 {
                    (delta / 2) as i64
                } else {
                    vp_half_frame_step_fallback(self.time_base_num, self.time_base_den)
                }
            },
            None => vp_half_frame_step_fallback(self.time_base_num, self.time_base_den),
        };
        self.last_field_pts = Some(field_pts);
        step
    }

    /// Takes in the view of a frame.  Returns what to run the processor on,
    /// unless more frames are needed first.
    pub fn queue(&mut self, view: u64, field_pts: i64) -> (r: Option<VpBlit>)
        requires
            old(self)@.valid(),
        ensures
            final(self)@ == old(self)@.queued(view, field_pts),
            final(self)@.valid(),
            final(self).rate_index_spec() == old(self).rate_index_spec(),
            r is Some <==> final(self)@.ready(),
            r is Some ==> final(self)@.blits(r->0),
    {
        self.pending.push_back((view, field_pts));
        if self.pending.len() as u64 <= self.num_future as u64 {
            return None;
        }
        let mut past: Vec<u64> = Vec::new();
        let mut i: usize = 0;
        while i < self.past.len()
            invariant
                i <= self.past@.len(),
                past@ == self.past@.take(i as int),
            decreases self.past@.len() - i,
        {
            past.push(self.past[i]);
            i += 1;
            assert(past@ =~= self.past@.take(i as int));
        }
        assert(past@ =~= self.past@);
        let mut future: Vec<u64> = Vec::new();
        let mut k: usize = 1;
        let n: usize = self.num_future as usize;
        while k <= n
            invariant
                1 <= k <= n + 1,
                n == self.num_future < self.pending@.len() <= usize::MAX,
                future@ == self.pending@.subrange(1, k as int).map_values(|w: Waiting| w.0),
            decreases n + 1 - k,
        {
            future.push(self.pending[k].0);
            k += 1;
            assert(future@ =~= self.pending@.subrange(1, k as int).map_values(|w: Waiting| w.0));
        }
        let (current, pts): Waiting = self.pending[0];
        let input_frame: u32 = self.output_seq.wrapping_mul(2);
        Some(
            VpBlit {
                current,
                field_pts: pts,
                past,
                future,
                input_frame,
                output_frame: self.output_seq,
            },
        )
    }

    /// Notes that the processor has run, and returns the presentation time of
    /// what came out.
    pub fn finish(&mut self, half_step: i64) -> (r: Option<u64>)
        requires
            old(self)@.valid(),
            old(self)@.pending.len() > 0,
        ensures
            final(self)@ == old(self)@.finished(),
            final(self)@.valid(),
            final(self).rate_index_spec() == old(self).rate_index_spec(),
            r == frame_time(old(self)@.pending[0].1),
    {
        self.output_seq = self.output_seq.wrapping_add(1);
        let mut pts: i64 = i64::MIN;
        if let Some((view, field_pts)) = self.pending.pop_front() {
            assert(self.pending@ =~= old(self).pending@.skip(1));
            pts = field_pts;
            self.past.push_back(view);
            if self.past.len() as u64 > self.num_past as u64 {
                let _oldest = self.past.pop_front();
                assert(self.past@ =~= newest(
                    old(self).past@.push(view),
                    old(self).num_past as nat,
                ));
            }
        }
        let out: i64 = vp_output_pts(pts, 0, half_step);
        pts_raw_to_option(out)
    }
}

proof fn lemma_frames_run_through(start: VpModel, frames: Seq<Waiting>)
    requires
        start.pending.len() == 0,
    ensures
        start.after_frames(frames).num_future == start.num_future,
        start.after_frames(frames).pending == newest(frames, start.num_future),
        start.output_of(frames) == frames.take(
            frames.len() - newest(frames, start.num_future).len(),
        ),
    decreases frames.len(),
{
    if frames.len() == 0 {
        assert(start.pending =~= newest(frames, start.num_future));
        assert(start.output_of(frames) =~= frames.take(0));
    } else {
        let rest = frames.drop_last();
        lemma_frames_run_through(start, rest);
        let before = start.after_frames(rest);
        let queued = before.queued(frames.last().0, frames.last().1);
        assert(queued.pending == newest(rest, start.num_future).push(frames.last()));
        if queued.ready() {
            assert(queued.pending.skip(1) =~= newest(frames, start.num_future));
            assert(start.output_of(frames) =~= frames.take(frames.len() - start.num_future));
        } else {
            assert(queued.pending =~= newest(frames, start.num_future));
            assert(start.output_of(frames) =~= frames.take(0));
        }
    }
}

/// Frames come out in the order in which they went in, each once, later by as
/// many frames as the processor looks ahead.
pub proof fn law_frames_come_out_once_in_order(start: VpModel, frames: Seq<Waiting>)
    requires
        start.pending.len() == 0,
    ensures
        start.output_of(frames) == if frames.len() > start.num_future {
            frames.take(frames.len() - start.num_future)
        } else {
            Seq::empty()
        },
{
    lemma_frames_run_through(start, frames);
    assert(frames.take(0) =~= Seq::<Waiting>::empty());
}

/// The choice of a rate conversion is settled by what the device has: where
/// any offers the mode, the one chosen does, and none before it; where any
/// could be queried, one is chosen.
pub proof fn law_first_offer_is_chosen(
    rates: Seq<Option<RateConversion>>,
    mode: u32,
    r: Option<(u32, RateConversion)>,
    i: int,
)
    requires
        is_selected(rates, mode, r),
        0 <= i < rates.len(),
        rates[i] is Some,
    ensures
        r is Some,
        rates[i]->0.caps & mode == mode ==> (r->0).1.caps & mode == mode && (r->0).0 <= i,
        (r->0).1.caps & mode != mode ==> (r->0).0 <= i && rates[i]->0.caps & mode != mode,
        rates[(r->0).0 as int] == Some((r->0).1),
{
}

/// Only one choice is right.
pub proof fn law_choice_is_unique(
    rates: Seq<Option<RateConversion>>,
    mode: u32,
    a: Option<(u32, RateConversion)>,
    b: Option<(u32, RateConversion)>,
)
    requires
        is_selected(rates, mode, a),
        is_selected(rates, mode, b),
    ensures
        a == b,
{
    if let Some((n, rate)) = a {
        assert(rates[n as int] == Some(rate));
    }
    if let Some((n, rate)) = b {
        assert(rates[n as int] == Some(rate));
    }
}

/// A conversion that works field by field and is not adaptive is given no
/// frames around; every other is given those it asks for.
pub proof fn law_adaptive_conversions_get_their_frames(rate: RateConversion)
    ensures
        rate.caps & 4 == 4 ==> rate.references() == (rate.past as nat, rate.future as nat),
        rate.caps & 2 != 2 ==> rate.references() == (rate.past as nat, rate.future as nat),
        rate.caps & 2 == 2 && rate.caps & 4 != 4 ==> rate.references() == (0nat, 0nat),
{
}

/// Fifty half steps fill a second of the time base, but for a remainder too
/// small for one unit more in each; in an unknown time base a half step is
/// that of 90000 ticks per second.
pub proof fn law_fifty_half_steps_are_a_second(num: i32, den: i32)
    ensures
        num > 0 && den > 0 ==> 50 * num * half_frame(num, den) <= den < 50 * num * (half_frame(
            num,
            den,
        ) + 1),
        num <= 0 || den <= 0 ==> 50 * half_frame(num, den) == 90_000,
{
    if num > 0 && den > 0 {
        let (n, d) = (num * 50, den as int);
        let q = d / n;
        vstd::arithmetic::div_mod::lemma_fundamental_div_mod(d, n);
        vstd::arithmetic::div_mod::lemma_mod_bound(d, n);
        assert(n * q == 50 * num * q && n * (q + 1) == 50 * num * (q + 1)) by (nonlinear_arith)
            requires
                n == num * 50,
        ;
        assert(n * (q + 1) == n * q + n) by (nonlinear_arith);
    }
}

/// Two frames that are between 1500 and 5000 ticks apart tell the half step:
/// twice it is their distance, or one tick less.  Otherwise it is that of the
/// time base.
pub proof fn law_frames_tell_the_half_step(m: VpModel, field_pts: i64)
    ensures
        m.last_pts matches Some(last) ==> (1500 <= field_pts - last <= 5000 ==> 2 * m.half_step(
            field_pts,
        ) <= field_pts - last <= 2 * m.half_step(field_pts) + 1),
        m.last_pts matches Some(last) ==> (field_pts - last < 1500 || field_pts - last > 5000
            ==> m.half_step(field_pts) == m.step_without_delta),
        m.last_pts is None ==> m.half_step(field_pts) == m.step_without_delta,
{
}

/// A frame is run with the frames around it: those that came out before it,
/// as many as are kept, and the next ones that wait behind it.
pub proof fn law_frames_are_run_with_those_around(
    start: VpModel,
    frames: Seq<Waiting>,
    frame: Waiting,
    blit: VpBlit,
)
    requires
        start.pending.len() == 0,
        start.past.len() == 0,
        start.after_frames(frames).queued(frame.0, frame.1).ready(),
        start.after_frames(frames).queued(frame.0, frame.1).blits(blit),
    ensures
        ({
            let all = frames.push(frame);
            let at = all.len() - 1 - start.num_future;
            let views = all.map_values(|w: Waiting| w.0);
            &&& 0 <= at < all.len()
            &&& blit.current == all[at].0
            &&& blit.field_pts == all[at].1
            &&& blit.past@ == views.subrange(
                if at > start.num_past {
                    at - start.num_past
                } else {
                    0
                },
                at,
            )
            &&& blit.future@ == views.subrange(at + 1, all.len() as int)
        }),
{
    lemma_frames_run_through(start, frames);
    lemma_past_frames_are_kept(start, frames);
    let all = frames.push(frame);
    let views = all.map_values(|w: Waiting| w.0);
    let before = start.after_frames(frames);
    let queued = before.queued(frame.0, frame.1);
    let at = all.len() - 1 - start.num_future;
    let waiting = newest(frames, start.num_future);
    assert(queued.pending =~= all.skip(at));
    assert(waiting.len() == start.num_future);
    let done = frames.take(frames.len() - waiting.len());
    assert(done.map_values(|w: Waiting| w.0) =~= views.subrange(0, at));
    assert(blit.past@ =~= views.subrange(
        if at > start.num_past {
            at - start.num_past
        } else {
            0
        },
        at,
    ));
    assert(blit.future@ =~= views.subrange(at + 1, all.len() as int));
}

proof fn lemma_past_frames_are_kept(start: VpModel, frames: Seq<Waiting>)
    requires
        start.pending.len() == 0,
        start.past.len() == 0,
    ensures
        start.after_frames(frames).num_past == start.num_past,
        start.after_frames(frames).past == newest(
            start.output_of(frames).map_values(|w: Waiting| w.0),
            start.num_past,
        ),
    decreases frames.len(),
{
    let done = start.output_of(frames).map_values(|w: Waiting| w.0);
    if frames.len() == 0 {
        assert(start.past =~= newest(done, start.num_past));
    } else {
        let rest = frames.drop_last();
        lemma_past_frames_are_kept(start, rest);
        let before = start.after_frames(rest);
        let queued = before.queued(frames.last().0, frames.last().1);
        let done_before = start.output_of(rest).map_values(|w: Waiting| w.0);
        if queued.ready() {
            assert(done =~= done_before.push(queued.pending[0].0));
            assert(newest(before.past.push(queued.pending[0].0), start.num_past) =~= newest(
                done,
                start.num_past,
            ));
        }
    }
}

/// Each run reports a number one higher than the run before, and an input of
/// twice that number, as two fields make a frame; both wrap at 32 bits.
pub proof fn law_runs_are_numbered(m: VpModel, first: VpBlit, second: VpBlit, view: u64, pts: i64)
    requires
        m.pending.len() > 0,
        m.blits(first),
        m.finished().queued(view, pts).blits(second),
    ensures
        first.output_frame < u32::MAX ==> second.output_frame == first.output_frame + 1,
        first.output_frame == u32::MAX ==> second.output_frame == 0,
        first.output_frame < 0x8000_0000 ==> first.input_frame == first.output_frame
            + first.output_frame,
        first.output_frame >= 0x8000_0000 ==> first.input_frame + 0x1_0000_0000
            == first.output_frame + first.output_frame,
{
}

/// Neither taking in a frame nor finishing one changes how the processor was
/// set up or what it knows of time.
pub proof fn law_frames_leave_the_setting(m: VpModel, view: u64, pts: i64)
    ensures
        m.queued(view, pts).pending == m.pending.push((view, pts)),
        m.queued(view, pts).past == m.past,
        m.queued(view, pts).done == m.done,
        forall|n: VpModel|
            n == m.queued(view, pts) || n == m.finished() ==> {
                &&& n.num_past == m.num_past
                &&& n.num_future == m.num_future
                &&& n.last_pts == m.last_pts
                &&& n.step_without_delta == m.step_without_delta
                &&& n.top_field_first == m.top_field_first
            },
{
}

} // verus!
