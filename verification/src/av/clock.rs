use std::sync::atomic::{AtomicI64, AtomicU64, Ordering};
use std::sync::Arc;
use std::time::Instant;

use vstd::prelude::*;

use crate::av::double::whole_product_of_nanos;

verus! {

/// A presentation time in 90 kHz ticks; it may be negative.
pub type Pts90 = i64;

/// Ticks per second.
pub const TICKS_PER_SECOND: u64 = 90_000;

/// A clock that pictures are shown by.
pub trait Clock: Send + Sync {
    /// The presentation time of this moment.
    fn now_pts90(&self) -> (r: Pts90);

    /// Lets the clock run on from `anchor_pts`.
    fn reset(&self, anchor_pts: Pts90);
}

/// The nearest 64-bit signed number.
pub open spec fn clamped(v: int) -> int {
    if v > i64::MAX {
        i64::MAX as int
    } else if v < i64::MIN {
        i64::MIN as int
    } else {
        v
    }
}

/// The two's complement reading of a 64-bit counter.
pub open spec fn signed64(v: u64) -> i64 {
    if v <= i64::MAX {
        v as i64
    } else {
        (v - 0x1_0000_0000_0000_0000) as i64
    }
}

pub(crate) fn to_signed64(v: u64) -> (r: i64)
    ensures
        r == signed64(v),
{
    if v <= i64::MAX as u64 {
        v as i64
    } else {
        -((u64::MAX - v) as i64) - 1
    }
}

/// The time since audio began, in ticks, after `played` interleaved samples.
pub open spec fn played_ticks(played: u64, sample_rate: u32, channels: u16) -> int {
    let scaled = (played as int / channels as int) * TICKS_PER_SECOND;
    (if scaled > u64::MAX {
        u64::MAX as int
    } else {
        scaled
    }) / sample_rate as int
}

/// The presentation time after `played` interleaved samples since `anchor`.
/// Without channels or a rate the clock stands still.
pub open spec fn audio_pts_spec(played: u64, anchor: i64, sample_rate: u32, channels: u16) -> int {
    if channels == 0 || sample_rate == 0 {
        anchor as int
    } else {
        clamped(anchor + signed64(played_ticks(played, sample_rate, channels) as u64))
    }
}

fn add_clamped(a: i64, b: i64) -> (r: i64)
    ensures
        r == clamped(a + b),
{
    let sum: i128 = a as i128 + b as i128;
    if sum > i64::MAX as i128 {
        i64::MAX
    } else if sum < i64::MIN as i128 {
        i64::MIN
    } else {
        sum as i64
    }
}

/// The presentation time after `played` interleaved samples since `anchor`.
pub fn audio_pts(played: u64, anchor: Pts90, sample_rate: u32, channels: u16) -> (r: Pts90)
    ensures
        r == audio_pts_spec(played, anchor, sample_rate, channels),
{
    if channels == 0 || sample_rate == 0 {
        return anchor;
    }
    let frames: u64 = played / channels as u64;
    let scaled: u64 = match frames.checked_mul(TICKS_PER_SECOND) {
        Some(product) => product,
        None => u64::MAX,
    };
    add_clamped(anchor, to_signed64(scaled / sample_rate as u64))
}

/// The ticks in `elapsed` nanoseconds.  The seconds are rounded to double
/// precision, and so is their product with the ticks of one second, of which
/// the whole part counts.
pub open spec fn elapsed_ticks(elapsed: u64) -> int {
    crate::av::double::whole_product(
        crate::av::double::seconds(elapsed as int),
        TICKS_PER_SECOND as int,
    )
}

/// The presentation time `elapsed` nanoseconds after `anchor`.
pub open spec fn wall_pts_spec(elapsed: u64, anchor: i64) -> int {
    clamped(anchor + elapsed_ticks(elapsed))
}

/// The presentation time `elapsed` nanoseconds after `anchor`.
pub fn wall_pts(elapsed: u64, anchor: Pts90) -> (r: Pts90)
    ensures
        r == wall_pts_spec(elapsed, anchor),
{
    let ticks: u64 = whole_product_of_nanos(elapsed, 90_000);
    proof {
        crate::av::double::law_products_are_ordered(elapsed, elapsed, TICKS_PER_SECOND as int);
    }
    add_clamped(anchor, ticks as i64)
}

/// The presentation time that a clock counts from.  Resets move it.
#[derive(Debug)]
pub struct Anchor {
    /// Where it was first.
    first: Pts90,
    /// How far resets have moved it from there.
    shift: AtomicI64,
}

impl Anchor {
    /// Where the anchor was first.
    pub closed spec fn first_spec(&self) -> Pts90 {
        self.first
    }

    fn new(pts: Pts90) -> (r: Self)
        ensures
            r.first_spec() == pts,
    {
        Anchor { first: pts, shift: AtomicI64::new(0) }
    }

    /// Where the anchor is, and how far that is from where it was first.
    fn position(&self) -> (r: (Pts90, Ghost<i64>))
        ensures
            r.0 == self.first_spec().wrapping_add(r.1@),
    {
        let shift: i64 = self.shift.load(Ordering::Relaxed);
        (self.first.wrapping_add(shift), Ghost(shift))
    }

    fn move_to(&self, pts: Pts90) {
        self.shift.store(pts.wrapping_sub(self.first), Ordering::Relaxed);
    }
}

/// The presentation time after `played` interleaved samples since an anchor
/// that resets have moved by `shift` from where it was first.
pub open spec fn shifted_audio_pts(
    played: u64,
    first_anchor: i64,
    shift: i64,
    sample_rate: u32,
    channels: u16,
) -> int {
    audio_pts_spec(played, first_anchor.wrapping_add(shift), sample_rate, channels)
}

/// A clock driven by the audio samples that were played.
#[derive(Clone, Debug)]
pub struct AudioClockHandle {
    /// Interleaved samples played; the audio output counts them.
    pub samples_played: Arc<AtomicU64>,
    pub sample_rate: u32,
    pub channels: u16,
    /// Presentation time of the first sample.
    pub anchor: Arc<Anchor>,
}

impl AudioClockHandle {
    /// A clock with a counter of its own.
    pub fn new(sample_rate: u32, channels: u16, anchor_pts: Pts90) -> (r: Self)
        ensures
            r.sample_rate == sample_rate,
            r.channels == channels,
            r.anchor.first_spec() == anchor_pts,
    {
        AudioClockHandle {
            samples_played: Arc::new(AtomicU64::new(0)),
            sample_rate,
            channels,
            anchor: Arc::new(Anchor::new(anchor_pts)),
        }
    }

    /// A clock that reads the given counter.
    pub fn with_counter(
        samples_played: Arc<AtomicU64>,
        sample_rate: u32,
        channels: u16,
        anchor_pts: Pts90,
    ) -> (r: Self)
        ensures
            r.samples_played == samples_played,
            r.sample_rate == sample_rate,
            r.channels == channels,
            r.anchor.first_spec() == anchor_pts,
    {
        AudioClockHandle {
            samples_played,
            sample_rate,
            channels,
            anchor: Arc::new(Anchor::new(anchor_pts)),
        }
    }

    /// The counter, to be shared with the audio output.
    pub fn samples_counter(&self) -> (r: Arc<AtomicU64>)
        ensures
            r == self.samples_played,
    {
        Arc::clone(&self.samples_played)
    }
}

impl Clock for AudioClockHandle {
    /// The time of the samples played, counted from the first anchor moved by
    /// what resets have shifted it.  Both are what is found at this moment,
    /// and nothing is stated of either: the clause admits every time.  What
    /// follows from values once read is stated by [`audio_pts`].
    fn now_pts90(&self) -> (r: Pts90)
        ensures
            exists|played: u64, shift: i64|
                r == #[trigger] shifted_audio_pts(
                    played,
                    self.anchor.first_spec(),
                    shift,
                    self.sample_rate,
                    self.channels,
                ),
    {
        let played: u64 = self.samples_played.load(Ordering::Relaxed);
        let (anchor, shift): (Pts90, Ghost<i64>) = self.anchor.position();
        let r: Pts90 = audio_pts(played, anchor, self.sample_rate, self.channels);
        assert(r == shifted_audio_pts(
            played,
            self.anchor.first_spec(),
            shift@,
            self.sample_rate,
            self.channels,
        ));
        r
    }

    fn reset(&self, anchor_pts: Pts90) {
        self.samples_played.store(0, Ordering::Relaxed);
        self.anchor.move_to(anchor_pts);
    }
}

/// A moment on the machine's monotonic clock.
#[verifier::external_type_specification]
#[verifier::external_body]
pub struct ExInstant(std::time::Instant);

/// Calls `std::time::Instant::now`.  Nothing is claimed of the moment it
/// returns.
#[verifier::external_body]
fn this_moment() -> (r: Instant) {
    Instant::now()
}

/// Calls `std::time::Instant::elapsed` and takes the duration in nanoseconds.
/// Nothing is claimed of how long it is.
#[verifier::external_body]
fn nanos_since(start: &Instant) -> (r: u128) {
    start.elapsed().as_nanos()
}

/// A span of nanoseconds in 64 bits, at most what they hold.
pub fn saturated_nanos(nanos: u128) -> (r: u64)
    ensures
        r == if nanos > u64::MAX {
            u64::MAX as u128
        } else {
            nanos
        },
{
    if nanos > 0xffff_ffff_ffff_ffff {
        u64::MAX
    } else {
        nanos as u64
    }
}

/// The presentation time `elapsed` nanoseconds after an anchor that resets have
/// moved by `shift` from the first one.
pub open spec fn shifted_wall_pts(elapsed: u64, first_anchor: i64, shift: i64) -> int {
    wall_pts_spec(elapsed, first_anchor.wrapping_add(shift))
}

/// A clock driven by the machine's monotonic clock.
#[derive(Debug)]
pub struct WallClockHandle {
    start: Instant,
    /// When the clock was last reset, in nanoseconds after `start`.
    origin: AtomicU64,
    /// Presentation time at that moment.
    anchor: Anchor,
}

impl WallClockHandle {
    /// Presentation time that the clock started with.
    pub closed spec fn first_anchor_spec(&self) -> Pts90 {
        self.anchor.first_spec()
    }

    /// A clock that starts now.
    pub fn new(anchor_pts: Pts90) -> (r: Self)
        ensures
            r.first_anchor_spec() == anchor_pts,
    {
        WallClockHandle {
            start: this_moment(),
            origin: AtomicU64::new(0),
            anchor: Anchor::new(anchor_pts),
        }
    }

    /// Nanoseconds since the clock was made, as [`saturated_nanos`] counts
    /// them.
    fn age(&self) -> u64 {
        saturated_nanos(nanos_since(&self.start))
    }
}

impl Clock for WallClockHandle {
    /// The time that has passed, counted from the first anchor moved by what
    /// resets have shifted it.  Both the time and the shift are what is found
    /// at this moment, and nothing is stated of either: the clause admits every
    /// time.  What follows from values once read is stated by [`wall_pts`].
    fn now_pts90(&self) -> (r: Pts90)
        ensures
            exists|elapsed: u64, shift: i64|
                r == #[trigger] shifted_wall_pts(elapsed, self.first_anchor_spec(), shift),
    {
        let origin: u64 = self.origin.load(Ordering::Relaxed);
        let (anchor, shift): (Pts90, Ghost<i64>) = self.anchor.position();
        let elapsed: u64 = self.age().saturating_sub(origin);
        let r: Pts90 = wall_pts(elapsed, anchor);
        assert(r == shifted_wall_pts(elapsed, self.first_anchor_spec(), shift@));
        r
    }

    fn reset(&self, anchor_pts: Pts90) {
        self.origin.store(self.age(), Ordering::Relaxed);
        self.anchor.move_to(anchor_pts);
    }
}

/// The clock that a stream is played by.
#[derive(Debug)]
pub enum MasterClock {
    /// Where there is audio.
    Audio(AudioClockHandle),
    /// Where there is none.
    Wall(WallClockHandle),
}

impl MasterClock {
    pub fn audio(sample_rate: u32, channels: u16, anchor_pts: Pts90) -> (r: Self)
        ensures
            r matches MasterClock::Audio(h) && h.sample_rate == sample_rate && h.channels
                == channels && h.anchor.first_spec() == anchor_pts,
    {
        MasterClock::Audio(AudioClockHandle::new(sample_rate, channels, anchor_pts))
    }

    pub fn wall(anchor_pts: Pts90) -> (r: Self)
        ensures
            r matches MasterClock::Wall(h) && h.first_anchor_spec() == anchor_pts,
    {
        MasterClock::Wall(WallClockHandle::new(anchor_pts))
    }

    /// The audio clock, if this is one.
    pub fn audio_handle(&self) -> (r: Option<&AudioClockHandle>)
        ensures
            match self {
                MasterClock::Audio(h) => r == Some(h),
                MasterClock::Wall(_) => r is None,
            },
    {
        match self {
            MasterClock::Audio(h) => Some(h),
            MasterClock::Wall(_) => None,
        }
    }
}

impl Clock for MasterClock {
    /// The time that the clock in use shows.  As with that clock itself, the
    /// clause admits every time.
    fn now_pts90(&self) -> (r: Pts90)
        ensures
            match self {
                MasterClock::Audio(h) => exists|played: u64, shift: i64|
                    r == #[trigger] shifted_audio_pts(
                        played,
                        h.anchor.first_spec(),
                        shift,
                        h.sample_rate,
                        h.channels,
                    ),
                MasterClock::Wall(h) => exists|elapsed: u64, shift: i64|
                    r == #[trigger] shifted_wall_pts(elapsed, h.first_anchor_spec(), shift),
            },
    {
        match self {
            MasterClock::Audio(h) => h.now_pts90(),
            MasterClock::Wall(h) => h.now_pts90(),
        }
    }

    fn reset(&self, anchor_pts: Pts90) {
        match self {
            MasterClock::Audio(h) => h.reset(anchor_pts),
            MasterClock::Wall(h) => h.reset(anchor_pts),
        }
    }
}

/// An audio clock shows its anchor until a sample is played, and does not go
/// back while samples are played.
pub proof fn law_audio_clock_does_not_go_back(
    played: u64,
    more: u64,
    anchor: i64,
    sample_rate: u32,
    channels: u16,
)
    requires
        played <= more,
        played_ticks(more, sample_rate, channels) <= i64::MAX,
    ensures
        audio_pts_spec(0, anchor, sample_rate, channels) == anchor,
        audio_pts_spec(played, anchor, sample_rate, channels) <= audio_pts_spec(
            more,
            anchor,
            sample_rate,
            channels,
        ),
{
    if channels != 0 && sample_rate != 0 {
        vstd::arithmetic::div_mod::lemma_div_is_ordered(
            played as int,
            more as int,
            channels as int,
        );
        let low = (played as int / channels as int) * TICKS_PER_SECOND;
        let high = (more as int / channels as int) * TICKS_PER_SECOND;
        let capped_low = if low > u64::MAX {
            u64::MAX as int
        } else {
            low
        };
        let capped_high = if high > u64::MAX {
            u64::MAX as int
        } else {
            high
        };
        vstd::arithmetic::div_mod::lemma_div_is_ordered(
            capped_low,
            capped_high,
            sample_rate as int,
        );
        assert(0int / channels as int == 0) by {
            vstd::arithmetic::div_mod::lemma_div_basics(channels as int);
        }
        assert(0int / sample_rate as int == 0) by {
            vstd::arithmetic::div_mod::lemma_div_basics(sample_rate as int);
        }
    }
}

/// One second of samples is one second on the clock.
pub proof fn law_a_second_of_audio_is_a_second(anchor: i64, sample_rate: u32, channels: u16)
    requires
        sample_rate > 0,
        channels > 0,
        anchor + TICKS_PER_SECOND <= i64::MAX,
    ensures
        audio_pts_spec((sample_rate * channels) as u64, anchor, sample_rate, channels) == anchor
            + TICKS_PER_SECOND,
{
    let n = sample_rate * channels;
    assert(0 <= n <= 0xffff_ffff * 0xffff) by (nonlinear_arith)
        requires
            n == sample_rate * channels,
            0 <= sample_rate <= 0xffff_ffff,
            0 <= channels <= 0xffff,
    ;
    vstd::arithmetic::div_mod::lemma_div_by_multiple(sample_rate as int, channels as int);
    vstd::arithmetic::div_mod::lemma_div_by_multiple(
        TICKS_PER_SECOND as int,
        sample_rate as int,
    );
    assert(sample_rate * TICKS_PER_SECOND == TICKS_PER_SECOND * sample_rate) by (nonlinear_arith);
}

/// A wall clock shows its anchor when it starts, does not go back while time
/// passes, counts whole seconds exactly, and is at no time more than a tick
/// away from the exact count.
pub proof fn law_wall_clock_keeps_time(elapsed: u64, more: u64, anchor: i64)
    requires
        elapsed <= more,
    ensures
        wall_pts_spec(0, anchor) == anchor,
        wall_pts_spec(elapsed, anchor) <= wall_pts_spec(more, anchor),
        elapsed % 1_000_000_000 == 0 ==> wall_pts_spec(elapsed, anchor) == clamped(
            anchor + elapsed / 1_000_000_000 * TICKS_PER_SECOND,
        ),
        ({
            let exact = clamped(anchor + elapsed * TICKS_PER_SECOND / 1_000_000_000);
            exact - 1 <= wall_pts_spec(elapsed, anchor) <= exact + 1
        }),
{
    crate::av::double::law_products_are_ordered(elapsed, more, TICKS_PER_SECOND as int);
    crate::av::double::law_products_are_close(elapsed, TICKS_PER_SECOND as int);
    crate::av::double::law_whole_seconds_are_exact(0, TICKS_PER_SECOND as int);
    if elapsed % 1_000_000_000 == 0 {
        let whole = elapsed as int / 1_000_000_000;
        assert(whole * crate::av::double::NANOS_PER_SECOND == elapsed);
        crate::av::double::law_whole_seconds_are_exact(whole, TICKS_PER_SECOND as int);
    }
}

/// The time shown is that of the whole frames played, one sample for each
/// channel: it is ahead of the anchor by as many whole ticks of 1/90000 second
/// as fit into them at the sample rate, and an incomplete frame adds nothing.
/// `frames` and `rest` are what was played, `ticks` and `left` what that makes.
pub proof fn law_audio_clock_counts_whole_frames(
    played: u64,
    anchor: i64,
    sample_rate: u32,
    channels: u16,
    frames: int,
    rest: int,
    ticks: int,
    left: int,
)
    requires
        sample_rate > 0,
        channels > 0,
        played == frames * channels + rest,
        0 <= rest < channels,
        frames * 90_000 == ticks * sample_rate + left,
        0 <= left < sample_rate,
        frames * 90_000 <= u64::MAX,
    ensures
        ticks <= i64::MAX ==> audio_pts_spec(played, anchor, sample_rate, channels) == if anchor
            + ticks > i64::MAX {
            i64::MAX as int
        } else {
            anchor + ticks
        },
{
    vstd::arithmetic::div_mod::lemma_fundamental_div_mod_converse(
        played as int,
        channels as int,
        frames,
        rest,
    );
    vstd::arithmetic::div_mod::lemma_fundamental_div_mod_converse(
        frames * 90_000,
        sample_rate as int,
        ticks,
        left,
    );
    assert(frames >= 0);
    assert(ticks >= 0) by (nonlinear_arith)
        requires
            frames * 90_000 == ticks * sample_rate + left,
            frames >= 0,
            left < sample_rate,
            sample_rate > 0,
    ;
}

/// A clock without a sample rate or without channels stands still.
pub proof fn law_audio_clock_without_format_stands_still(
    played: u64,
    anchor: i64,
    sample_rate: u32,
    channels: u16,
)
    requires
        sample_rate == 0 || channels == 0,
    ensures
        audio_pts_spec(played, anchor, sample_rate, channels) == anchor,
{
}

/// Any number of seconds of samples is as many seconds on the clock.
pub proof fn law_seconds_of_audio_are_seconds(
    seconds: int,
    anchor: i64,
    sample_rate: u32,
    channels: u16,
)
    requires
        sample_rate > 0,
        channels > 0,
        0 <= seconds,
        seconds * sample_rate * channels <= u64::MAX,
        seconds * sample_rate * 90_000 <= u64::MAX,
        seconds * 90_000 <= i64::MAX,
        anchor + seconds * 90_000 <= i64::MAX,
    ensures
        audio_pts_spec((seconds * sample_rate * channels) as u64, anchor, sample_rate, channels)
            == anchor + seconds * 90_000,
{
    let frames = seconds * sample_rate;
    assert(frames >= 0 && frames * channels >= 0) by (nonlinear_arith)
        requires
            frames == seconds * sample_rate,
            seconds >= 0,
            sample_rate > 0,
            channels > 0,
    ;
    assert(frames * 90_000 == (seconds * 90_000) * sample_rate) by (nonlinear_arith)
        requires
            frames == seconds * sample_rate,
    ;
    law_audio_clock_counts_whole_frames(
        (frames * channels) as u64,
        anchor,
        sample_rate,
        channels,
        frames,
        0,
        seconds * 90_000,
        0,
    );
}

/// Beyond what 64 bits hold, the scaled count of frames stays at their limit,
/// and a number of ticks beyond the signed range counts as the negative one of
/// the same 64 bits.
pub proof fn law_audio_clock_at_its_limits(
    played: u64,
    anchor: i64,
    sample_rate: u32,
    channels: u16,
    frames: int,
    rest: int,
    ticks: int,
    left: int,
)
    requires
        sample_rate > 0,
        channels > 0,
        played == frames * channels + rest,
        0 <= rest < channels,
        (if frames * 90_000 > u64::MAX {
            u64::MAX as int
        } else {
            frames * 90_000
        }) == ticks * sample_rate + left,
        0 <= left < sample_rate,
    ensures
        ({
            let counted = if ticks > i64::MAX {
                ticks - 0x1_0000_0000_0000_0000
            } else {
                ticks
            };
            audio_pts_spec(played, anchor, sample_rate, channels) == if anchor + counted
                > i64::MAX {
                i64::MAX as int
            } else if anchor + counted < i64::MIN {
                i64::MIN as int
            } else {
                anchor + counted
            }
        }),
{
    vstd::arithmetic::div_mod::lemma_fundamental_div_mod_converse(
        played as int,
        channels as int,
        frames,
        rest,
    );
    let scaled = if frames * 90_000 > u64::MAX {
        u64::MAX as int
    } else {
        frames * 90_000
    };
    vstd::arithmetic::div_mod::lemma_fundamental_div_mod_converse(
        scaled,
        sample_rate as int,
        ticks,
        left,
    );
    assert(0 <= ticks <= scaled) by (nonlinear_arith)
        requires
            scaled == ticks * sample_rate + left,
            scaled >= 0,
            0 <= left < sample_rate,
            sample_rate > 0,
    ;
}

/// Where both are within range, a clock with another anchor shows the same
/// time, moved by as much.
pub proof fn law_anchors_move_the_wall_clock(elapsed: u64, anchor: i64, other: i64)
    requires
        i64::MIN < wall_pts_spec(elapsed, anchor) < i64::MAX,
        i64::MIN < wall_pts_spec(elapsed, other) < i64::MAX,
    ensures
        wall_pts_spec(elapsed, anchor) - anchor == wall_pts_spec(elapsed, other) - other,
        wall_pts_spec(elapsed, anchor) >= anchor,
{
    crate::av::double::law_products_are_ordered(0, elapsed, TICKS_PER_SECOND as int);
}

} // verus!
