use std::collections::VecDeque;

use vstd::prelude::*;

verus! {

/// Decoded audio: interleaved samples of type `S`.
#[derive(Debug, Clone)]
pub struct AudioFrame<S> {
    /// Samples per second and channel.
    pub sample_rate: u32,
    pub channels: u16,
    /// Presentation time in 90 kHz ticks.
    pub pts: Option<u64>,
    pub samples: Vec<S>,
}

impl<S> AudioFrame<S> {
    pub fn new(sample_rate: u32, channels: u16, pts: Option<u64>, samples: Vec<S>) -> (r: Self)
        ensures
            r == (AudioFrame { sample_rate, channels, pts, samples }),
    {
        AudioFrame { sample_rate, channels, pts, samples }
    }

    /// Samples per channel; none without channels.
    pub fn frame_count(&self) -> (r: usize)
        ensures
            r == if self.channels == 0 {
                0
            } else {
                self.samples@.len() as int / self.channels as int
            },
    {
        if self.channels == 0 {
            return 0;
        }
        self.samples.len() / self.channels as usize
    }
}

/// How many samples were there for the output, and how many were not.
#[derive(Debug, Clone, Copy, PartialEq, Eq, Structural)]
pub struct PopReport {
    pub copied_samples: usize,
    pub missing_samples: usize,
}

/// Samples that wait to be played, oldest first.
#[verifier::ext_equal]
pub ghost struct RingModel<S> {
    pub samples: Seq<S>,
    pub capacity: nat,
    pub silence: S,
}

impl<S> RingModel<S> {
    pub open spec fn empty(capacity: nat, silence: S) -> Self {
        RingModel { samples: Seq::empty(), capacity, silence }
    }

    /// How many samples are held before old ones are dropped.
    pub open spec fn limit(self) -> int {
        if 2 * self.capacity > usize::MAX {
            usize::MAX as int
        } else {
            2 * self.capacity as int
        }
    }

    /// How many of the oldest samples are dropped to take in more.
    pub open spec fn dropped_by(self, samples: Seq<S>) -> int {
        let len = self.samples.len() + samples.len();
        if len <= self.limit() {
            0
        } else {
            len - self.capacity
        }
    }

    pub open spec fn pushed(self, samples: Seq<S>) -> Self {
        RingModel { samples: (self.samples + samples).skip(self.dropped_by(samples)), ..self }
    }

    /// How many samples there are for an output of `n`.
    pub open spec fn available(self, n: nat) -> int {
        if n <= self.samples.len() {
            n as int
        } else {
            self.samples.len() as int
        }
    }

    pub open spec fn popped(self, n: nat) -> Self {
        RingModel { samples: self.samples.skip(self.available(n)), ..self }
    }

    /// What an output of `n` samples is: the oldest ones, then silence.
    pub open spec fn output(self, n: nat) -> Seq<S> {
        Seq::new(
            n,
            |i: int|
                if i < self.samples.len() {
                    self.samples[i]
                } else {
                    self.silence
                },
        )
    }

    pub open spec fn report(self, n: nat) -> PopReport {
        PopReport {
            copied_samples: self.available(n) as usize,
            missing_samples: (n - self.available(n)) as usize,
        }
    }
}

/// Audio that waits to be played.  Beyond twice its capacity the oldest
/// samples are dropped, down to the capacity.
#[derive(Debug)]
pub struct AudioRingBuffer<S> {
    samples: VecDeque<S>,
    capacity: usize,
    silence: S,
}

impl<S> View for AudioRingBuffer<S> {
    type V = RingModel<S>;

    closed spec fn view(&self) -> RingModel<S> {
        RingModel { samples: self.samples@, capacity: self.capacity as nat, silence: self.silence }
    }
}

impl<S: Copy> AudioRingBuffer<S> {
    /// An empty buffer; `silence` is played where samples are missing.
    pub fn new(capacity_samples: usize, silence: S) -> (r: Self)
        ensures
            r@ == RingModel::empty(capacity_samples as nat, silence),
    {
        AudioRingBuffer { samples: VecDeque::new(), capacity: capacity_samples, silence }
    }

    fn hard_limit(&self) -> (r: usize)
        ensures
            r == self@.limit(),
    {
        if self.capacity > usize::MAX / 2 {
            usize::MAX
        } else {
            self.capacity * 2
        }
    }

    /// Takes in samples.  Returns how many old ones were dropped.
    pub fn push_with_drop_oldest(&mut self, samples: &[S]) -> (r: usize)
        ensures
            r == old(self)@.dropped_by(samples@),
            final(self)@ == old(self)@.pushed(samples@),
    {
        let mut i: usize = 0;
        while i < samples.len()
            invariant
                i <= samples@.len(),
                self.samples@ == old(self).samples@ + samples@.take(i as int),
                self.capacity == old(self).capacity,
                self.silence == old(self).silence,
            decreases samples@.len() - i,
        {
            self.samples.push_back(samples[i]);
            i += 1;
            assert(self.samples@ =~= old(self).samples@ + samples@.take(i as int));
        }
        assert(samples@.take(i as int) =~= samples@);
        let ghost all = self.samples@;
        if self.samples.len() <= self.hard_limit() {
            assert(all.skip(0) =~= all);
            return 0;
        }
        let to_drop: usize = self.samples.len() - self.capacity;
        let mut dropped: usize = 0;
        while dropped < to_drop
            invariant
                dropped <= to_drop <= all.len(),
                self.samples@ == all.skip(dropped as int),
                self.capacity == old(self).capacity,
                self.silence == old(self).silence,
            decreases to_drop - dropped,
        {
            let _oldest = self.samples.pop_front();
            dropped += 1;
            assert(self.samples@ =~= all.skip(dropped as int));
        }
        to_drop
    }

    /// Takes in samples.  Returns whether none had to be dropped.
    pub fn push(&mut self, samples: &[S]) -> (r: bool)
        ensures
            r == (old(self)@.dropped_by(samples@) == 0),
            final(self)@ == old(self)@.pushed(samples@),
    {
        self.push_with_drop_oldest(samples) == 0
    }

    /// Fills the output with the oldest samples, then silence.
    pub fn pop(&mut self, output: &mut [S])
        ensures
            final(output)@ == old(self)@.output(old(output)@.len()),
            final(self)@ == old(self)@.popped(old(output)@.len()),
    {
        let _report = self.pop_report(output);
    }

    /// Fills the output with the oldest samples, then silence, and reports how
    /// many of each.
    pub fn pop_report(&mut self, output: &mut [S]) -> (r: PopReport)
        ensures
            final(output)@ == old(self)@.output(old(output)@.len()),
            final(self)@ == old(self)@.popped(old(output)@.len()),
            r == old(self)@.report(old(output)@.len()),
    {
        let n: usize = output.len();
        let mut copied: usize = 0;
        let mut i: usize = 0;
        let ghost before = self@;
        while i < n
            invariant
                i <= n == output@.len(),
                copied == before.available(i as nat),
                self@ == before.popped(i as nat),
                forall|k: int| 0 <= k < i ==> output@[k] == before.output(n as nat)[k],
            decreases n - i,
        {
            match self.samples.pop_front() {
                Some(sample) => {
                    output[i] = sample;
                    copied += 1;
                },
                None => {
                    output[i] = self.silence;
                },
            }
            i += 1;
            assert(self@.samples =~= before.popped(i as nat).samples);
        }
        assert(output@ =~= before.output(n as nat));
        PopReport { copied_samples: copied, missing_samples: n - copied }
    }

    /// How full the buffer is, as a fraction between zero and one.
    pub fn level(&self) -> (r: (usize, usize))
        ensures
            r == if self@.capacity == 0 {
                (0usize, 1usize)
            } else {
                (self@.available(self@.capacity) as usize, self@.capacity as usize)
            },
    {
        if self.capacity == 0 {
            return (0, 1);
        }
        let len: usize = self.samples.len();
        if len > self.capacity {
            (self.capacity, self.capacity)
        } else {
            (len, self.capacity)
        }
    }

    /// How many samples wait.
    pub fn len(&self) -> (r: usize)
        ensures
            r == self@.samples.len(),
    {
        self.samples.len()
    }

    /// Whether none wait.
    pub fn is_empty(&self) -> (r: bool)
        ensures
            r == (self@.samples.len() == 0),
    {
        self.samples.len() == 0
    }

    pub fn capacity(&self) -> (r: usize)
        ensures
            r == self@.capacity,
    {
        self.capacity
    }
}

/// Samples come out in the order in which they went in, as long as none had
/// to be dropped.
pub proof fn law_audio_comes_out_in_order<S>(buffer: RingModel<S>, samples: Seq<S>)
    requires
        buffer.dropped_by(samples) == 0,
    ensures
        buffer.pushed(samples).output(buffer.samples.len() + samples.len()) == buffer.samples
            + samples,
        buffer.pushed(samples).popped(buffer.samples.len() + samples.len()).samples.len() == 0,
{
    assert(buffer.pushed(samples).output(buffer.samples.len() + samples.len()) =~= buffer.samples
        + samples);
}

/// What waits never exceeds twice the capacity; where samples are dropped,
/// they are the oldest, and the newest stay up to the capacity.
pub proof fn law_audio_latency_is_bounded<S>(buffer: RingModel<S>, samples: Seq<S>)
    requires
        buffer.capacity <= usize::MAX,
    ensures
        buffer.pushed(samples).samples.len() <= 2 * buffer.capacity,
        buffer.dropped_by(samples) > 0 && buffer.capacity > 0 ==> buffer.pushed(
            samples,
        ).samples.len() == buffer.capacity && buffer.pushed(samples).samples.last() == (
        buffer.samples + samples).last(),
{
}

/// Taking samples out in two portions gives what one portion would.
pub proof fn law_portions_do_not_matter<S>(buffer: RingModel<S>, m: nat, n: nat)
    ensures
        buffer.output(m) + buffer.popped(m).output(n) == buffer.output(m + n),
        buffer.popped(m).popped(n) == buffer.popped(m + n),
{
    assert(buffer.output(m) + buffer.popped(m).output(n) =~= buffer.output(m + n));
    assert(buffer.popped(m).popped(n).samples =~= buffer.popped(m + n).samples);
}

/// The buffer length that is used for a requested one, in milliseconds: one of
/// a few, else 100.
pub fn sanitize_buffer_ms(buffer_ms: u32) -> (r: u32)
    ensures
        r == if buffer_ms == 50 || buffer_ms == 100 || buffer_ms == 200 || buffer_ms == 500 {
            buffer_ms
        } else {
            100
        },
{
    match buffer_ms {
        50 | 100 | 200 | 500 => buffer_ms,
        _ => 100,
    }
}

/// How many interleaved samples `buffer_ms` milliseconds hold, but at least
/// one for each channel.
pub open spec fn capacity_for(sample_rate: u32, channels: u16, buffer_ms: u32) -> int {
    let samples = sample_rate * channels * buffer_ms / 1000;
    if samples > at_least_one(channels) {
        samples
    } else {
        at_least_one(channels)
    }
}

pub open spec fn at_least_one(channels: u16) -> int {
    if channels == 0 {
        1
    } else {
        channels as int
    }
}

/// How many interleaved samples a buffer of `buffer_ms` milliseconds holds.
pub fn buffer_capacity_samples(sample_rate: u32, channels: u16, buffer_ms: u32) -> (r: usize)
    requires
        sample_rate * channels * buffer_ms <= u64::MAX,
        capacity_for(sample_rate, channels, buffer_ms) <= usize::MAX,
    ensures
        r == capacity_for(sample_rate, channels, buffer_ms),
{
    assert(0 <= sample_rate * channels <= 0xffff_ffff * 0xffff) by (nonlinear_arith)
        requires
            0 <= sample_rate <= 0xffff_ffff,
            0 <= channels <= 0xffff,
    ;
    let product: u64 = sample_rate as u64 * channels as u64;
    let samples: u64 = product * buffer_ms as u64 / 1000;
    let least: u64 = if channels == 0 {
        1
    } else {
        channels as u64
    };
    if samples > least {
        samples as usize
    } else {
        least as usize
    }
}

/// How many samples must wait before playing starts: half the capacity, but at
/// least one for each channel.
pub open spec fn threshold_for(capacity: int, channels: u16) -> int {
    if capacity == 0 {
        0
    } else if capacity / 2 > at_least_one(channels) {
        capacity / 2
    } else {
        at_least_one(channels)
    }
}

/// How many samples must wait before playing starts.
pub fn prime_threshold_samples(capacity_samples: usize, channels: u16) -> (r: usize)
    ensures
        r == threshold_for(capacity_samples as int, channels),
{
    if capacity_samples == 0 {
        return 0;
    }
    let least: usize = if channels == 0 {
        1
    } else {
        channels as usize
    };
    if capacity_samples / 2 > least {
        capacity_samples / 2
    } else {
        least
    }
}

/// What plays audio: it waits until enough is there, and again whenever there
/// was too little.
#[derive(Debug)]
pub struct AudioPlaybackState<S> {
    pub buffer: AudioRingBuffer<S>,
    /// Whether it plays.
    pub primed: bool,
    pub prime_threshold_samples: usize,
}

/// Everything that playback depends on.
#[verifier::ext_equal]
pub ghost struct PlaybackModel<S> {
    pub buffer: RingModel<S>,
    pub primed: bool,
    pub threshold: nat,
}

impl<S> PlaybackModel<S> {
    /// How many samples must wait before an output of `n` is the first.
    pub open spec fn start_threshold(self, n: nat) -> nat {
        let wanted = if n < self.buffer.capacity {
            n
        } else {
            self.buffer.capacity
        };
        if self.threshold > wanted {
            self.threshold
        } else {
            wanted
        }
    }

    pub open spec fn plays(self, n: nat) -> bool {
        self.primed || self.buffer.samples.len() >= self.start_threshold(n)
    }

    pub open spec fn popped(self, n: nat) -> Self {
        if self.plays(n) {
            PlaybackModel {
                buffer: self.buffer.popped(n),
                primed: n <= self.buffer.samples.len(),
                ..self
            }
        } else {
            self
        }
    }

    pub open spec fn output(self, n: nat) -> Seq<S> {
        if self.plays(n) {
            self.buffer.output(n)
        } else {
            Seq::new(n, |i: int| self.buffer.silence)
        }
    }

    pub open spec fn report(self, n: nat) -> PopReport {
        if self.plays(n) {
            self.buffer.report(n)
        } else {
            PopReport { copied_samples: 0, missing_samples: n as usize }
        }
    }
}

impl<S> View for AudioPlaybackState<S> {
    type V = PlaybackModel<S>;

    open spec fn view(&self) -> PlaybackModel<S> {
        PlaybackModel {
            buffer: self.buffer@,
            primed: self.primed,
            threshold: self.prime_threshold_samples as nat,
        }
    }
}

impl<S: Copy> AudioPlaybackState<S> {
    pub fn new(capacity_samples: usize, channels: u16, silence: S) -> (r: Self)
        ensures
            r@ == (PlaybackModel {
                buffer: RingModel::empty(capacity_samples as nat, silence),
                primed: false,
                threshold: threshold_for(capacity_samples as int, channels) as nat,
            }),
    {
        AudioPlaybackState {
            buffer: AudioRingBuffer::new(capacity_samples, silence),
            primed: false,
            prime_threshold_samples: prime_threshold_samples(capacity_samples, channels),
        }
    }

    /// Takes in samples.  Returns how many old ones were dropped.
    pub fn push_samples(&mut self, samples: &[S]) -> (r: usize)
        ensures
            r == old(self)@.buffer.dropped_by(samples@),
            final(self)@ == (PlaybackModel {
                buffer: old(self)@.buffer.pushed(samples@),
                ..old(self)@
            }),
    {
        self.buffer.push_with_drop_oldest(samples)
    }

    /// Fills the output of the audio device.
    pub fn pop_for_output(&mut self, output: &mut [S]) -> (r: PopReport)
        ensures
            final(output)@ == old(self)@.output(old(output)@.len()),
            final(self)@ == old(self)@.popped(old(output)@.len()),
            r == old(self)@.report(old(output)@.len()),
    {
        let n: usize = output.len();
        let wanted: usize = if n < self.buffer.capacity() {
            n
        } else {
            self.buffer.capacity()
        };
        let start_threshold: usize = if self.prime_threshold_samples > wanted {
            self.prime_threshold_samples
        } else {
            wanted
        };
        if !self.primed && self.buffer.len() < start_threshold {
            let silence: S = self.buffer.silence;
            let mut i: usize = 0;
            while i < n
                invariant
                    i <= n == output@.len(),
                    forall|k: int| 0 <= k < i ==> output@[k] == silence,
                decreases n - i,
            {
                output[i] = silence;
                i += 1;
            }
            assert(output@ =~= old(self)@.output(n as nat));
            return PopReport { copied_samples: 0, missing_samples: n };
        }
        let report = self.buffer.pop_report(output);
        self.primed = report.missing_samples == 0;
        report
    }

    /// How full the buffer is, as a fraction between zero and one.
    pub fn buffer_level(&self) -> (r: (usize, usize))
        ensures
            r == if self@.buffer.capacity == 0 {
                (0usize, 1usize)
            } else {
                (
                    self@.buffer.available(self@.buffer.capacity) as usize,
                    self@.buffer.capacity as usize,
                )
            },
    {
        self.buffer.level()
    }
}

/// Playing starts only once enough samples wait, and nothing is taken before.
pub proof fn law_playback_waits_for_prefill<S>(state: PlaybackModel<S>, n: nat)
    requires
        !state.primed,
        state.buffer.samples.len() < state.threshold,
    ensures
        state.popped(n) == state,
        forall|i: int| 0 <= i < n ==> state.output(n)[i] == state.buffer.silence,
{
}

/// After too little was there, playing stops until enough waits again.
pub proof fn law_underrun_stops_playback<S>(state: PlaybackModel<S>, n: nat)
    requires
        state.primed,
        state.buffer.samples.len() < n,
    ensures
        !state.popped(n).primed,
        state.popped(n).buffer.samples.len() == 0,
        state.report(n).missing_samples > 0 || n > usize::MAX,
{
}

/// Up to twice the capacity everything is kept; beyond, only the newest
/// samples are, as many as the capacity says, and the rest count as dropped.
pub proof fn law_overflow_keeps_the_newest<S>(buffer: RingModel<S>, samples: Seq<S>)
    requires
        2 * buffer.capacity <= usize::MAX,
    ensures
        ({
            let all = buffer.samples + samples;
            let n = buffer.pushed(samples);
            &&& n.capacity == buffer.capacity && n.silence == buffer.silence
            &&& all.len() <= 2 * buffer.capacity ==> n.samples == all && buffer.dropped_by(samples)
                == 0
            &&& all.len() > 2 * buffer.capacity ==> n.samples == all.subrange(
                all.len() - buffer.capacity,
                all.len() as int,
            ) && buffer.dropped_by(samples) == all.len() - buffer.capacity
        }),
{
    let all = buffer.samples + samples;
    assert(all.skip(0) =~= all);
    if all.len() > 2 * buffer.capacity {
        assert(all.skip(all.len() - buffer.capacity) =~= all.subrange(
            all.len() - buffer.capacity,
            all.len() as int,
        ));
    }
}

/// An output is filled with the oldest samples and then with silence; just the
/// samples that went out are gone, and the report counts both.
pub proof fn law_output_takes_the_oldest<S>(buffer: RingModel<S>, n: nat, i: int)
    requires
        n <= usize::MAX,
        0 <= i < n,
    ensures
        buffer.output(n).len() == n,
        i < buffer.samples.len() ==> buffer.output(n)[i] == buffer.samples[i],
        i >= buffer.samples.len() ==> buffer.output(n)[i] == buffer.silence,
        buffer.popped(n).capacity == buffer.capacity,
        buffer.popped(n).silence == buffer.silence,
        n <= buffer.samples.len() ==> buffer.popped(n).samples == buffer.samples.skip(n as int),
        n > buffer.samples.len() ==> buffer.popped(n).samples == Seq::<S>::empty(),
        n <= buffer.samples.len() ==> buffer.report(n) == (PopReport {
            copied_samples: n as usize,
            missing_samples: 0,
        }),
        n > buffer.samples.len() ==> buffer.report(n) == (PopReport {
            copied_samples: buffer.samples.len() as usize,
            missing_samples: (n - buffer.samples.len()) as usize,
        }),
{
    if n > buffer.samples.len() {
        assert(buffer.popped(n).samples =~= Seq::<S>::empty());
    }
}

/// Playing begins when the threshold is reached and there is enough for the
/// output, or for the whole buffer; it goes on as long as no output comes up
/// short.  Until then the output is silence and the samples wait.
pub proof fn law_playback_begins_when_enough_waits<S>(state: PlaybackModel<S>, n: nat, i: int)
    requires
        n <= usize::MAX,
        0 <= i < n,
    ensures
        ({
            let waiting = state.buffer.samples.len();
            let begins = state.primed || (waiting >= state.threshold && (waiting >= n || waiting
                >= state.buffer.capacity));
            &&& begins ==> state.output(n) == state.buffer.output(n) && state.report(n)
                == state.buffer.report(n) && state.popped(n) == (PlaybackModel {
                buffer: state.buffer.popped(n),
                primed: waiting >= n,
                threshold: state.threshold,
            })
            &&& !begins ==> state.output(n).len() == n && state.output(n)[i]
                == state.buffer.silence && state.popped(n) == state && state.report(n) == (
            PopReport { copied_samples: 0, missing_samples: n as usize })
        }),
{
}

/// A buffer holds the samples of its time, rounded down, but one for each
/// channel at least; playing begins at half of that, with the same least.
pub proof fn law_buffer_sizes(sample_rate: u32, channels: u16, buffer_ms: u32, capacity: int)
    requires
        capacity >= 0,
    ensures
        ({
            let r = capacity_for(sample_rate, channels, buffer_ms);
            let exact = sample_rate * channels * buffer_ms;
            let least = if channels == 0 {
                1
            } else {
                channels as int
            };
            &&& r >= least
            &&& r * 1000 <= exact || r == least
            &&& exact < (r + 1) * 1000
        }),
        ({
            let r = threshold_for(capacity, channels);
            let least = if channels == 0 {
                1
            } else {
                channels as int
            };
            &&& capacity == 0 ==> r == 0
            &&& capacity > 0 ==> r >= least
            &&& capacity > 0 ==> 2 * r <= capacity || r == least
            &&& capacity > 0 ==> capacity <= 2 * r + 1
        }),
{
}

} // verus!
