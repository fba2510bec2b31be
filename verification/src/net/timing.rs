use vstd::prelude::*;

verus! {

/// How many buckets a histogram of intervals has.
pub const HIST_BUCKETS: usize = 64;

/// The sum of the first `n` buckets.
pub open spec fn cumulative(buckets: Seq<u32>, n: int) -> int
    decreases n,
{
    if n <= 0 {
        0
    } else {
        cumulative(buckets, n - 1) + buckets[n - 1]
    }
}

/// A histogram: how many samples fell into each bucket, and how many in all.
#[verifier::ext_equal]
pub ghost struct HistogramModel {
    pub buckets: Seq<u32>,
    pub count: nat,
}

impl HistogramModel {
    pub open spec fn empty() -> Self {
        HistogramModel { buckets: Seq::new(HIST_BUCKETS as nat, |i: int| 0u32), count: 0 }
    }

    /// A bucket that is full stays so.
    pub open spec fn recorded(self, index: int) -> Self {
        HistogramModel {
            buckets: self.buckets.update(
                index,
                if self.buckets[index] == u32::MAX {
                    u32::MAX
                } else {
                    (self.buckets[index] + 1) as u32
                },
            ),
            count: self.count + 1,
        }
    }

    /// Whether `index` is the first bucket up to which `rank` samples fell, or
    /// the last one where fewer fell in all.
    pub open spec fn holds_rank(self, rank: int, index: int) -> bool {
        &&& 0 <= index < HIST_BUCKETS
        &&& forall|i: int| 0 <= i < index ==> #[trigger] cumulative(self.buckets, i + 1) < rank
        &&& cumulative(self.buckets, index + 1) >= rank || index == HIST_BUCKETS - 1
    }
}

/// A histogram of intervals with a fixed number of buckets.
#[derive(Debug, Clone, Copy)]
pub struct LogHistogram {
    buckets: [u32; HIST_BUCKETS],
    count: u64,
}

impl View for LogHistogram {
    type V = HistogramModel;

    closed spec fn view(&self) -> HistogramModel {
        HistogramModel { buckets: self.buckets@, count: self.count as nat }
    }
}

impl LogHistogram {
    /// An empty histogram.
    pub fn new() -> (r: Self)
        ensures
            r@ == HistogramModel::empty(),
    {
        let r = LogHistogram { buckets: [0;HIST_BUCKETS], count: 0 };
        assert(r@ =~= HistogramModel::empty());
        r
    }

    /// Counts a sample that falls into the given bucket.
    pub fn record(&mut self, index: usize)
        requires
            index < HIST_BUCKETS,
            old(self)@.count < u64::MAX,
        ensures
            final(self)@ == old(self)@.recorded(index as int),
    {
        let n: u32 = self.buckets[index];
        self.buckets[index] = n.saturating_add(1);
        self.count = self.count + 1;
        assert(self@ =~= old(self)@.recorded(index as int));
    }

    /// How many samples were counted.
    pub fn count(&self) -> (r: u64)
        ensures
            r == self@.count,
    {
        self.count
    }

    /// How many fell into each bucket.
    pub fn buckets(&self) -> (r: &[u32; HIST_BUCKETS])
        ensures
            r@ == self@.buckets,
    {
        &self.buckets
    }

    /// The bucket that holds the sample of the given rank, counted from one;
    /// the last one where there are fewer samples.
    pub fn bucket_at_rank(&self, rank: u64) -> (r: usize)
        ensures
            self@.holds_rank(rank as int, r as int),
    {
        let mut total: u64 = 0;
        let mut i: usize = 0;
        while i < HIST_BUCKETS
            invariant
                i <= HIST_BUCKETS,
                total == cumulative(self@.buckets, i as int),
                total <= i * 0xffff_ffff,
                self@.buckets == self.buckets@,
                forall|k: int|
                    0 <= k < i ==> #[trigger] cumulative(self@.buckets, k + 1) < rank,
            decreases HIST_BUCKETS - i,
        {
            total = total + self.buckets[i] as u64;
            if total >= rank {
                return i;
            }
            i += 1;
        }
        HIST_BUCKETS - 1
    }

    /// Forgets all samples.
    pub fn reset(&mut self)
        ensures
            final(self)@ == HistogramModel::empty(),
    {
        *self = Self::new();
    }
}

impl Default for LogHistogram {
    fn default() -> (r: Self)
        ensures
            r@ == HistogramModel::empty(),
    {
        Self::new()
    }
}

proof fn lemma_cumulative_update(buckets: Seq<u32>, index: int, v: u32, n: int)
    requires
        0 <= index < buckets.len(),
        0 <= n <= buckets.len(),
    ensures
        cumulative(buckets.update(index, v), n) == cumulative(buckets, n) + if index < n {
            v - buckets[index]
        } else {
            0
        },
    decreases n,
{
    if n > 0 {
        lemma_cumulative_update(buckets, index, v, n - 1);
    }
}

/// A sample adds one to what fell up to its bucket and beyond, and nothing
/// before it, as long as its bucket is not full.
pub proof fn law_samples_count_once(histogram: HistogramModel, index: int, n: int)
    requires
        0 <= index < histogram.buckets.len(),
        0 <= n <= histogram.buckets.len(),
        histogram.buckets[index] < u32::MAX,
    ensures
        cumulative(histogram.recorded(index).buckets, n) == cumulative(histogram.buckets, n) + if index
            < n {
            1int
        } else {
            0int
        },
{
    lemma_cumulative_update(
        histogram.buckets,
        index,
        (histogram.buckets[index] + 1) as u32,
        n,
    );
}

/// Higher ranks are found in the same bucket or a later one.
pub proof fn law_ranks_are_ordered(
    histogram: HistogramModel,
    low: int,
    high: int,
    low_bucket: int,
    high_bucket: int,
)
    requires
        low <= high,
        histogram.holds_rank(low, low_bucket),
        histogram.holds_rank(high, high_bucket),
    ensures
        low_bucket <= high_bucket,
{
    if high_bucket < low_bucket {
        assert(cumulative(histogram.buckets, high_bucket + 1) < low);
    }
}

/// Measures the time between arrivals.
#[derive(Debug, Clone, Copy, PartialEq, Eq, Structural)]
pub struct IatWindow {
    /// When the last datagram came, in nanoseconds.
    pub last: Option<u64>,
}

impl Default for IatWindow {
    fn default() -> (r: Self)
        ensures
            r.last is None,
    {
        IatWindow { last: None }
    }
}

impl IatWindow {
    pub fn new() -> (r: Self)
        ensures
            r.last is None,
    {
        IatWindow { last: None }
    }

    /// Notes an arrival.  Returns the time since the one before, in
    /// nanoseconds; the first arrival has none.
    pub fn observe(&mut self, at: u64) -> (r: Option<u64>)
        ensures
            final(self).last == Some(at),
            r == match old(self).last {
                Some(last) => Some(
                    if at > last {
                        (at - last) as u64
                    } else {
                        0
                    },
                ),
                None => None,
            },
    {
        let gap = match self.last {
            Some(last) => Some(at.saturating_sub(last)),
            None => None,
        };
        self.last = Some(at);
        gap
    }
}

/// Whether the jitter of a stream can be measured by its timestamps, and how
/// many samples of it there are.
#[derive(Debug, Clone, Copy, PartialEq, Eq, Structural)]
pub struct Rfc3550Jitter {
    /// When the first packet came, in nanoseconds.
    pub epoch: Option<u64>,
    pub prev_ts: Option<u32>,
    /// Whether two timestamps differed.
    pub ts_varies: bool,
    /// Whether a timestamp went back.
    pub ts_backwards: bool,
    pub samples: u64,
}

/// How far `to` is ahead of `from` on a 32-bit counter that wraps.
pub open spec fn ticks_ahead(from: u32, to: u32) -> int {
    if to >= from {
        to - from
    } else {
        to - from + 0x1_0000_0000
    }
}

impl Default for Rfc3550Jitter {
    fn default() -> (r: Self)
        ensures
            r == Self::fresh(),
    {
        Rfc3550Jitter::new()
    }
}

impl Rfc3550Jitter {
    pub open spec fn fresh() -> Self {
        Rfc3550Jitter {
            epoch: None,
            prev_ts: None,
            ts_varies: false,
            ts_backwards: false,
            samples: 0,
        }
    }

    pub open spec fn observed(self, ts: u32, at: u64) -> Self {
        match self.prev_ts {
            None => Rfc3550Jitter {
                epoch: if self.epoch is Some {
                    self.epoch
                } else {
                    Some(at)
                },
                prev_ts: Some(ts),
                ..self
            },
            Some(prev) => Rfc3550Jitter {
                epoch: if self.epoch is Some {
                    self.epoch
                } else {
                    Some(at)
                },
                prev_ts: Some(ts),
                ts_varies: self.ts_varies || prev != ts,
                // More than half the counter ahead is behind.
                ts_backwards: self.ts_backwards || ticks_ahead(prev, ts) > 0x7fff_ffff,
                samples: (self.samples + 1) as u64,
            },
        }
    }

    pub fn new() -> (r: Self)
        ensures
            r == Self::fresh(),
    {
        Rfc3550Jitter {
            epoch: None,
            prev_ts: None,
            ts_varies: false,
            ts_backwards: false,
            samples: 0,
        }
    }

    /// Notes a packet.  Returns the time since the first one in nanoseconds,
    /// and whether there was one before, to compare transit times with.
    pub fn observe(&mut self, rtp_timestamp: u32, at: u64) -> (r: (u64, bool))
        requires
            old(self).samples < u64::MAX,
        ensures
            *final(self) == old(self).observed(rtp_timestamp, at),
            r.1 == (old(self).prev_ts is Some),
            r.0 == match old(self).epoch {
                Some(epoch) if at > epoch => at - epoch,
                _ => 0,
            },
    {
        let epoch: u64 = match self.epoch {
            Some(epoch) => epoch,
            None => at,
        };
        self.epoch = Some(epoch);
        let compared = match self.prev_ts {
            Some(prev) => {
                if prev != rtp_timestamp {
                    self.ts_varies = true;
                }
                if rtp_timestamp.wrapping_sub(prev) > 0x7fff_ffff {
                    self.ts_backwards = true;
                }
                self.samples = self.samples + 1;
                true
            },
            None => false,
        };
        self.prev_ts = Some(rtp_timestamp);
        (at.saturating_sub(epoch), compared)
    }

    pub open spec fn usable_spec(self) -> bool {
        self.ts_varies && !self.ts_backwards && self.samples > 0
    }

    /// Whether the timestamps serve to measure jitter.
    pub fn usable(&self) -> (r: bool)
        ensures
            r == self.usable_spec(),
    {
        self.ts_varies && !self.ts_backwards && self.samples > 0
    }

    /// Starts again, as for another source.
    pub fn reset(&mut self)
        ensures
            *final(self) == Self::fresh(),
    {
        *self = Self::new();
    }

    /// The state after packets with the given timestamps and arrival times.
    pub open spec fn after(self, packets: Seq<(u32, u64)>) -> Self
        decreases packets.len(),
    {
        if packets.len() == 0 {
            self
        } else {
            self.after(packets.drop_last()).observed(packets.last().0, packets.last().1)
        }
    }
}

/// A stream whose timestamps stand still never serves to measure jitter.
pub proof fn law_constant_timestamps_measure_nothing(packets: Seq<(u32, u64)>, ts: u32)
    requires
        forall|i: int| 0 <= i < packets.len() ==> (#[trigger] packets[i]).0 == ts,
    ensures
        !Rfc3550Jitter::fresh().after(packets).usable_spec(),
        !Rfc3550Jitter::fresh().after(packets).ts_varies,
        packets.len() > 0 ==> Rfc3550Jitter::fresh().after(packets).prev_ts == Some(ts),
        packets.len() == 0 ==> Rfc3550Jitter::fresh().after(packets).prev_ts is None,
    decreases packets.len(),
{
    if packets.len() > 0 {
        let rest = packets.drop_last();
        assert forall|i: int| 0 <= i < rest.len() implies (#[trigger] rest[i]).0 == ts by {
            assert(rest[i] == packets[i]);
        }
        law_constant_timestamps_measure_nothing(rest, ts);
        assert(packets.last() == packets[packets.len() - 1]);
    }
}

/// A timestamp that went back spoils the measure for good.
pub proof fn law_timestamps_that_go_back_measure_nothing(
    state: Rfc3550Jitter,
    packets: Seq<(u32, u64)>,
)
    requires
        state.ts_backwards,
    ensures
        !state.after(packets).usable_spec(),
        state.after(packets).ts_backwards,
    decreases packets.len(),
{
    if packets.len() > 0 {
        law_timestamps_that_go_back_measure_nothing(state, packets.drop_last());
    }
}

/// Timestamps that wrap do not go back.
pub proof fn law_wrapping_is_not_going_back(state: Rfc3550Jitter, ts: u32, step: u32, at: u64)
    requires
        state.prev_ts == Some(ts),
        !state.ts_backwards,
        step <= 0x7fff_ffff,
    ensures
        !state.observed(((ts + step) % 0x1_0000_0000) as u32, at).ts_backwards,
{
}

/// What becomes of a sample while an instrument measures its own noise.
#[derive(Debug, Clone, Copy, PartialEq, Eq, Structural)]
pub enum CalibrationStep {
    /// It comes too late.
    Ignored,
    /// It is taken in.
    Taken,
    /// It is taken in, and the measure is complete.
    Closing,
}

/// Measures for a fixed time from the first sample on.
#[derive(Debug, Clone, Copy, PartialEq, Eq, Structural)]
pub struct NoiseCalibration {
    /// How long to measure, in nanoseconds.
    pub window: u64,
    pub started: Option<u64>,
    pub closed: bool,
}

impl NoiseCalibration {
    pub fn new(window: u64) -> (r: Self)
        ensures
            r == (NoiseCalibration { window, started: None, closed: false }),
    {
        NoiseCalibration { window, started: None, closed: false }
    }

    pub open spec fn begun(self, at: u64) -> u64 {
        match self.started {
            Some(t) => t,
            None => at,
        }
    }

    pub open spec fn step_at(self, at: u64) -> CalibrationStep {
        if self.closed {
            CalibrationStep::Ignored
        } else if (if at > self.begun(at) {
            at - self.begun(at)
        } else {
            0
        }) >= self.window {
            CalibrationStep::Closing
        } else {
            CalibrationStep::Taken
        }
    }

    /// Takes in a sample that came at the given time.
    pub fn observe(&mut self, at: u64) -> (r: CalibrationStep)
        ensures
            r == old(self).step_at(at),
            *final(self) == if r is Ignored {
                *old(self)
            } else {
                NoiseCalibration {
                    started: Some(old(self).begun(at)),
                    closed: r is Closing,
                    ..*old(self)
                }
            },
    {
        if self.closed {
            return CalibrationStep::Ignored;
        }
        let started: u64 = match self.started {
            Some(t) => t,
            None => at,
        };
        self.started = Some(started);
        if at.saturating_sub(started) >= self.window {
            self.closed = true;
            CalibrationStep::Closing
        } else {
            CalibrationStep::Taken
        }
    }
}

/// A sample adds one to its own bucket and to the count, and leaves every
/// other bucket; a bucket that is full is only not added to.
pub proof fn law_samples_fall_into_their_bucket(histogram: HistogramModel, index: int, i: int)
    requires
        0 <= index < histogram.buckets.len(),
        0 <= i < histogram.buckets.len(),
    ensures
        histogram.recorded(index).count == histogram.count + 1,
        histogram.recorded(index).buckets.len() == histogram.buckets.len(),
        i != index ==> histogram.recorded(index).buckets[i] == histogram.buckets[i],
        histogram.buckets[index] < 0xffff_ffff ==> histogram.recorded(index).buckets[index]
            == histogram.buckets[index] + 1,
        histogram.buckets[index] == 0xffff_ffff ==> histogram.recorded(index).buckets[index]
            == 0xffff_ffff,
        HistogramModel::empty().buckets.len() == 64,
        HistogramModel::empty().count == 0,
        forall|k: int| 0 <= k < 64 ==> (#[trigger] HistogramModel::empty().buckets[k]) == 0,
{
}

/// A rank is found in one bucket only.
pub proof fn law_ranks_have_one_bucket(histogram: HistogramModel, rank: int, a: int, b: int)
    requires
        histogram.holds_rank(rank, a),
        histogram.holds_rank(rank, b),
    ensures
        a == b,
{
    law_ranks_are_ordered(histogram, rank, rank, a, b);
    law_ranks_are_ordered(histogram, rank, rank, b, a);
}

/// A lone sample is found in its bucket.
pub proof fn law_lone_samples_are_found(index: int, found: int)
    requires
        0 <= index < 64,
        HistogramModel::empty().recorded(index).holds_rank(1, found),
    ensures
        found == index,
{
    let h = HistogramModel::empty();
    lemma_empty_sums(64);
    assert forall|n: int| 0 <= n <= 64 implies #[trigger] cumulative(h.buckets, n) == 0 by {
        lemma_empty_sums(n);
    }
    assert forall|n: int| 0 <= n <= 64 implies #[trigger] cumulative(h.recorded(index).buckets, n)
        == if index < n {
        1int
    } else {
        0int
    } by {
        law_samples_count_once(h, index, n);
    }
    if found > index {
        assert(cumulative(h.recorded(index).buckets, index + 1) < 1);
    } else if found < index {
        assert(cumulative(h.recorded(index).buckets, found + 1) == 0);
    }
}

proof fn lemma_empty_sums(n: int)
    requires
        n <= 64,
    ensures
        cumulative(HistogramModel::empty().buckets, n) == 0,
    decreases n,
{
    if n > 0 {
        lemma_empty_sums(n - 1);
    }
}

/// The first packet sets the time from which all are counted and is no sample;
/// every later one is, and tells whether timestamps move and whether one went
/// back, that is, stands at most half the counter behind.
pub proof fn law_packets_are_compared_with_the_one_before(
    state: Rfc3550Jitter,
    ts: u32,
    at: u64,
    prev: u32,
)
    requires
        state.samples < u64::MAX,
    ensures
        ({
            let next = state.observed(ts, at);
            &&& next.prev_ts == Some(ts)
            &&& state.epoch is None ==> next.epoch == Some(at)
            &&& state.epoch is Some ==> next.epoch == state.epoch
            &&& state.prev_ts is None ==> next.samples == state.samples && next.ts_varies
                == state.ts_varies && next.ts_backwards == state.ts_backwards
            &&& state.prev_ts == Some(prev) ==> {
                &&& next.samples == state.samples + 1
                &&& next.ts_varies <==> state.ts_varies || ts != prev
                &&& next.ts_backwards <==> state.ts_backwards || (ts < prev && prev - ts
                    <= 0x8000_0000) || (ts > prev && ts - prev >= 0x8000_0000)
            }
        }),
{
}

/// Timestamps serve when two differed and none went back, and not otherwise.
pub proof fn law_moving_timestamps_serve(state: Rfc3550Jitter)
    ensures
        state.ts_varies && !state.ts_backwards && state.samples >= 1 ==> state.usable_spec(),
        !state.ts_varies || state.ts_backwards || state.samples == 0 ==> !state.usable_spec(),
        !Rfc3550Jitter::fresh().usable_spec(),
        Rfc3550Jitter::fresh().prev_ts is None && Rfc3550Jitter::fresh().epoch is None,
{
}

/// A measure takes samples until its time has passed since the first one,
/// closes with the first sample after that, and then takes none.
pub proof fn law_measures_close_in_time(m: NoiseCalibration, at: u64, first: u64)
    ensures
        m.closed <==> m.step_at(at) is Ignored,
        !m.closed && m.started == Some(first) ==> {
            &&& m.step_at(at) is Closing <==> at - first >= m.window || m.window == 0
            &&& m.step_at(at) is Taken <==> at - first < m.window && m.window > 0
        },
        !m.closed && m.started is None ==> (m.step_at(at) is Closing <==> m.window == 0),
        m.started == Some(first) ==> m.begun(at) == first,
        m.started is None ==> m.begun(at) == at,
{
}

} // verus!
