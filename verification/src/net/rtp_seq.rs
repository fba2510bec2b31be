use std::collections::BTreeMap;
use vstd::prelude::*;

verus! {

/// Largest forward jump that still counts as loss; anything further away is a
/// restarted source, not thousands of lost packets.
pub const MAX_DROPOUT: u16 = 3000;

/// Length of the run of consecutive "too old" packets that reveals a source
/// restarted at a lower sequence number.
pub const MAX_MISORDER: u16 = 100;

/// How many recent extended sequence numbers the duplicate window covers.
pub const SEEN_CAPACITY: u64 = 1024;

/// What the arrival of a packet meant for the stream.
#[derive(Debug, Clone, Copy, PartialEq, Eq, Structural)]
pub enum SeqOutcome {
    /// First packet of this synchronisation source.
    Init,
    /// The next expected number.
    InOrder,
    /// `missing` numbers were skipped and are now provisionally lost.
    Gap { missing: u32 },
    /// A provisionally lost number turned up before it was confirmed lost.
    Reordered,
    /// This number was received before.
    Duplicate,
    /// Behind the highest number, neither pending nor known to be received.
    TooOld,
    /// Too far away to belong to the same run: the numbering starts over.
    SourceRestart { from: u16, to: u16 },
}

/// Where a sequence number lies relative to the highest one seen.
#[derive(Debug, Clone, Copy, PartialEq, Eq, Structural)]
pub enum Position {
    /// The same number.
    Same,
    /// That many steps ahead, around the 16-bit circle.
    Forward(u32),
    /// That many steps behind.
    Backward(u32),
    /// Further than [`MAX_DROPOUT`] in both directions.
    FarAway,
}

/// Steps from `from` forward to `to` on the 16-bit circle.
pub open spec fn steps_ahead(from: u16, to: u16) -> int {
    if to >= from {
        to - from
    } else {
        to - from + 65536
    }
}

/// The classification [`position`] computes.
pub open spec fn position_spec(from: u16, to: u16) -> Position {
    let ahead = steps_ahead(from, to);
    if ahead == 0 {
        Position::Same
    } else if ahead <= MAX_DROPOUT {
        Position::Forward(ahead as u32)
    } else if 65536 - ahead <= MAX_DROPOUT {
        Position::Backward((65536 - ahead) as u32)
    } else {
        Position::FarAway
    }
}

/// Classifies `to` relative to `from` on the 16-bit circle, with the same
/// window in both directions.
pub fn position(from: u16, to: u16) -> (r: Position)
    ensures
        r == position_spec(from, to),
{
    let forward: u32 = to.wrapping_sub(from) as u32;
    if forward == 0 {
        return Position::Same;
    }
    let limit: u32 = MAX_DROPOUT as u32;
    if forward <= limit {
        return Position::Forward(forward);
    }
    let backward: u32 = 65_536 - forward;
    if backward <= limit {
        return Position::Backward(backward);
    }
    Position::FarAway
}

/// Totals of one synchronisation source.
#[derive(Debug, Clone, Copy, PartialEq, Eq, Structural)]
pub struct RtpSeqCounters {
    pub ssrc: u32,
    /// Distinct packets received.
    pub received: u64,
    pub dup: u64,
    pub out_of_order: u64,
    pub too_old: u64,
    /// Skipped numbers whose reconciliation window ran out.
    pub missing_confirmed: u64,
    pub source_restarts: u64,
    /// Skipped numbers still inside the window: neither lost nor reordered yet.
    pub pending: u64,
}

impl Default for RtpSeqCounters {
    fn default() -> (r: Self)
        ensures
            r == (RtpSeqCounters {
                ssrc: 0,
                received: 0,
                dup: 0,
                out_of_order: 0,
                too_old: 0,
                missing_confirmed: 0,
                source_restarts: 0,
                pending: 0,
            }),
    {
        RtpSeqCounters {
            ssrc: 0,
            received: 0,
            dup: 0,
            out_of_order: 0,
            too_old: 0,
            missing_confirmed: 0,
            source_restarts: 0,
            pending: 0,
        }
    }
}

impl RtpSeqCounters {
    /// Confirmed loss over everything expected, as the exact fraction
    /// `(lost, lost + received)`; `None` before anything was expected, because
    /// "no data" is not a measured zero.
    pub fn loss_ratio(&self) -> (r: Option<(u64, u64)>)
        requires
            self.received + self.missing_confirmed <= u64::MAX,
        ensures
            r is None <==> self.received + self.missing_confirmed == 0,
            r matches Some(f) ==> f.0 == self.missing_confirmed && f.1 == self.received
                + self.missing_confirmed,
    {
        let expected: u64 = self.received + self.missing_confirmed;
        if expected > 0 {
            Some((self.missing_confirmed, expected))
        } else {
            None
        }
    }
}

/// Bit `i` of `word`.
spec fn bit_set(word: u64, i: u64) -> bool {
    word & (1u64 << i) != 0
}

proof fn lemma_bit_or(x: u64, b: u64, c: u64)
    by (bit_vector)
    requires
        b < 64,
        c < 64,
    ensures
        ((x | (1u64 << b)) & (1u64 << c) != 0) == (b == c || x & (1u64 << c) != 0),
{
}

proof fn lemma_bit_and_not(x: u64, b: u64, c: u64)
    by (bit_vector)
    requires
        b < 64,
        c < 64,
    ensures
        ((x & !(1u64 << b)) & (1u64 << c) != 0) == (b != c && x & (1u64 << c) != 0),
{
}

proof fn lemma_zero_has_no_bits(c: u64)
    by (bit_vector)
    ensures
        0u64 & (1u64 << c) == 0,
{
}

/// Circular bit set over the most recent [`SEEN_CAPACITY`] extended sequence
/// numbers; it tells a repeated packet from a merely late one.
#[derive(Debug)]
struct SeenWindow {
    bits: [u64; 16],
    max: u64,
    primed: bool,
}

impl SeenWindow {
    /// The flag of the slot that `ext` maps to.
    spec fn slot_flag(self, ext: u64) -> bool {
        let idx = ext % SEEN_CAPACITY;
        bit_set(self.bits[(idx / 64) as int], idx % 64)
    }

    /// Whether `ext` is one of the numbers that the window covers.
    spec fn covers(self, ext: u64) -> bool {
        self.primed && ext <= self.max && self.max - ext < SEEN_CAPACITY
    }

    /// The covered numbers that were marked.
    spec fn marked(self) -> Set<u64> {
        Set::new(|e: u64| self.covers(e) && self.slot_flag(e))
    }

    /// The highest number covered, once there is one.
    spec fn top(self) -> Option<u64> {
        if self.primed {
            Some(self.max)
        } else {
            None
        }
    }

    /// An empty window that covers nothing yet.
    fn new() -> (r: Self)
        ensures
            r.top() is None,
            r.marked() == Set::<u64>::empty(),
    {
        let r = SeenWindow { bits: [0; 16], max: 0, primed: false };
        assert(r.marked() =~= Set::<u64>::empty());
        r
    }

    /// Word index and bit mask of the slot of `ext`.
    fn slot(ext: u64) -> (r: (usize, u64))
        ensures
            r.0 == (ext % SEEN_CAPACITY) / 64,
            r.0 < 16,
            r.1 == 1u64 << ((ext % SEEN_CAPACITY) % 64),
    {
        let idx: u64 = ext % SEEN_CAPACITY;
        ((idx / 64) as usize, 1u64 << (idx % 64))
    }

    fn in_window(&self, ext: u64) -> (r: bool)
        ensures
            r == self.covers(ext),
    {
        self.primed && ext <= self.max && self.max - ext < SEEN_CAPACITY
    }

    /// Clears the slot that `ext` maps to.
    fn clear(&mut self, ext: u64)
        ensures
            final(self).max == old(self).max,
            final(self).primed == old(self).primed,
            forall|e: u64|
                #![trigger final(self).slot_flag(e)]
                final(self).slot_flag(e) == (e % SEEN_CAPACITY != ext % SEEN_CAPACITY && old(
                    self,
                ).slot_flag(e)),
    {
        let (word, bit) = Self::slot(ext);
        let ghost before = self.bits;
        self.bits[word] = self.bits[word] & !bit;
        proof {
            let b = (ext % SEEN_CAPACITY) % 64;
            assert forall|e: u64| #[trigger] self.slot_flag(e) == (e % SEEN_CAPACITY != ext
                % SEEN_CAPACITY && old(self).slot_flag(e)) by {
                let i = e % SEEN_CAPACITY;
                lemma_bit_and_not(before[word as int], b, i % 64);
            }
        }
    }

    /// Moves the top of the window up to `ext`; a lower `ext` changes nothing.
    /// Numbers that the move brings in start unmarked.
    fn advance_to(&mut self, ext: u64)
        ensures
            final(self).top() == Some(
                match old(self).top() {
                    None => ext,
                    Some(m) => if m < ext {
                        ext
                    } else {
                        m
                    },
                },
            ),
            final(self).marked() == old(self).marked().filter(
                |e: u64| final(self).covers(e),
            ),
            old(self).top() is None ==> final(self).marked() == Set::<u64>::empty(),
    {
        if !self.primed {
            self.bits = [0; 16];
            self.max = ext;
            self.primed = true;
            proof {
                assert forall|e: u64| !(#[trigger] self.slot_flag(e)) by {
                    lemma_zero_has_no_bits((e % SEEN_CAPACITY) % 64);
                }
                assert(self.marked() =~= Set::<u64>::empty());
                assert(old(self).marked().filter(|e: u64| self.covers(e)) =~= Set::<u64>::empty());
            }
            return ;
        }
        if ext <= self.max {
            assert(self.marked() =~= old(self).marked().filter(|e: u64| self.covers(e)));
            return ;
        }
        let distance: u64 = ext - self.max;
        let steps: u64 = if distance < SEEN_CAPACITY {
            distance
        } else {
            SEEN_CAPACITY
        };
        let mut i: u64 = 1;
        while i <= steps
            invariant
                1 <= i <= steps + 1,
                steps <= SEEN_CAPACITY,
                steps <= distance,
                self.max + distance <= u64::MAX,
                self.max == old(self).max,
                self.primed,
                forall|e: u64|
                    #![trigger self.slot_flag(e)]
                    self.slot_flag(e) == (old(self).slot_flag(e) && !(exists|j: u64|
                        1 <= j < i && e % SEEN_CAPACITY == #[trigger] ((self.max + j) as u64)
                            % SEEN_CAPACITY)),
            decreases steps + 1 - i,
        {
            let ghost before = *self;
            self.clear(self.max + i);
            proof {
                assert forall|e: u64| #[trigger] self.slot_flag(e) == (old(self).slot_flag(e)
                    && !(exists|j: u64|
                    1 <= j < i + 1 && e % SEEN_CAPACITY == #[trigger] ((self.max + j) as u64)
                        % SEEN_CAPACITY)) by {
                    assert(self.slot_flag(e) == (e % SEEN_CAPACITY != ((self.max + i) as u64)
                        % SEEN_CAPACITY && before.slot_flag(e)));
                }
            }
            i = i + 1;
        }
        let ghost cleared = *self;
        self.max = ext;
        proof {
            let m = old(self).max;
            assert forall|e: u64| self.marked().contains(e) == old(self).marked().filter(
                |e: u64| self.covers(e),
            ).contains(e) by {
                assert(self.slot_flag(e) == cleared.slot_flag(e));
                if self.covers(e) {
                    if e > m {
                        // A number that just came in: its slot was cleared.
                        let j = if distance < SEEN_CAPACITY {
                            (e - m) as u64
                        } else {
                            // The last 1024 numbers map onto all the slots cleared.
                            (((e - m - 1) % 1024) + 1) as u64
                        };
                        assert(1 <= j <= steps);
                        assert(((m + j) as u64) % SEEN_CAPACITY == e % SEEN_CAPACITY);
                        assert(!self.slot_flag(e));
                    } else {
                        // A number that stays: no cleared number shares its slot.
                        assert(!(exists|j: u64|
                            1 <= j < steps + 1 && e % SEEN_CAPACITY == #[trigger] ((m + j) as u64)
                                % SEEN_CAPACITY)) by {
                            assert forall|j: u64| 1 <= j < steps + 1 implies e % SEEN_CAPACITY
                                != #[trigger] ((m + j) as u64) % SEEN_CAPACITY by {
                                assert(0 < m + j - e < 1024);
                            }
                        }
                        assert(self.slot_flag(e) == old(self).slot_flag(e));
                        assert(old(self).covers(e));
                    }
                }
            }
            assert(self.marked() =~= old(self).marked().filter(|e: u64| self.covers(e)));
        }
    }

    /// Marks `ext` as received, if the window covers it.
    fn mark(&mut self, ext: u64)
        ensures
            final(self).top() == old(self).top(),
            final(self).marked() == if old(self).covers(ext) {
                old(self).marked().insert(ext)
            } else {
                old(self).marked()
            },
    {
        if !self.in_window(ext) {
            return ;
        }
        let (word, bit) = Self::slot(ext);
        let ghost before = self.bits;
        self.bits[word] = self.bits[word] | bit;
        proof {
            let b = (ext % SEEN_CAPACITY) % 64;
            assert forall|e: u64| #[trigger] self.slot_flag(e) == (e % SEEN_CAPACITY == ext
                % SEEN_CAPACITY || old(self).slot_flag(e)) by {
                let i = e % SEEN_CAPACITY;
                lemma_bit_or(before[word as int], b, i % 64);
            }
            assert(self.marked() =~= old(self).marked().insert(ext));
        }
    }

    /// Whether `ext` is covered and was marked.
    fn contains(&self, ext: u64) -> (r: bool)
        ensures
            r == self.marked().contains(ext),
    {
        if !self.in_window(ext) {
            return false;
        }
        let (word, bit) = Self::slot(ext);
        self.bits[word] & bit != 0
    }
}

/// Everything that the counting of one synchronisation source depends on, with
/// sequence numbers extended to run on past the 16-bit wrap.
pub ghost struct SeqModel {
    pub ssrc: u32,
    /// Whether a first packet has fixed the numbering.
    pub primed: bool,
    /// Extended number at which the current numbering started.
    pub base: int,
    /// Highest extended number received in the current numbering.
    pub highest: int,
    pub received: int,
    pub dup: int,
    pub out_of_order: int,
    pub too_old: int,
    pub missing_confirmed: int,
    pub source_restarts: int,
    /// Skipped numbers and the instant at which each was found missing.
    pub pending: Map<u64, u64>,
    /// Received numbers among the last [`SEEN_CAPACITY`].
    pub seen: Set<u64>,
    /// The number that would continue a run of packets from the past.
    pub bad_seq: Option<u16>,
    pub bad_count: int,
}

/// Whether a gap found at `since` has waited `window` nanoseconds by `now`.
pub open spec fn overdue(since: u64, now: u64, window: u64) -> bool {
    window == 0 || now - since >= window
}

impl SeqModel {
    /// The state of a source of which nothing was received.
    pub open spec fn fresh(ssrc: u32) -> Self {
        SeqModel {
            ssrc,
            primed: false,
            base: 0,
            highest: 0,
            received: 0,
            dup: 0,
            out_of_order: 0,
            too_old: 0,
            missing_confirmed: 0,
            source_restarts: 0,
            pending: Map::empty(),
            seen: Set::empty(),
            bad_seq: None,
            bad_count: 0,
        }
    }

    /// The numbering started over at `seq`; totals stay, open gaps are dropped.
    pub open spec fn rebased(self, seq: u16) -> Self {
        SeqModel {
            primed: true,
            base: seq as int,
            highest: seq as int,
            pending: Map::empty(),
            seen: Set::empty().insert(seq as u64),
            bad_seq: None,
            bad_count: 0,
            ..self
        }
    }

    /// `delta` steps forward: the numbers jumped over become pending.
    pub open spec fn advanced(self, delta: int, now: u64) -> Self {
        let top = self.highest + delta;
        SeqModel {
            highest: top,
            received: self.received + 1,
            pending: Map::new(
                |k: u64| self.pending.contains_key(k) || self.highest < k < top,
                |k: u64| if self.highest < k < top {
                    now
                } else {
                    self.pending[k]
                },
            ),
            seen: Set::new(
                |e: u64| e == top || (self.seen.contains(e) && top - e < SEEN_CAPACITY),
            ),
            bad_seq: None,
            bad_count: 0,
            ..self
        }
    }

    /// A pending number arrived after all.
    pub open spec fn reconciled(self, ext: u64) -> Self {
        SeqModel {
            received: self.received + 1,
            out_of_order: self.out_of_order + 1,
            pending: self.pending.remove(ext),
            seen: if self.highest - ext < SEEN_CAPACITY {
                self.seen.insert(ext)
            } else {
                self.seen
            },
            bad_seq: None,
            bad_count: 0,
            ..self
        }
    }

    /// A restart of the source at `seq`.
    pub open spec fn restarted(self, seq: u16) -> Self {
        let m = self.rebased(seq);
        SeqModel {
            received: m.received + 1,
            source_restarts: m.source_restarts + 1,
            ..m
        }
    }

    /// A packet from the past that is neither pending nor a duplicate.  The
    /// [`MAX_MISORDER`]th of a consecutive run means that the source restarted.
    pub open spec fn late(self, seq: u16) -> (Self, SeqOutcome) {
        let counted = SeqModel { too_old: self.too_old + 1, ..self };
        let run = if self.bad_seq == Some(seq) {
            self.bad_count + 1
        } else {
            1
        };
        if run >= MAX_MISORDER {
            (
                counted.restarted(seq),
                SeqOutcome::SourceRestart { from: self.highest_seq(), to: seq },
            )
        } else {
            (
                SeqModel {
                    bad_count: run,
                    bad_seq: Some(
                        if seq == u16::MAX {
                            0
                        } else {
                            (seq + 1) as u16
                        },
                    ),
                    ..counted
                },
                SeqOutcome::TooOld,
            )
        }
    }

    /// The 16-bit number of the highest packet.
    pub open spec fn highest_seq(self) -> u16 {
        (self.highest % 65536) as u16
    }

    /// State and outcome after `seq` arrives at `now`.
    pub open spec fn observed(self, seq: u16, now: u64) -> (Self, SeqOutcome) {
        if !self.primed {
            (SeqModel { received: 1, ..self.rebased(seq) }, SeqOutcome::Init)
        } else {
            match position_spec(self.highest_seq(), seq) {
                Position::Same => (
                    SeqModel { dup: self.dup + 1, ..self },
                    SeqOutcome::Duplicate,
                ),
                Position::FarAway => (
                    self.restarted(seq),
                    SeqOutcome::SourceRestart { from: self.highest_seq(), to: seq },
                ),
                Position::Forward(delta) => (
                    self.advanced(delta as int, now),
                    if delta == 1 {
                        SeqOutcome::InOrder
                    } else {
                        SeqOutcome::Gap { missing: (delta - 1) as u32 }
                    },
                ),
                Position::Backward(back) => {
                    let ext = self.highest - back;
                    if ext >= 0 && self.pending.contains_key(ext as u64) {
                        (self.reconciled(ext as u64), SeqOutcome::Reordered)
                    } else if ext >= 0 && self.seen.contains(ext as u64) {
                        (SeqModel { dup: self.dup + 1, ..self }, SeqOutcome::Duplicate)
                    } else {
                        self.late(seq)
                    }
                },
            }
        }
    }

    /// The pending numbers that waited out `window` by `now`.
    pub open spec fn overdue_gaps(self, now: u64, window: u64) -> Set<u64> {
        self.pending.dom().filter(|k: u64| overdue(self.pending[k], now, window))
    }

    /// The overdue gaps turned into confirmed loss.
    pub open spec fn expired(self, now: u64, window: u64) -> Self {
        SeqModel {
            pending: self.pending.remove_keys(self.overdue_gaps(now, window)),
            missing_confirmed: self.missing_confirmed + self.overdue_gaps(now, window).len(),
            ..self
        }
    }

    /// All gaps turned into confirmed loss.
    pub open spec fn flushed(self) -> Self {
        SeqModel {
            pending: Map::empty(),
            missing_confirmed: self.missing_confirmed + self.pending.len(),
            ..self
        }
    }

    /// What holds of every state that packets can lead to: gaps lie strictly
    /// between the start and the top of the numbering, and nothing is both
    /// pending and received.
    pub open spec fn valid(self) -> bool {
        &&& self.pending.dom().finite()
        &&& self.primed ==> 0 <= self.base <= self.highest && self.seen.contains(
            self.highest as u64,
        )
        &&& !self.primed ==> self.pending.dom() == Set::<u64>::empty() && self.seen
            == Set::<u64>::empty() && self.received == 0
        &&& forall|k: u64| #[trigger]
            self.pending.contains_key(k) ==> self.base < k < self.highest && !self.seen.contains(k)
        &&& forall|e: u64| #[trigger]
            self.seen.contains(e) ==> self.base <= e <= self.highest && self.highest - e
                < SEEN_CAPACITY
        &&& 0 <= self.bad_count < MAX_MISORDER
    }

    /// No total is about to exceed what its 64-bit counter can hold.
    pub open spec fn has_room(self) -> bool {
        &&& self.highest + 65536 <= u64::MAX
        &&& self.received < u64::MAX
        &&& self.dup < u64::MAX
        &&& self.out_of_order < u64::MAX
        &&& self.too_old < u64::MAX
        &&& self.source_restarts < u64::MAX
        &&& self.missing_confirmed + self.pending.len() <= u64::MAX
    }
}

/// Sequence tracking of one synchronisation source.
///
/// Loss is counted with a reconciliation window so that reordering is not
/// mistaken for loss: a skipped number is provisionally lost, and becomes
/// confirmed loss only when the window runs out without it.  Instants are
/// monotonic nanoseconds from an origin of the caller's choice.
#[derive(Debug)]
pub struct RtpSeqState {
    ssrc: u32,
    base_ext: u64,
    max_seq: u16,
    /// Completed 16-bit cycles.
    cycles: u64,
    received: u64,
    dup: u64,
    out_of_order: u64,
    too_old: u64,
    missing_confirmed: u64,
    source_restarts: u64,
    pending_gaps: BTreeMap<u64, u64>,
    seen: SeenWindow,
    bad_seq: Option<u16>,
    bad_count: u16,
    primed: bool,
}

impl View for RtpSeqState {
    type V = SeqModel;

    closed spec fn view(&self) -> SeqModel {
        SeqModel {
            ssrc: self.ssrc,
            primed: self.primed,
            base: self.base_ext as int,
            highest: self.cycles * 65536 + self.max_seq,
            received: self.received as int,
            dup: self.dup as int,
            out_of_order: self.out_of_order as int,
            too_old: self.too_old as int,
            missing_confirmed: self.missing_confirmed as int,
            source_restarts: self.source_restarts as int,
            pending: self.pending_gaps@,
            seen: self.seen.marked(),
            bad_seq: self.bad_seq,
            bad_count: self.bad_count as int,
        }
    }
}

impl RtpSeqState {
    /// The representation invariant.
    pub closed spec fn wf(&self) -> bool {
        &&& self@.valid()
        &&& self.seen.top() == if self.primed {
            Some((self.cycles * 65536 + self.max_seq) as u64)
        } else {
            None
        }
        &&& self.cycles * 65536 + self.max_seq <= u64::MAX
    }

    /// The state of a source before its first packet.
    pub fn new(ssrc: u32) -> (r: Self)
        ensures
            r.wf(),
            r@ == SeqModel::fresh(ssrc),
    {
        let r = RtpSeqState {
            ssrc,
            base_ext: 0,
            max_seq: 0,
            cycles: 0,
            received: 0,
            dup: 0,
            out_of_order: 0,
            too_old: 0,
            missing_confirmed: 0,
            source_restarts: 0,
            pending_gaps: BTreeMap::new(),
            seen: SeenWindow::new(),
            bad_seq: None,
            bad_count: 0,
            primed: false,
        };
        assert(r@.pending =~= Map::empty());
        r
    }

    /// The synchronisation source identifier.
    pub fn ssrc(&self) -> (r: u32)
        ensures
            r == self@.ssrc,
    {
        self.ssrc
    }

    /// Completed 16-bit cycles of the current numbering.
    pub fn cycles(&self) -> (r: u64)
        requires
            self.wf(),
        ensures
            r == self@.highest / 65536,
    {
        self.cycles
    }

    /// The totals so far.
    pub fn counters(&self) -> (r: RtpSeqCounters)
        requires
            self.wf(),
        ensures
            r.ssrc == self@.ssrc,
            r.received == self@.received,
            r.dup == self@.dup,
            r.out_of_order == self@.out_of_order,
            r.too_old == self@.too_old,
            r.missing_confirmed == self@.missing_confirmed,
            r.source_restarts == self@.source_restarts,
            r.pending == self@.pending.len(),
    {
        broadcast use vstd::std_specs::btree::group_btree_axioms;

        RtpSeqCounters {
            ssrc: self.ssrc,
            received: self.received,
            dup: self.dup,
            out_of_order: self.out_of_order,
            too_old: self.too_old,
            missing_confirmed: self.missing_confirmed,
            source_restarts: self.source_restarts,
            pending: self.pending_gaps.len() as u64,
        }
    }

    /// Starts the numbering over at `seq`, keeping the totals.
    fn rebase(&mut self, seq: u16)
        ensures
            final(self).wf(),
            final(self)@ == old(self)@.rebased(seq),
    {
        self.cycles = 0;
        self.max_seq = seq;
        self.base_ext = seq as u64;
        self.pending_gaps.clear();
        self.seen = SeenWindow::new();
        self.seen.advance_to(seq as u64);
        self.seen.mark(seq as u64);
        self.bad_seq = None;
        self.bad_count = 0;
        self.primed = true;
        assert(self@.seen =~= Set::empty().insert(seq as u64));
    }

    /// Extended number of a packet behind the highest one, if the numbering
    /// reaches that far back.
    fn backward_ext(&self, seq: u16) -> (r: Option<u64>)
        requires
            self.wf(),
        ensures
            ({
                let ext = if seq > self.max_seq {
                    (self.cycles - 1) * 65536 + seq
                } else {
                    self.cycles * 65536 + seq
                };
                match r {
                    Some(e) => e == ext,
                    None => ext < 0,
                }
            }),
    {
        let base: u64 = if seq > self.max_seq {
            match self.cycles.checked_sub(1) {
                Some(c) => c,
                None => {
                    return None;
                },
            }
        } else {
            self.cycles
        };
        Some(base * 65_536 + seq as u64)
    }

    /// Counts the arrival of `seq` at `now` and says what it meant.
    pub fn observe(&mut self, seq: u16, now: u64) -> (r: SeqOutcome)
        requires
            old(self).wf(),
            old(self)@.has_room(),
        ensures
            final(self).wf(),
            (final(self)@, r) == old(self)@.observed(seq, now),
    {
        if !self.primed {
            self.rebase(seq);
            self.received = 1;
            return SeqOutcome::Init;
        }
        assert(self@.highest_seq() == self.max_seq);
        match position(self.max_seq, seq) {
            Position::Same => {
                self.dup = self.dup + 1;
                SeqOutcome::Duplicate
            },
            Position::FarAway => {
                let from: u16 = self.max_seq;
                self.rebase(seq);
                self.received = self.received + 1;
                self.source_restarts = self.source_restarts + 1;
                SeqOutcome::SourceRestart { from, to: seq }
            },
            Position::Forward(delta) => {
                self.advance(seq, delta, now);
                let missing: u32 = delta - 1;
                if missing == 0 {
                    SeqOutcome::InOrder
                } else {
                    SeqOutcome::Gap { missing }
                }
            },
            Position::Backward(_) => self.observe_past(seq),
        }
    }

    /// A packet `delta` steps ahead: everything jumped over becomes pending.
    fn advance(&mut self, seq: u16, delta: u32, now: u64)
        requires
            old(self).wf(),
            old(self).primed,
            old(self)@.has_room(),
            position_spec(old(self).max_seq, seq) == Position::Forward(delta),
        ensures
            final(self).wf(),
            final(self)@ == old(self)@.advanced(delta as int, now),
    {
        broadcast use vstd::std_specs::btree::group_btree_axioms;

        if seq < self.max_seq {
            self.cycles = self.cycles + 1;
        }
        let ext: u64 = self.cycles * 65_536 + seq as u64;
        let ghost top = old(self)@.highest;
        assert(ext == top + delta);
        let mut step: u32 = 1;
        while step < delta
            invariant
                1 <= step <= delta,
                ext == top + delta,
                top >= 0,
                top == old(self)@.highest,
                self.pending_gaps@.dom().finite(),
                self.pending_gaps@ == Map::new(
                    |k: u64| old(self).pending_gaps@.contains_key(k) || ext - step < k < ext,
                    |k: u64| if ext - step < k < ext {
                        now
                    } else {
                        old(self).pending_gaps@[k]
                    },
                ),
                forall|k: u64| #[trigger]
                    old(self).pending_gaps@.contains_key(k) ==> k < top,
                (*self) == (RtpSeqState {
                    cycles: self.cycles,
                    pending_gaps: self.pending_gaps,
                    ..*old(self)
                }),
                self.cycles * 65_536 + seq == ext,
            decreases delta - step,
        {
            let ghost before = self.pending_gaps@;
            self.pending_gaps.insert(ext - step as u64, now);
            assert(self.pending_gaps@ =~= before.insert((ext - step) as u64, now));
            step = step + 1;
            assert(self.pending_gaps@ =~= Map::new(
                |k: u64| old(self).pending_gaps@.contains_key(k) || ext - step < k < ext,
                |k: u64|
                    if ext - step < k < ext {
                        now
                    } else {
                        old(self).pending_gaps@[k]
                    },
            ));
        }
        self.max_seq = seq;
        self.seen.advance_to(ext);
        self.seen.mark(ext);
        self.received = self.received + 1;
        self.bad_seq = None;
        self.bad_count = 0;
        assert(self@.pending =~= old(self)@.advanced(delta as int, now).pending);
        assert(self@.seen =~= old(self)@.advanced(delta as int, now).seen);
    }

    /// A packet behind the highest one: a gap filled, a duplicate, or late.
    fn observe_past(&mut self, seq: u16) -> (r: SeqOutcome)
        requires
            old(self).wf(),
            old(self).primed,
            old(self)@.has_room(),
            position_spec(old(self).max_seq, seq) is Backward,
        ensures
            final(self).wf(),
            forall|now: u64| (final(self)@, r) == #[trigger] old(self)@.observed(seq, now),
    {
        broadcast use vstd::std_specs::btree::group_btree_axioms;

        let ghost back = position_spec(self.max_seq, seq)->Backward_0;
        assert(self@.highest_seq() == self.max_seq);
        if let Some(ext) = self.backward_ext(seq) {
            assert(ext == self@.highest - back);
            if self.pending_gaps.remove(&ext).is_some() {
                self.seen.mark(ext);
                self.received = self.received + 1;
                self.out_of_order = self.out_of_order + 1;
                self.bad_seq = None;
                self.bad_count = 0;
                assert(self@.pending =~= old(self)@.pending.remove(ext));
                return SeqOutcome::Reordered;
            }
            assert(self.pending_gaps@ =~= old(self).pending_gaps@);
            if self.seen.contains(ext) {
                self.dup = self.dup + 1;
                return SeqOutcome::Duplicate;
            }
        }
        self.too_old = self.too_old + 1;
        match self.bad_seq {
            Some(expected) if expected == seq => {
                self.bad_count = self.bad_count + 1;
                if self.bad_count >= MAX_MISORDER {
                    let from: u16 = self.max_seq;
                    self.rebase(seq);
                    self.received = self.received + 1;
                    self.source_restarts = self.source_restarts + 1;
                    return SeqOutcome::SourceRestart { from, to: seq };
                }
            },
            _ => {
                self.bad_count = 1;
            },
        }
        self.bad_seq = Some(seq.wrapping_add(1));
        SeqOutcome::TooOld
    }

    /// Confirms as lost the gaps that waited out `window`, and returns how many
    /// were confirmed by this call.
    pub fn expire(&mut self, now: u64, window: u64) -> (r: u64)
        requires
            old(self).wf(),
            old(self)@.has_room(),
        ensures
            final(self).wf(),
            final(self)@ == old(self)@.expired(now, window),
            r == old(self)@.overdue_gaps(now, window).len(),
    {
        broadcast use vstd::std_specs::btree::group_btree_axioms;

        let mut late: Vec<u64> = Vec::new();
        let ghost gaps = self.pending_gaps@;
        let ghost entries = vstd::std_specs::iter::IteratorSpec::remaining(
            &vstd::std_specs::btree::spec_btree_map_iter(&self.pending_gaps),
        );
        for entry in it: self.pending_gaps.iter()
            invariant
                it.seq() == entries,
                entries.no_duplicates(),
                gaps == self.pending_gaps@,
                *self == *old(self),
                forall|i: int|
                    0 <= i < entries.len() ==> gaps.contains_key(*(#[trigger] entries[i]).0)
                        && gaps[*entries[i].0] == *entries[i].1,
                late@.no_duplicates(),
                forall|k: u64| late@.contains(k) ==> exists|i: int|
                    0 <= i < it.index() && k == *(#[trigger] entries[i]).0 && overdue(
                        *entries[i].1,
                        now,
                        window,
                    ),
                forall|i: int|
                    0 <= i < it.index() && overdue(*(#[trigger] entries[i]).1, now, window)
                        ==> late@.contains(*entries[i].0),
        {
            let (ext, since) = entry;
            let waited: u64 = now.saturating_sub(*since);
            let ghost n = it.index();
            assert(entries[n] == entry);
            if waited >= window {
                proof {
                    if late@.contains(*ext) {
                        let i = choose|i: int|
                            0 <= i < n && *ext == *(#[trigger] entries[i]).0 && overdue(
                                *entries[i].1,
                                now,
                                window,
                            );
                        assert(entries[i] == entries[n]);
                    }
                }
                let ghost before = late@;
                late.push(*ext);
                proof {
                    assert(late@.last() == *ext);
                    assert forall|k: u64| late@.contains(k) implies exists|i: int|
                        0 <= i < n + 1 && k == *(#[trigger] entries[i]).0 && overdue(
                            *entries[i].1,
                            now,
                            window,
                        ) by {
                        let j = choose|j: int| 0 <= j < late@.len() && late@[j] == k;
                        if j < before.len() {
                            assert(before[j] == k);
                            assert(before.contains(k));
                        } else {
                            assert(k == *entries[n].0);
                        }
                    }
                    assert forall|k: u64| before.contains(k) implies late@.contains(k) by {
                        let j = choose|j: int| 0 <= j < before.len() && before[j] == k;
                        assert(late@[j] == k);
                    }
                }
            }
        }
        proof {
            assert(late@.to_set() =~= old(self)@.overdue_gaps(now, window)) by {
                assert forall|k: u64| late@.contains(k) == old(self)@.overdue_gaps(
                    now,
                    window,
                ).contains(k) by {
                    if gaps.contains_key(k) && overdue(gaps[k], now, window) {
                        assert(entries.contains((&k, &gaps[k])));
                        let j = choose|j: int|
                            0 <= j < entries.len() && entries[j] == (&k, &gaps[k]);
                        assert(late@.contains(*entries[j].0));
                    }
                }
            }
            late@.unique_seq_to_set();
        }
        let mut i: usize = 0;
        while i < late.len()
            invariant
                i <= late.len(),
                self.pending_gaps@ == gaps.remove_keys(late@.take(i as int).to_set()),
                *self == (RtpSeqState { pending_gaps: self.pending_gaps, ..*old(self) }),
            decreases late.len() - i,
        {
            let ghost before = self.pending_gaps@;
            self.pending_gaps.remove(&late[i]);
            proof {
                assert(self.pending_gaps@ == before.remove(late@[i as int]));
                assert(late@.take(i + 1) =~= late@.take(i as int).push(late@[i as int]));
                assert(late@.take(i + 1).to_set() =~= late@.take(i as int).to_set().insert(
                    late@[i as int],
                )) by {
                    late@.take(i as int).lemma_push_to_set_commute(late@[i as int]);
                }
                assert(self.pending_gaps@ =~= gaps.remove_keys(late@.take(i + 1).to_set()));
            }
            i = i + 1;
        }
        proof {
            assert(late@.take(late@.len() as int) =~= late@);
            assert(self@.pending.dom().subset_of(old(self)@.pending.dom()));
            assert(!self.primed ==> self@.pending.dom() =~= Set::<u64>::empty());
            vstd::set_lib::lemma_set_subset_finite(
                old(self)@.pending.dom(),
                self@.pending.dom(),
            );
            vstd::set_lib::lemma_len_subset(
                old(self)@.overdue_gaps(now, window),
                old(self)@.pending.dom(),
            );
        }
        let confirmed: u64 = late.len() as u64;
        self.missing_confirmed = self.missing_confirmed + confirmed;
        confirmed
    }

    /// Confirms every pending gap as lost, and returns how many there were.
    pub fn flush(&mut self) -> (r: u64)
        requires
            old(self).wf(),
            old(self)@.has_room(),
        ensures
            final(self).wf(),
            final(self)@ == old(self)@.flushed(),
            r == old(self)@.pending.len(),
    {
        broadcast use vstd::std_specs::btree::group_btree_axioms;

        let confirmed: u64 = self.pending_gaps.len() as u64;
        self.pending_gaps.clear();
        self.missing_confirmed = self.missing_confirmed + confirmed;
        confirmed
    }
}

impl RtpSeqState {
    /// Every state that the operations lead to is a valid one.
    pub proof fn law_reachable_states_are_valid(&self)
        requires
            self.wf(),
        ensures
            self@.valid(),
    {
    }
}

impl SeqModel {
    /// Numbers accounted for: received, still pending, or confirmed lost.
    pub open spec fn accounted(self) -> int {
        self.received + self.pending.len() + self.missing_confirmed
    }

    /// State after `n` packets that each carry the next number.
    pub open spec fn after_run(self, n: nat, now: u64) -> Self
        decreases n,
    {
        if n == 0 {
            self
        } else {
            let m = self.after_run((n - 1) as nat, now);
            m.observed(((m.highest + 1) % 65536) as u16, now).0
        }
    }
}

/// Jumping `delta` steps ahead opens exactly `delta - 1` gaps.
proof fn lemma_gap_count(m: SeqModel, delta: int, now: u64)
    requires
        m.valid(),
        0 <= m.highest,
        m.highest + delta <= u64::MAX,
        delta >= 1,
    ensures
        m.advanced(delta, now).pending.dom().finite(),
        m.advanced(delta, now).pending.len() == m.pending.len() + delta - 1,
    decreases delta,
{
    let after = m.advanced(delta, now).pending.dom();
    if delta == 1 {
        assert(after =~= m.pending.dom());
    } else {
        lemma_gap_count(m, delta - 1, now);
        let before = m.advanced(delta - 1, now).pending.dom();
        let added = (m.highest + delta - 1) as u64;
        assert(after =~= before.insert(added));
        assert(!before.contains(added));
    }
}

/// An observation leads from a valid state to a valid state.
pub proof fn law_observation_keeps_validity(m: SeqModel, seq: u16, now: u64)
    requires
        m.valid(),
        m.highest + 65536 <= u64::MAX,
    ensures
        m.observed(seq, now).0.valid(),
{
    if m.primed {
        if let Position::Forward(delta) = position_spec(m.highest_seq(), seq) {
            lemma_gap_count(m, delta as int, now);
        }
    }
}

/// Unless the source restarts, the numbers accounted for grow exactly as the
/// highest number does: nothing is counted twice and nothing is forgotten.
pub proof fn law_every_number_is_accounted_for(m: SeqModel, seq: u16, now: u64)
    requires
        m.valid(),
        m.primed,
        m.highest + 65536 <= u64::MAX,
        !(m.observed(seq, now).1 is SourceRestart),
    ensures
        m.observed(seq, now).0.accounted() - m.accounted() == m.observed(seq, now).0.highest
            - m.highest,
{
    if let Position::Forward(delta) = position_spec(m.highest_seq(), seq) {
        lemma_gap_count(m, delta as int, now);
    }
}

/// Confirming loss moves gaps from pending to lost without changing how many
/// numbers are accounted for, and leaves every other total alone.
pub proof fn law_confirmation_only_moves_gaps(m: SeqModel, now: u64, window: u64)
    requires
        m.valid(),
    ensures
        m.expired(now, window).accounted() == m.accounted(),
        m.expired(now, window).received == m.received,
        m.expired(now, window).valid(),
        m.flushed().accounted() == m.accounted(),
        m.flushed().pending.len() == 0,
        m.flushed().valid(),
{
    let late = m.overdue_gaps(now, window);
    vstd::set_lib::lemma_set_subset_finite(m.pending.dom(), late);
    m.pending.lemma_remove_keys_len(late);
    let kept = m.expired(now, window).pending.dom();
    assert(kept.subset_of(m.pending.dom()));
    vstd::set_lib::lemma_set_subset_finite(m.pending.dom(), kept);
    assert(!m.primed ==> kept =~= Set::<u64>::empty());
    assert(m.flushed().pending.dom() =~= Set::<u64>::empty());
}

/// A packet never takes confirmed loss back: a late one is late, not a
/// negative loss.
pub proof fn law_arrivals_never_change_confirmed_loss(m: SeqModel, seq: u16, now: u64)
    ensures
        m.observed(seq, now).0.missing_confirmed == m.missing_confirmed,
{
}

/// A restart is not loss: the open gaps are dropped without being counted, and
/// the restarting packet is received.
pub proof fn law_restart_is_not_loss(m: SeqModel, seq: u16, now: u64)
    requires
        m.observed(seq, now).1 is SourceRestart,
    ensures
        m.observed(seq, now).0.missing_confirmed == m.missing_confirmed,
        m.observed(seq, now).0.pending.len() == 0,
        m.observed(seq, now).0.received == m.received + 1,
        m.observed(seq, now).0.source_restarts == m.source_restarts + 1,
        m.observed(seq, now).0.highest == seq,
{
    assert(m.observed(seq, now).0.pending =~= Map::<u64, u64>::empty());
}

/// A pending number that arrives is a reordering; it can no longer become
/// confirmed loss, whatever time passes.
pub proof fn law_reordering_is_not_loss(m: SeqModel, back: u32, now: u64, later: u64, window: u64)
    requires
        m.valid(),
        m.primed,
        1 <= back <= MAX_DROPOUT,
        m.highest - back >= 0,
        m.pending.contains_key((m.highest - back) as u64),
    ensures
        ({
            let seq = ((m.highest - back) % 65536) as u16;
            let (n, outcome) = m.observed(seq, now);
            &&& outcome == SeqOutcome::Reordered
            &&& n.received == m.received + 1
            &&& n.out_of_order == m.out_of_order + 1
            &&& n.missing_confirmed == m.missing_confirmed
            &&& !n.overdue_gaps(later, window).contains((m.highest - back) as u64)
        }),
{
    let seq = ((m.highest - back) % 65536) as u16;
    assert(position_spec(m.highest_seq(), seq) == Position::Backward(back));
}

/// A number observed again right after it was received is a duplicate, and the
/// repetition changes nothing but the duplicate total.
pub proof fn law_repetition_is_a_duplicate(m: SeqModel, seq: u16, now: u64, later: u64)
    requires
        m.valid(),
        m.highest + 65536 <= u64::MAX,
        !(m.observed(seq, now).1 is TooOld),
        m.observed(seq, now).1 is Reordered ==> steps_ahead(seq, m.highest_seq()) < SEEN_CAPACITY,
    ensures
        ({
            let n = m.observed(seq, now).0;
            n.observed(seq, later) == (
                SeqModel { dup: n.dup + 1, ..n },
                SeqOutcome::Duplicate,
            )
        }),
{
    let n = m.observed(seq, now).0;
    law_observation_keeps_validity(m, seq, now);
    if m.primed && (m.observed(seq, now).1 is Reordered || m.observed(seq, now).1 is Duplicate) {
        assert(n.highest == m.highest);
    } else {
        assert(n.highest_seq() == seq);
    }
}

/// The next number in the sequence, across the wrap too, is in order: it is
/// received and nothing else changes.
pub proof fn law_next_number_is_in_order(m: SeqModel, now: u64)
    requires
        m.valid(),
        m.primed,
        m.highest + 65536 <= u64::MAX,
    ensures
        ({
            let (n, outcome) = m.observed(((m.highest + 1) % 65536) as u16, now);
            &&& outcome == SeqOutcome::InOrder
            &&& n.valid()
            &&& n == SeqModel {
                highest: m.highest + 1,
                received: m.received + 1,
                seen: n.seen,
                bad_seq: None,
                bad_count: 0,
                ..m
            }
        }),
{
    let seq = ((m.highest + 1) % 65536) as u16;
    assert(position_spec(m.highest_seq(), seq) == Position::Forward(1));
    law_observation_keeps_validity(m, seq, now);
    assert(m.advanced(1, now).pending =~= m.pending);
}

/// An unbroken run of packets, through any number of wraps, is received in
/// full and produces no anomaly of any sort.
pub proof fn law_continuous_run_has_no_anomalies(m: SeqModel, n: nat, now: u64)
    requires
        m.valid(),
        m.primed,
        m.highest + n + 65536 <= u64::MAX,
    ensures
        ({
            let after = m.after_run(n, now);
            &&& after.valid()
            &&& after.primed
            &&& after.highest == m.highest + n
            &&& after.received == m.received + n
            &&& after.dup == m.dup
            &&& after.out_of_order == m.out_of_order
            &&& after.too_old == m.too_old
            &&& after.missing_confirmed == m.missing_confirmed
            &&& after.source_restarts == m.source_restarts
            &&& after.pending == m.pending
        }),
    decreases n,
{
    if n > 0 {
        law_continuous_run_has_no_anomalies(m, (n - 1) as nat, now);
        law_next_number_is_in_order(m.after_run((n - 1) as nat, now), now);
    }
}

/// Stepping around the 16-bit circle and asking for the position agree: up to
/// 3000 steps either way are told with their direction and number, and
/// everything between is far away.
pub proof fn law_position_tells_the_steps(from: u16, steps: int)
    requires
        0 <= steps < 65536,
    ensures
        ({
            let ahead = position_spec(from, ((from + steps) % 65536) as u16);
            let behind = position_spec(from, ((from - steps) % 65536) as u16);
            &&& steps == 0 ==> ahead == Position::Same && behind == Position::Same
            &&& 1 <= steps <= 3000 ==> ahead == Position::Forward(steps as u32) && behind
                == Position::Backward(steps as u32)
            &&& 3000 < steps < 62536 ==> ahead == Position::FarAway && behind == Position::FarAway
        }),
{
    let (up, down) = (((from + steps) % 65536) as u16, ((from - steps) % 65536) as u16);
    assert(up == if from + steps < 65536 {
        from + steps
    } else {
        from + steps - 65536
    });
    assert(down == if from >= steps {
        from - steps
    } else {
        from - steps + 65536
    });
}

/// Where a number lies is told from the highest one alone, however often the
/// numbering has wrapped.
proof fn lemma_position_of_extended(m: SeqModel, number: int)
    requires
        m.highest >= 0,
    ensures
        m.highest - 3000 <= number < m.highest ==> position_spec(
            m.highest_seq(),
            (number % 65536) as u16,
        ) == Position::Backward((m.highest - number) as u32),
        m.highest < number <= m.highest + 3000 ==> position_spec(
            m.highest_seq(),
            (number % 65536) as u16,
        ) == Position::Forward((number - m.highest) as u32),
        m.highest + 3000 < number < m.highest + 62536 ==> position_spec(
            m.highest_seq(),
            (number % 65536) as u16,
        ) == Position::FarAway,
{
    let from = m.highest_seq();
    assert(from == m.highest % 65536);
    if m.highest <= number < m.highest + 65536 {
        law_position_tells_the_steps(from, number - m.highest);
        assert((from + (number - m.highest)) % 65536 == number % 65536);
    } else if m.highest - 65536 < number < m.highest {
        law_position_tells_the_steps(from, m.highest - number);
        assert((from - (m.highest - number)) % 65536 == number % 65536);
    }
}

/// The first packet starts the numbering, whatever its number, and nothing is
/// missing before it.
pub proof fn law_first_packet_starts_the_count(ssrc: u32, seq: u16, now: u64)
    ensures
        ({
            let (n, outcome) = SeqModel::fresh(ssrc).observed(seq, now);
            &&& outcome == SeqOutcome::Init
            &&& n.ssrc == ssrc
            &&& n.primed
            &&& n.base == seq
            &&& n.highest == seq
            &&& n.received == 1
            &&& n.dup == 0
            &&& n.out_of_order == 0
            &&& n.too_old == 0
            &&& n.missing_confirmed == 0
            &&& n.source_restarts == 0
            &&& n.pending == Map::<u64, u64>::empty()
            &&& n.seen == Set::<u64>::empty().insert(seq as u64)
        }),
{
}

/// A packet up to 3000 numbers ahead is received.  The numbers between it and
/// the highest one before, and no others, are found missing at this moment,
/// and the outcome says how many they are.  No other total changes.
pub proof fn law_jump_ahead_tells_what_is_missing(m: SeqModel, steps: int, now: u64)
    requires
        m.valid(),
        m.primed,
        m.highest + 65536 <= u64::MAX,
        1 <= steps <= 3000,
    ensures
        ({
            let (n, outcome) = m.observed(((m.highest + steps) % 65536) as u16, now);
            &&& outcome == if steps == 1 {
                SeqOutcome::InOrder
            } else {
                SeqOutcome::Gap { missing: (steps - 1) as u32 }
            }
            &&& n.pending.len() == m.pending.len() + steps - 1
            &&& n.highest == m.highest + steps
            &&& n.base == m.base
            &&& n.received == m.received + 1
            &&& n.dup == m.dup
            &&& n.out_of_order == m.out_of_order
            &&& n.too_old == m.too_old
            &&& n.missing_confirmed == m.missing_confirmed
            &&& n.source_restarts == m.source_restarts
            &&& n.bad_seq is None
            &&& n.ssrc == m.ssrc
            &&& n.seen.contains((m.highest + steps) as u64)
            &&& forall|k: u64| #[trigger]
                n.pending.contains_key(k) <==> m.pending.contains_key(k) || m.highest < k < m.highest
                    + steps
            &&& forall|k: u64| #[trigger]
                n.pending.contains_key(k) ==> n.pending[k] == if k > m.highest {
                    now
                } else {
                    m.pending[k]
                }
            &&& forall|k: u64|
                m.highest + steps - 1024 < k <= m.highest ==> n.seen.contains(k)
                    == #[trigger] m.seen.contains(k)
        }),
{
    lemma_position_of_extended(m, m.highest + steps);
    lemma_gap_count(m, steps, now);
}

/// A number jumped over that turns up is a reordering: it is received and no
/// longer missing.  Nothing else changes.
pub proof fn law_missing_number_that_arrives_is_received(m: SeqModel, number: u64, now: u64)
    requires
        m.valid(),
        m.primed,
        m.pending.contains_key(number),
        m.highest - number <= 3000,
    ensures
        ({
            let (n, outcome) = m.observed((number % 65536) as u16, now);
            &&& outcome == SeqOutcome::Reordered
            &&& n.received == m.received + 1
            &&& n.out_of_order == m.out_of_order + 1
            &&& n.highest == m.highest
            &&& n.base == m.base
            &&& n.dup == m.dup
            &&& n.too_old == m.too_old
            &&& n.missing_confirmed == m.missing_confirmed
            &&& n.source_restarts == m.source_restarts
            &&& n.bad_seq is None
            &&& n.ssrc == m.ssrc
            &&& n.pending.len() == m.pending.len() - 1
            &&& forall|k: u64| #[trigger]
                n.pending.contains_key(k) <==> m.pending.contains_key(k) && k != number
            &&& forall|k: u64| #[trigger]
                n.pending.contains_key(k) ==> n.pending[k] == m.pending[k]
            &&& forall|k: u64| #[trigger]
                n.seen.contains(k) <==> m.seen.contains(k) || (k == number && m.highest - number
                    < 1024)
        }),
{
    lemma_position_of_extended(m, number as int);
}

/// A number received within the last 1024 is a duplicate: it is counted as
/// one, and nothing else changes.
pub proof fn law_received_number_is_a_duplicate(m: SeqModel, number: u64, now: u64)
    requires
        m.valid(),
        m.primed,
        m.seen.contains(number),
    ensures
        m.observed((number % 65536) as u16, now) == (
            SeqModel { dup: m.dup + 1, ..m },
            SeqOutcome::Duplicate,
        ),
{
    lemma_position_of_extended(m, number as int);
    assert(!m.pending.contains_key(number));
    assert(number == m.highest ==> (number % 65536) as u16 == m.highest_seq());
}

/// A number more than 3000 away in both directions starts the numbering over:
/// it is received, what was missing is forgotten, and the outcome names the
/// two numbers.
pub proof fn law_far_number_is_a_restart(m: SeqModel, steps: int, now: u64)
    requires
        m.primed,
        m.highest >= 0,
        3000 < steps < 62536,
    ensures
        ({
            let seq = ((m.highest + steps) % 65536) as u16;
            let (n, outcome) = m.observed(seq, now);
            &&& outcome == SeqOutcome::SourceRestart { from: (m.highest % 65536) as u16, to: seq }
            &&& n.primed
            &&& n.base == seq
            &&& n.highest == seq
            &&& n.received == m.received + 1
            &&& n.source_restarts == m.source_restarts + 1
            &&& n.dup == m.dup
            &&& n.out_of_order == m.out_of_order
            &&& n.too_old == m.too_old
            &&& n.missing_confirmed == m.missing_confirmed
            &&& n.bad_seq is None
            &&& n.bad_count == 0
            &&& n.ssrc == m.ssrc
            &&& n.pending == Map::<u64, u64>::empty()
            &&& n.seen == Set::<u64>::empty().insert(seq as u64)
        }),
{
    lemma_position_of_extended(m, m.highest + steps);
}

/// A number up to 3000 behind that is neither missing nor known is too old.
/// It is counted as that and nothing else of the count changes, unless 99 such
/// packets came right before it with the 99 numbers before its own: then the
/// source has restarted there.
pub proof fn law_unknown_past_number_is_too_old(m: SeqModel, back: int, now: u64)
    requires
        m.valid(),
        m.primed,
        1 <= back <= 3000,
        m.highest >= back ==> !m.pending.contains_key((m.highest - back) as u64)
            && !m.seen.contains((m.highest - back) as u64),
    ensures
        ({
            let seq = ((m.highest - back) % 65536) as u16;
            let (n, outcome) = m.observed(seq, now);
            let continues = m.bad_seq == Some(seq);
            &&& n.too_old == m.too_old + 1
            &&& n.dup == m.dup
            &&& n.out_of_order == m.out_of_order
            &&& n.missing_confirmed == m.missing_confirmed
            &&& n.ssrc == m.ssrc
            &&& if continues && m.bad_count == 99 {
                &&& outcome == SeqOutcome::SourceRestart {
                    from: (m.highest % 65536) as u16,
                    to: seq,
                }
                &&& n.highest == seq
                &&& n.base == seq
                &&& n.received == m.received + 1
                &&& n.source_restarts == m.source_restarts + 1
                &&& n.pending == Map::<u64, u64>::empty()
                &&& n.seen == Set::<u64>::empty().insert(seq as u64)
                &&& n.bad_seq is None
                &&& n.bad_count == 0
            } else {
                &&& outcome == SeqOutcome::TooOld
                &&& n.highest == m.highest
                &&& n.base == m.base
                &&& n.received == m.received
                &&& n.source_restarts == m.source_restarts
                &&& n.pending == m.pending
                &&& n.seen == m.seen
                &&& n.bad_seq == Some(((seq + 1) % 65536) as u16)
                &&& n.bad_count == if continues {
                    m.bad_count + 1
                } else {
                    1
                }
            }
        }),
{
    lemma_position_of_extended(m, m.highest - back);
}

/// A missing number is confirmed lost when it has been missing for as long as
/// the window says, and not before; what is not confirmed stays missing since
/// the same moment.
pub proof fn law_loss_is_confirmed_when_the_window_ran_out(m: SeqModel, now: u64, window: u64)
    requires
        m.valid(),
    ensures
        ({
            let n = m.expired(now, window);
            &&& forall|k: u64| #[trigger]
                n.pending.contains_key(k) <==> m.pending.contains_key(k) && (if now
                    > m.pending[k] {
                    now - m.pending[k]
                } else {
                    0
                }) < window
            &&& forall|k: u64| #[trigger]
                n.pending.contains_key(k) ==> n.pending[k] == m.pending[k]
            &&& n.missing_confirmed - m.missing_confirmed == m.pending.len() - n.pending.len()
            &&& n.missing_confirmed - m.missing_confirmed == m.overdue_gaps(now, window).len()
            &&& n == (SeqModel {
                pending: n.pending,
                missing_confirmed: n.missing_confirmed,
                ..m
            })
            &&& m.flushed() == (SeqModel {
                pending: Map::empty(),
                missing_confirmed: m.missing_confirmed + m.pending.len(),
                ..m
            })
        }),
{
    law_confirmation_only_moves_gaps(m, now, window);
}

} // verus!
