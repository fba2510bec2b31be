use vstd::prelude::*;
use vstd::string::StringExecFns;

verus! {

/// Nanoseconds to wait between two attempts to recover the device.
pub const TDR_RETRY_COOLDOWN: u64 = 250_000_000;

/// Consecutive failed attempts after which recovery is given up.
pub const TDR_MAX_ATTEMPTS: u32 = 4;

/// Where a recovery stands.
#[derive(Debug, Clone, Copy, PartialEq, Eq, Structural)]
pub enum TdrPhase {
    Healthy,
    Recovering,
    /// Given up for good.
    Failed,
}

/// What a recovery has come to.
#[verifier::ext_equal]
pub ghost struct TdrModel {
    pub phase: TdrPhase,
    pub successes: u64,
    /// Failed attempts since the last success.
    pub attempts: u32,
    pub last_attempt: Option<u64>,
    pub reason: Option<Seq<char>>,
}

impl TdrModel {
    pub open spec fn initial() -> Self {
        TdrModel {
            phase: TdrPhase::Healthy,
            successes: 0,
            attempts: 0,
            last_attempt: None,
            reason: None,
        }
    }

    /// Recovery is given up exactly when the attempts are used up.
    pub open spec fn valid(self) -> bool {
        self.phase == TdrPhase::Failed <==> self.attempts >= TDR_MAX_ATTEMPTS
    }

    pub open spec fn device_removed(self) -> Self {
        if self.phase == TdrPhase::Failed {
            self
        } else {
            TdrModel { phase: TdrPhase::Recovering, ..self }
        }
    }

    /// Whether a new attempt is due at `now`.
    pub open spec fn due(self, now: u64) -> bool {
        &&& self.phase == TdrPhase::Recovering
        &&& self.attempts < TDR_MAX_ATTEMPTS
        &&& self.last_attempt matches Some(t) ==> now - t >= TDR_RETRY_COOLDOWN
    }

    pub open spec fn succeeded(self, now: u64) -> Self {
        TdrModel {
            phase: TdrPhase::Healthy,
            successes: if self.successes == u64::MAX {
                self.successes
            } else {
                (self.successes + 1) as u64
            },
            attempts: 0,
            last_attempt: Some(now),
            reason: None,
        }
    }

    pub open spec fn failed(self, now: u64, reason: Seq<char>) -> Self {
        if self.phase == TdrPhase::Failed {
            self
        } else {
            let attempts = if self.attempts == u32::MAX {
                self.attempts
            } else {
                (self.attempts + 1) as u32
            };
            TdrModel {
                phase: if attempts >= TDR_MAX_ATTEMPTS {
                    TdrPhase::Failed
                } else {
                    TdrPhase::Recovering
                },
                attempts,
                last_attempt: Some(now),
                reason: Some(reason),
                ..self
            }
        }
    }
}

/// Decides when to recreate a graphics device that its driver removed, and
/// when to give up.  Instants are monotonic nanoseconds.
#[derive(Debug, Clone)]
pub struct TdrState {
    phase: TdrPhase,
    successful_recoveries: u64,
    consecutive_attempts: u32,
    last_attempt: Option<u64>,
    last_failure_reason: Option<String>,
}

impl View for TdrState {
    type V = TdrModel;

    closed spec fn view(&self) -> TdrModel {
        TdrModel {
            phase: self.phase,
            successes: self.successful_recoveries,
            attempts: self.consecutive_attempts,
            last_attempt: self.last_attempt,
            reason: match self.last_failure_reason {
                Some(s) => Some(s@),
                None => None,
            },
        }
    }
}

impl Default for TdrState {
    fn default() -> (r: Self)
        ensures
            r@ == TdrModel::initial(),
    {
        TdrState {
            phase: TdrPhase::Healthy,
            successful_recoveries: 0,
            consecutive_attempts: 0,
            last_attempt: None,
            last_failure_reason: None,
        }
    }
}

impl TdrState {
    /// A healthy device.
    pub fn new() -> (r: Self)
        ensures
            r@ == TdrModel::initial(),
    {
        TdrState {
            phase: TdrPhase::Healthy,
            successful_recoveries: 0,
            consecutive_attempts: 0,
            last_attempt: None,
            last_failure_reason: None,
        }
    }

    /// The device was removed: recovery starts, unless it was given up.
    pub fn signal_device_removed(&mut self)
        ensures
            final(self)@ == old(self)@.device_removed(),
    {
        match self.phase {
            TdrPhase::Failed => {},
            _ => {
                self.phase = TdrPhase::Recovering;
            },
        }
    }

    /// Whether the device should be recreated at `now`.
    pub fn should_attempt(&self, now: u64) -> (r: bool)
        ensures
            r == self@.due(now),
    {
        match self.phase {
            TdrPhase::Recovering => {},
            _ => {
                return false;
            },
        }
        if self.consecutive_attempts >= TDR_MAX_ATTEMPTS {
            return false;
        }
        match self.last_attempt {
            None => true,
            Some(t) => now.saturating_sub(t) >= TDR_RETRY_COOLDOWN,
        }
    }

    /// An attempt succeeded.
    pub fn record_success(&mut self, now: u64)
        ensures
            final(self)@ == old(self)@.succeeded(now),
    {
        self.successful_recoveries = self.successful_recoveries.saturating_add(1);
        self.consecutive_attempts = 0;
        self.last_attempt = Some(now);
        self.last_failure_reason = None;
        self.phase = TdrPhase::Healthy;
    }

    /// An attempt failed; says whether recovery is now given up.
    #[must_use]
    pub fn record_failure(&mut self, now: u64, reason: &str) -> (r: bool)
        ensures
            final(self)@ == old(self)@.failed(now, reason@),
            r == (final(self)@.phase == TdrPhase::Failed),
    {
        match self.phase {
            TdrPhase::Failed => {
                return true;
            },
            _ => {},
        }
        self.phase = TdrPhase::Recovering;
        self.consecutive_attempts = self.consecutive_attempts.saturating_add(1);
        self.last_attempt = Some(now);
        self.last_failure_reason = Some(String::from_str(reason));
        if self.consecutive_attempts >= TDR_MAX_ATTEMPTS {
            self.phase = TdrPhase::Failed;
            true
        } else {
            false
        }
    }

    pub fn successful_recoveries(&self) -> (r: u64)
        ensures
            r == self@.successes,
    {
        self.successful_recoveries
    }

    pub fn is_failed(&self) -> (r: bool)
        ensures
            r == (self@.phase == TdrPhase::Failed),
    {
        match self.phase {
            TdrPhase::Failed => true,
            _ => false,
        }
    }

    pub fn is_recovering(&self) -> (r: bool)
        ensures
            r == (self@.phase == TdrPhase::Recovering),
    {
        match self.phase {
            TdrPhase::Recovering => true,
            _ => false,
        }
    }

    /// Why the last attempt failed.
    pub fn last_failure_reason(&self) -> (r: Option<&str>)
        ensures
            match r {
                Some(s) => self@.reason == Some(s@),
                None => self@.reason is None,
            },
    {
        match &self.last_failure_reason {
            Some(s) => Some(s.as_str()),
            None => None,
        }
    }
}

/// Recovery is given up exactly when the attempts run out, whatever happens.
pub proof fn law_attempts_decide_failure(m: TdrModel, now: u64, reason: Seq<char>)
    requires
        m.valid(),
    ensures
        TdrModel::initial().valid(),
        m.device_removed().valid(),
        m.failed(now, reason).valid(),
        m.succeeded(now).valid(),
{
}

/// Given up means given up: no removal and no further failure changes anything,
/// and no attempt is ever due again.
pub proof fn law_failure_is_terminal(m: TdrModel, now: u64, reason: Seq<char>)
    requires
        m.phase == TdrPhase::Failed,
    ensures
        m.device_removed() == m,
        m.failed(now, reason) == m,
        !m.due(now),
{
}

/// After a failed attempt the next one waits out the cooldown, then is due.
pub proof fn law_attempts_are_spaced(m: TdrModel, at: u64, reason: Seq<char>, now: u64)
    requires
        m.attempts + 1 < TDR_MAX_ATTEMPTS,
        m.phase != TdrPhase::Failed,
    ensures
        m.failed(at, reason).due(now) <==> now - at >= TDR_RETRY_COOLDOWN,
{
}

/// A device that was never removed is left alone; the first removal allows an
/// attempt at once.
pub proof fn law_first_attempt_is_immediate(now: u64)
    ensures
        !TdrModel::initial().due(now),
        TdrModel::initial().device_removed().due(now),
{
}

/// What each event does: a removal starts a recovery, a failed attempt is
/// counted with its time and reason and ends the recovery at the fourth in a
/// row, and a success clears the count.
pub proof fn law_events_of_a_recovery(m: TdrModel, now: u64, reason: Seq<char>)
    requires
        m.attempts < u32::MAX,
        m.successes < u64::MAX,
    ensures
        m.phase != TdrPhase::Failed ==> m.device_removed() == (TdrModel {
            phase: TdrPhase::Recovering,
            ..m
        }),
        m.succeeded(now) == (TdrModel {
            phase: TdrPhase::Healthy,
            successes: (m.successes + 1) as u64,
            attempts: 0,
            last_attempt: Some(now),
            reason: None,
        }),
        m.phase != TdrPhase::Failed ==> m.failed(now, reason) == (TdrModel {
            phase: if m.attempts + 1 >= 4 {
                TdrPhase::Failed
            } else {
                TdrPhase::Recovering
            },
            successes: m.successes,
            attempts: (m.attempts + 1) as u32,
            last_attempt: Some(now),
            reason: Some(reason),
        }),
        m.due(now) <==> m.phase == TdrPhase::Recovering && m.attempts < 4 && (m.last_attempt is None
            || now >= m.last_attempt->0 + 250_000_000),
{
}

/// At first the device is healthy, and nothing was attempted or counted.
pub proof fn law_recovery_begins_healthy()
    ensures
        TdrModel::initial().phase == TdrPhase::Healthy,
        TdrModel::initial().successes == 0,
        TdrModel::initial().attempts == 0,
        TdrModel::initial().last_attempt is None,
        TdrModel::initial().reason is None,
        TdrModel::initial().valid(),
{
}

} // verus!
