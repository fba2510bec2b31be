use vstd::prelude::*;
use vstd::string::StringExecFns;

verus! {

/// Hardware acceleration asked for.  The graphics device itself stays with the
/// caller.
#[derive(Debug, Clone, Copy, PartialEq, Eq, Structural)]
pub enum HwAccelMode {
    /// Decode in software.
    Off,
    /// Decode on the shared Direct3D 11 device.
    D3d11Va,
}

impl HwAccelMode {
    pub fn is_gpu(&self) -> (r: bool)
        ensures
            r == (*self == HwAccelMode::D3d11Va),
    {
        match self {
            HwAccelMode::Off => false,
            HwAccelMode::D3d11Va => true,
        }
    }

    /// A stable label for metrics.
    pub fn label(&self) -> (r: &'static str)
        ensures
            r@ == (match self {
                HwAccelMode::Off => "off"@,
                HwAccelMode::D3d11Va => "d3d11va"@,
            }),
    {
        match self {
            HwAccelMode::Off => "off",
            HwAccelMode::D3d11Va => "d3d11va",
        }
    }
}

/// Consecutive hardware failures that make the decoder fall back to software.
pub const HW_FALLBACK_THRESHOLD: u32 = 3;

/// What is known of hardware decoding.
#[verifier::ext_equal]
pub ghost struct HwAccelModel {
    /// Whether frames are being decoded in hardware.
    pub active: bool,
    /// Failures since the last good frame.
    pub failures: u32,
    /// Why the decoder fell back, if it did.
    pub reason: Option<Seq<char>>,
}

impl HwAccelModel {
    pub open spec fn initial() -> Self {
        HwAccelModel { active: false, failures: 0, reason: None }
    }

    pub open spec fn activated() -> Self {
        HwAccelModel { active: true, failures: 0, reason: None }
    }

    pub open spec fn failed_once_more(self) -> Self {
        HwAccelModel {
            failures: if self.failures == u32::MAX {
                self.failures
            } else {
                (self.failures + 1) as u32
            },
            ..self
        }
    }

    pub open spec fn succeeded(self) -> Self {
        HwAccelModel { failures: 0, ..self }
    }

    /// Back in software; the first reason is the one that is kept.
    pub open spec fn fallen_back(self, reason: Seq<char>) -> Self {
        HwAccelModel {
            active: false,
            failures: 0,
            reason: if self.reason is None {
                Some(reason)
            } else {
                self.reason
            },
        }
    }
}

/// Decides when hardware decoding is given up.  Once it is, only a new
/// activation brings it back.
#[derive(Debug, Clone)]
pub struct HwAccelState {
    active: bool,
    consecutive_failures: u32,
    fallback_reason: Option<String>,
}

impl View for HwAccelState {
    type V = HwAccelModel;

    closed spec fn view(&self) -> HwAccelModel {
        HwAccelModel {
            active: self.active,
            failures: self.consecutive_failures,
            reason: match self.fallback_reason {
                Some(s) => Some(s@),
                None => None,
            },
        }
    }
}

impl Default for HwAccelState {
    fn default() -> (r: Self)
        ensures
            r@ == HwAccelModel::initial(),
    {
        HwAccelState { active: false, consecutive_failures: 0, fallback_reason: None }
    }
}

impl HwAccelState {
    /// Software decoding, nothing failed yet.
    pub fn new() -> (r: Self)
        ensures
            r@ == HwAccelModel::initial(),
    {
        HwAccelState { active: false, consecutive_failures: 0, fallback_reason: None }
    }

    /// Hardware decoding was set up; earlier failures are forgotten.
    pub fn activate(&mut self)
        ensures
            final(self)@ == HwAccelModel::activated(),
    {
        self.active = true;
        self.consecutive_failures = 0;
        self.fallback_reason = None;
    }

    /// Counts a hardware failure and says whether the decoder should fall back.
    #[must_use]
    pub fn record_failure(&mut self) -> (r: bool)
        ensures
            final(self)@ == old(self)@.failed_once_more(),
            r == (final(self)@.failures >= HW_FALLBACK_THRESHOLD),
    {
        self.consecutive_failures = self.consecutive_failures.saturating_add(1);
        self.consecutive_failures >= HW_FALLBACK_THRESHOLD
    }

    /// A hardware frame arrived: the failures no longer count.
    pub fn record_success(&mut self)
        ensures
            final(self)@ == old(self)@.succeeded(),
    {
        self.consecutive_failures = 0;
    }

    /// Gives hardware decoding up.
    pub fn fallback(&mut self, reason: &str)
        ensures
            final(self)@ == old(self)@.fallen_back(reason@),
    {
        if self.fallback_reason.is_none() {
            self.fallback_reason = Some(String::from_str(reason));
        }
        self.active = false;
        self.consecutive_failures = 0;
    }

    pub fn is_active(&self) -> (r: bool)
        ensures
            r == self@.active,
    {
        self.active
    }

    /// Why the decoder fell back, if it did.
    pub fn fallback_reason(&self) -> (r: Option<&str>)
        ensures
            match r {
                Some(s) => self@.reason == Some(s@),
                None => self@.reason is None,
            },
    {
        match &self.fallback_reason {
            Some(s) => Some(s.as_str()),
            None => None,
        }
    }

    pub fn consecutive_failures(&self) -> (r: u32)
        ensures
            r == self@.failures,
    {
        self.consecutive_failures
    }
}

/// The first reason for falling back survives any later one, and no failure or
/// success brings hardware decoding back.
pub proof fn law_first_fallback_reason_is_kept(
    m: HwAccelModel,
    first: Seq<char>,
    second: Seq<char>,
)
    requires
        m.reason is None,
    ensures
        m.fallen_back(first).fallen_back(second) == m.fallen_back(first),
        !m.fallen_back(first).failed_once_more().succeeded().active,
        m.fallen_back(first).failed_once_more().succeeded().reason == Some(first),
{
}

/// After a good frame or an activation, it takes exactly
/// [`HW_FALLBACK_THRESHOLD`] consecutive failures to ask for a fallback.
pub proof fn law_fallback_takes_three_failures(m: HwAccelModel)
    requires
        m.failures == 0,
    ensures
        m.failed_once_more().failures < HW_FALLBACK_THRESHOLD,
        m.failed_once_more().failed_once_more().failures < HW_FALLBACK_THRESHOLD,
        m.failed_once_more().failed_once_more().failed_once_more().failures
            >= HW_FALLBACK_THRESHOLD,
        m.failed_once_more().failed_once_more().succeeded().failed_once_more().failures
            < HW_FALLBACK_THRESHOLD,
{
}

/// What each event does to the account of hardware decoding: a failure adds
/// one to those in a row, a good frame ends the row, and giving up or starting
/// afresh leaves no failures.  Only an activation makes it active.
pub proof fn law_events_of_hardware_decoding(m: HwAccelModel, reason: Seq<char>)
    ensures
        !HwAccelModel::initial().active && HwAccelModel::initial().failures == 0
            && HwAccelModel::initial().reason is None,
        HwAccelModel::activated().active && HwAccelModel::activated().failures == 0
            && HwAccelModel::activated().reason is None,
        m.failed_once_more().active == m.active && m.failed_once_more().reason == m.reason,
        m.failures < u32::MAX ==> m.failed_once_more().failures == m.failures + 1,
        m.failures == u32::MAX ==> m.failed_once_more().failures == u32::MAX,
        m.succeeded().active == m.active && m.succeeded().reason == m.reason
            && m.succeeded().failures == 0,
        !m.fallen_back(reason).active && m.fallen_back(reason).failures == 0,
        m.fallen_back(reason).reason == if m.reason is Some {
            m.reason
        } else {
            Some(reason)
        },
        HW_FALLBACK_THRESHOLD == 3,
{
}

} // verus!
