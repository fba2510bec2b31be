use std::collections::HashSet;

use vstd::prelude::*;

use crate::net::error::NetEvent;
use crate::net::ipv4::{Ipv4Addr, SocketAddrV4};
use crate::net::source::{SocketSourceConfig, SourceBinding};
use crate::net::url::StreamUrl;

verus! {

/// How a stream is received.
#[derive(Debug, Clone, Copy, PartialEq, Eq, Structural)]
pub struct ReceiverConfig {
    /// Requested size of the receive buffer.
    pub buf_size: usize,
    /// How long to wait for a datagram, in milliseconds.
    pub timeout_ms: u64,
}

impl Default for ReceiverConfig {
    fn default() -> (r: Self)
        ensures
            r == (ReceiverConfig { buf_size: 4_194_304, timeout_ms: 5_000 }),
    {
        ReceiverConfig { buf_size: 4_194_304, timeout_ms: 5_000 }
    }
}

impl ReceiverConfig {
    /// How the socket is set up for it.
    pub fn socket_config(&self) -> (r: SocketSourceConfig)
        ensures
            r == (SocketSourceConfig { buf_size: self.buf_size, timeout_ms: self.timeout_ms }),
    {
        SocketSourceConfig { buf_size: self.buf_size, timeout_ms: self.timeout_ms }
    }
}

/// How far the reception of a stream has come.
#[derive(Debug, Clone, Copy, PartialEq, Eq, Structural)]
pub enum ReceivePhase {
    /// The group is not joined yet.
    Joining,
    /// Datagrams come in.
    Receiving,
    /// Reception has ended.
    Over,
}

/// What happened when a datagram was waited for.
#[derive(Debug, Clone, Copy, PartialEq, Eq, Structural)]
pub enum ReceiveOutcome {
    /// A stop was asked for, and nothing was waited for.
    Stopped,
    /// A datagram came from this sender.
    Received(SocketAddrV4),
    /// None came in time.
    Nothing,
    /// The socket failed.
    Failed,
}

/// What to do after that, before the events are sent.
#[derive(Debug, Clone, Copy, PartialEq, Eq, Structural)]
pub enum ReceiveAction {
    /// Wait for the next datagram.
    Continue,
    /// Hand the datagram on, once the events are sent.
    Deliver,
    /// Leave the group and end well.
    Leave,
    /// Leave the group and end with the error of the socket.
    LeaveFailed,
    /// Nothing is left to do.
    Done,
}

/// How far reception has come, and which senders were seen.
#[verifier::ext_equal]
pub ghost struct ReceiverModel {
    pub phase: ReceivePhase,
    pub seen: Set<SocketAddrV4>,
}

impl ReceiverModel {
    pub open spec fn fresh() -> Self {
        ReceiverModel { phase: ReceivePhase::Joining, seen: Set::empty() }
    }

    /// What follows an outcome: the state, the events and the action.
    pub open spec fn stepped(self, outcome: ReceiveOutcome) -> (
        Self,
        Seq<NetEvent>,
        ReceiveAction,
    ) {
        if !(self.phase is Receiving) {
            (self, Seq::empty(), ReceiveAction::Done)
        } else {
            match outcome {
                ReceiveOutcome::Stopped => (
                    ReceiverModel { phase: ReceivePhase::Over, ..self },
                    seq![NetEvent::Left, NetEvent::Stopped],
                    ReceiveAction::Leave,
                ),
                ReceiveOutcome::Received(from) => (
                    ReceiverModel { seen: self.seen.insert(from), ..self },
                    if self.seen.contains(from) {
                        Seq::empty()
                    } else {
                        seq![NetEvent::SourceSeen(from)]
                    },
                    ReceiveAction::Deliver,
                ),
                ReceiveOutcome::Nothing => (
                    self,
                    seq![NetEvent::Timeout],
                    ReceiveAction::Continue,
                ),
                ReceiveOutcome::Failed => (
                    ReceiverModel { phase: ReceivePhase::Over, ..self },
                    seq![NetEvent::Left],
                    ReceiveAction::LeaveFailed,
                ),
            }
        }
    }

    /// The state after all outcomes.
    pub open spec fn after(self, outcomes: Seq<ReceiveOutcome>) -> Self
        decreases outcomes.len(),
    {
        if outcomes.len() == 0 {
            self
        } else {
            self.after(outcomes.drop_last()).stepped(outcomes.last()).0
        }
    }

    /// All events that the outcomes lead to.
    pub open spec fn events_of(self, outcomes: Seq<ReceiveOutcome>) -> Seq<NetEvent>
        decreases outcomes.len(),
    {
        if outcomes.len() == 0 {
            Seq::empty()
        } else {
            self.events_of(outcomes.drop_last()) + self.after(outcomes.drop_last()).stepped(
                outcomes.last(),
            ).1
        }
    }
}

/// Decides how a stream is received: what is reported, and when reception
/// ends.
#[derive(Debug)]
pub struct UdpReceiver {
    url: StreamUrl,
    cfg: ReceiverConfig,
    phase: ReceivePhase,
    sources: HashSet<u64>,
}

impl View for UdpReceiver {
    type V = ReceiverModel;

    closed spec fn view(&self) -> ReceiverModel {
        ReceiverModel {
            phase: self.phase,
            seen: Set::new(|addr: SocketAddrV4| self.sources@.contains(addr.key() as u64)),
        }
    }
}

impl UdpReceiver {
    pub closed spec fn url_spec(&self) -> StreamUrl {
        self.url
    }

    pub closed spec fn config_spec(&self) -> ReceiverConfig {
        self.cfg
    }

    /// A receiver that has not joined its group yet.
    pub fn new(url: StreamUrl, cfg: ReceiverConfig) -> (r: Self)
        ensures
            r@ == ReceiverModel::fresh(),
            r.url_spec() == url,
            r.config_spec() == cfg,
    {
        let r = UdpReceiver {
            url,
            cfg,
            phase: ReceivePhase::Joining,
            sources: HashSet::new(),
        };
        proof {
            broadcast use vstd::std_specs::hash::group_hash_axioms;

            assert(r@ =~= ReceiverModel::fresh());
        }
        r
    }

    /// Which group and port to join, and on which interface.
    pub fn target(&self) -> (r: (Ipv4Addr, u16, Option<Ipv4Addr>))
        ensures
            match self.url_spec() {
                StreamUrl::UdpMulticast { group, port, iface } => r == (group, port, iface),
                StreamUrl::RtpMulticast { group, port, iface } => r == (group, port, iface),
            },
    {
        match self.url {
            StreamUrl::UdpMulticast { group, port, iface } => (group, port, iface),
            StreamUrl::RtpMulticast { group, port, iface } => (group, port, iface),
        }
    }

    /// How the socket is set up.
    pub fn socket_config(&self) -> (r: SocketSourceConfig)
        ensures
            r == (SocketSourceConfig {
                buf_size: self.config_spec().buf_size,
                timeout_ms: self.config_spec().timeout_ms,
            }),
    {
        self.cfg.socket_config()
    }

    /// Notes that the group was joined.  Returns what to report.
    pub fn joined(&mut self, binding: SourceBinding) -> (r: Vec<NetEvent>)
        ensures
            r@ == seq![NetEvent::Joined(binding), NetEvent::Started],
            final(self)@ == (ReceiverModel { phase: ReceivePhase::Receiving, ..old(self)@ }),
            final(self).url_spec() == old(self).url_spec(),
            final(self).config_spec() == old(self).config_spec(),
    {
        self.phase = ReceivePhase::Receiving;
        let mut events: Vec<NetEvent> = Vec::new();
        events.push(NetEvent::Joined(binding));
        events.push(NetEvent::Started);
        events
    }

    /// Notes that the group could not be joined.  Returns what to report.
    pub fn join_failed(&mut self, reason: String) -> (r: Vec<NetEvent>)
        ensures
            r@ == seq![NetEvent::JoinFailed { reason }],
            final(self)@ == (ReceiverModel { phase: ReceivePhase::Over, ..old(self)@ }),
            final(self).url_spec() == old(self).url_spec(),
            final(self).config_spec() == old(self).config_spec(),
    {
        self.phase = ReceivePhase::Over;
        let mut events: Vec<NetEvent> = Vec::new();
        events.push(NetEvent::JoinFailed { reason });
        events
    }

    /// Moves on after waiting for a datagram.  Returns what to report and what
    /// to do.
    pub fn step(&mut self, outcome: ReceiveOutcome) -> (r: (Vec<NetEvent>, ReceiveAction))
        ensures
            (final(self)@, r.0@, r.1) == old(self)@.stepped(outcome),
            final(self).url_spec() == old(self).url_spec(),
            final(self).config_spec() == old(self).config_spec(),
    {
        broadcast use vstd::std_specs::hash::group_hash_axioms;

        let mut events: Vec<NetEvent> = Vec::new();
        match self.phase {
            ReceivePhase::Receiving => {},
            _ => {
                return (events, ReceiveAction::Done);
            },
        }
        let action = match outcome {
            ReceiveOutcome::Stopped => {
                self.phase = ReceivePhase::Over;
                events.push(NetEvent::Left);
                events.push(NetEvent::Stopped);
                ReceiveAction::Leave
            },
            ReceiveOutcome::Received(from) => {
                if self.sources.insert(from.to_key()) {
                    events.push(NetEvent::SourceSeen(from));
                }
                proof {
                    assert forall|addr: SocketAddrV4| self@.seen.contains(addr) == old(
                        self,
                    )@.seen.insert(from).contains(addr) by {
                        if addr.key() == from.key() {
                            crate::net::ipv4::law_keys_are_unique(addr, from);
                        }
                    }
                    assert(self@.seen =~= old(self)@.seen.insert(from));
                }
                ReceiveAction::Deliver
            },
            ReceiveOutcome::Nothing => {
                events.push(NetEvent::Timeout);
                ReceiveAction::Continue
            },
            ReceiveOutcome::Failed => {
                self.phase = ReceivePhase::Over;
                events.push(NetEvent::Left);
                ReceiveAction::LeaveFailed
            },
        };
        assert(events@ =~= old(self)@.stepped(outcome).1);
        assert(self@ =~= old(self)@.stepped(outcome).0);
        (events, action)
    }
}

/// How often a sender is reported.
pub open spec fn announcements(events: Seq<NetEvent>, addr: SocketAddrV4) -> nat
    decreases events.len(),
{
    if events.len() == 0 {
        0
    } else {
        announcements(events.drop_last(), addr) + if events.last() == NetEvent::SourceSeen(addr) {
            1nat
        } else {
            0nat
        }
    }
}

proof fn lemma_announcements_add(a: Seq<NetEvent>, b: Seq<NetEvent>, addr: SocketAddrV4)
    ensures
        announcements(a + b, addr) == announcements(a, addr) + announcements(b, addr),
    decreases b.len(),
{
    if b.len() == 0 {
        assert(a + b =~= a);
    } else {
        lemma_announcements_add(a, b.drop_last(), addr);
        assert((a + b).drop_last() =~= a + b.drop_last());
    }
}

proof fn lemma_few_announcements(start: ReceiverModel, outcome: ReceiveOutcome, addr: SocketAddrV4)
    ensures
        announcements(start.stepped(outcome).1, addr) == if start.phase is Receiving && outcome
            == ReceiveOutcome::Received(addr) && !start.seen.contains(addr) {
            1nat
        } else {
            0nat
        },
{
    reveal_with_fuel(announcements, 3);
    let events = start.stepped(outcome).1;
    if events.len() == 2 {
        assert(events.drop_last() =~= seq![NetEvent::Left]);
        assert(events.drop_last().drop_last() =~= Seq::empty());
    } else if events.len() == 1 {
        assert(events.drop_last() =~= Seq::empty());
    }
}

/// Each sender is reported once, however many of its datagrams come, and no
/// other is.
pub proof fn law_senders_are_announced_once(
    start: ReceiverModel,
    outcomes: Seq<ReceiveOutcome>,
    addr: SocketAddrV4,
)
    requires
        start.phase is Receiving,
        start.seen == Set::<SocketAddrV4>::empty(),
        forall|i: int|
            0 <= i < outcomes.len() ==> outcomes[i] is Received || outcomes[i] is Nothing,
    ensures
        announcements(start.events_of(outcomes), addr) == if outcomes.contains(
            ReceiveOutcome::Received(addr),
        ) {
            1nat
        } else {
            0nat
        },
        start.after(outcomes).phase is Receiving,
        start.after(outcomes).seen.contains(addr) == outcomes.contains(
            ReceiveOutcome::Received(addr),
        ),
    decreases outcomes.len(),
{
    if outcomes.len() > 0 {
        let rest = outcomes.drop_last();
        law_senders_are_announced_once(start, rest, addr);
        let before = start.after(rest);
        lemma_announcements_add(
            start.events_of(rest),
            before.stepped(outcomes.last()).1,
            addr,
        );
        lemma_few_announcements(before, outcomes.last(), addr);
        let wanted = ReceiveOutcome::Received(addr);
        assert(outcomes.contains(wanted) == (rest.contains(wanted) || outcomes.last() == wanted))
            by {
            if rest.contains(wanted) {
                let i = choose|i: int| 0 <= i < rest.len() && rest[i] == wanted;
                assert(outcomes[i] == wanted);
            }
            if outcomes.last() == wanted {
                assert(outcomes[outcomes.len() - 1] == wanted);
            }
            if outcomes.contains(wanted) && outcomes.last() != wanted {
                let i = choose|i: int| 0 <= i < outcomes.len() && outcomes[i] == wanted;
                assert(rest[i] == wanted);
            }
        }
    }
}

/// Reception that ends reports that the group was left, and nothing after.
pub proof fn law_leaving_closes_the_cycle(
    start: ReceiverModel,
    outcome: ReceiveOutcome,
    later: ReceiveOutcome,
)
    requires
        start.phase is Receiving,
    ensures
        ({
            let (state, events, action) = start.stepped(outcome);
            let ended = outcome is Stopped || outcome is Failed;
            &&& ended == (events.len() > 0 && events[0] == NetEvent::Left)
            &&& ended == (action is Leave || action is LeaveFailed)
            &&& ended ==> state.stepped(later) == (
                state,
                Seq::<NetEvent>::empty(),
                ReceiveAction::Done,
            )
        }),
{
}

/// A time without datagrams does not end reception.
pub proof fn law_timeouts_are_not_fatal(start: ReceiverModel)
    requires
        start.phase is Receiving,
    ensures
        start.stepped(ReceiveOutcome::Nothing) == (
            start,
            seq![NetEvent::Timeout],
            ReceiveAction::Continue,
        ),
{
}

/// What each outcome leads to while datagrams come in: a datagram is handed on
/// and its sender noted, and reported where it was not known; a stop and a
/// failure end reception, each in its way.  Before and after, nothing happens.
pub proof fn law_outcomes_lead_on(
    state: ReceiverModel,
    outcome: ReceiveOutcome,
    from: SocketAddrV4,
)
    ensures
        !(state.phase is Receiving) ==> state.stepped(outcome) == (
            state,
            Seq::<NetEvent>::empty(),
            ReceiveAction::Done,
        ),
        state.phase is Receiving ==> state.stepped(ReceiveOutcome::Stopped) == (
            ReceiverModel { phase: ReceivePhase::Over, seen: state.seen },
            seq![NetEvent::Left, NetEvent::Stopped],
            ReceiveAction::Leave,
        ),
        state.phase is Receiving ==> state.stepped(ReceiveOutcome::Failed) == (
            ReceiverModel { phase: ReceivePhase::Over, seen: state.seen },
            seq![NetEvent::Left],
            ReceiveAction::LeaveFailed,
        ),
        state.phase is Receiving && state.seen.contains(from) ==> state.stepped(
            ReceiveOutcome::Received(from),
        ) == (state, Seq::<NetEvent>::empty(), ReceiveAction::Deliver),
        state.phase is Receiving && !state.seen.contains(from) ==> state.stepped(
            ReceiveOutcome::Received(from),
        ) == (
            ReceiverModel { phase: ReceivePhase::Receiving, seen: state.seen.insert(from) },
            seq![NetEvent::SourceSeen(from)],
            ReceiveAction::Deliver,
        ),
        ReceiverModel::fresh().phase is Joining && ReceiverModel::fresh().seen == Set::<
            SocketAddrV4,
        >::empty(),
{
    if state.seen.contains(from) {
        assert(state.seen.insert(from) =~= state.seen);
    }
}

} // verus!
