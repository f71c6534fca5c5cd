//! The probing schedule as a state machine. Whoever drives it asks for the
//! next action, performs it (a sleep, or one probe exchange) and hands the
//! resulting event back.

use vstd::prelude::*;
use crate::probe::{after_round, lemma_after_round, phase_after, ProbeOutcome};
use crate::registry::{AddressView, Registry};
use crate::wire::{Phase, ServerAddress};

verus! {

/// Seconds between the end of one probe round and the start of the next.
pub const CHECK_INTERVAL_SECS: u64 = 5;

/// What the driver must do next.
#[derive(Clone, Debug)]
pub enum Action {
    /// Sleep this many seconds, then report `Event::Woke`.
    Sleep(u64),
    /// Send a fresh query to this server, then report `Event::Probed`.
    Probe(ServerAddress),
}

/// What the driver reports back after performing an action.
#[derive(Clone, Debug)]
pub enum Event {
    /// The interval sleep ended.
    Woke,
    /// The probe exchange with the current server ended this way.
    Probed(ProbeOutcome),
}

/// Observed phases, and the index of the server to probe next (`None`
/// while idle).
pub type ProberState = (Map<AddressView, Phase>, Option<int>);

/// One step of a prober over `servers`. Waking while idle starts a round at
/// the first server (without servers it stays idle); a probe outcome during
/// a round is recorded for the current server and moves on to the next one,
/// or back to idle after the last. An event that does not fit the state
/// changes nothing.
pub open spec fn transition(servers: Seq<AddressView>, state: ProberState, event: Event) -> ProberState {
    match (state.1, event) {
        (None, Event::Woke) => (state.0, if servers.len() == 0 {
            None
        } else {
            Some(0)
        }),
        (Some(i), Event::Probed(o)) => (
            state.0.insert(servers[i], phase_after(state.0[servers[i]], o)),
            if i + 1 < servers.len() {
                Some(i + 1)
            } else {
                None
            },
        ),
        _ => state,
    }
}

/// The state reached from `state` by the steps of `events`, in order.
pub open spec fn run(servers: Seq<AddressView>, state: ProberState, events: Seq<Event>) -> ProberState
    decreases events.len(),
{
    if events.len() == 0 {
        state
    } else {
        transition(servers, run(servers, state, events.drop_last()), events.last())
    }
}

/// The events of a round: the wake-up, then the first `k` probe outcomes.
pub open spec fn round_events(outcomes: Seq<ProbeOutcome>, k: int) -> Seq<Event> {
    seq![Event::Woke] + outcomes.take(k).map_values(|o: ProbeOutcome| Event::Probed(o))
}

proof fn lemma_round_prefix(
    servers: Seq<AddressView>,
    phases: Map<AddressView, Phase>,
    outcomes: Seq<ProbeOutcome>,
    k: int,
)
    requires
        servers.no_duplicates(),
        servers.len() == outcomes.len(),
        forall|i: int| 0 <= i < servers.len() ==> phases.contains_key(#[trigger] servers[i]),
        0 <= k <= servers.len(),
    ensures
        run(servers, (phases, None), round_events(outcomes, k)) == (
            after_round(phases, servers.take(k), outcomes),
            if k < servers.len() {
                Some(k)
            } else {
                None::<int>
            },
        ),
    decreases k,
{
    let ev = round_events(outcomes, k);
    if k == 0 {
        assert(ev.drop_last() =~= Seq::<Event>::empty());
        assert(ev.last() == Event::Woke);
        assert(run(servers, (phases, None), ev.drop_last()) == (phases, None::<int>));
        assert(servers.take(0) =~= Seq::<AddressView>::empty());
        assert(after_round(phases, servers.take(0), outcomes) == phases);
    } else {
        lemma_round_prefix(servers, phases, outcomes, k - 1);
        assert(ev.drop_last() =~= round_events(outcomes, k - 1));
        assert(ev.last() == Event::Probed(outcomes[k - 1]));
        let pre = servers.take(k - 1);
        assert(servers.take(k).drop_last() =~= pre);
        assert(pre.no_duplicates());
        lemma_after_round(phases, pre, outcomes);
        assert(after_round(phases, pre, outcomes).contains_key(servers[k - 1]));
        assert(servers.take(k).last() == servers[k - 1]);
        assert(servers.take(k).len() == k);
    }
}

/// Driving an idle prober through one whole round (a wake-up, then one
/// probe outcome per server in probing order) leaves it idle with exactly
/// the phases that recording the same round in the registry gives.
pub proof fn law_round_through_prober(
    servers: Seq<AddressView>,
    phases: Map<AddressView, Phase>,
    outcomes: Seq<ProbeOutcome>,
)
    requires
        servers.no_duplicates(),
        servers.len() == outcomes.len(),
        forall|i: int| 0 <= i < servers.len() ==> phases.contains_key(#[trigger] servers[i]),
    ensures
        run(servers, (phases, None), round_events(outcomes, outcomes.len() as int)) == (
            after_round(phases, servers, outcomes),
            None::<int>,
        ),
{
    lemma_round_prefix(servers, phases, outcomes, outcomes.len() as int);
    assert(servers.take(servers.len() as int) =~= servers);
}

/// Idle between rounds, or probing the servers of the registry one after
/// the other in enumeration order.
pub struct Prober {
    registry: Registry,
    cursor: Option<usize>,
}

impl Prober {
    pub closed spec fn wf(&self) -> bool {
        &&& self.registry.wf()
        &&& self.cursor matches Some(i) ==> i < self.registry.servers().len()
    }

    /// The phases the prober has observed.
    pub closed spec fn phases(&self) -> Map<AddressView, Phase> {
        self.registry.phases()
    }

    /// The servers it probes, in probing order.
    pub closed spec fn servers(&self) -> Seq<AddressView> {
        self.registry.servers()
    }

    /// Index of the server to probe next in the current round; `None` while
    /// idle between rounds.
    pub closed spec fn cursor(&self) -> Option<int> {
        match self.cursor {
            Some(i) => Some(i as int),
            None => None,
        }
    }

    /// The servers of a well-formed prober are distinct, and are exactly
    /// those with a phase.
    pub proof fn lemma_view(&self)
        requires
            self.wf(),
        ensures
            self.servers().no_duplicates(),
            forall|a: AddressView| #[trigger] self.phases().contains_key(a) <==> self.servers().contains(a),
    {
        self.registry.lemma_view();
    }

    /// An idle prober over `registry`.
    pub fn new(registry: Registry) -> (r: Prober)
        requires
            registry.wf(),
        ensures
            r.wf(),
            r.phases() == registry.phases(),
            r.servers() == registry.servers(),
            r.cursor() == None::<int>,
    {
        Prober { registry, cursor: None }
    }

    /// The registry as observed so far.
    pub fn registry(&self) -> (r: &Registry)
        requires
            self.wf(),
        ensures
            r.wf(),
            r.phases() == self.phases(),
            r.servers() == self.servers(),
    {
        &self.registry
    }

    /// Whether the prober is between rounds.
    pub fn is_idle(&self) -> (r: bool)
        ensures
            r == (self.cursor() == None::<int>),
    {
        self.cursor.is_none()
    }

    /// What to do next: sleep while idle, otherwise probe the current server.
    pub fn next_action(&self) -> (r: Action)
        requires
            self.wf(),
        ensures
            match self.cursor() {
                None => r == Action::Sleep(CHECK_INTERVAL_SECS),
                Some(i) => r matches Action::Probe(a) && a@ == self.servers()[i],
            },
    {
        match self.cursor {
            None => Action::Sleep(CHECK_INTERVAL_SECS),
            Some(i) => Action::Probe(self.registry.server(i)),
        }
    }

    /// Takes in what the driver observed, and steps as `transition` says.
    pub fn handle(&mut self, event: Event)
        requires
            old(self).wf(),
        ensures
            final(self).wf(),
            final(self).servers() == old(self).servers(),
            (final(self).phases(), final(self).cursor()) == transition(
                old(self).servers(),
                (old(self).phases(), old(self).cursor()),
                event,
            ),
    {
        match (self.cursor, event) {
            (None, Event::Woke) => {
                if self.registry.len() > 0 {
                    self.cursor = Some(0);
                }
            },
            (Some(i), Event::Probed(o)) => {
                let n = self.registry.len();
                self.registry.record_at(i, &o);
                if i < n - 1 {
                    self.cursor = Some(i + 1);
                } else {
                    self.cursor = None;
                }
            },
            _ => {},
        }
    }
}

} // verus!
