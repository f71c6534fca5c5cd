//! What a single probe of a server can yield, and what the registry learns
//! from it.

use vstd::prelude::*;
use crate::registry::AddressView;
use crate::wire::{Content, Message, Phase};

verus! {

/// Result of one query/reply exchange with a server.
#[derive(Clone, Debug)]
pub enum ProbeOutcome {
    /// A reply arrived and decoded.
    Replied(Message),
    /// No reply arrived, or the transport failed.
    TimedOut,
    /// A reply arrived but did not decode; holds the decoder's explanation.
    DecodeFailed(String),
}

/// The phase a probe outcome reports, if it reports one: the phase of a
/// status reply, or `Unreachable` for a probe without reply.
pub open spec fn reported_phase(outcome: ProbeOutcome) -> Option<Phase> {
    match outcome {
        ProbeOutcome::Replied(m) => match m.content {
            Some(Content::Status(p)) => Some(p),
            _ => None,
        },
        ProbeOutcome::TimedOut => Some(Phase::Unreachable),
        ProbeOutcome::DecodeFailed(_) => None,
    }
}

/// A server's phase after a probe that found it in `current`.
pub open spec fn phase_after(current: Phase, outcome: ProbeOutcome) -> Phase {
    match reported_phase(outcome) {
        Some(p) => p,
        None => current,
    }
}

/// The phase `outcome` reports, if any.
pub fn report(outcome: &ProbeOutcome) -> (r: Option<Phase>)
    ensures
        r == reported_phase(*outcome),
{
    match outcome {
        ProbeOutcome::Replied(m) => match &m.content {
            Some(Content::Status(p)) => Some(*p),
            _ => None,
        },
        ProbeOutcome::TimedOut => Some(Phase::Unreachable),
        ProbeOutcome::DecodeFailed(_) => None,
    }
}

/// How a probe outcome is reported to an operator.
#[derive(Clone, Copy, Debug, PartialEq, Eq, Structural)]
pub enum Finding {
    /// The server reports `Waiting`.
    Available,
    /// The server reports a status other than `Waiting`.
    Occupied,
    /// The server sent tokens; informational only.
    TokensReceived,
    /// The server sent a message a server must not send.
    ProtocolViolation,
    /// The reply had no content.
    NoContent,
    /// No reply.
    Unavailable,
    /// The reply did not decode.
    Undecodable,
}

pub open spec fn finding_of(outcome: ProbeOutcome) -> Finding {
    match outcome {
        ProbeOutcome::Replied(m) => match m.content {
            Some(Content::Status(p)) => if p == Phase::Waiting {
                Finding::Available
            } else {
                Finding::Occupied
            },
            Some(Content::Tokens(_)) => Finding::TokensReceived,
            Some(Content::Query) => Finding::ProtocolViolation,
            None => Finding::NoContent,
        },
        ProbeOutcome::TimedOut => Finding::Unavailable,
        ProbeOutcome::DecodeFailed(_) => Finding::Undecodable,
    }
}

/// Classifies a probe outcome for reporting.
pub fn classify(outcome: &ProbeOutcome) -> (r: Finding)
    ensures
        r == finding_of(*outcome),
{
    match outcome {
        ProbeOutcome::Replied(m) => match &m.content {
            Some(Content::Status(p)) => if *p == Phase::Waiting {
                Finding::Available
            } else {
                Finding::Occupied
            },
            Some(Content::Tokens(_)) => Finding::TokensReceived,
            Some(Content::Query) => Finding::ProtocolViolation,
            None => Finding::NoContent,
        },
        ProbeOutcome::TimedOut => Finding::Unavailable,
        ProbeOutcome::DecodeFailed(_) => Finding::Undecodable,
    }
}

/// Phases after probing `servers` in order, the `i`-th with `outcomes[i]`.
pub open spec fn after_round(
    phases: Map<AddressView, Phase>,
    servers: Seq<AddressView>,
    outcomes: Seq<ProbeOutcome>,
) -> Map<AddressView, Phase>
    decreases servers.len(),
{
    if servers.len() == 0 {
        phases
    } else {
        let prev = after_round(phases, servers.drop_last(), outcomes);
        let a = servers.last();
        if prev.contains_key(a) {
            prev.insert(a, phase_after(prev[a], outcomes[servers.len() - 1]))
        } else {
            prev
        }
    }
}

/// Within a round over distinct servers, each server's phase depends on its
/// own outcome alone, and servers outside the round keep theirs.
pub proof fn lemma_after_round(
    phases: Map<AddressView, Phase>,
    servers: Seq<AddressView>,
    outcomes: Seq<ProbeOutcome>,
)
    requires
        servers.no_duplicates(),
        servers.len() <= outcomes.len(),
    ensures
        after_round(phases, servers, outcomes).dom() == phases.dom(),
        forall|i: int|
            0 <= i < servers.len() && phases.contains_key(#[trigger] servers[i]) ==> after_round(
                phases,
                servers,
                outcomes,
            )[servers[i]] == phase_after(phases[servers[i]], outcomes[i]),
        forall|a: AddressView|
            phases.contains_key(a) && !servers.contains(a) ==> #[trigger] after_round(
                phases,
                servers,
                outcomes,
            )[a] == phases[a],
    decreases servers.len(),
{
    if servers.len() > 0 {
        let init = servers.drop_last();
        lemma_after_round(phases, init, outcomes);
        let prev = after_round(phases, init, outcomes);
        let a = servers.last();
        assert(!init.contains(a)) by {
            if init.contains(a) {
                let j = choose|j: int| 0 <= j < init.len() && init[j] == a;
                assert(servers[j] == servers[servers.len() - 1]);
            }
        }
        if prev.contains_key(a) {
            assert(prev.insert(a, phase_after(prev[a], outcomes[servers.len() - 1])).dom() =~= phases.dom());
        }
        assert forall|i: int|
            0 <= i < servers.len() && phases.contains_key(#[trigger] servers[i]) implies after_round(
                phases,
                servers,
                outcomes,
            )[servers[i]] == phase_after(phases[servers[i]], outcomes[i]) by {
            if i < servers.len() - 1 {
                assert(init[i] == servers[i]);
                assert(servers[i] != a);
            }
        }
        assert forall|b: AddressView|
            phases.contains_key(b) && !servers.contains(b) implies #[trigger] after_round(
                phases,
                servers,
                outcomes,
            )[b] == phases[b] by {
            if init.contains(b) {
                let j = choose|j: int| 0 <= j < init.len() && init[j] == b;
                assert(servers[j] == b);
            }
            assert(b != servers[servers.len() - 1]);
        }
    }
}

/// Phases after `n` consecutive rounds over `servers`, each with the same
/// `outcomes`.
pub open spec fn repeated_rounds(
    phases: Map<AddressView, Phase>,
    servers: Seq<AddressView>,
    outcomes: Seq<ProbeOutcome>,
    n: nat,
) -> Map<AddressView, Phase>
    decreases n,
{
    if n == 0 {
        phases
    } else {
        after_round(repeated_rounds(phases, servers, outcomes, (n - 1) as nat), servers, outcomes)
    }
}

/// A second round with the same outcomes leaves every phase as the first
/// round set it.
pub proof fn lemma_round_twice(
    phases: Map<AddressView, Phase>,
    servers: Seq<AddressView>,
    outcomes: Seq<ProbeOutcome>,
)
    requires
        servers.no_duplicates(),
        servers.len() == outcomes.len(),
    ensures
        after_round(after_round(phases, servers, outcomes), servers, outcomes) == after_round(
            phases,
            servers,
            outcomes,
        ),
{
    let once = after_round(phases, servers, outcomes);
    let twice = after_round(once, servers, outcomes);
    lemma_after_round(phases, servers, outcomes);
    lemma_after_round(once, servers, outcomes);
    assert forall|a: AddressView| #[trigger] twice.contains_key(a) implies twice[a] == once[a] by {
        if servers.contains(a) {
            let i = choose|i: int| 0 <= i < servers.len() && servers[i] == a;
            assert(twice[servers[i]] == phase_after(once[servers[i]], outcomes[i]));
        }
    }
    assert(twice =~= once);
}

/// Running any number of identical probe rounds, at least one, over distinct
/// servers leaves the same phases as running one.
pub proof fn law_repeated_rounds(
    phases: Map<AddressView, Phase>,
    servers: Seq<AddressView>,
    outcomes: Seq<ProbeOutcome>,
    n: nat,
)
    requires
        servers.no_duplicates(),
        servers.len() == outcomes.len(),
        n >= 1,
    ensures
        repeated_rounds(phases, servers, outcomes, n) == after_round(phases, servers, outcomes),
    decreases n,
{
    if n > 1 {
        law_repeated_rounds(phases, servers, outcomes, (n - 1) as nat);
        lemma_round_twice(phases, servers, outcomes);
    } else {
        assert(repeated_rounds(phases, servers, outcomes, 0) == phases);
    }
}

} // verus!
