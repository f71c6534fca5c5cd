//! The registry: last observed phase of each known server.

use vstd::prelude::*;
use crate::probe::{after_round, lemma_after_round, phase_after, report, ProbeOutcome};
use crate::wire::{Content, Message, Phase, ServerAddress};

verus! {

/// What identifies a server in contracts: host and port.
pub type AddressView = (Seq<char>, i16);

/// Whether some address of `addresses` equals `a`.
pub open spec fn listed(addresses: Seq<ServerAddress>, a: AddressView) -> bool {
    exists|j: int| 0 <= j < addresses.len() && #[trigger] addresses[j]@ == a
}

/// The servers being tracked, in a fixed enumeration order, each with its
/// last observed phase. The set of servers never changes after
/// construction; only phases are updated.
pub struct Registry {
    addresses: Vec<ServerAddress>,
    states: Vec<Phase>,
    table: Ghost<Map<AddressView, Phase>>,
}

impl Registry {
    /// The phase of each tracked server.
    pub closed spec fn phases(&self) -> Map<AddressView, Phase> {
        self.table@
    }

    /// The tracked servers in enumeration order.
    pub closed spec fn servers(&self) -> Seq<AddressView> {
        self.addresses@.map_values(|s: ServerAddress| s@)
    }

    /// Servers are distinct, and the tracked ones are exactly those with a phase.
    pub closed spec fn wf(&self) -> bool {
        &&& self.addresses.len() == self.states.len()
        &&& forall|i: int, j: int|
            0 <= i < j < self.addresses.len() ==> self.addresses[i]@ != self.addresses[j]@
        &&& forall|i: int|
            0 <= i < self.addresses.len() ==> self.table@.contains_key(#[trigger] self.addresses[i]@)
                && self.table@[self.addresses[i]@] == self.states[i]
        &&& forall|a: AddressView|
            #[trigger] self.table@.contains_key(a) ==> exists|i: int|
                0 <= i < self.addresses.len() && #[trigger] self.addresses[i]@ == a
    }

    /// The view of a well-formed registry: distinct servers, each with a phase
    /// and nothing else.
    pub proof fn lemma_view(&self)
        requires
            self.wf(),
        ensures
            self.servers().no_duplicates(),
            forall|a: AddressView| #[trigger] self.phases().contains_key(a) <==> self.servers().contains(a),
    {
        assert forall|a: AddressView| #[trigger] self.phases().contains_key(a) <==> self.servers().contains(a) by {
            if self.phases().contains_key(a) {
                let i = choose|i: int| 0 <= i < self.addresses.len() && #[trigger] self.addresses[i]@ == a;
                assert(self.servers()[i] == a);
            }
            if self.servers().contains(a) {
                let i = choose|i: int| 0 <= i < self.servers().len() && self.servers()[i] == a;
                assert(self.addresses[i]@ == a);
            }
        }
    }

    /// Index of `a` among the tracked servers, if it is one.
    fn position(&self, a: &ServerAddress) -> (r: Option<usize>)
        requires
            self.wf(),
        ensures
            match r {
                Some(i) => i < self.addresses.len() && self.addresses[i as int]@ == a@,
                None => !self.phases().contains_key(a@),
            },
    {
        let mut i: usize = 0;
        while i < self.addresses.len()
            invariant
                self.wf(),
                i <= self.addresses.len(),
                forall|j: int| 0 <= j < i ==> self.addresses[j]@ != a@,
            decreases self.addresses.len() - i,
        {
            if self.addresses[i].same(a) {
                return Some(i);
            }
            i = i + 1;
        }
        None
    }

    /// A registry of the given servers, each in phase `Unknown`; an address
    /// listed twice is tracked once.
    pub fn initialize(addresses: &Vec<ServerAddress>) -> (r: Registry)
        ensures
            r.wf(),
            forall|a: AddressView| #[trigger] r.phases().contains_key(a) <==> listed(addresses@, a),
            forall|a: AddressView| #[trigger] r.phases().contains_key(a) ==> r.phases()[a] == Phase::Unknown,
            r.servers().no_duplicates(),
            forall|a: AddressView| #[trigger] r.servers().contains(a) <==> listed(addresses@, a),
    {
        let mut r = Registry { addresses: Vec::new(), states: Vec::new(), table: Ghost(Map::empty()) };
        let mut k: usize = 0;
        while k < addresses.len()
            invariant
                k <= addresses.len(),
                r.wf(),
                forall|a: AddressView| #[trigger] r.phases().contains_key(a) <==> listed(addresses@.take(k as int), a),
                forall|a: AddressView| #[trigger] r.phases().contains_key(a) ==> r.phases()[a] == Phase::Unknown,
            decreases addresses.len() - k,
        {
            let ghost before = addresses@.take(k as int);
            let ghost after = addresses@.take(k + 1);
            assert forall|a: AddressView| listed(after, a) <==> listed(before, a) || a == addresses[k as int]@ by {
                if listed(after, a) {
                    let j = choose|j: int| 0 <= j < after.len() && #[trigger] after[j]@ == a;
                    if j < k {
                        assert(before[j]@ == a);
                    }
                }
                if listed(before, a) {
                    let j = choose|j: int| 0 <= j < before.len() && #[trigger] before[j]@ == a;
                    assert(after[j]@ == a);
                }
                if a == addresses[k as int]@ {
                    assert(after[k as int]@ == a);
                }
            }
            match r.position(&addresses[k]) {
                Some(_) => {},
                None => {
                    let ghost n = r.addresses.len();
                    let ghost old_addrs = r.addresses@;
                    let ghost old_table = r.table@;
                    r.addresses.push(addresses[k].copy());
                    r.states.push(Phase::Unknown);
                    r.table = Ghost(r.table@.insert(addresses[k as int]@, Phase::Unknown));
                    assert forall|a: AddressView| #[trigger] r.table@.contains_key(a) implies exists|i: int|
                        0 <= i < r.addresses.len() && #[trigger] r.addresses[i]@ == a by {
                        if a == addresses[k as int]@ {
                            assert(r.addresses[n as int]@ == a);
                        } else {
                            assert(old_table.contains_key(a));
                            let i = choose|i: int| 0 <= i < old_addrs.len() && #[trigger] old_addrs[i]@ == a;
                            assert(r.addresses[i]@ == a);
                        }
                    }
                },
            }
            k = k + 1;
        }
        assert(addresses@.take(addresses.len() as int) =~= addresses@);
        proof {
            r.lemma_view();
            assert forall|a: AddressView| #[trigger] r.servers().contains(a) <==> listed(addresses@, a) by {
                assert(r.phases().contains_key(a) <==> r.servers().contains(a));
            }
        }
        r
    }

    /// Number of tracked servers.
    pub fn len(&self) -> (r: usize)
        requires
            self.wf(),
        ensures
            r == self.servers().len(),
    {
        self.addresses.len()
    }

    /// The tracked servers, in the same order on every call.
    pub fn keys(&self) -> (r: Vec<ServerAddress>)
        requires
            self.wf(),
        ensures
            r@.map_values(|s: ServerAddress| s@) == self.servers(),
    {
        let mut r: Vec<ServerAddress> = Vec::new();
        let mut i: usize = 0;
        while i < self.addresses.len()
            invariant
                i <= self.addresses.len(),
                r.len() == i,
                forall|j: int| 0 <= j < i ==> #[trigger] r[j]@ == self.addresses[j]@,
            decreases self.addresses.len() - i,
        {
            r.push(self.addresses[i].copy());
            i = i + 1;
        }
        assert(r@.map_values(|s: ServerAddress| s@) =~= self.servers());
        r
    }

    /// The `i`-th tracked server.
    pub fn server(&self, i: usize) -> (r: ServerAddress)
        requires
            self.wf(),
            i < self.servers().len(),
        ensures
            r@ == self.servers()[i as int],
    {
        self.addresses[i].copy()
    }

    /// The last observed phase of `a`, or `None` when `a` is not tracked.
    pub fn phase(&self, a: &ServerAddress) -> (r: Option<Phase>)
        requires
            self.wf(),
        ensures
            r == (if self.phases().contains_key(a@) {
                Some(self.phases()[a@])
            } else {
                None
            }),
    {
        match self.position(a) {
            Some(i) => Some(self.states[i]),
            None => None,
        }
    }

    /// Sets the phase of the `i`-th server.
    fn set_at(&mut self, i: usize, p: Phase)
        requires
            old(self).wf(),
            i < old(self).servers().len(),
        ensures
            final(self).wf(),
            final(self).servers() == old(self).servers(),
            final(self).phases() == old(self).phases().insert(old(self).servers()[i as int], p),
    {
        let ghost a = self.addresses[i as int]@;
        let ghost old_table = self.table@;
        self.states.set(i, p);
        self.table = Ghost(self.table@.insert(a, p));
        assert forall|b: AddressView| #[trigger] self.table@.contains_key(b) implies exists|j: int|
            0 <= j < self.addresses.len() && #[trigger] self.addresses[j]@ == b by {
            if b == a {
                assert(self.addresses[i as int]@ == b);
            } else {
                assert(old_table.contains_key(b));
            }
        }
    }

    /// Sets the phase of a tracked server.
    pub fn update(&mut self, a: &ServerAddress, p: Phase)
        requires
            old(self).wf(),
            old(self).phases().contains_key(a@),
        ensures
            final(self).wf(),
            final(self).servers() == old(self).servers(),
            final(self).phases() == old(self).phases().insert(a@, p),
    {
        match self.position(a) {
            Some(i) => self.set_at(i, p),
            None => {},
        }
    }

    /// Applies the outcome of probing the `i`-th server.
    pub(crate) fn record_at(&mut self, i: usize, outcome: &ProbeOutcome)
        requires
            old(self).wf(),
            i < old(self).servers().len(),
        ensures
            final(self).wf(),
            final(self).servers() == old(self).servers(),
            final(self).phases() == old(self).phases().insert(
                old(self).servers()[i as int],
                phase_after(old(self).phases()[old(self).servers()[i as int]], *outcome),
            ),
    {
        proof { self.lemma_view(); }
        match report(outcome) {
            Some(p) => self.set_at(i, p),
            None => {
                assert(self.phases().insert(self.servers()[i as int], self.states[i as int]) =~= self.phases());
            },
        }
    }

    /// Applies the outcome of probing the tracked server `a`: a status reply
    /// sets its phase, a probe without reply marks it `Unreachable`, and any
    /// other outcome leaves it as it was. No other server changes.
    pub fn record(&mut self, a: &ServerAddress, outcome: &ProbeOutcome)
        requires
            old(self).wf(),
            old(self).phases().contains_key(a@),
        ensures
            final(self).wf(),
            final(self).servers() == old(self).servers(),
            final(self).phases() == old(self).phases().insert(a@, phase_after(old(self).phases()[a@], *outcome)),
            final(self).phases().dom() == old(self).phases().dom(),
            forall|b: AddressView| b != a@ ==> #[trigger] final(self).phases().contains_key(b)
                ==> final(self).phases()[b] == old(self).phases()[b],
            *outcome matches ProbeOutcome::Replied(Message { content: Some(Content::Status(p)) })
                ==> final(self).phases()[a@] == p,
            *outcome is TimedOut ==> final(self).phases()[a@] == Phase::Unreachable,
            *outcome is DecodeFailed ==> final(self).phases() == old(self).phases(),
    {
        match self.position(a) {
            Some(i) => self.record_at(i, outcome),
            None => {},
        }
        proof {
            assert(self.phases().dom() =~= old(self).phases().dom());
            if outcome is DecodeFailed {
                assert(self.phases() =~= old(self).phases());
            }
        }
    }

    /// Applies one probe round: `outcomes[i]` is the outcome of probing the
    /// `i`-th server, and each server's phase moves by its own outcome alone.
    pub fn record_round(&mut self, outcomes: &Vec<ProbeOutcome>)
        requires
            old(self).wf(),
            outcomes.len() == old(self).servers().len(),
        ensures
            final(self).wf(),
            final(self).servers() == old(self).servers(),
            final(self).phases() == after_round(old(self).phases(), old(self).servers(), outcomes@),
            final(self).phases().dom() == old(self).phases().dom(),
            forall|i: int| 0 <= i < outcomes.len() ==> #[trigger] final(self).phases()[old(self).servers()[i]]
                == phase_after(old(self).phases()[old(self).servers()[i]], outcomes[i]),
    {
        let ghost start = *self;
        proof { self.lemma_view(); }
        let mut i: usize = 0;
        while i < self.addresses.len()
            invariant
                self.wf(),
                outcomes.len() == self.servers().len(),
                self.servers() == start.servers(),
                start.servers().no_duplicates(),
                i <= self.servers().len(),
                self.phases() == after_round(start.phases(), start.servers().take(i as int), outcomes@),
            decreases self.addresses.len() - i,
        {
            proof {
                let s = start.servers();
                assert(s.take(i + 1).drop_last() =~= s.take(i as int));
                assert(s.take(i + 1).last() == s[i as int]);
                self.lemma_view();
                assert(self.servers().contains(s[i as int]));
            }
            self.record_at(i, &outcomes[i]);
            i = i + 1;
        }
        proof {
            assert(start.servers().take(i as int) =~= start.servers());
            lemma_after_round(start.phases(), start.servers(), outcomes@);
        }
    }
}

} // verus!
