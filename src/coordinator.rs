//! The coordinator: the port it serves players on, the secret reserved for
//! authenticating servers, and the prober over the configured servers.

use vstd::prelude::*;
use crate::prober::Prober;
use crate::registry::{listed, AddressView, Registry};
use crate::wire::{Phase, ServerAddress};

verus! {

/// Whether `a` is one of the configured `(host, port)` pairs.
pub open spec fn configured(addresses: Seq<(String, i16)>, a: AddressView) -> bool {
    exists|j: int| 0 <= j < addresses.len() && (#[trigger] addresses[j]).0@ == a.0 && addresses[j].1 == a.1
}

/// Owns the prober, which owns the registry. Listening for players and
/// running the probing schedule happen outside, around this value.
pub struct Coordinator {
    port: u16,
    secret: String,
    prober: Prober,
}

impl Coordinator {
    pub closed spec fn wf(&self) -> bool {
        self.prober.wf()
    }

    pub closed spec fn port_spec(&self) -> u16 {
        self.port
    }

    pub closed spec fn secret_spec(&self) -> Seq<char> {
        self.secret@
    }

    pub closed spec fn prober_spec(&self) -> Prober {
        self.prober
    }

    /// A coordinator for players on `port`, tracking the configured servers,
    /// each in phase `Unknown`, with an idle prober and an empty secret.
    pub fn new(port: u16, addresses: Vec<(String, i16)>) -> (r: Coordinator)
        ensures
            r.wf(),
            r.port_spec() == port,
            r.secret_spec() == Seq::<char>::empty(),
            r.prober_spec().cursor() == None::<int>,
            forall|a: AddressView| #[trigger] r.prober_spec().phases().contains_key(a) <==> configured(addresses@, a),
            forall|a: AddressView| #[trigger] r.prober_spec().phases().contains_key(a)
                ==> r.prober_spec().phases()[a] == Phase::Unknown,
            r.prober_spec().servers().no_duplicates(),
            forall|a: AddressView| #[trigger] r.prober_spec().servers().contains(a) <==> configured(addresses@, a),
    {
        let mut servers: Vec<ServerAddress> = Vec::new();
        let mut i: usize = 0;
        while i < addresses.len()
            invariant
                i <= addresses.len(),
                servers.len() == i,
                forall|j: int| 0 <= j < i ==> #[trigger] servers[j]@ == (addresses[j].0@, addresses[j].1),
            decreases addresses.len() - i,
        {
            servers.push(ServerAddress::new(addresses[i].0.clone(), addresses[i].1));
            i = i + 1;
        }
        let registry = Registry::initialize(&servers);
        assert forall|a: AddressView| listed(servers@, a) <==> configured(addresses@, a) by {
            if listed(servers@, a) {
                let j = choose|j: int| 0 <= j < servers.len() && #[trigger] servers@[j]@ == a;
                assert(addresses[j].0@ == a.0 && addresses[j].1 == a.1);
            }
            if configured(addresses@, a) {
                let j = choose|j: int| 0 <= j < addresses.len() && (#[trigger] addresses@[j]).0@ == a.0 && addresses@[j].1 == a.1;
                assert(servers@[j]@ == a);
            }
        }
        let prober = Prober::new(registry);
        proof { prober.lemma_view(); }
        Coordinator { port, secret: String::new(), prober }
    }

    /// The port players connect to.
    pub fn port(&self) -> (r: u16)
        ensures
            r == self.port_spec(),
    {
        self.port
    }

    /// The secret shared with the game servers.
    pub fn secret(&self) -> (r: &str)
        ensures
            r@ == self.secret_spec(),
    {
        self.secret.as_str()
    }

    /// The prober and the phases it has observed.
    pub fn prober(&self) -> (r: &Prober)
        ensures
            *r == self.prober_spec(),
    {
        &self.prober
    }

    /// Hands the prober over to whatever runs the probing schedule.
    pub fn into_prober(self) -> (r: Prober)
        ensures
            r == self.prober_spec(),
    {
        self.prober
    }
}

} // verus!
