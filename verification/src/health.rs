//! The health map: one flag per backend, optimistic at startup and set by
//! the outcome of each probe as it completes.

use vstd::prelude::*;
use vstd::string::*;
use crate::config::{Config, Targets};
use crate::routing::Balancer;

verus! {

/// A probe counts as a success exactly when a response came back and its
/// status code is in the 2xx class. `None` stands for every other outcome:
/// a refused connection, a timeout, a failed name lookup.
pub open spec fn probe_is_success(outcome: Option<u16>) -> bool {
    match outcome {
        Some(status) => 200 <= status < 300,
        None => false,
    }
}

/// The health map after the probe of backend `index` has completed.
/// A probe of a position that is not configured changes nothing.
pub open spec fn health_after(health: Seq<bool>, index: int, outcome: Option<u16>) -> Seq<bool> {
    if 0 <= index < health.len() {
        health.update(index, probe_is_success(outcome))
    } else {
        health
    }
}

/// The health map after a series of probes, applied in the order given.
pub open spec fn health_after_all(health: Seq<bool>, probes: Seq<(int, Option<u16>)>) -> Seq<bool>
    decreases probes.len(),
{
    if probes.len() == 0 {
        health
    } else {
        health_after(
            health_after_all(health, probes.drop_last()),
            probes.last().0,
            probes.last().1,
        )
    }
}

/// Number of backends that the map marks healthy.
pub open spec fn count_healthy(health: Seq<bool>) -> nat
    decreases health.len(),
{
    if health.len() == 0 {
        0
    } else {
        count_healthy(health.drop_last()) + if health.last() {
            1nat
        } else {
            0nat
        }
    }
}

/// The URL that the probe of `target` requests.
pub open spec fn health_check_url_of(target: Targets) -> Seq<char> {
    "http://"@ + target.address@ + target.health_check_endpoint@
}

/// After any series of probes, a backend's flag is the verdict of the most
/// recent probe of that backend, and a backend that was not probed keeps
/// the flag it had.
pub proof fn lemma_latest_probe_decides(
    health: Seq<bool>,
    probes: Seq<(int, Option<u16>)>,
    i: int,
)
    requires
        0 <= i < health.len(),
    ensures
        health_after_all(health, probes).len() == health.len(),
        (forall|k: int| 0 <= k < probes.len() ==> (#[trigger] probes[k]).0 != i)
            ==> health_after_all(health, probes)[i] == health[i],
        forall|k: int|
            0 <= k < probes.len() && (#[trigger] probes[k]).0 == i && (forall|l: int|
                k < l < probes.len() ==> (#[trigger] probes[l]).0 != i) ==> health_after_all(
                health,
                probes,
            )[i] == probe_is_success(probes[k].1),
    decreases probes.len(),
{
    if probes.len() > 0 {
        let earlier = probes.drop_last();
        lemma_latest_probe_decides(health, earlier, i);
        assert forall|k: int|
            0 <= k < probes.len() && (#[trigger] probes[k]).0 == i && (forall|l: int|
                k < l < probes.len() ==> (#[trigger] probes[l]).0 != i) implies health_after_all(
            health,
            probes,
        )[i] == probe_is_success(probes[k].1) by {
            if k < probes.len() - 1 {
                assert(probes[probes.len() - 1].0 != i);
                assert(earlier[k] == probes[k]);
                assert forall|l: int| k < l < earlier.len() implies (#[trigger] earlier[l]).0
                    != i by {
                    assert(earlier[l] == probes[l]);
                }
            }
        }
        if forall|k: int| 0 <= k < probes.len() ==> (#[trigger] probes[k]).0 != i {
            assert(probes[probes.len() - 1].0 != i);
            assert forall|k: int| 0 <= k < earlier.len() implies (#[trigger] earlier[k]).0
                != i by {
                assert(earlier[k] == probes[k]);
            }
        }
    }
}

/// One health tick probes every backend, in whatever order. Afterwards a
/// backend is healthy exactly when its probe was a success.
pub proof fn lemma_tick_sets_every_flag(
    health: Seq<bool>,
    outcomes: Seq<Option<u16>>,
    order: Seq<int>,
)
    requires
        outcomes.len() == health.len(),
        forall|k: int| 0 <= k < order.len() ==> 0 <= #[trigger] order[k] < health.len(),
        forall|i: int| 0 <= i < health.len() ==> order.contains(i),
    ensures
        health_after_all(health, Seq::new(order.len(), |k: int| (order[k], outcomes[order[k]])))
            =~= Seq::new(health.len(), |i: int| probe_is_success(outcomes[i])),
{
    let probes = Seq::new(order.len(), |k: int| (order[k], outcomes[order[k]]));
    let after = health_after_all(health, probes);
    assert forall|i: int| 0 <= i < health.len() implies after[i] == probe_is_success(
        outcomes[i],
    ) by {
        lemma_latest_probe_decides(health, probes, i);
        let k = last_position(order, i);
        lemma_last_position(order, i);
        assert(probes[k].0 == i);
        assert forall|l: int| k < l < probes.len() implies (#[trigger] probes[l]).0 != i by {
            assert(order[l] != i);
        }
    }
    if health.len() > 0 {
        lemma_latest_probe_decides(health, probes, 0);
    } else {
        lemma_length_kept(health, probes);
    }
}

/// The greatest position at which `order` holds `i`, or -1.
spec fn last_position(order: Seq<int>, i: int) -> int
    decreases order.len(),
{
    if order.len() == 0 {
        -1
    } else if order.last() == i {
        order.len() - 1
    } else {
        last_position(order.drop_last(), i)
    }
}

proof fn lemma_last_position(order: Seq<int>, i: int)
    requires
        order.contains(i),
    ensures
        0 <= last_position(order, i) < order.len(),
        order[last_position(order, i)] == i,
        forall|l: int| last_position(order, i) < l < order.len() ==> order[l] != i,
    decreases order.len(),
{
    let k = choose|k: int| 0 <= k < order.len() && order[k] == i;
    if order.last() != i {
        let shorter = order.drop_last();
        assert(shorter[k] == i);
        lemma_last_position(shorter, i);
        assert forall|l: int| last_position(order, i) < l < order.len() implies order[l]
            != i by {
            if l < shorter.len() {
                assert(shorter[l] == order[l]);
            }
        }
    }
}

proof fn lemma_length_kept(health: Seq<bool>, probes: Seq<(int, Option<u16>)>)
    ensures
        health_after_all(health, probes).len() == health.len(),
    decreases probes.len(),
{
    if probes.len() > 0 {
        lemma_length_kept(health, probes.drop_last());
    }
}

/// Whether the outcome of a probe marks the backend healthy.
pub fn probe_succeeded(outcome: Option<u16>) -> (r: bool)
    ensures
        r == probe_is_success(outcome),
{
    match outcome {
        Some(status) => 200 <= status && status < 300,
        None => false,
    }
}

/// The URL of a backend's health probe: the scheme, the address, the path.
pub fn health_check_url(target: &Targets) -> (url: String)
    ensures
        url@ == health_check_url_of(*target),
{
    let mut url = String::from_str("http://");
    url.append(target.address.as_str());
    url.append(target.health_check_endpoint.as_str());
    url
}

impl Balancer {
    /// The state at startup: every backend is taken to be healthy and the
    /// cursor stands at zero.
    pub fn new(config: Config) -> (b: Balancer)
        ensures
            b.wf(),
            b.config == config,
            b.cursor == 0,
            b.health@ =~= Seq::new(config.targets@.len(), |i: int| true),
    {
        let mut health: Vec<bool> = Vec::new();
        let mut i: usize = 0;
        while i < config.targets.len()
            invariant
                0 <= i <= config.targets.len(),
                health@ =~= Seq::new(i as nat, |i: int| true),
            decreases config.targets.len() - i,
        {
            health.push(true);
            i += 1;
        }
        Balancer { config, health, cursor: 0 }
    }

    /// The URL to probe for backend `index`, or `None` when the tick has
    /// gone through every backend. A tick asks for the indices from zero
    /// up, one probe each.
    pub fn probe_url(&self, index: usize) -> (url: Option<String>)
        ensures
            match url {
                Some(u) => index < self.config.targets@.len() && u@ == health_check_url_of(
                    self.config.targets@[index as int],
                ),
                None => index >= self.config.targets@.len(),
            },
    {
        if index < self.config.targets.len() {
            Some(health_check_url(&self.config.targets[index]))
        } else {
            None
        }
    }

    /// Commits the outcome of the probe of backend `index`. Only that
    /// backend's flag changes, and it changes at once: one failed probe
    /// marks the backend unhealthy, one success marks it healthy again.
    pub fn record_probe(&mut self, index: usize, outcome: Option<u16>)
        requires
            old(self).wf(),
        ensures
            final(self).wf(),
            final(self).health@ == health_after(old(self).health@, index as int, outcome),
            final(self).config == old(self).config,
            final(self).cursor == old(self).cursor,
    {
        if index < self.health.len() {
            let verdict = probe_succeeded(outcome);
            self.health.set(index, verdict);
        }
    }

    /// The current flag of backend `index`; `None` if there is no such backend.
    pub fn is_healthy(&self, index: usize) -> (r: Option<bool>)
        ensures
            r == if index < self.health@.len() {
                Some(self.health@[index as int])
            } else {
                None
            },
    {
        if index < self.health.len() {
            Some(self.health[index])
        } else {
            None
        }
    }

    /// How many backends are marked healthy right now.
    pub fn healthy_count(&self) -> (n: usize)
        ensures
            n as nat == count_healthy(self.health@),
    {
        let mut n: usize = 0;
        let mut i: usize = 0;
        while i < self.health.len()
            invariant
                0 <= i <= self.health.len(),
                n <= i,
                n as nat == count_healthy(self.health@.subrange(0, i as int)),
            decreases self.health.len() - i,
        {
            proof {
                assert(self.health@.subrange(0, i + 1).drop_last() =~= self.health@.subrange(
                    0,
                    i as int,
                ));
            }
            if self.health[i] {
                n += 1;
            }
            i += 1;
        }
        proof {
            assert(self.health@.subrange(0, i as int) =~= self.health@);
        }
        n
    }
}

} // verus!
