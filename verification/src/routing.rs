//! The routing engine: a path-prefix override first, then round-robin over
//! the backends that are healthy and that no path route refers to.

use vstd::prelude::*;
use crate::config::{Config, first_match, is_path_routed, lemma_first_match, route_matches};

verus! {

/// Outcome of one routing decision, by position in the configuration.
#[derive(Clone, Copy, Debug, PartialEq, Eq, Structural)]
pub enum Decision {
    /// The path route at this position of `path_routes` applies.
    PathRoute(usize),
    /// Round-robin chose the backend at this position of `targets`.
    Backend(usize),
    /// No path route applies and the round-robin pool is empty.
    Unavailable,
}

/// The shared routing state: the fixed configuration, one health flag per
/// backend and the round-robin cursor.
#[derive(Clone, Debug)]
pub struct Balancer {
    pub config: Config,
    /// `health[i]` is the latest judgment of `config.targets[i]`.
    pub health: Vec<bool>,
    /// Number of round-robin picks made so far.
    pub cursor: usize,
}

/// Backend `i` may be picked by round-robin: it is marked healthy and no
/// path route sends traffic to its address.
pub open spec fn eligible(config: Config, health: Seq<bool>, i: int) -> bool {
    &&& 0 <= i < config.targets@.len()
    &&& i < health.len()
    &&& health[i]
    &&& !is_path_routed(config.path_routes@, config.targets@[i].address@)
}

/// The eligible backends among the first `n`, in configuration order.
pub open spec fn candidates_upto(config: Config, health: Seq<bool>, n: int) -> Seq<int>
    decreases n,
{
    if n <= 0 {
        Seq::empty()
    } else {
        let before = candidates_upto(config, health, n - 1);
        if eligible(config, health, n - 1) {
            before.push(n - 1)
        } else {
            before
        }
    }
}

/// The round-robin pool: every eligible backend, in configuration order.
pub open spec fn candidates(config: Config, health: Seq<bool>) -> Seq<int> {
    candidates_upto(config, health, config.targets@.len() as int)
}

/// The decision for `path` under the given health snapshot and cursor.
pub open spec fn decide(config: Config, health: Seq<bool>, cursor: nat, path: Seq<char>) -> Decision {
    match first_match(config.path_routes@, path) {
        Some(i) => Decision::PathRoute(i as usize),
        None => {
            let pool = candidates(config, health);
            if pool.len() == 0 {
                Decision::Unavailable
            } else {
                Decision::Backend(pool[cursor as int % pool.len() as int] as usize)
            }
        },
    }
}

/// The cursor after the decision for `path`: one more after a round-robin
/// pick, the same otherwise.
pub open spec fn cursor_after(config: Config, health: Seq<bool>, cursor: nat, path: Seq<char>) -> nat {
    if decide(config, health, cursor, path) is Backend {
        cursor + 1
    } else {
        cursor
    }
}

/// The address that a decision sends the connection to.
pub open spec fn decision_address(config: Config, d: Decision) -> Option<Seq<char>> {
    match d {
        Decision::PathRoute(i) => if i < config.path_routes@.len() {
            Some(config.path_routes@[i as int].address@)
        } else {
            None
        },
        Decision::Backend(i) => if i < config.targets@.len() {
            Some(config.targets@[i as int].address@)
        } else {
            None
        },
        Decision::Unavailable => None,
    }
}

/// The pool is exactly the eligible backends below `n`, each once, in
/// increasing order of position.
pub proof fn lemma_candidates_upto(config: Config, health: Seq<bool>, n: int)
    requires
        0 <= n <= config.targets@.len(),
    ensures
        candidates_upto(config, health, n).len() <= n,
        forall|k: int|
            0 <= k < candidates_upto(config, health, n).len() ==> 0 <= (
            #[trigger] candidates_upto(config, health, n)[k]) < n && eligible(
                config,
                health,
                candidates_upto(config, health, n)[k],
            ),
        forall|k: int, l: int|
            0 <= k < l < candidates_upto(config, health, n).len() ==> (
            #[trigger] candidates_upto(config, health, n)[k]) < (
            #[trigger] candidates_upto(config, health, n)[l]),
        forall|i: int|
            0 <= i < n && eligible(config, health, i) ==> candidates_upto(
                config,
                health,
                n,
            ).contains(i),
    decreases n,
{
    if n > 0 {
        lemma_candidates_upto(config, health, n - 1);
        let before = candidates_upto(config, health, n - 1);
        let now = candidates_upto(config, health, n);
        assert forall|i: int| 0 <= i < n && eligible(config, health, i) implies now.contains(
            i,
        ) by {
            if i < n - 1 {
                let k = choose|k: int| 0 <= k < before.len() && before[k] == i;
                assert(now[k] == i);
            } else {
                assert(now[now.len() - 1] == i);
            }
        }
    }
}

/// A path that some route applies to always goes by the first such route,
/// whatever the health map and the cursor hold, and leaves the cursor alone.
pub proof fn lemma_path_route_wins(
    config: Config,
    health: Seq<bool>,
    cursor: nat,
    path: Seq<char>,
    j: int,
)
    requires
        config.path_routes@.len() <= usize::MAX,
        0 <= j < config.path_routes@.len(),
        route_matches(config.path_routes@[j], path),
    ensures
        first_match(config.path_routes@, path) is Some,
        0 <= first_match(config.path_routes@, path)->0 <= j,
        decide(config, health, cursor, path) == Decision::PathRoute(
            first_match(config.path_routes@, path)->0 as usize,
        ),
        decision_address(config, decide(config, health, cursor, path)) == Some(
            config.path_routes@[first_match(config.path_routes@, path)->0].address@,
        ),
        cursor_after(config, health, cursor, path) == cursor,
        forall|other_health: Seq<bool>, other_cursor: nat|
            decide(config, other_health, other_cursor, path) == decide(
                config,
                health,
                cursor,
                path,
            ),
{
    lemma_first_match(config.path_routes@, path);
}

/// What round-robin picks is a configured backend that is marked healthy,
/// whose address no path route refers to, and it is picked only for a path
/// that no route applies to.
pub proof fn lemma_round_robin_pick_is_eligible(
    config: Config,
    health: Seq<bool>,
    cursor: nat,
    path: Seq<char>,
)
    requires
        config.targets@.len() <= usize::MAX,
    ensures
        match decide(config, health, cursor, path) {
            Decision::Backend(i) => {
                &&& first_match(config.path_routes@, path) is None
                &&& eligible(config, health, i as int)
                &&& health[i as int]
                &&& !is_path_routed(config.path_routes@, config.targets@[i as int].address@)
            },
            _ => true,
        },
{
    lemma_candidates_upto(config, health, config.targets@.len() as int);
    let pool = candidates(config, health);
    if pool.len() > 0 {
        let at = cursor as int % pool.len() as int;
        assert(0 <= at < pool.len()) by (nonlinear_arith)
            requires
                at == cursor as int % pool.len() as int,
                pool.len() > 0,
        ;
        assert(eligible(config, health, pool[at]));
    }
}

/// Nothing is available exactly when no route applies to the path and no
/// backend is eligible.
pub proof fn lemma_unavailable_iff(
    config: Config,
    health: Seq<bool>,
    cursor: nat,
    path: Seq<char>,
)
    ensures
        decide(config, health, cursor, path) is Unavailable <==> {
            &&& forall|j: int|
                0 <= j < config.path_routes@.len() ==> !route_matches(
                    #[trigger] config.path_routes@[j],
                    path,
                )
            &&& forall|i: int| !eligible(config, health, i)
        },
{
    lemma_first_match(config.path_routes@, path);
    lemma_candidates_upto(config, health, config.targets@.len() as int);
    let pool = candidates(config, health);
    if pool.len() > 0 {
        assert(eligible(config, health, pool[0]));
    }
    if exists|i: int| eligible(config, health, i) {
        let i = choose|i: int| eligible(config, health, i);
        assert(pool.contains(i));
    }
}

impl Balancer {
    /// The health map has one entry per configured backend.
    pub open spec fn wf(&self) -> bool {
        self.health@.len() == self.config.targets@.len()
    }

    /// Whether the health map has one entry per configured backend.
    pub fn is_well_formed(&self) -> (r: bool)
        ensures
            r == self.wf(),
    {
        self.health.len() == self.config.targets.len()
    }

    /// The round-robin pool under the current health map.
    pub fn pool(&self) -> (pool: Vec<usize>)
        requires
            self.wf(),
        ensures
            pool@.len() == candidates(self.config, self.health@).len(),
            forall|k: int|
                0 <= k < pool@.len() ==> pool@[k] as int == candidates(
                    self.config,
                    self.health@,
                )[k],
    {
        let mut pool: Vec<usize> = Vec::new();
        let mut i: usize = 0;
        while i < self.config.targets.len()
            invariant
                self.wf(),
                0 <= i <= self.config.targets.len(),
                pool@.len() == candidates_upto(self.config, self.health@, i as int).len(),
                forall|k: int|
                    0 <= k < pool@.len() ==> pool@[k] as int == candidates_upto(
                        self.config,
                        self.health@,
                        i as int,
                    )[k],
            decreases self.config.targets.len() - i,
        {
            if self.health[i] && !self.config.is_path_routed(
                self.config.targets[i].address.as_str(),
            ) {
                pool.push(i);
            }
            i += 1;
        }
        pool
    }

    /// Routes one request path: the first path route that applies wins;
    /// otherwise the pool member at `cursor mod |pool|` is picked and the
    /// cursor moves on by one; with an empty pool nothing is available.
    pub fn select(&mut self, path: &str) -> (d: Decision)
        requires
            old(self).wf(),
            old(self).cursor < usize::MAX,
        ensures
            final(self).wf(),
            d == decide(old(self).config, old(self).health@, old(self).cursor as nat, path@),
            final(self).cursor as nat == cursor_after(
                old(self).config,
                old(self).health@,
                old(self).cursor as nat,
                path@,
            ),
            final(self).config == old(self).config,
            final(self).health == old(self).health,
            decision_address(old(self).config, d) is Some <==> !(d is Unavailable),
    {
        proof {
            lemma_first_match(self.config.path_routes@, path@);
            lemma_candidates_upto(self.config, self.health@, self.config.targets@.len() as int);
        }
        match self.config.find_route(path) {
            Some(i) => Decision::PathRoute(i),
            None => {
                let pool = self.pool();
                if pool.len() == 0 {
                    Decision::Unavailable
                } else {
                    let d = Decision::Backend(pool[self.cursor % pool.len()]);
                    self.cursor = self.cursor + 1;
                    d
                }
            },
        }
    }

    /// The address behind a decision, or `None` for `Unavailable`.
    pub fn address_of(&self, d: Decision) -> (r: Option<String>)
        ensures
            match r {
                Some(a) => decision_address(self.config, d) == Some(a@),
                None => decision_address(self.config, d) is None,
            },
    {
        match d {
            Decision::PathRoute(i) => if i < self.config.path_routes.len() {
                Some(self.config.path_routes[i].address.clone())
            } else {
                None
            },
            Decision::Backend(i) => if i < self.config.targets.len() {
                Some(self.config.targets[i].address.clone())
            } else {
                None
            },
            Decision::Unavailable => None,
        }
    }
}

} // verus!
