//! What round-robin guarantees over a run of selections: the pool is walked
//! in cyclic order from the cursor, and no member is picked more than once
//! more often than another.

use vstd::prelude::*;
use vstd::arithmetic::div_mod::{
    lemma_div_plus_one,
    lemma_fundamental_div_mod,
    lemma_fundamental_div_mod_converse,
    lemma_mod_pos_bound,
};
use crate::config::{Config, first_match};
use crate::routing::{candidates, cursor_after, decide, lemma_candidates_upto, Decision};

verus! {

/// The decisions for a run of request paths, each made with the cursor that
/// the one before it left behind, against one health snapshot.
pub open spec fn decisions(
    config: Config,
    health: Seq<bool>,
    cursor: nat,
    paths: Seq<Seq<char>>,
) -> Seq<Decision>
    decreases paths.len(),
{
    if paths.len() == 0 {
        Seq::empty()
    } else {
        seq![decide(config, health, cursor, paths[0])] + decisions(
            config,
            health,
            cursor_after(config, health, cursor, paths[0]),
            paths.drop_first(),
        )
    }
}

/// How often `d` occurs in `run`.
pub open spec fn occurrences(run: Seq<Decision>, d: Decision) -> nat
    decreases run.len(),
{
    if run.len() == 0 {
        0
    } else {
        occurrences(run.drop_last(), d) + if run.last() == d {
            1nat
        } else {
            0nat
        }
    }
}

/// How many of the `n` numbers from `start` on leave the remainder `p`
/// when divided by `k`.
pub open spec fn hits(k: int, start: int, n: int, p: int) -> int
    decreases n,
{
    if n <= 0 {
        0
    } else {
        hits(k, start, n - 1, p) + if (start + n - 1) % k == p {
            1int
        } else {
            0int
        }
    }
}

proof fn lemma_hits_split(k: int, start: int, a: int, b: int, p: int)
    requires
        k > 0,
        a >= 0,
        b >= 0,
    ensures
        hits(k, start, a + b, p) == hits(k, start, a, p) + hits(k, start + a, b, p),
    decreases b,
{
    if b > 0 {
        lemma_hits_split(k, start, a, b - 1, p);
    }
}

proof fn lemma_hits_nonnegative(k: int, start: int, n: int, p: int)
    ensures
        hits(k, start, n, p) >= 0,
    decreases n,
{
    if n > 0 {
        lemma_hits_nonnegative(k, start, n - 1, p);
    }
}

/// While the remainders do not wrap around, there is a hit exactly when
/// `p` lies among them.
proof fn lemma_hits_without_wrap(k: int, start: int, n: int, p: int)
    requires
        k > 0,
        start >= 0,
        n >= 0,
        start % k + n <= k,
    ensures
        hits(k, start, n, p) == if start % k <= p < start % k + n {
            1int
        } else {
            0int
        },
    decreases n,
{
    if n > 0 {
        lemma_hits_without_wrap(k, start, n - 1, p);
        lemma_fundamental_div_mod(start, k);
        lemma_mod_pos_bound(start, k);
        assert((start / k) * k == k * (start / k)) by (nonlinear_arith);
        lemma_fundamental_div_mod_converse(start + n - 1, k, start / k, start % k + n - 1);
    }
}

/// Any `k` numbers in a row leave each remainder exactly once.
proof fn lemma_hits_window(k: int, start: int, p: int)
    requires
        k > 0,
        start >= 0,
        0 <= p < k,
    ensures
        hits(k, start, k, p) == 1,
{
    let r = start % k;
    lemma_fundamental_div_mod(start, k);
    lemma_mod_pos_bound(start, k);
    lemma_hits_split(k, start, k - r, r, p);
    lemma_hits_without_wrap(k, start, k - r, p);
    assert((start / k + 1) * k == k * (start / k) + k) by (nonlinear_arith);
    lemma_fundamental_div_mod_converse(start + k - r, k, start / k + 1, 0);
    lemma_hits_without_wrap(k, start + k - r, r, p);
}

/// Among `n` numbers in a row, each remainder modulo `k` occurs `n / k`
/// times, rounded down or up.
pub proof fn lemma_hits_balanced(k: int, start: int, n: int, p: int)
    requires
        k > 0,
        start >= 0,
        n >= 0,
        0 <= p < k,
    ensures
        n / k <= hits(k, start, n, p) <= (n + k - 1) / k,
    decreases n,
{
    if n == 0 {
        assert(0int / k == 0) by (nonlinear_arith)
            requires
                k > 0,
        ;
        assert((k - 1) / k == 0) by (nonlinear_arith)
            requires
                k > 0,
        ;
    } else if n < k {
        lemma_hits_split(k, start, n, k - n, p);
        lemma_hits_window(k, start, p);
        lemma_hits_nonnegative(k, start, n, p);
        lemma_hits_nonnegative(k, start + n, k - n, p);
        assert(n / k == 0) by (nonlinear_arith)
            requires
                0 <= n < k,
        ;
        assert((n + k - 1) / k == 1) by (nonlinear_arith)
            requires
                0 < n < k,
        ;
    } else {
        lemma_hits_split(k, start, k, n - k, p);
        lemma_hits_window(k, start, p);
        lemma_hits_balanced(k, start + k, n - k, p);
        lemma_div_plus_one(n - k, k);
        lemma_div_plus_one(n - 1, k);
    }
}

/// While no request path matches a path route and the health snapshot
/// stays as it is, the selections walk the pool in cyclic order, starting
/// at the cursor: the one at position `j` of the run is the pool member at
/// `(cursor + j) mod |pool|`.
pub proof fn lemma_round_robin_is_cyclic(
    config: Config,
    health: Seq<bool>,
    cursor: nat,
    paths: Seq<Seq<char>>,
)
    requires
        candidates(config, health).len() > 0,
        forall|j: int|
            0 <= j < paths.len() ==> first_match(config.path_routes@, #[trigger] paths[j])
                is None,
    ensures
        decisions(config, health, cursor, paths) =~= Seq::new(
            paths.len(),
            |j: int|
                Decision::Backend(
                    candidates(config, health)[(cursor + j) % candidates(
                        config,
                        health,
                    ).len() as int] as usize,
                ),
        ),
    decreases paths.len(),
{
    if paths.len() > 0 {
        let rest = paths.drop_first();
        assert(first_match(config.path_routes@, paths[0]) is None);
        assert forall|j: int| 0 <= j < rest.len() implies first_match(
            config.path_routes@,
            #[trigger] rest[j],
        ) is None by {
            assert(rest[j] == paths[j + 1]);
        }
        lemma_round_robin_is_cyclic(config, health, cursor + 1, rest);
        let run = decisions(config, health, cursor, paths);
        let tail = decisions(config, health, cursor + 1, rest);
        assert(run =~= seq![decide(config, health, cursor, paths[0])] + tail);
        assert forall|j: int| 0 <= j < paths.len() implies run[j] == Decision::Backend(
            candidates(config, health)[(cursor + j) % candidates(config, health).len() as int] as usize,
        ) by {
            if j > 0 {
                assert(run[j] == tail[j - 1]);
                assert(cursor + 1 + (j - 1) == cursor + j);
            }
        }
    }
}

proof fn lemma_occurrences_cyclic(pool: Seq<int>, cursor: nat, n: nat, p: int)
    requires
        pool.len() > 0,
        0 <= p < pool.len(),
        forall|a: int| 0 <= a < pool.len() ==> 0 <= #[trigger] pool[a] <= usize::MAX,
        forall|a: int, b: int| 0 <= a < b < pool.len() ==> pool[a] < pool[b],
    ensures
        occurrences(
            Seq::new(n, |j: int| Decision::Backend(pool[(cursor + j) % pool.len() as int] as usize)),
            Decision::Backend(pool[p] as usize),
        ) == hits(pool.len() as int, cursor as int, n as int, p),
    decreases n,
{
    if n > 0 {
        let k = pool.len() as int;
        let run = Seq::new(n, |j: int| Decision::Backend(pool[(cursor + j) % k] as usize));
        let shorter = Seq::new(
            (n - 1) as nat,
            |j: int| Decision::Backend(pool[(cursor + j) % k] as usize),
        );
        assert(run.drop_last() =~= shorter);
        lemma_occurrences_cyclic(pool, cursor, (n - 1) as nat, p);
        let q = (cursor + n - 1) % k;
        assert(0 <= q < k) by (nonlinear_arith)
            requires
                q == (cursor + n - 1) % k,
                k > 0,
                cursor + n - 1 >= 0,
        ;
        assert(run.last() == Decision::Backend(pool[q] as usize));
        if q != p {
            if q < p {
                assert(pool[q] < pool[p]);
            } else {
                assert(pool[p] < pool[q]);
            }
        }
    }
}

/// Over `paths.len()` selections in a row against a pool of size `k` that
/// does not change, with no request path matching a path route, every pool
/// member is picked `paths.len() / k` times, rounded down or up.
pub proof fn lemma_round_robin_is_fair(
    config: Config,
    health: Seq<bool>,
    cursor: nat,
    paths: Seq<Seq<char>>,
    p: int,
)
    requires
        config.targets@.len() <= usize::MAX,
        0 <= p < candidates(config, health).len(),
        forall|j: int|
            0 <= j < paths.len() ==> first_match(config.path_routes@, #[trigger] paths[j])
                is None,
    ensures
        paths.len() / candidates(config, health).len() <= occurrences(
            decisions(config, health, cursor, paths),
            Decision::Backend(candidates(config, health)[p] as usize),
        ) <= (paths.len() + candidates(config, health).len() - 1) / (candidates(
            config,
            health,
        ).len() as int),
{
    let pool = candidates(config, health);
    lemma_candidates_upto(config, health, config.targets@.len() as int);
    lemma_round_robin_is_cyclic(config, health, cursor, paths);
    lemma_occurrences_cyclic(pool, cursor, paths.len(), p);
    lemma_hits_balanced(pool.len() as int, cursor as int, paths.len() as int, p);
}

} // verus!
