//! The configuration model: an ordered backend list and an ordered list of
//! path routes, both fixed for the lifetime of the process.

use vstd::prelude::*;

verus! {

/// One backend: where it listens and which path answers its health probe.
#[derive(Clone, Debug, PartialEq, Eq, Hash)]
pub struct Targets {
    /// `host:port` of the backend.
    pub address: String,
    /// Path of the HTTP health-check endpoint, starting with `/`.
    pub health_check_endpoint: String,
}

/// A static override: every request path that starts with `path` goes to
/// `address`, whatever the health map says.
#[derive(Clone, Debug, PartialEq, Eq, Hash)]
pub struct PathRoute {
    /// Prefix that a request path is compared with.
    pub path: String,
    /// `host:port` that matching requests are sent to.
    pub address: String,
}

/// The whole configuration, in the order in which it was written down.
#[derive(Clone, Debug, PartialEq, Eq)]
pub struct Config {
    pub targets: Vec<Targets>,
    pub path_routes: Vec<PathRoute>,
}

/// `route` applies to `path`: its prefix is a literal prefix of the path.
pub open spec fn route_matches(route: PathRoute, path: Seq<char>) -> bool {
    route.path@.is_prefix_of(path)
}

/// Position of the first route at or after `from` that applies to `path`,
/// or `routes.len()` when none does.
pub open spec fn first_match_from(routes: Seq<PathRoute>, path: Seq<char>, from: int) -> int
    decreases routes.len() - from,
{
    if from < 0 || from >= routes.len() {
        routes.len() as int
    } else if route_matches(routes[from], path) {
        from
    } else {
        first_match_from(routes, path, from + 1)
    }
}

/// Position of the first route that applies to `path`, if any does.
pub open spec fn first_match(routes: Seq<PathRoute>, path: Seq<char>) -> Option<int> {
    let i = first_match_from(routes, path, 0);
    if i < routes.len() {
        Some(i)
    } else {
        None
    }
}

/// Some route sends traffic to `address`.
pub open spec fn is_path_routed(routes: Seq<PathRoute>, address: Seq<char>) -> bool {
    exists|j: int| 0 <= j < routes.len() && (#[trigger] routes[j]).address@ == address
}

/// What `first_match_from` finds is the least matching position from `from` on.
pub proof fn lemma_first_match_from(routes: Seq<PathRoute>, path: Seq<char>, from: int)
    requires
        0 <= from <= routes.len(),
    ensures
        from <= first_match_from(routes, path, from) <= routes.len(),
        first_match_from(routes, path, from) < routes.len() ==> route_matches(
            routes[first_match_from(routes, path, from)],
            path,
        ),
        forall|j: int|
            from <= j < first_match_from(routes, path, from) ==> !route_matches(
                #[trigger] routes[j],
                path,
            ),
    decreases routes.len() - from,
{
    if from < routes.len() && !route_matches(routes[from], path) {
        lemma_first_match_from(routes, path, from + 1);
    }
}

/// `first_match` is `Some(i)` exactly for the first route that applies, and
/// `None` exactly when no route applies.
pub proof fn lemma_first_match(routes: Seq<PathRoute>, path: Seq<char>)
    ensures
        match first_match(routes, path) {
            Some(i) => 0 <= i < routes.len() && route_matches(routes[i], path) && forall|j: int|
                0 <= j < i ==> !route_matches(#[trigger] routes[j], path),
            None => forall|j: int|
                0 <= j < routes.len() ==> !route_matches(#[trigger] routes[j], path),
        },
{
    lemma_first_match_from(routes, path, 0);
}

impl Config {
    /// Index of the first path route whose prefix starts `path`.
    pub fn find_route(&self, path: &str) -> (r: Option<usize>)
        ensures
            r is Some <==> first_match(self.path_routes@, path@) is Some,
            r is Some ==> r->0 as int == first_match(self.path_routes@, path@)->0,
    {
        let mut i: usize = 0;
        while i < self.path_routes.len()
            invariant
                0 <= i <= self.path_routes.len(),
                first_match_from(self.path_routes@, path@, 0) == first_match_from(
                    self.path_routes@,
                    path@,
                    i as int,
                ),
            decreases self.path_routes.len() - i,
        {
            if crate::text::starts_with(path, self.path_routes[i].path.as_str()) {
                return Some(i);
            }
            i += 1;
        }
        None
    }

    /// Whether some path route names `address` as its destination.
    pub fn is_path_routed(&self, address: &str) -> (r: bool)
        ensures
            r == is_path_routed(self.path_routes@, address@),
    {
        let mut j: usize = 0;
        while j < self.path_routes.len()
            invariant
                0 <= j <= self.path_routes.len(),
                forall|k: int| 0 <= k < j ==> (#[trigger] self.path_routes@[k]).address@ != address@,
            decreases self.path_routes.len() - j,
        {
            if crate::text::same_text(self.path_routes[j].address.as_str(), address) {
                return true;
            }
            j += 1;
        }
        false
    }
}

} // verus!
