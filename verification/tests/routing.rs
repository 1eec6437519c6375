use load_balancer::config::{Config, PathRoute, Targets};
use load_balancer::routing::{Balancer, Decision};

fn target(address: &str) -> Targets {
    Targets { address: address.to_string(), health_check_endpoint: "/healthz".to_string() }
}

fn route(path: &str, address: &str) -> PathRoute {
    PathRoute { path: path.to_string(), address: address.to_string() }
}

fn balancer(targets: &[&str], routes: &[(&str, &str)]) -> Balancer {
    Balancer::new(Config {
        targets: targets.iter().map(|a| target(a)).collect(),
        path_routes: routes.iter().map(|(p, a)| route(p, a)).collect(),
    })
}

fn pick(b: &mut Balancer, path: &str) -> Option<String> {
    let d = b.select(path);
    b.address_of(d)
}

#[test]
fn two_healthy_backends_alternate() {
    let mut b = balancer(&["a:1", "b:1"], &[]);
    assert_eq!(b.cursor, 0);
    let picks: Vec<Option<String>> = (0..4).map(|_| pick(&mut b, "/")).collect();
    assert_eq!(
        picks,
        vec![
            Some("a:1".to_string()),
            Some("b:1".to_string()),
            Some("a:1".to_string()),
            Some("b:1".to_string())
        ]
    );
    assert_eq!(b.cursor, 4);
}

#[test]
fn unhealthy_backend_is_skipped() {
    let mut b = balancer(&["a:1", "b:1"], &[]);
    b.record_probe(1, None);
    for _ in 0..5 {
        assert_eq!(pick(&mut b, "/"), Some("a:1".to_string()));
    }
}

#[test]
fn path_route_wins_whatever_the_health() {
    let mut b = balancer(&["a:1", "b:1"], &[("/api", "c:1")]);
    assert_eq!(b.select("/api/x"), Decision::PathRoute(0));
    assert_eq!(pick(&mut b, "/api/x"), Some("c:1".to_string()));
    b.record_probe(0, Some(500));
    assert_eq!(pick(&mut b, "/api/x"), Some("c:1".to_string()));
    b.record_probe(1, None);
    assert_eq!(pick(&mut b, "/api/x"), Some("c:1".to_string()));
    assert_eq!(pick(&mut b, "/api"), Some("c:1".to_string()));
    assert_eq!(b.cursor, 0);
}

#[test]
fn all_unhealthy_is_unavailable() {
    let mut b = balancer(&["a:1", "b:1"], &[]);
    b.record_probe(0, Some(503));
    b.record_probe(1, None);
    assert_eq!(b.select("/"), Decision::Unavailable);
    assert_eq!(pick(&mut b, "/anything"), None);
    assert_eq!(b.cursor, 0);
}

#[test]
fn no_backends_is_unavailable() {
    let mut b = balancer(&[], &[]);
    assert_eq!(b.select("/"), Decision::Unavailable);
    assert_eq!(b.address_of(Decision::Unavailable), None);
}

#[test]
fn first_matching_route_wins() {
    let mut b = balancer(&["a:1"], &[("/api/v2", "v2:1"), ("/api", "v1:1"), ("/", "root:1")]);
    assert_eq!(b.select("/api/v2/items"), Decision::PathRoute(0));
    assert_eq!(b.select("/api/v1/items"), Decision::PathRoute(1));
    assert_eq!(b.select("/index.html"), Decision::PathRoute(2));
    assert_eq!(b.config.find_route("/api/v2/items"), Some(0));
    assert_eq!(b.config.find_route("api"), None);
}

#[test]
fn prefix_match_is_textual() {
    let mut b = balancer(&["a:1"], &[("/api", "c:1")]);
    assert_eq!(b.select("/apiary"), Decision::PathRoute(0));
    assert_eq!(b.select("/ap"), Decision::Backend(0));
    assert_eq!(b.select("/API"), Decision::Backend(0));
    assert_eq!(b.select("/\u{e9}/api"), Decision::Backend(0));
}

#[test]
fn empty_prefix_matches_every_path() {
    let mut b = balancer(&["a:1"], &[("", "c:1")]);
    assert_eq!(b.select("/"), Decision::PathRoute(0));
    assert_eq!(b.select(""), Decision::PathRoute(0));
}

#[test]
fn path_routed_address_is_never_picked_by_round_robin() {
    let mut b = balancer(&["a:1", "c:1", "b:1"], &[("/api", "c:1")]);
    assert_eq!(b.is_healthy(1), Some(true));
    assert_eq!(b.pool(), vec![0, 2]);
    for _ in 0..6 {
        let chosen = pick(&mut b, "/other").unwrap();
        assert_ne!(chosen, "c:1");
    }
    assert!(b.config.is_path_routed("c:1"));
    assert!(!b.config.is_path_routed("a:1"));
}

#[test]
fn only_path_routed_backends_left_is_unavailable() {
    let mut b = balancer(&["c:1"], &[("/api", "c:1")]);
    assert_eq!(b.select("/other"), Decision::Unavailable);
    assert_eq!(b.select("/api"), Decision::PathRoute(0));
}

#[test]
fn round_robin_is_cyclic_and_even() {
    let mut b = balancer(&["a:1", "b:1", "c:1"], &[]);
    b.cursor = 7;
    let mut counts = [0usize; 3];
    let mut order = Vec::new();
    for _ in 0..10 {
        match b.select("/") {
            Decision::Backend(i) => {
                counts[i] += 1;
                order.push(i);
            }
            other => panic!("unexpected {:?}", other),
        }
    }
    assert_eq!(order, vec![1, 2, 0, 1, 2, 0, 1, 2, 0, 1]);
    assert_eq!(counts, [3, 4, 3]);
    assert_eq!(b.cursor, 17);
}

#[test]
fn cursor_is_not_reset_when_the_pool_changes() {
    let mut b = balancer(&["a:1", "b:1", "c:1"], &[]);
    assert_eq!(b.select("/"), Decision::Backend(0));
    assert_eq!(b.select("/"), Decision::Backend(1));
    b.record_probe(0, None);
    // cursor is 2, the pool is [b, c]: 2 mod 2 = 0
    assert_eq!(b.pool(), vec![1, 2]);
    assert_eq!(b.select("/"), Decision::Backend(1));
    assert_eq!(b.select("/"), Decision::Backend(2));
    b.record_probe(0, Some(204));
    // cursor is 4, the pool is [a, b, c]: 4 mod 3 = 1
    assert_eq!(b.select("/"), Decision::Backend(1));
}

#[test]
fn cursor_moves_only_on_round_robin_picks() {
    let mut b = balancer(&["a:1"], &[("/api", "c:1")]);
    b.select("/api");
    assert_eq!(b.cursor, 0);
    b.select("/x");
    assert_eq!(b.cursor, 1);
    b.record_probe(0, None);
    assert_eq!(b.select("/x"), Decision::Unavailable);
    assert_eq!(b.cursor, 1);
}

#[test]
fn address_of_out_of_range_is_none() {
    let b = balancer(&["a:1"], &[("/api", "c:1")]);
    assert_eq!(b.address_of(Decision::Backend(0)), Some("a:1".to_string()));
    assert_eq!(b.address_of(Decision::Backend(1)), None);
    assert_eq!(b.address_of(Decision::PathRoute(0)), Some("c:1".to_string()));
    assert_eq!(b.address_of(Decision::PathRoute(5)), None);
}

#[test]
fn duplicate_addresses_are_separate_pool_members() {
    let mut b = balancer(&["a:1", "a:1"], &[]);
    assert_eq!(b.select("/"), Decision::Backend(0));
    assert_eq!(b.select("/"), Decision::Backend(1));
    b.record_probe(0, None);
    assert_eq!(b.select("/"), Decision::Backend(1));
}
