use fleet_attention::router::{draw_bits, lcg_next, RoundRobin, RouteCounters, RoutingStrategy, SlotLedger};

#[test]
fn test_strategy_display() {
    assert_eq!(RoutingStrategy::BestMatch.as_str(), "best_match");
    assert_eq!(RoutingStrategy::LoadBalanced.as_str(), "load_balanced");
}

#[test]
fn strategy_labels() {
    assert_eq!(RoutingStrategy::BestAvailable.as_str(), "best_available");
    assert_eq!(RoutingStrategy::RoundRobin.as_str(), "round_robin");
    assert_eq!(RoutingStrategy::Probabilistic.as_str(), "probabilistic");
}

#[test]
fn round_robin_cycles() {
    let mut rr = RoundRobin::new();
    let picks: Vec<usize> = (0..7).map(|_| rr.next_index(3)).collect();
    assert_eq!(picks, vec![0, 1, 2, 0, 1, 2, 0]);
    assert_eq!(rr.next_index(2), 1);
}

#[test]
fn lcg_sequence() {
    assert_eq!(lcg_next(42), 9039304369631583587);
    assert_eq!(draw_bits(9039304369631583587), 1052313527);
    assert_eq!(lcg_next(0), 1);
    assert!(draw_bits(u64::MAX) < (1u64 << 31));
}

#[test]
fn route_counters() {
    let mut c = RouteCounters::new();
    c.record_route("coder", RoutingStrategy::BestMatch);
    c.record_route("coder", RoutingStrategy::BestMatch);
    c.record_route("vision", RoutingStrategy::RoundRobin);
    c.record_failure();
    assert_eq!(c.total_routed(), 3);
    assert_eq!(c.failed_routes(), 1);
    assert_eq!(c.routes_for("coder"), 2);
    assert_eq!(c.routes_for("vision"), 1);
    assert_eq!(c.routes_for("math"), 0);
    assert_eq!(c.strategy_count(RoutingStrategy::BestMatch), 2);
    assert_eq!(c.strategy_count(RoutingStrategy::RoundRobin), 1);
    assert_eq!(c.strategy_count(RoutingStrategy::Probabilistic), 0);
    assert_eq!(c.routes_per_agent().len(), 2);
    assert_eq!(c.strategy_usage().get("best_match"), Some(&2));
}

#[test]
fn slot_ledger() {
    let mut l = SlotLedger::new();
    l.set_slots("coder".to_string(), 2);
    l.set_slots("math".to_string(), 0);
    l.set_slots("coder".to_string(), 1);
    assert_eq!(l.remaining("coder"), 1);
    assert!(l.has_capacity("coder"));
    assert!(!l.has_capacity("math"));
    assert!(!l.has_capacity("ghost"));
    l.consume("coder");
    assert_eq!(l.remaining("coder"), 0);
    l.consume("coder");
    assert_eq!(l.remaining("coder"), 0);
    l.consume("ghost");
    assert_eq!(l.remaining("ghost"), 0);
}
