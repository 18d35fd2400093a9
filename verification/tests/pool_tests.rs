use fleet_attention::pool::{AgentRoster, PoolEvent};

#[test]
fn roster_register_and_duplicate() {
    let mut r: AgentRoster<u32> = AgentRoster::new();
    assert!(r.register("a1".to_string(), 5));
    assert_eq!(r.len(), 1);
    assert!(!r.register("a1".to_string(), 9));
    assert_eq!(r.len(), 1);
    assert_eq!(r.get("a1"), Some(&5));
    assert_eq!(r.events(), &[PoolEvent::AgentRegistered("a1".to_string())]);
}

#[test]
fn roster_remove() {
    let mut r: AgentRoster<u32> = AgentRoster::new();
    r.register("coder".to_string(), 1);
    r.register("vision".to_string(), 2);
    r.register("math".to_string(), 3);
    assert!(r.remove("coder"));
    assert_eq!(r.len(), 2);
    assert!(!r.remove("nonexistent"));
    assert_eq!(r.get("coder"), None);
    assert_eq!(r.get("math"), Some(&3));
}

#[test]
fn roster_events_in_order() {
    let mut r: AgentRoster<u32> = AgentRoster::new();
    r.register("a1".to_string(), 0);
    r.remove("a1");
    let events = r.events();
    assert_eq!(events.len(), 2);
    assert!(matches!(&events[0], PoolEvent::AgentRegistered(id) if id == "a1"));
    assert!(matches!(&events[1], PoolEvent::AgentRemoved(id) if id == "a1"));
}

#[test]
fn roster_events_trimming() {
    let mut r: AgentRoster<u32> = AgentRoster::with_max_events(5);
    for i in 0..10 {
        r.register(format!("a{}", i), i);
    }
    assert_eq!(r.events().len(), 5);
    assert_eq!(r.events()[0], PoolEvent::AgentRegistered("a5".to_string()));
    assert_eq!(r.events()[4], PoolEvent::AgentRegistered("a9".to_string()));
    assert_eq!(r.len(), 10);
}

#[test]
fn roster_clear_events_and_update() {
    let mut r: AgentRoster<u32> = AgentRoster::new();
    assert!(r.is_empty());
    r.register("coder".to_string(), 1);
    assert!(!r.events().is_empty());
    r.clear_events();
    assert!(r.events().is_empty());
    let i = r.index_of("coder").unwrap();
    *r.profile_at_mut(i) = 42;
    r.emit(PoolEvent::AgentUpdated("coder".to_string()));
    assert_eq!(r.get("coder"), Some(&42));
    assert_eq!(r.id_at(i), "coder");
    assert_eq!(*r.profile_at(i), 42);
    assert_eq!(r.events(), &[PoolEvent::AgentUpdated("coder".to_string())]);
    assert!(r.contains("coder"));
    assert_eq!(r.index_of("nope"), None);
}

#[test]
fn roster_log_update() {
    let mut r: AgentRoster<u32> = AgentRoster::new();
    r.register("coder".to_string(), 1);
    r.register("math".to_string(), 2);
    r.clear_events();
    assert_eq!(r.log_update("math", PoolEvent::AgentOffline("math".to_string())), Some(1));
    assert_eq!(r.log_update("nobody", PoolEvent::AgentOnline("nobody".to_string())), None);
    assert_eq!(r.events(), &[PoolEvent::AgentOffline("math".to_string())]);
}
