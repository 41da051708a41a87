use rauthy::cache::{EvictionPolicy, NamedCache, WriteStamp};
use rauthy::health::{
    aggregate, HealthError, NodeDirectory, NodeStatus, PeerState, Thresholds, Verdict, Watchdog,
};
use rauthy::propagate::{apply, ChangeNotification, Operation};
use rauthy::registry::{Registry, RegistryError};

fn s(x: &str) -> String {
    x.to_string()
}

fn note(op: Operation, key: &str, value: &str, timestamp: u64, origin: u64) -> ChangeNotification {
    ChangeNotification {
        cache_name: s("sessions"),
        key: s(key),
        op,
        value: s(value),
        stamp: WriteStamp { timestamp, origin, version: 0 },
    }
}

fn sessions() -> NamedCache {
    NamedCache::new(s("sessions"), EvictionPolicy::Ttl { seconds: 100 }, 8).unwrap()
}

#[test]
fn duplicate_delivery_is_idempotent() {
    for op in [Operation::Insert, Operation::Remove, Operation::ClearAll] {
        let mut c = sessions();
        c.insert(s("k"), s("old"), None, 1, 0);
        c.insert(s("j"), s("other"), None, 1, 0);
        let n = note(op, "k", "new", 5, 2);
        apply(&mut c, &n, 10);
        let once = (c.len(), c.get(&s("k"), 10), c.get(&s("j"), 10), c.tombstones.len());
        apply(&mut c, &n.duplicate(), 10);
        let twice = (c.len(), c.get(&s("k"), 10), c.get(&s("j"), 10), c.tombstones.len());
        assert_eq!(once, twice);
    }
}

#[test]
fn concurrent_inserts_converge_in_any_order() {
    let n1 = note(Operation::Insert, "s1", "from1", 10, 1);
    let n2 = note(Operation::Insert, "s1", "from2", 11, 2);
    let mut a = sessions();
    apply(&mut a, &n1, 20);
    apply(&mut a, &n2, 20);
    let mut b = sessions();
    apply(&mut b, &n2, 20);
    apply(&mut b, &n1, 20);
    assert_eq!(a.get(&s("s1"), 21), Some(s("from2")));
    assert_eq!(b.get(&s("s1"), 21), Some(s("from2")));
}

#[test]
fn timestamp_tie_goes_to_greater_origin() {
    let n1 = note(Operation::Insert, "k", "low", 10, 3);
    let n2 = note(Operation::Insert, "k", "high", 10, 4);
    let mut a = sessions();
    apply(&mut a, &n2, 20);
    apply(&mut a, &n1, 20);
    let mut b = sessions();
    apply(&mut b, &n1, 20);
    apply(&mut b, &n2, 20);
    assert_eq!(a.get(&s("k"), 20), Some(s("high")));
    assert_eq!(b.get(&s("k"), 20), Some(s("high")));
}

#[test]
fn two_nodes_settle_on_later_write() {
    let mut node1 = Registry::new(1);
    let mut node2 = Registry::new(2);
    for r in [&mut node1, &mut node2] {
        r.register_cache(s("sessions"), EvictionPolicy::Ttl { seconds: 100 }, 8).unwrap();
        r.start();
    }
    let t = 1000;
    let from1 = node1.insert(&s("sessions"), s("s1"), s("one"), None, t).unwrap();
    let from2 = node2.insert(&s("sessions"), s("s1"), s("two"), None, t + 1).unwrap();
    node2.apply_remote(&from1, t + 2).unwrap();
    node1.apply_remote(&from2, t + 2).unwrap();
    assert_eq!(node1.get(&s("sessions"), &s("s1"), t + 3).unwrap(), Some(s("two")));
    assert_eq!(node2.get(&s("sessions"), &s("s1"), t + 3).unwrap(), Some(s("two")));
}

#[test]
fn tombstone_rejects_stale_insert_until_retention_ends() {
    let mut c = sessions();
    apply(&mut c, &note(Operation::Remove, "k", "", 50, 1), 10);
    apply(&mut c, &note(Operation::Insert, "k", "stale", 40, 2), 20);
    assert_eq!(c.get(&s("k"), 20), None);
    apply(&mut c, &note(Operation::Insert, "k", "fresh", 60, 2), 20);
    assert_eq!(c.get(&s("k"), 20), Some(s("fresh")));
    let mut d = sessions();
    apply(&mut d, &note(Operation::Remove, "k", "", 50, 1), 10);
    apply(&mut d, &note(Operation::Insert, "k", "late", 40, 2), 110);
    assert_eq!(d.get(&s("k"), 110), Some(s("late")));
}

#[test]
fn clear_all_rejects_older_inserts() {
    let mut c = sessions();
    c.insert(s("a"), s("1"), None, 1, 0);
    apply(&mut c, &note(Operation::ClearAll, "", "", 50, 1), 10);
    assert_eq!(c.len(), 0);
    apply(&mut c, &note(Operation::Insert, "a", "old", 49, 2), 11);
    assert_eq!(c.get(&s("a"), 11), None);
}

#[test]
fn older_insert_does_not_overwrite() {
    let mut c = sessions();
    apply(&mut c, &note(Operation::Insert, "k", "new", 9, 1), 10);
    apply(&mut c, &note(Operation::Insert, "k", "old", 8, 1), 10);
    assert_eq!(c.get(&s("k"), 10), Some(s("new")));
}

#[test]
fn peer_degrades_once_and_recovers_on_heartbeat() {
    let th = Thresholds::new(3, 6).unwrap();
    let mut p = PeerState::new();
    let mut events = Vec::new();
    for _ in 0..4 {
        if let Some(e) = p.on_missed(th) {
            events.push(e);
        }
    }
    assert_eq!(events, vec![NodeStatus::Degraded]);
    assert_eq!(p.status, NodeStatus::Degraded);
    assert_eq!(p.on_heartbeat(100), Some(NodeStatus::Healthy));
    assert_eq!(p.status, NodeStatus::Healthy);
    assert_eq!(p.missed, 0);
    assert_eq!(p.on_heartbeat(101), None);
}

#[test]
fn peer_becomes_unreachable_after_long_silence() {
    let th = Thresholds::new(2, 4).unwrap();
    let mut p = PeerState::new();
    let got: Vec<Option<NodeStatus>> = (0..5).map(|_| p.on_missed(th)).collect();
    assert_eq!(
        got,
        vec![
            None,
            Some(NodeStatus::Degraded),
            None,
            Some(NodeStatus::Unreachable),
            None
        ]
    );
}

#[test]
fn bad_thresholds_refused() {
    assert_eq!(Thresholds::new(0, 3), Err(HealthError::BadThresholds));
    assert_eq!(Thresholds::new(4, 3), Err(HealthError::BadThresholds));
    assert!(Thresholds::new(3, 3).is_ok());
}

#[test]
fn watchdog_moves_to_degraded_then_critical() {
    let th = Thresholds::new(3, 5).unwrap();
    let mut dir = NodeDirectory::new(vec![s("10.0.0.2"), s("10.0.0.3")], th);
    let mut dog = Watchdog::new();
    assert_eq!(dog.verdict, Verdict::Unknown);
    assert!(!dog.is_ready());
    let mut transitions = Vec::new();
    if let Some(v) = dog.observe(&dir.current_states()) {
        transitions.push(v);
    }
    for _ in 0..4 {
        dir.missed(0).unwrap();
        if let Some(v) = dog.observe(&dir.current_states()) {
            transitions.push(v);
        }
    }
    assert_eq!(transitions, vec![Verdict::AllHealthy, Verdict::Degraded]);
    assert!(dog.is_ready());
    dir.missed(0).unwrap();
    dir.missed(1).unwrap();
    assert_eq!(dog.observe(&dir.current_states()), Some(Verdict::Critical));
    assert!(!dog.is_ready());
    assert_eq!(dog.observe(&dir.current_states()), None);
    assert_eq!(dir.heartbeat(0, 9).unwrap(), Some(NodeStatus::Healthy));
    assert_eq!(dog.observe(&dir.current_states()), Some(Verdict::AllHealthy));
}

#[test]
fn directory_rejects_unknown_peer() {
    let th = Thresholds::new(3, 5).unwrap();
    let mut dir = NodeDirectory::new(vec![s("a")], th);
    assert_eq!(dir.missed(1), Err(HealthError::UnknownPeer));
    assert_eq!(dir.heartbeat(7, 0), Err(HealthError::UnknownPeer));
    assert_eq!(dir.peer_index(&s("a")), Some(0));
    assert_eq!(dir.peer_index(&s("b")), None);
}

#[test]
fn aggregate_rules() {
    let (h, d, u) = (NodeStatus::Healthy, NodeStatus::Degraded, NodeStatus::Unreachable);
    assert_eq!(aggregate(&vec![]), Verdict::AllHealthy);
    assert_eq!(aggregate(&vec![h, h]), Verdict::AllHealthy);
    assert_eq!(aggregate(&vec![h, d]), Verdict::Degraded);
    assert_eq!(aggregate(&vec![d, u]), Verdict::Critical);
}

#[test]
fn registration_after_start_refused() {
    let mut r = Registry::new(1);
    assert_eq!(r.register_cache(s("a"), EvictionPolicy::Ttl { seconds: 1 }, 4), Ok(()));
    assert_eq!(
        r.register_cache(s("a"), EvictionPolicy::Ttl { seconds: 1 }, 4),
        Err(RegistryError::DuplicateName)
    );
    assert_eq!(
        r.register_cache(s("b"), EvictionPolicy::Ttl { seconds: 1 }, 0),
        Err(RegistryError::ZeroCapacity)
    );
    r.start();
    assert_eq!(
        r.register_cache(s("b"), EvictionPolicy::Ttl { seconds: 1 }, 4),
        Err(RegistryError::AlreadyStarted)
    );
}

#[test]
fn registry_routes_by_name_and_reports_unknown() {
    let mut r = Registry::new(9);
    r.register_cache(s("a"), EvictionPolicy::Ttl { seconds: 10 }, 4).unwrap();
    r.register_cache(s("b"), EvictionPolicy::Ttl { seconds: 10 }, 4).unwrap();
    let n = r.insert(&s("a"), s("k"), s("v"), None, 5).unwrap();
    assert_eq!(n.op, Operation::Insert);
    assert_eq!(n.cache_name, s("a"));
    assert_eq!(n.stamp, WriteStamp { timestamp: 5, origin: 9, version: 0 });
    assert_eq!(r.get(&s("a"), &s("k"), 6), Ok(Some(s("v"))));
    assert_eq!(r.get(&s("b"), &s("k"), 6), Ok(None));
    assert_eq!(r.get(&s("x"), &s("k"), 6), Err(RegistryError::UnknownCache));
    assert!(matches!(
        r.insert(&s("x"), s("k"), s("v"), None, 5),
        Err(RegistryError::UnknownCache)
    ));
    let (was, rm) = r.remove(&s("a"), &s("k"), 7).unwrap();
    assert!(was);
    assert_eq!(rm.op, Operation::Remove);
    assert_eq!(rm.stamp.version, 1);
    assert_eq!(r.get(&s("a"), &s("k"), 7), Ok(None));
}

#[test]
fn clear_all_flushes_every_cache() {
    let mut r = Registry::new(1);
    r.register_cache(s("a"), EvictionPolicy::Ttl { seconds: 10 }, 4).unwrap();
    r.register_cache(s("b"), EvictionPolicy::CapacityBounded { max: 1 }, 4).unwrap();
    r.insert(&s("a"), s("k"), s("v"), None, 0).unwrap();
    r.insert(&s("b"), s("k"), s("v"), None, 0).unwrap();
    r.clear_all();
    assert_eq!(r.get(&s("a"), &s("k"), 0), Ok(None));
    assert_eq!(r.get(&s("b"), &s("k"), 0), Ok(None));
}

#[test]
fn local_remove_refuses_older_remote_insert() {
    let mut r = Registry::new(1);
    r.register_cache(s("sessions"), EvictionPolicy::Ttl { seconds: 100 }, 8).unwrap();
    r.insert(&s("sessions"), s("k"), s("v"), None, 10).unwrap();
    let (was, n) = r.remove(&s("sessions"), &s("k"), 20).unwrap();
    assert!(was);
    assert_eq!(n.stamp, WriteStamp { timestamp: 20, origin: 1, version: 1 });
    r.apply_remote(&note(Operation::Insert, "k", "stale", 15, 2), 21).unwrap();
    assert_eq!(r.get(&s("sessions"), &s("k"), 21), Ok(None));
    r.apply_remote(&note(Operation::Insert, "k", "fresh", 25, 2), 21).unwrap();
    assert_eq!(r.get(&s("sessions"), &s("k"), 21), Ok(Some(s("fresh"))));
}

#[test]
fn clear_one_cache_returns_notification() {
    let mut r = Registry::new(3);
    r.register_cache(s("sessions"), EvictionPolicy::Ttl { seconds: 100 }, 8).unwrap();
    r.register_cache(s("other"), EvictionPolicy::Ttl { seconds: 100 }, 8).unwrap();
    r.insert(&s("sessions"), s("a"), s("1"), None, 0).unwrap();
    r.insert(&s("other"), s("a"), s("2"), None, 0).unwrap();
    let n = r.clear(&s("sessions"), 5).unwrap();
    assert_eq!(n.op, Operation::ClearAll);
    assert_eq!(n.cache_name, s("sessions"));
    assert_eq!(n.stamp, WriteStamp { timestamp: 5, origin: 3, version: 1 });
    assert_eq!(r.get(&s("sessions"), &s("a"), 6), Ok(None));
    assert_eq!(r.get(&s("other"), &s("a"), 6), Ok(Some(s("2"))));
    assert!(matches!(r.clear(&s("nope"), 5), Err(RegistryError::UnknownCache)));
    let mut peer = Registry::new(4);
    peer.register_cache(s("sessions"), EvictionPolicy::Ttl { seconds: 100 }, 8).unwrap();
    peer.insert(&s("sessions"), s("b"), s("x"), None, 1).unwrap();
    peer.apply_remote(&n, 6).unwrap();
    assert_eq!(peer.get(&s("sessions"), &s("b"), 6), Ok(None));
}
