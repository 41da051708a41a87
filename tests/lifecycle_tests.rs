use rauthy::cache::{sweep_interval, EvictionPolicy, NamedCache, WriteStamp};
use rauthy::propagate::{apply, ChangeNotification, Operation};
use rauthy::health::{NodeDirectory, Thresholds};
use rauthy::lifecycle::{
    broadcast_targets, drain_decision, outbound_decision, standard_caches, DrainDecision,
    Lifetimes, SendDecision, CACHE_NAME_LOGIN_DELAY, CACHE_NAME_SESSIONS,
    DEFAULT_SESSION_LIFETIME,
};
use rauthy::registry::Registry;

fn s(x: &str) -> String {
    x.to_string()
}

#[test]
fn sweep_reclaims_only_expired_entries() {
    let mut c = NamedCache::new(s("c"), EvictionPolicy::Ttl { seconds: 10 }, 8).unwrap();
    c.insert(s("a"), s("1"), None, 1, 0);
    c.insert(s("b"), s("2"), Some(100), 1, 0);
    c.insert(s("c"), s("3"), None, 1, 5);
    assert_eq!(c.sweep(12), 1);
    assert_eq!(c.len(), 2);
    assert_eq!(c.get(&s("b"), 12), Some(s("2")));
    assert_eq!(c.get(&s("c"), 12), Some(s("3")));
    assert_eq!(c.sweep(12), 0);
    assert_eq!(c.sweep(200), 2);
    assert_eq!(c.len(), 0);
}

#[test]
fn sweep_interval_is_a_tenth_of_lifetime_at_least_one_second() {
    assert_eq!(sweep_interval(EvictionPolicy::Ttl { seconds: 43200 }), Some(4320));
    assert_eq!(sweep_interval(EvictionPolicy::Ttl { seconds: 25 }), Some(2));
    assert_eq!(sweep_interval(EvictionPolicy::Ttl { seconds: 5 }), Some(1));
    assert_eq!(sweep_interval(EvictionPolicy::Ttl { seconds: 0 }), Some(1));
    assert_eq!(sweep_interval(EvictionPolicy::CapacityBounded { max: 1 }), None);
}

#[test]
fn standard_cache_set() {
    let lt = Lifetimes {
        session: DEFAULT_SESSION_LIFETIME,
        pow: 30,
        webauthn_request: 60,
        webauthn_data: 90,
    };
    let caches = standard_caches(lt);
    assert_eq!(caches.len(), 7);
    assert_eq!(caches[0].policy, EvictionPolicy::Ttl { seconds: 43200 });
    assert_eq!(caches[0].hard_cap, 32);
    assert_eq!(caches[1].policy, EvictionPolicy::Ttl { seconds: 360 });
    assert_eq!(caches[2].name, CACHE_NAME_SESSIONS);
    assert_eq!(caches[2].policy, EvictionPolicy::Ttl { seconds: 14400 });
    assert_eq!(caches[3].policy, EvictionPolicy::Ttl { seconds: 30 });
    assert_eq!(caches[4].policy, EvictionPolicy::Ttl { seconds: 60 });
    assert_eq!(caches[5].policy, EvictionPolicy::Ttl { seconds: 90 });
    assert_eq!(caches[6].name, CACHE_NAME_LOGIN_DELAY);
    assert_eq!(caches[6].policy, EvictionPolicy::CapacityBounded { max: 1 });
    let mut r = Registry::new(1);
    for c in caches {
        r.register_cache(c.name, c.policy, c.hard_cap).unwrap();
    }
    r.start();
    assert_eq!(r.caches.len(), 7);
}

#[test]
fn login_delay_cache_keeps_one_slot() {
    let mut r = Registry::new(1);
    let c = standard_caches(Lifetimes { session: 1, pow: 1, webauthn_request: 1, webauthn_data: 1 })
        .pop()
        .unwrap();
    r.register_cache(c.name, c.policy, c.hard_cap).unwrap();
    let name = s(CACHE_NAME_LOGIN_DELAY);
    r.insert(&name, s("delay"), s("100"), None, 0).unwrap();
    r.insert(&name, s("delay2"), s("200"), None, 1).unwrap();
    assert_eq!(r.get(&name, &s("delay"), 2), Ok(None));
    assert_eq!(r.get(&name, &s("delay2"), 2), Ok(Some(s("200"))));
    assert_eq!(r.caches[0].len(), 1);
}

#[test]
fn auth_code_lifetime_saturates() {
    let caches = standard_caches(Lifetimes {
        session: 1,
        pow: 1,
        webauthn_request: u64::MAX,
        webauthn_data: 1,
    });
    assert_eq!(caches[1].policy, EvictionPolicy::Ttl { seconds: u64::MAX });
}

#[test]
fn outbound_backpressure() {
    assert_eq!(outbound_decision(3, 64, 0, 100), SendDecision::Enqueue);
    assert_eq!(outbound_decision(64, 64, 10, 100), SendDecision::Wait);
    assert_eq!(outbound_decision(64, 64, 100, 100), SendDecision::Drop);
}

#[test]
fn shutdown_drain() {
    assert_eq!(drain_decision(0, 50, 10), DrainDecision::Done);
    assert_eq!(drain_decision(2, 5, 10), DrainDecision::Wait);
    assert_eq!(drain_decision(2, 10, 10), DrainDecision::GiveUp);
}

#[test]
fn broadcast_skips_unhealthy_peers() {
    let th = Thresholds::new(1, 2).unwrap();
    let mut dir = NodeDirectory::new(vec![s("a"), s("b"), s("c")], th);
    dir.missed(1).unwrap();
    assert_eq!(broadcast_targets(&dir), vec![0, 2]);
    dir.missed(1).unwrap();
    dir.missed(0).unwrap();
    assert_eq!(broadcast_targets(&dir), vec![2]);
    dir.heartbeat(1, 5).unwrap();
    assert_eq!(broadcast_targets(&dir), vec![1, 2]);
}

#[test]
fn prune_forgets_ended_tombstones_and_clear_mark() {
    let mut c = NamedCache::new(s("c"), EvictionPolicy::Ttl { seconds: 10 }, 8).unwrap();
    let rm = |key: &str, ts: u64| ChangeNotification {
        cache_name: s("c"),
        key: s(key),
        op: Operation::Remove,
        value: String::new(),
        stamp: WriteStamp { timestamp: ts, origin: 1, version: 0 },
    };
    apply(&mut c, &rm("a", 5), 0);
    apply(&mut c, &rm("b", 6), 5);
    let mut clear = rm("", 7);
    clear.op = Operation::ClearAll;
    apply(&mut c, &clear, 0);
    assert_eq!(c.tombstones.len(), 2);
    assert!(c.clear_mark.is_some());
    assert_eq!(c.prune_tombstones(9), 0);
    assert_eq!(c.prune_tombstones(10), 1);
    assert_eq!(c.tombstones.len(), 1);
    assert_eq!(c.tombstones[0].key, s("b"));
    assert!(c.clear_mark.is_none());
    assert_eq!(c.prune_tombstones(15), 1);
    assert_eq!(c.tombstones.len(), 0);
}
