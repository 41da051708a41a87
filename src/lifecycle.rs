use vstd::prelude::*;
use crate::cache::EvictionPolicy;
use crate::health::{NodeDirectory, NodeStatus};

verus! {

pub const CACHE_NAME_12HR: &'static str = "12hr";
pub const CACHE_NAME_AUTH_CODES: &'static str = "auth-codes";
pub const CACHE_NAME_SESSIONS: &'static str = "sessions";
pub const CACHE_NAME_POW: &'static str = "pow";
pub const CACHE_NAME_WEBAUTHN: &'static str = "webauthn";
pub const CACHE_NAME_WEBAUTHN_DATA: &'static str = "webauthn-data";
pub const CACHE_NAME_LOGIN_DELAY: &'static str = "login-delay";

/// Lifetime of the general cache: half a day.
pub const LIFETIME_12HR: u64 = 43200;
/// The fixed part of an authorization code's lifetime.
pub const AUTH_CODE_WINDOW: u64 = 300;
/// Session lifetime when none is configured.
pub const DEFAULT_SESSION_LIFETIME: u32 = 14400;

/// One cache to register: its name, policy and hard cap.
pub struct CacheSetup {
    pub name: String,
    pub policy: EvictionPolicy,
    pub hard_cap: usize,
}

/// The configured lifetimes, in seconds, that the standard caches depend on.
#[derive(Clone, Copy, PartialEq, Eq, Structural, Debug)]
pub struct Lifetimes {
    pub session: u32,
    pub pow: u64,
    pub webauthn_request: u64,
    pub webauthn_data: u64,
}

pub open spec fn setup_is(c: CacheSetup, name: &str, policy: EvictionPolicy, hard_cap: usize) -> bool {
    c.name@ == name@ && c.policy == policy && c.hard_cap == hard_cap
}

fn setup(name: &str, policy: EvictionPolicy, hard_cap: usize) -> (r: CacheSetup)
    ensures
        setup_is(r, name, policy, hard_cap),
{
    CacheSetup { name: name.to_owned(), policy, hard_cap }
}

/// Every cache the identity provider needs, in registration order.
pub fn standard_caches(lt: Lifetimes) -> (r: Vec<CacheSetup>)
    ensures
        r@.len() == 7,
        setup_is(r@[0], CACHE_NAME_12HR, EvictionPolicy::Ttl { seconds: LIFETIME_12HR }, 32),
        setup_is(
            r@[1],
            CACHE_NAME_AUTH_CODES,
            EvictionPolicy::Ttl { seconds: AUTH_CODE_WINDOW.saturating_add(lt.webauthn_request) },
            64,
        ),
        setup_is(r@[2], CACHE_NAME_SESSIONS, EvictionPolicy::Ttl { seconds: lt.session as u64 }, 64),
        setup_is(r@[3], CACHE_NAME_POW, EvictionPolicy::Ttl { seconds: lt.pow }, 16),
        setup_is(
            r@[4],
            CACHE_NAME_WEBAUTHN,
            EvictionPolicy::Ttl { seconds: lt.webauthn_request },
            32,
        ),
        setup_is(
            r@[5],
            CACHE_NAME_WEBAUTHN_DATA,
            EvictionPolicy::Ttl { seconds: lt.webauthn_data },
            32,
        ),
        setup_is(r@[6], CACHE_NAME_LOGIN_DELAY, EvictionPolicy::CapacityBounded { max: 1 }, 16),
{
    let mut v: Vec<CacheSetup> = Vec::new();
    v.push(setup(CACHE_NAME_12HR, EvictionPolicy::Ttl { seconds: LIFETIME_12HR }, 32));
    v.push(
        setup(
            CACHE_NAME_AUTH_CODES,
            EvictionPolicy::Ttl { seconds: AUTH_CODE_WINDOW.saturating_add(lt.webauthn_request) },
            64,
        ),
    );
    v.push(setup(CACHE_NAME_SESSIONS, EvictionPolicy::Ttl { seconds: lt.session as u64 }, 64));
    v.push(setup(CACHE_NAME_POW, EvictionPolicy::Ttl { seconds: lt.pow }, 16));
    v.push(setup(CACHE_NAME_WEBAUTHN, EvictionPolicy::Ttl { seconds: lt.webauthn_request }, 32));
    v.push(setup(CACHE_NAME_WEBAUTHN_DATA, EvictionPolicy::Ttl { seconds: lt.webauthn_data }, 32));
    v.push(setup(CACHE_NAME_LOGIN_DELAY, EvictionPolicy::CapacityBounded { max: 1 }, 16));
    v
}

/// What to do with a notification waiting for room in the outbound channel.
#[derive(Clone, Copy, PartialEq, Eq, Structural, Debug)]
pub enum SendDecision {
    Enqueue,
    Wait,
    /// The wait reached its ceiling: the local write stands, the notification
    /// is dropped.
    Drop,
}

/// Backpressure on the outbound channel: enqueue while there is room, wait
/// while the ceiling is not reached, drop after that.
pub fn outbound_decision(queued: usize, capacity: usize, waited_ms: u64, ceiling_ms: u64) -> (r:
    SendDecision)
    ensures
        r == if queued < capacity {
            SendDecision::Enqueue
        } else if waited_ms >= ceiling_ms {
            SendDecision::Drop
        } else {
            SendDecision::Wait
        },
{
    if queued < capacity {
        SendDecision::Enqueue
    } else if waited_ms >= ceiling_ms {
        SendDecision::Drop
    } else {
        SendDecision::Wait
    }
}

#[derive(Clone, Copy, PartialEq, Eq, Structural, Debug)]
pub enum DrainDecision {
    Done,
    Wait,
    /// The timeout passed with sends still pending: log it and exit anyway.
    GiveUp,
}

/// One step of the shutdown drain of pending outbound sends.
pub fn drain_decision(pending: usize, elapsed_ms: u64, timeout_ms: u64) -> (r: DrainDecision)
    ensures
        r == if pending == 0 {
            DrainDecision::Done
        } else if elapsed_ms >= timeout_ms {
            DrainDecision::GiveUp
        } else {
            DrainDecision::Wait
        },
{
    if pending == 0 {
        DrainDecision::Done
    } else if elapsed_ms >= timeout_ms {
        DrainDecision::GiveUp
    } else {
        DrainDecision::Wait
    }
}

/// The peers a notification goes to: those currently healthy, in directory
/// order.
pub fn broadcast_targets(dir: &NodeDirectory) -> (r: Vec<usize>)
    ensures
        forall|a: int| 0 <= a < r@.len() ==> r@[a] < dir.peers@.len() && dir.peers@[r@[a] as int].status == NodeStatus::Healthy,
        forall|i: int| 0 <= i < dir.peers@.len() && dir.peers@[i].status == NodeStatus::Healthy ==> r@.contains(i as usize),
        forall|a: int, b: int| 0 <= a < b < r@.len() ==> r@[a] < r@[b],
{
    let mut out: Vec<usize> = Vec::new();
    let mut i: usize = 0;
    while i < dir.peers.len()
        invariant
            i <= dir.peers.len(),
            forall|a: int| 0 <= a < out@.len() ==> out@[a] < i && dir.peers@[out@[a] as int].status == NodeStatus::Healthy,
            forall|j: int| 0 <= j < i && dir.peers@[j].status == NodeStatus::Healthy ==> out@.contains(j as usize),
            forall|a: int, b: int| 0 <= a < b < out@.len() ==> out@[a] < out@[b],
        decreases dir.peers.len() - i,
    {
        if dir.peers[i].status == NodeStatus::Healthy {
            let ghost prev = out@;
            out.push(i);
            proof {
                assert(out@[out@.len() - 1] == i);
                assert forall|j: int|
                    0 <= j <= i && dir.peers@[j].status == NodeStatus::Healthy implies out@.contains(
                    j as usize,
                ) by {
                    if j < i {
                        let a = choose|a: int| 0 <= a < prev.len() && prev[a] == j as usize;
                        assert(out@[a] == prev[a]);
                    }
                }
            }
        }
        i = i + 1;
    }
    out
}

} // verus!
