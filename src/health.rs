use vstd::prelude::*;

verus! {

#[derive(Clone, Copy, PartialEq, Eq, Structural, Debug)]
pub enum NodeStatus {
    Healthy,
    Degraded,
    Unreachable,
}

/// After how many consecutive missed heartbeats a peer counts as degraded,
/// and after how many as unreachable.
#[derive(Clone, Copy, PartialEq, Eq, Structural, Debug)]
pub struct Thresholds {
    pub degraded_after: u64,
    pub unreachable_after: u64,
}

#[derive(Clone, Copy, PartialEq, Eq, Structural, Debug)]
pub enum HealthError {
    BadThresholds,
    UnknownPeer,
}

impl Thresholds {
    pub open spec fn valid(&self) -> bool {
        1 <= self.degraded_after <= self.unreachable_after
    }

    /// Refuses thresholds unless `1 <= degraded_after <= unreachable_after`.
    pub fn new(degraded_after: u64, unreachable_after: u64) -> (r: Result<Thresholds, HealthError>)
        ensures
            r matches Ok(t) ==> t.valid() && t.degraded_after == degraded_after
                && t.unreachable_after == unreachable_after,
            r is Err <==> !(1 <= degraded_after <= unreachable_after),
            r is Err ==> r == Err::<Thresholds, HealthError>(HealthError::BadThresholds),
    {
        if 1 <= degraded_after && degraded_after <= unreachable_after {
            Ok(Thresholds { degraded_after, unreachable_after })
        } else {
            Err(HealthError::BadThresholds)
        }
    }
}

/// What one node knows of one peer.
#[derive(Clone, Copy, PartialEq, Eq, Structural, Debug)]
pub struct PeerState {
    pub status: NodeStatus,
    pub missed: u64,
    pub last_heartbeat: Option<u64>,
}

pub open spec fn status_for(missed: u64, th: Thresholds) -> NodeStatus {
    if missed >= th.unreachable_after {
        NodeStatus::Unreachable
    } else if missed >= th.degraded_after {
        NodeStatus::Degraded
    } else {
        NodeStatus::Healthy
    }
}

/// The peer after one more expected heartbeat did not arrive.
pub open spec fn after_miss(p: PeerState, th: Thresholds) -> PeerState {
    let missed = p.missed.saturating_add(1);
    PeerState { status: status_for(missed, th), missed, last_heartbeat: p.last_heartbeat }
}

/// The peer after a heartbeat arrived at `now`.
pub open spec fn after_heartbeat(p: PeerState, now: u64) -> PeerState {
    PeerState { status: NodeStatus::Healthy, missed: 0, last_heartbeat: Some(now) }
}

/// The state-change event of a step, if the status changed.
pub open spec fn change(before: PeerState, after: PeerState) -> Option<NodeStatus> {
    if after.status != before.status {
        Some(after.status)
    } else {
        None
    }
}

/// The peer after `m` missed heartbeats in a row.
pub open spec fn after_misses(p: PeerState, th: Thresholds, m: nat) -> PeerState
    decreases m,
{
    if m == 0 {
        p
    } else {
        after_miss(after_misses(p, th, (m - 1) as nat), th)
    }
}

pub open spec fn fresh_peer() -> PeerState {
    PeerState { status: NodeStatus::Healthy, missed: 0, last_heartbeat: None }
}

impl PeerState {
    pub fn new() -> (r: PeerState)
        ensures
            r == fresh_peer(),
    {
        PeerState { status: NodeStatus::Healthy, missed: 0, last_heartbeat: None }
    }

    /// Records one missed heartbeat; returns the new status when it changed.
    pub fn on_missed(&mut self, th: Thresholds) -> (r: Option<NodeStatus>)
        ensures
            *final(self) == after_miss(*old(self), th),
            r == change(*old(self), *final(self)),
    {
        let missed = self.missed.saturating_add(1);
        let status = if missed >= th.unreachable_after {
            NodeStatus::Unreachable
        } else if missed >= th.degraded_after {
            NodeStatus::Degraded
        } else {
            NodeStatus::Healthy
        };
        let before = self.status;
        self.status = status;
        self.missed = missed;
        if status != before {
            Some(status)
        } else {
            None
        }
    }

    /// Records a heartbeat received at `now`: the peer is healthy again at once.
    pub fn on_heartbeat(&mut self, now: u64) -> (r: Option<NodeStatus>)
        ensures
            *final(self) == after_heartbeat(*old(self), now),
            r == change(*old(self), *final(self)),
    {
        let before = self.status;
        self.status = NodeStatus::Healthy;
        self.missed = 0;
        self.last_heartbeat = Some(now);
        if before != NodeStatus::Healthy {
            Some(NodeStatus::Healthy)
        } else {
            None
        }
    }
}

/// A peer that misses heartbeats in a row, starting fresh, has missed that
/// many and carries the status that count calls for.
pub proof fn lemma_after_misses(th: Thresholds, m: nat)
    requires
        th.valid(),
        m < u64::MAX,
    ensures
        after_misses(fresh_peer(), th, m).missed == m,
        after_misses(fresh_peer(), th, m).status == status_for(m as u64, th),
    decreases m,
{
    if m > 0 {
        lemma_after_misses(th, (m - 1) as nat);
    }
}

/// The event of the `j`-th miss in a row from a fresh peer.
pub open spec fn miss_event(th: Thresholds, j: nat) -> Option<NodeStatus> {
    change(after_misses(fresh_peer(), th, (j - 1) as nat), after_misses(fresh_peer(), th, j))
}

/// Missing heartbeats in a row from a fresh peer makes it degraded once, at
/// exactly the `degraded_after`-th miss, when that comes before the
/// unreachable threshold; one heartbeat after that makes it healthy again,
/// with one event that says so.
pub proof fn lemma_degraded_exactly_once(th: Thresholds, m: nat, now: u64)
    requires
        th.valid(),
        th.degraded_after < th.unreachable_after,
        m < u64::MAX,
    ensures
        forall|j: nat|
            1 <= j <= m ==> (#[trigger] miss_event(th, j) == Some(NodeStatus::Degraded) <==> j
                == th.degraded_after),
        th.degraded_after <= m < th.unreachable_after ==> {
            let p = after_misses(fresh_peer(), th, m);
            &&& p.status == NodeStatus::Degraded
            &&& after_heartbeat(p, now).status == NodeStatus::Healthy
            &&& change(p, after_heartbeat(p, now)) == Some(NodeStatus::Healthy)
        },
{
    assert forall|j: nat| 1 <= j <= m implies (#[trigger] miss_event(th, j) == Some(
        NodeStatus::Degraded,
    ) <==> j == th.degraded_after) by {
        lemma_after_misses(th, j);
        lemma_after_misses(th, (j - 1) as nat);
    }
    lemma_after_misses(th, m);
}

/// The cluster verdict over all peers.
#[derive(Clone, Copy, PartialEq, Eq, Structural, Debug)]
pub enum Verdict {
    Unknown,
    AllHealthy,
    Degraded,
    Critical,
}

pub open spec fn any_status(s: Seq<NodeStatus>, st: NodeStatus) -> bool {
    exists|i: int| 0 <= i < s.len() && s[i] == st
}

/// Critical when a peer is unreachable; degraded when a peer is degraded and
/// none unreachable; all healthy otherwise.
pub open spec fn verdict_of(s: Seq<NodeStatus>) -> Verdict {
    if any_status(s, NodeStatus::Unreachable) {
        Verdict::Critical
    } else if any_status(s, NodeStatus::Degraded) {
        Verdict::Degraded
    } else {
        Verdict::AllHealthy
    }
}

pub fn aggregate(s: &Vec<NodeStatus>) -> (r: Verdict)
    ensures
        r == verdict_of(s@),
{
    let mut unreachable = false;
    let mut degraded = false;
    let mut i: usize = 0;
    while i < s.len()
        invariant
            i <= s.len(),
            unreachable <==> exists|j: int| 0 <= j < i && s@[j] == NodeStatus::Unreachable,
            degraded <==> exists|j: int| 0 <= j < i && s@[j] == NodeStatus::Degraded,
        decreases s.len() - i,
    {
        if s[i] == NodeStatus::Unreachable {
            unreachable = true;
        } else if s[i] == NodeStatus::Degraded {
            degraded = true;
        }
        i = i + 1;
    }
    if unreachable {
        Verdict::Critical
    } else if degraded {
        Verdict::Degraded
    } else {
        Verdict::AllHealthy
    }
}

/// Every known peer with its health, and the thresholds that drive it.
pub struct NodeDirectory {
    pub thresholds: Thresholds,
    pub addresses: Vec<String>,
    pub peers: Vec<PeerState>,
}

impl NodeDirectory {
    pub open spec fn wf(&self) -> bool {
        &&& self.thresholds.valid()
        &&& self.addresses.len() == self.peers.len()
    }

    pub open spec fn statuses(&self) -> Seq<NodeStatus> {
        self.peers@.map_values(|p: PeerState| p.status)
    }

    /// A directory of the given peers, each fresh and healthy.
    pub fn new(addresses: Vec<String>, thresholds: Thresholds) -> (r: NodeDirectory)
        requires
            thresholds.valid(),
        ensures
            r.wf(),
            r.addresses@ == addresses@,
            r.thresholds == thresholds,
            forall|i: int| 0 <= i < r.peers.len() ==> r.peers@[i] == fresh_peer(),
    {
        let mut peers: Vec<PeerState> = Vec::new();
        let mut i: usize = 0;
        while i < addresses.len()
            invariant
                i <= addresses.len(),
                peers.len() == i,
                forall|j: int| 0 <= j < i ==> peers@[j] == fresh_peer(),
            decreases addresses.len() - i,
        {
            peers.push(PeerState::new());
            i = i + 1;
        }
        NodeDirectory { thresholds, addresses, peers }
    }

    /// The index of the peer with address `addr`.
    pub fn peer_index(&self, addr: &String) -> (r: Option<usize>)
        requires
            self.wf(),
        ensures
            r matches Some(i) ==> i < self.peers.len() && self.addresses@[i as int]@ == addr@,
            r is None ==> forall|i: int|
                0 <= i < self.addresses.len() ==> self.addresses@[i]@ != addr@,
    {
        let mut i: usize = 0;
        while i < self.addresses.len()
            invariant
                self.wf(),
                i <= self.addresses.len(),
                forall|j: int| 0 <= j < i ==> self.addresses@[j]@ != addr@,
            decreases self.addresses.len() - i,
        {
            if self.addresses[i] == *addr {
                return Some(i);
            }
            i = i + 1;
        }
        None
    }

    /// One heartbeat round passed without word from peer `i`.
    pub fn missed(&mut self, i: usize) -> (r: Result<Option<NodeStatus>, HealthError>)
        requires
            old(self).wf(),
        ensures
            final(self).wf(),
            i >= old(self).peers.len() ==> r == Err::<Option<NodeStatus>, HealthError>(
                HealthError::UnknownPeer,
            ) && *final(self) == *old(self),
            i < old(self).peers.len() ==> {
                let p = after_miss(old(self).peers@[i as int], old(self).thresholds);
                &&& final(self).peers@ == old(self).peers@.update(i as int, p)
                &&& r == Ok::<Option<NodeStatus>, HealthError>(
                    change(old(self).peers@[i as int], p),
                )
            },
            final(self).addresses@ == old(self).addresses@,
            final(self).thresholds == old(self).thresholds,
    {
        if i >= self.peers.len() {
            return Err(HealthError::UnknownPeer);
        }
        let mut p = self.peers[i];
        let ev = p.on_missed(self.thresholds);
        self.peers.set(i, p);
        Ok(ev)
    }

    /// A heartbeat from peer `i` arrived at `now`.
    pub fn heartbeat(&mut self, i: usize, now: u64) -> (r: Result<Option<NodeStatus>, HealthError>)
        requires
            old(self).wf(),
        ensures
            final(self).wf(),
            i >= old(self).peers.len() ==> r == Err::<Option<NodeStatus>, HealthError>(
                HealthError::UnknownPeer,
            ) && *final(self) == *old(self),
            i < old(self).peers.len() ==> {
                let p = after_heartbeat(old(self).peers@[i as int], now);
                &&& final(self).peers@ == old(self).peers@.update(i as int, p)
                &&& r == Ok::<Option<NodeStatus>, HealthError>(
                    change(old(self).peers@[i as int], p),
                )
            },
            final(self).addresses@ == old(self).addresses@,
            final(self).thresholds == old(self).thresholds,
    {
        if i >= self.peers.len() {
            return Err(HealthError::UnknownPeer);
        }
        let mut p = self.peers[i];
        let ev = p.on_heartbeat(now);
        self.peers.set(i, p);
        Ok(ev)
    }

    /// The status of every peer, in directory order.
    pub fn current_states(&self) -> (r: Vec<NodeStatus>)
        ensures
            r@ == self.statuses(),
    {
        let mut out: Vec<NodeStatus> = Vec::new();
        let mut i: usize = 0;
        while i < self.peers.len()
            invariant
                i <= self.peers.len(),
                out@ == self.peers@.subrange(0, i as int).map_values(|p: PeerState| p.status),
            decreases self.peers.len() - i,
        {
            out.push(self.peers[i].status);
            i = i + 1;
            assert(self.peers@.subrange(0, i as int) == self.peers@.subrange(0, i - 1).push(
                self.peers@[i - 1],
            ));
        }
        assert(self.peers@.subrange(0, i as int) == self.peers@);
        out
    }
}

/// The watchdog after re-evaluating `s`, with the transition event `r`.
pub open spec fn observed(old: Watchdog, new: Watchdog, s: Seq<NodeStatus>, r: Option<Verdict>) -> bool {
    &&& new.verdict == verdict_of(s)
    &&& r == if verdict_of(s) != old.verdict {
        Some(verdict_of(s))
    } else {
        None
    }
}

/// The watchdog's verdict, as last computed, and the readiness it implies.
pub struct Watchdog {
    pub verdict: Verdict,
}

impl Watchdog {
    /// A watchdog that has seen no round yet: its verdict is unknown.
    pub fn new() -> (r: Watchdog)
        ensures
            r.verdict == Verdict::Unknown,
    {
        Watchdog { verdict: Verdict::Unknown }
    }

    /// Re-evaluates the verdict over the peers' statuses; returns the new
    /// verdict when it changed, which is the one transition event to emit.
    pub fn observe(&mut self, statuses: &Vec<NodeStatus>) -> (r: Option<Verdict>)
        ensures
            observed(*old(self), *final(self), statuses@, r),
    {
        let v = aggregate(statuses);
        if v != self.verdict {
            self.verdict = v;
            Some(v)
        } else {
            None
        }
    }

    /// Ready to serve unless the verdict is critical or not yet known.
    pub fn is_ready(&self) -> (r: bool)
        ensures
            r == (self.verdict == Verdict::AllHealthy || self.verdict == Verdict::Degraded),
    {
        self.verdict == Verdict::AllHealthy || self.verdict == Verdict::Degraded
    }
}

/// Observing the same statuses a second time emits no second transition
/// event and leaves the watchdog as it was.
pub proof fn lemma_observe_idempotent(
    w0: Watchdog,
    w1: Watchdog,
    w2: Watchdog,
    s: Seq<NodeStatus>,
    r1: Option<Verdict>,
    r2: Option<Verdict>,
)
    requires
        observed(w0, w1, s, r1),
        observed(w1, w2, s, r2),
    ensures
        w2 == w1,
        r2 is None,
{
}

/// The verdict over two peers when the first has missed `j` heartbeats in a
/// row from fresh and the second is in status `other`.
pub open spec fn pair_verdict(th: Thresholds, j: nat, other: NodeStatus) -> Verdict {
    verdict_of(seq![after_misses(fresh_peer(), th, j).status, other])
}

proof fn lemma_verdict_of_pair(a: NodeStatus, b: NodeStatus)
    ensures
        verdict_of(seq![a, b]) == if a == NodeStatus::Unreachable || b == NodeStatus::Unreachable {
            Verdict::Critical
        } else if a == NodeStatus::Degraded || b == NodeStatus::Degraded {
            Verdict::Degraded
        } else {
            Verdict::AllHealthy
        },
{
    let s = seq![a, b];
    assert(s[0] == a && s[1] == b);
}

proof fn lemma_pair_verdict(th: Thresholds, j: nat, other: NodeStatus)
    requires
        th.valid(),
        j < u64::MAX,
    ensures
        pair_verdict(th, j, other) == if status_for(j as u64, th) == NodeStatus::Unreachable
            || other == NodeStatus::Unreachable {
            Verdict::Critical
        } else if status_for(j as u64, th) == NodeStatus::Degraded || other == NodeStatus::Degraded {
            Verdict::Degraded
        } else {
            Verdict::AllHealthy
        },
{
    lemma_after_misses(th, j);
    lemma_verdict_of_pair(after_misses(fresh_peer(), th, j).status, other);
}

/// With a second peer healthy, one peer missing heartbeats in a row moves the
/// verdict from all healthy to degraded exactly once, at the
/// `degraded_after`-th miss, and to nothing else before the unreachable
/// threshold; if the second peer is down as well, the verdict is critical.
pub proof fn lemma_watchdog_degraded_then_critical(th: Thresholds, m: nat)
    requires
        th.valid(),
        th.degraded_after < th.unreachable_after,
        m < th.unreachable_after,
    ensures
        pair_verdict(th, 0, NodeStatus::Healthy) == Verdict::AllHealthy,
        forall|j: nat|
            1 <= j <= m ==> (pair_verdict(th, (j - 1) as nat, NodeStatus::Healthy)
                != #[trigger] pair_verdict(th, j, NodeStatus::Healthy) <==> j == th.degraded_after),
        th.degraded_after <= m ==> pair_verdict(th, m, NodeStatus::Healthy) == Verdict::Degraded,
        pair_verdict(th, m, NodeStatus::Unreachable) == Verdict::Critical,
{
    lemma_pair_verdict(th, 0, NodeStatus::Healthy);
    assert forall|j: nat|
        1 <= j <= m implies (pair_verdict(th, (j - 1) as nat, NodeStatus::Healthy)
        != #[trigger] pair_verdict(th, j, NodeStatus::Healthy) <==> j == th.degraded_after) by {
        lemma_pair_verdict(th, j, NodeStatus::Healthy);
        lemma_pair_verdict(th, (j - 1) as nat, NodeStatus::Healthy);
    }
    lemma_pair_verdict(th, m, NodeStatus::Healthy);
    lemma_pair_verdict(th, m, NodeStatus::Unreachable);
}

/// The peer that keeps missing heartbeats makes the verdict critical once it
/// reaches the unreachable threshold.
pub proof fn lemma_watchdog_critical_when_unreachable(th: Thresholds, m: nat)
    requires
        th.valid(),
        th.unreachable_after <= m < u64::MAX,
    ensures
        pair_verdict(th, m, NodeStatus::Healthy) == Verdict::Critical,
{
    lemma_pair_verdict(th, m, NodeStatus::Healthy);
}

} // verus!
