use vstd::prelude::*;

verus! {

/// How a cache ages its entries out: after a fixed lifetime, or by a bound on
/// the number of entries with the oldest insertion leaving first.
#[derive(Clone, Copy, PartialEq, Eq, Structural, Debug)]
pub enum EvictionPolicy {
    Ttl { seconds: u64 },
    CapacityBounded { max: u64 },
}

/// Orders writes of one key across the cluster: wall-clock timestamp first,
/// then the origin node's identifier, then the origin's own version counter.
#[derive(Clone, Copy, PartialEq, Eq, Structural, Debug)]
pub struct WriteStamp {
    pub timestamp: u64,
    pub origin: u64,
    pub version: u64,
}

pub open spec fn later(a: WriteStamp, b: WriteStamp) -> bool {
    a.timestamp > b.timestamp || (a.timestamp == b.timestamp && (a.origin > b.origin || (
    a.origin == b.origin && a.version > b.version)))
}

/// True when write `a` wins over write `b`.
pub fn is_later(a: &WriteStamp, b: &WriteStamp) -> (r: bool)
    ensures
        r == later(*a, *b),
{
    a.timestamp > b.timestamp || (a.timestamp == b.timestamp && (a.origin > b.origin || (a.origin
        == b.origin && a.version > b.version)))
}

pub struct Entry {
    pub key: String,
    pub value: String,
    pub inserted_at: u64,
    pub expires_at: Option<u64>,
    pub stamp: WriteStamp,
}

/// A removal remembered so that a stale insert of the same key is refused
/// while `now < until`.
pub struct Tombstone {
    pub key: String,
    pub stamp: WriteStamp,
    pub until: u64,
}

/// A remembered clearing of the whole cache.
#[derive(Clone, Copy, PartialEq, Eq, Structural, Debug)]
pub struct ClearMark {
    pub stamp: WriteStamp,
    pub until: u64,
}

pub struct NamedCache {
    pub name: String,
    pub policy: EvictionPolicy,
    pub hard_cap: usize,
    pub entries: Vec<Entry>,
    pub tombstones: Vec<Tombstone>,
    pub clear_mark: Option<ClearMark>,
    pub next_version: u64,
}

#[derive(Clone, Copy, PartialEq, Eq, Structural, Debug)]
pub enum ConfigError {
    ZeroCapacity,
}

pub open spec fn live(e: Entry, now: u64) -> bool {
    match e.expires_at {
        None => true,
        Some(x) => now < x,
    }
}

pub open spec fn key_at(s: Seq<Entry>, k: Seq<char>, i: int) -> bool {
    0 <= i < s.len() && s[i].key@ == k
}

pub open spec fn has_key(s: Seq<Entry>, k: Seq<char>) -> bool {
    exists|i: int| key_at(s, k, i)
}

pub open spec fn unique_keys(s: Seq<Entry>) -> bool {
    forall|i: int, j: int| 0 <= i < s.len() && 0 <= j < s.len() && i != j ==> s[i].key@ != s[j].key@
}

/// The entry stored under `k`, if any (keys are unique in a well-formed cache).
pub open spec fn lookup(s: Seq<Entry>, k: Seq<char>) -> Option<Entry> {
    if has_key(s, k) {
        Some(s[choose|i: int| key_at(s, k, i)])
    } else {
        None
    }
}

/// The value visible under `k` at time `now`.
pub open spec fn value_at(s: Seq<Entry>, k: Seq<char>, now: u64) -> Option<Seq<char>> {
    match lookup(s, k) {
        Some(e) => if live(e, now) {
            Some(e.value@)
        } else {
            None
        },
        None => None,
    }
}

/// Sort key of eviction: the nearest expiry first; entries without one last.
pub open spec fn expiry_rank(e: Entry) -> u64 {
    match e.expires_at {
        Some(x) => x,
        None => u64::MAX,
    }
}

/// Entry `i` is the one to evict: the first with the smallest expiry rank,
/// so that without expiries the earliest inserted one goes.
pub open spec fn is_victim(s: Seq<Entry>, i: int) -> bool {
    &&& 0 <= i < s.len()
    &&& forall|j: int| 0 <= j < i ==> expiry_rank(s[j]) > expiry_rank(s[i])
    &&& forall|j: int| i < j < s.len() ==> expiry_rank(s[j]) >= expiry_rank(s[i])
}

pub open spec fn policy_cap(policy: EvictionPolicy, hard_cap: usize) -> int {
    match policy {
        EvictionPolicy::CapacityBounded { max } => if (max as int) < (hard_cap as int) {
            max as int
        } else {
            hard_cap as int
        },
        EvictionPolicy::Ttl { .. } => hard_cap as int,
    }
}

/// Lifetime of an entry or a tombstone under `policy`; none for capacity caches.
pub open spec fn policy_ttl(policy: EvictionPolicy) -> Option<u64> {
    match policy {
        EvictionPolicy::Ttl { seconds } => Some(seconds),
        EvictionPolicy::CapacityBounded { .. } => None,
    }
}

pub open spec fn expiry_for(policy: EvictionPolicy, ttl_override: Option<u64>, now: u64) -> Option<
    u64,
> {
    match ttl_override {
        Some(t) => Some(now.saturating_add(t)),
        None => match policy_ttl(policy) {
            Some(t) => Some(now.saturating_add(t)),
            None => None,
        },
    }
}

/// How often the background sweep runs for a cache: a tenth of its
/// lifetime, at least one second; capacity caches need none.
pub fn sweep_interval(policy: EvictionPolicy) -> (r: Option<u64>)
    ensures
        r == match policy {
            EvictionPolicy::Ttl { seconds } => Some(
                if seconds / 10 >= 1 {
                    (seconds / 10) as u64
                } else {
                    1u64
                },
            ),
            EvictionPolicy::CapacityBounded { .. } => None,
        },
{
    match policy {
        EvictionPolicy::Ttl { seconds } => {
            let tenth = seconds / 10;
            if tenth >= 1 {
                Some(tenth)
            } else {
                Some(1)
            }
        },
        EvictionPolicy::CapacityBounded { .. } => None,
    }
}

pub open spec fn tomb_at(t: Seq<Tombstone>, k: Seq<char>, i: int) -> bool {
    0 <= i < t.len() && t[i].key@ == k
}

pub open spec fn unique_tombs(t: Seq<Tombstone>) -> bool {
    forall|i: int, j: int| 0 <= i < t.len() && 0 <= j < t.len() && i != j ==> t[i].key@ != t[j].key@
}

/// `new` holds `e` under its key; every other key keeps its entry, except the
/// one entry evicted when a new key arrived in a full cache.
pub open spec fn stored(old: NamedCache, new: NamedCache, e: Entry) -> bool {
    &&& new.wf()
    &&& lookup(new.entries@, e.key@) == Some(e)
    &&& forall|k: Seq<char>|
        k != e.key@ ==> {
            ||| lookup(new.entries@, k) == lookup(old.entries@, k)
            ||| {
                &&& lookup(new.entries@, k) is None
                &&& !has_key(old.entries@, e.key@)
                &&& old.entries.len() >= old.cap()
                &&& exists|i: int| key_at(old.entries@, k, i) && is_victim(old.entries@, i)
            }
        }
    &&& forall|i: int|
        key_at(old.entries@, e.key@, i) ==> new.entries@ == old.entries@.remove(i).push(e)
    &&& !has_key(old.entries@, e.key@) && old.entries.len() < old.cap() ==> new.entries@
        == old.entries@.push(e)
    &&& !has_key(old.entries@, e.key@) && old.entries.len() >= old.cap() ==> forall|v: int|
        is_victim(old.entries@, v) ==> new.entries@ == old.entries@.remove(v).push(e)
    &&& new.same_config(old)
    &&& new.tombstones@ == old.tombstones@
    &&& new.clear_mark == old.clear_mark
    &&& new.next_version == old.next_version
}

/// `new` is `old` without an entry under `k`, every other key untouched.
pub open spec fn removed(old: NamedCache, new: NamedCache, k: Seq<char>) -> bool {
    &&& new.wf()
    &&& lookup(new.entries@, k) is None
    &&& forall|k2: Seq<char>| k2 != k ==> lookup(new.entries@, k2) == lookup(old.entries@, k2)
    &&& new.same_config(old)
    &&& new.tombstones@ == old.tombstones@
    &&& new.clear_mark == old.clear_mark
    &&& new.next_version == old.next_version
}

pub proof fn lemma_lookup_at(s: Seq<Entry>, k: Seq<char>, i: int)
    requires
        unique_keys(s),
        key_at(s, k, i),
    ensures
        lookup(s, k) == Some(s[i]),
{
    let j = choose|j: int| key_at(s, k, j);
    assert(key_at(s, k, j));
}

proof fn lemma_lookup_none(s: Seq<Entry>, k: Seq<char>)
    requires
        forall|i: int| 0 <= i < s.len() ==> s[i].key@ != k,
    ensures
        lookup(s, k) is None,
        !has_key(s, k),
{
}

proof fn lemma_remove_lookup(s: Seq<Entry>, i: int)
    requires
        unique_keys(s),
        0 <= i < s.len(),
    ensures
        unique_keys(s.remove(i)),
        lookup(s.remove(i), s[i].key@) is None,
        forall|k: Seq<char>| k != s[i].key@ ==> lookup(s.remove(i), k) == lookup(s, k),
{
    let r = s.remove(i);
    assert forall|a: int, b: int| 0 <= a < r.len() && 0 <= b < r.len() && a != b implies r[a].key@
        != r[b].key@ by {
        let a2 = if a < i {
            a
        } else {
            a + 1
        };
        let b2 = if b < i {
            b
        } else {
            b + 1
        };
        assert(r[a] == s[a2] && r[b] == s[b2]);
    }
    assert forall|a: int| 0 <= a < r.len() implies r[a].key@ != s[i].key@ by {
        let a2 = if a < i {
            a
        } else {
            a + 1
        };
        assert(r[a] == s[a2]);
    }
    lemma_lookup_none(r, s[i].key@);
    assert forall|k: Seq<char>| k != s[i].key@ implies lookup(r, k) == lookup(s, k) by {
        if has_key(s, k) {
            let j = choose|j: int| key_at(s, k, j);
            lemma_lookup_at(s, k, j);
            let j2 = if j < i {
                j
            } else {
                j - 1
            };
            assert(r[j2] == s[j]);
            lemma_lookup_at(r, k, j2);
        } else {
            assert forall|a: int| 0 <= a < r.len() implies r[a].key@ != k by {
                let a2 = if a < i {
                    a
                } else {
                    a + 1
                };
                assert(r[a] == s[a2]);
                assert(!key_at(s, k, a2));
            }
            lemma_lookup_none(r, k);
        }
    }
}

proof fn lemma_push_lookup(s: Seq<Entry>, e: Entry)
    requires
        unique_keys(s),
        !has_key(s, e.key@),
    ensures
        unique_keys(s.push(e)),
        lookup(s.push(e), e.key@) == Some(e),
        forall|k: Seq<char>| k != e.key@ ==> lookup(s.push(e), k) == lookup(s, k),
{
    let p = s.push(e);
    assert forall|a: int, b: int| 0 <= a < p.len() && 0 <= b < p.len() && a != b implies p[a].key@
        != p[b].key@ by {
        if a < s.len() && b < s.len() {
            assert(p[a] == s[a] && p[b] == s[b]);
        } else if a < s.len() {
            assert(!key_at(s, e.key@, a));
        } else {
            assert(!key_at(s, e.key@, b));
        }
    }
    lemma_lookup_at(p, e.key@, s.len() as int);
    assert forall|k: Seq<char>| k != e.key@ implies lookup(p, k) == lookup(s, k) by {
        if has_key(s, k) {
            let j = choose|j: int| key_at(s, k, j);
            lemma_lookup_at(s, k, j);
            assert(p[j] == s[j]);
            lemma_lookup_at(p, k, j);
        } else {
            assert forall|a: int| 0 <= a < p.len() implies p[a].key@ != k by {
                if a < s.len() {
                    assert(p[a] == s[a]);
                    assert(!key_at(s, k, a));
                }
            }
            lemma_lookup_none(p, k);
        }
    }
}

impl NamedCache {
    pub open spec fn cap(&self) -> int {
        policy_cap(self.policy, self.hard_cap)
    }

    pub open spec fn wf(&self) -> bool {
        &&& self.cap() >= 1
        &&& self.entries.len() <= self.cap()
        &&& unique_keys(self.entries@)
        &&& unique_tombs(self.tombstones@)
    }

    pub open spec fn same_config(&self, other: NamedCache) -> bool {
        &&& self.name@ == other.name@
        &&& self.policy == other.policy
        &&& self.hard_cap == other.hard_cap
    }

    /// A new empty cache; refused when the effective capacity would be zero.
    pub fn new(name: String, policy: EvictionPolicy, hard_cap: usize) -> (r: Result<
        NamedCache,
        ConfigError,
    >)
        ensures
            policy_cap(policy, hard_cap) < 1 <==> r is Err,
            r matches Ok(c) ==> {
                &&& c.wf()
                &&& c.name@ == name@
                &&& c.policy == policy
                &&& c.hard_cap == hard_cap
                &&& c.entries@.len() == 0
                &&& c.tombstones@.len() == 0
                &&& c.clear_mark is None
                &&& c.next_version == 0
            },
    {
        let zero_max = match policy {
            EvictionPolicy::CapacityBounded { max } => max == 0,
            EvictionPolicy::Ttl { .. } => false,
        };
        if hard_cap == 0 || zero_max {
            return Err(ConfigError::ZeroCapacity);
        }
        Ok(
            NamedCache {
                name,
                policy,
                hard_cap,
                entries: Vec::new(),
                tombstones: Vec::new(),
                clear_mark: None,
                next_version: 0,
            },
        )
    }

    pub fn len(&self) -> (r: usize)
        ensures
            r == self.entries@.len(),
    {
        self.entries.len()
    }

    fn find(&self, key: &String) -> (r: Option<usize>)
        requires
            self.wf(),
        ensures
            r matches Some(i) ==> key_at(self.entries@, key@, i as int) && lookup(
                self.entries@,
                key@,
            ) == Some(self.entries@[i as int]),
            r is None ==> !has_key(self.entries@, key@) && lookup(self.entries@, key@) is None,
    {
        let mut i: usize = 0;
        while i < self.entries.len()
            invariant
                self.wf(),
                i <= self.entries.len(),
                forall|j: int| 0 <= j < i ==> self.entries@[j].key@ != key@,
            decreases self.entries.len() - i,
        {
            if self.entries[i].key == *key {
                proof {
                    lemma_lookup_at(self.entries@, key@, i as int);
                }
                return Some(i);
            }
            i = i + 1;
        }
        proof {
            lemma_lookup_none(self.entries@, key@);
        }
        None
    }

    /// The value stored under `key`, unless its lifetime has run out at `now`.
    pub fn get(&self, key: &String, now: u64) -> (r: Option<String>)
        requires
            self.wf(),
        ensures
            r matches Some(v) ==> value_at(self.entries@, key@, now) == Some(v@),
            r is None ==> value_at(self.entries@, key@, now) is None,
    {
        match self.find(key) {
            Some(i) => {
                let live = match self.entries[i].expires_at {
                    None => true,
                    Some(x) => now < x,
                };
                if live {
                    Some(self.entries[i].value.clone())
                } else {
                    None
                }
            },
            None => None,
        }
    }

    /// The write stamp of the entry under `key`, expired or not.
    pub fn get_stamp(&self, key: &String) -> (r: Option<WriteStamp>)
        requires
            self.wf(),
        ensures
            r == (match lookup(self.entries@, key@) {
                Some(e) => Some(e.stamp),
                None => None,
            }),
    {
        match self.find(key) {
            Some(i) => Some(self.entries[i].stamp),
            None => None,
        }
    }

    fn victim(&self) -> (r: usize)
        requires
            self.entries.len() > 0,
        ensures
            is_victim(self.entries@, r as int),
    {
        let mut best: usize = 0;
        let mut best_rank: u64 = match self.entries[0].expires_at {
            Some(x) => x,
            None => u64::MAX,
        };
        let mut i: usize = 1;
        while i < self.entries.len()
            invariant
                1 <= i <= self.entries.len(),
                best < i,
                best_rank == expiry_rank(self.entries@[best as int]),
                forall|j: int| 0 <= j < best ==> expiry_rank(self.entries@[j]) > best_rank,
                forall|j: int| best < j < i ==> expiry_rank(self.entries@[j]) >= best_rank,
            decreases self.entries.len() - i,
        {
            let rank = match self.entries[i].expires_at {
                Some(x) => x,
                None => u64::MAX,
            };
            if rank < best_rank {
                best = i;
                best_rank = rank;
            }
            i = i + 1;
        }
        best
    }

    /// Stores `e` under its key. A previous entry of that key is replaced and
    /// the new one counts as the latest inserted; a new key in a full cache
    /// first evicts the victim entry.
    pub fn store(&mut self, e: Entry)
        requires
            old(self).wf(),
        ensures
            stored(*old(self), *final(self), e),
    {
        let ghost s0 = self.entries@;
        match self.find(&e.key) {
            Some(i) => {
                proof {
                    lemma_remove_lookup(s0, i as int);
                    assert forall|j: int| key_at(s0, e.key@, j) implies j == i by {}
                }
                self.entries.remove(i);
                proof {
                    lemma_push_lookup(self.entries@, e);
                }
                self.entries.push(e);
            },
            None => {
                if self.entries.len() >= self.hard_cap || match self.policy {
                    EvictionPolicy::CapacityBounded { max } => self.entries.len() as u64 >= max,
                    EvictionPolicy::Ttl { .. } => false,
                } {
                    let v = self.victim();
                    proof {
                        lemma_remove_lookup(s0, v as int);
                        assert forall|w: int| is_victim(s0, w) implies w == v by {
                            if w < v {
                                assert(expiry_rank(s0[w]) > expiry_rank(s0[v as int]));
                            } else if w > v {
                                assert(expiry_rank(s0[v as int]) > expiry_rank(s0[w]));
                            }
                        }
                    }
                    self.entries.remove(v);
                    let ghost s1 = self.entries@;
                    assert forall|k: Seq<char>| k != e.key@ && lookup(s1, k) != lookup(s0, k) implies (
                    exists|i: int| key_at(s0, k, i) && is_victim(s0, i)) by {
                        assert(key_at(s0, k, v as int));
                    }
                    assert forall|a: int| 0 <= a < s1.len() implies s1[a].key@ != e.key@ by {
                        let a2 = if a < v {
                            a
                        } else {
                            a + 1
                        };
                        assert(s1[a] == s0[a2]);
                        assert(!key_at(s0, e.key@, a2));
                    }
                    proof {
                        lemma_push_lookup(s1, e);
                    }
                    self.entries.push(e);
                } else {
                    proof {
                        lemma_push_lookup(s0, e);
                    }
                    self.entries.push(e);
                }
            },
        }
    }

    /// Local insert: stamps the entry with `now`, `origin` and the next local
    /// version, stores it, and returns that stamp.
    pub fn insert(
        &mut self,
        key: String,
        value: String,
        ttl_override: Option<u64>,
        origin: u64,
        now: u64,
    ) -> (r: WriteStamp)
        requires
            old(self).wf(),
            old(self).next_version < u64::MAX,
        ensures
            r == (WriteStamp { timestamp: now, origin, version: old(self).next_version }),
            stored(
                *old(self),
                NamedCache { next_version: old(self).next_version, ..*final(self) },
                Entry {
                    key,
                    value,
                    inserted_at: now,
                    expires_at: expiry_for(old(self).policy, ttl_override, now),
                    stamp: r,
                },
            ),
            final(self).next_version == old(self).next_version + 1,
    {
        let stamp = WriteStamp { timestamp: now, origin, version: self.next_version };
        let expires_at = match ttl_override {
            Some(t) => Some(now.saturating_add(t)),
            None => match self.policy {
                EvictionPolicy::Ttl { seconds } => Some(now.saturating_add(seconds)),
                EvictionPolicy::CapacityBounded { .. } => None,
            },
        };
        self.store(Entry { key, value, inserted_at: now, expires_at, stamp });
        self.next_version = self.next_version + 1;
        stamp
    }

    /// Takes the next local version for a write stamped `now` by `origin`.
    pub fn next_stamp(&mut self, origin: u64, now: u64) -> (r: WriteStamp)
        requires
            old(self).next_version < u64::MAX,
        ensures
            r == (WriteStamp { timestamp: now, origin, version: old(self).next_version }),
            *final(self) == (NamedCache { next_version: (old(self).next_version + 1) as u64, ..*old(self) }),
    {
        let r = WriteStamp { timestamp: now, origin, version: self.next_version };
        self.next_version = self.next_version + 1;
        r
    }

    /// Removes the entry under `key`; true when there was one.
    pub fn remove(&mut self, key: &String) -> (r: bool)
        requires
            old(self).wf(),
        ensures
            r == has_key(old(self).entries@, key@),
            removed(*old(self), *final(self), key@),
            !r ==> *final(self) == *old(self),
    {
        match self.find(key) {
            Some(i) => {
                proof {
                    lemma_remove_lookup(self.entries@, i as int);
                }
                self.entries.remove(i);
                true
            },
            None => false,
        }
    }

    /// Reclaims every entry whose lifetime has run out at `now`; returns how
    /// many went.
    pub fn sweep(&mut self, now: u64) -> (r: usize)
        requires
            old(self).wf(),
        ensures
            final(self).wf(),
            forall|k: Seq<char>|
                #[trigger] lookup(final(self).entries@, k) == match lookup(old(self).entries@, k) {
                    Some(e) => if live(e, now) {
                        Some(e)
                    } else {
                        None
                    },
                    None => None,
                },
            forall|k: Seq<char>|
                #[trigger] value_at(final(self).entries@, k, now) == value_at(
                    old(self).entries@,
                    k,
                    now,
                ),
            r == old(self).entries@.len() - final(self).entries@.len(),
            final(self).same_config(*old(self)),
            final(self).tombstones@ == old(self).tombstones@,
            final(self).clear_mark == old(self).clear_mark,
            final(self).next_version == old(self).next_version,
    {
        let ghost s0 = self.entries@;
        let mut i: usize = 0;
        let mut gone: usize = 0;
        while i < self.entries.len()
            invariant
                self.wf(),
                self.same_config(*old(self)),
                self.tombstones@ == old(self).tombstones@,
                self.clear_mark == old(self).clear_mark,
                self.next_version == old(self).next_version,
                s0 == old(self).entries@,
                s0.len() <= usize::MAX,
                i <= self.entries.len(),
                gone + self.entries.len() == s0.len(),
                forall|j: int| 0 <= j < i ==> live(#[trigger] self.entries@[j], now),
                forall|k: Seq<char>|
                    #[trigger] lookup(self.entries@, k) == lookup(s0, k) || (lookup(
                        self.entries@,
                        k,
                    ) is None && (lookup(s0, k) matches Some(e) && !live(e, now))),
            decreases self.entries.len() - i,
        {
            let expired = match self.entries[i].expires_at {
                None => false,
                Some(x) => now >= x,
            };
            if expired {
                let ghost cur = self.entries@;
                proof {
                    lemma_remove_lookup(cur, i as int);
                    lemma_lookup_at(cur, cur[i as int].key@, i as int);
                }
                self.entries.remove(i);
                gone = gone + 1;
                proof {
                    assert forall|k: Seq<char>|
                        #[trigger] lookup(self.entries@, k) == lookup(s0, k) || (lookup(
                            self.entries@,
                            k,
                        ) is None && (lookup(s0, k) matches Some(e) && !live(e, now))) by {
                        assert(lookup(cur, k) == lookup(s0, k) || (lookup(cur, k) is None && (lookup(
                            s0,
                            k,
                        ) matches Some(e) && !live(e, now))));
                    }
                    assert forall|j: int| 0 <= j < i implies live(#[trigger] self.entries@[j], now) by {
                        assert(self.entries@[j] == cur[j]);
                    }
                }
            } else {
                i = i + 1;
            }
        }
        proof {
            assert forall|k: Seq<char>|
                #[trigger] lookup(self.entries@, k) == match lookup(s0, k) {
                    Some(e) => if live(e, now) {
                        Some(e)
                    } else {
                        None
                    },
                    None => None,
                } by {
                if has_key(self.entries@, k) {
                    let j = choose|j: int| key_at(self.entries@, k, j);
                    lemma_lookup_at(self.entries@, k, j);
                }
            }
        }
        gone
    }

    /// Forgets the removals and the clearing whose retention has ended at
    /// `now`; returns how many tombstones went.
    pub fn prune_tombstones(&mut self, now: u64) -> (r: usize)
        requires
            old(self).wf(),
        ensures
            final(self).wf(),
            forall|j: int|
                0 <= j < final(self).tombstones@.len() ==> now < final(self).tombstones@[j].until
                    && old(self).tombstones@.contains(#[trigger] final(self).tombstones@[j]),
            forall|j: int|
                0 <= j < old(self).tombstones@.len() && now < old(self).tombstones@[j].until
                    ==> final(self).tombstones@.contains(#[trigger] old(self).tombstones@[j]),
            final(self).clear_mark == match old(self).clear_mark {
                Some(m) => if now < m.until {
                    Some(m)
                } else {
                    None
                },
                None => None,
            },
            r == old(self).tombstones@.len() - final(self).tombstones@.len(),
            final(self).entries@ == old(self).entries@,
            final(self).same_config(*old(self)),
            final(self).next_version == old(self).next_version,
    {
        let ghost t0 = self.tombstones@;
        let total = self.tombstones.len();
        let mut i: usize = 0;
        let mut gone: usize = 0;
        while i < self.tombstones.len()
            invariant
                self.wf(),
                self.same_config(*old(self)),
                self.entries@ == old(self).entries@,
                self.clear_mark == old(self).clear_mark,
                self.next_version == old(self).next_version,
                t0 == old(self).tombstones@,
                total == t0.len(),
                i <= self.tombstones.len(),
                gone + self.tombstones.len() == t0.len(),
                forall|j: int| 0 <= j < i ==> now < (#[trigger] self.tombstones@[j]).until,
                forall|j: int|
                    0 <= j < self.tombstones@.len() ==> t0.contains(#[trigger] self.tombstones@[j]),
                forall|j: int|
                    0 <= j < t0.len() && now < t0[j].until ==> self.tombstones@.contains(
                        #[trigger] t0[j],
                    ),
            decreases self.tombstones.len() - i,
        {
            if now >= self.tombstones[i].until {
                let ghost cur = self.tombstones@;
                self.tombstones.remove(i);
                gone = gone + 1;
                proof {
                    let n = self.tombstones@;
                    assert forall|j: int| 0 <= j < n.len() implies t0.contains(#[trigger] n[j]) by {
                        let j2 = if j < i {
                            j
                        } else {
                            j + 1
                        };
                        assert(n[j] == cur[j2]);
                    }
                    assert forall|j: int|
                        0 <= j < t0.len() && now < t0[j].until implies n.contains(#[trigger] t0[j]) by {
                        assert(cur.contains(t0[j]));
                        let a = choose|a: int| 0 <= a < cur.len() && cur[a] == t0[j];
                        assert(a != i);
                        let a2 = if a < i {
                            a
                        } else {
                            a - 1
                        };
                        assert(n[a2] == cur[a]);
                    }
                    assert forall|j: int| 0 <= j < i implies now < (#[trigger] n[j]).until by {
                        assert(n[j] == cur[j]);
                    }
                    assert forall|a: int, b: int|
                        0 <= a < n.len() && 0 <= b < n.len() && a != b implies n[a].key@
                            != n[b].key@ by {
                        let a2 = if a < i {
                            a
                        } else {
                            a + 1
                        };
                        let b2 = if b < i {
                            b
                        } else {
                            b + 1
                        };
                        assert(n[a] == cur[a2] && n[b] == cur[b2]);
                    }
                }
            } else {
                i = i + 1;
            }
        }
        let expired_mark = match self.clear_mark {
            Some(m) => now >= m.until,
            None => false,
        };
        if expired_mark {
            self.clear_mark = None;
        }
        gone
    }

    /// Drops every entry.
    pub fn clear(&mut self)
        requires
            old(self).wf(),
        ensures
            final(self).wf(),
            final(self).entries@.len() == 0,
            final(self).same_config(*old(self)),
            final(self).tombstones@ == old(self).tombstones@,
            final(self).clear_mark == old(self).clear_mark,
            final(self).next_version == old(self).next_version,
            old(self).entries@.len() == 0 ==> *final(self) == *old(self),
    {
        if self.entries.len() > 0 {
            self.entries.clear();
        }
    }
}

/// A well-formed cache never holds more entries than its hard cap; every
/// operation that changes a cache keeps it well-formed.
pub proof fn lemma_within_hard_cap(c: NamedCache)
    requires
        c.wf(),
    ensures
        c.entries@.len() <= c.hard_cap,
        c.entries@.len() <= c.cap(),
{
}

/// Right after a value is stored, reading its key gives that value for as
/// long as the entry lives.
pub proof fn lemma_get_after_store(old: NamedCache, new: NamedCache, e: Entry, t: u64)
    requires
        stored(old, new, e),
        live(e, t),
    ensures
        value_at(new.entries@, e.key@, t) == Some(e.value@),
{
}

/// Storing under one key leaves what another key reads unchanged, unless that
/// other key held the entry evicted to make room.
pub proof fn lemma_store_keeps_others(
    old: NamedCache,
    new: NamedCache,
    e: Entry,
    k: Seq<char>,
    t: u64,
)
    requires
        stored(old, new, e),
        k != e.key@,
        !exists|i: int| key_at(old.entries@, k, i) && is_victim(old.entries@, i),
    ensures
        value_at(new.entries@, k, t) == value_at(old.entries@, k, t),
{
}

/// Storing a key into a cache that has room, or that holds the key already,
/// evicts nothing.
pub proof fn lemma_store_with_room_evicts_nothing(
    old: NamedCache,
    new: NamedCache,
    e: Entry,
    k: Seq<char>,
    t: u64,
)
    requires
        stored(old, new, e),
        k != e.key@,
        old.entries@.len() < old.cap() || has_key(old.entries@, e.key@),
    ensures
        value_at(new.entries@, k, t) == value_at(old.entries@, k, t),
{
}

/// After a removal the key reads as absent, and every other key reads as
/// before.
pub proof fn lemma_remove_then_get(
    old: NamedCache,
    new: NamedCache,
    k: Seq<char>,
    k2: Seq<char>,
    t: u64,
)
    requires
        removed(old, new, k),
    ensures
        value_at(new.entries@, k, t) is None,
        k2 != k ==> value_at(new.entries@, k2, t) == value_at(old.entries@, k2, t),
{
}

/// An entry reads as absent once its lifetime has run out.
pub proof fn lemma_expired_reads_absent(s: Seq<Entry>, k: Seq<char>, t: u64)
    requires
        lookup(s, k) matches Some(e) && !live(e, t),
    ensures
        value_at(s, k, t) is None,
{
}

/// A step that leaves key `k` alone: storing another key without evicting
/// `k`, or removing another key.
pub open spec fn keeps_key(old: NamedCache, new: NamedCache, k: Seq<char>) -> bool {
    ||| exists|e: Entry|
        #[trigger] stored(old, new, e) && e.key@ != k && !exists|i: int|
            key_at(old.entries@, k, i) && is_victim(old.entries@, i)
    ||| exists|k2: Seq<char>| #[trigger] removed(old, new, k2) && k2 != k
}

/// Over any run of steps that leave `k` alone, `k` keeps its entry.
pub proof fn lemma_run_keeps_key(states: Seq<NamedCache>, k: Seq<char>)
    requires
        states.len() >= 1,
        forall|j: int| 0 <= j < states.len() - 1 ==> keeps_key(#[trigger] states[j], states[j + 1], k),
    ensures
        lookup(states.last().entries@, k) == lookup(states[0].entries@, k),
    decreases states.len(),
{
    if states.len() > 1 {
        let front = states.drop_last();
        assert forall|j: int| 0 <= j < front.len() - 1 implies keeps_key(#[trigger] front[j], front[j + 1], k) by {
            assert(front[j] == states[j] && front[j + 1] == states[j + 1]);
        }
        lemma_run_keeps_key(front, k);
        let j = states.len() - 2;
        assert(keeps_key(states[j], states[j + 1], k));
        assert(front.last() == states[j]);
    }
}

/// Round trip: once `e` is stored, reads of its key give its value, after any
/// run of steps that leave the key alone, for as long as the entry lives.
pub proof fn lemma_round_trip(c0: NamedCache, states: Seq<NamedCache>, e: Entry, t: u64)
    requires
        states.len() >= 1,
        stored(c0, states[0], e),
        forall|j: int|
            0 <= j < states.len() - 1 ==> keeps_key(#[trigger] states[j], states[j + 1], e.key@),
        live(e, t),
    ensures
        value_at(states.last().entries@, e.key@, t) == Some(e.value@),
{
    lemma_run_keeps_key(states, e.key@);
}

/// Every store, local or received, keeps the cache within its hard cap and
/// holds the stored key afterwards: an insert is never refused for room.
pub proof fn lemma_store_within_cap(old: NamedCache, new: NamedCache, e: Entry)
    requires
        stored(old, new, e),
    ensures
        new.entries@.len() <= new.hard_cap,
        has_key(new.entries@, e.key@),
{
    let i = choose|i: int| key_at(new.entries@, e.key@, i);
}

} // verus!
