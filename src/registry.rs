use vstd::prelude::*;
use crate::cache::{
    expiry_for, has_key, policy_cap, stored, ConfigError, Entry, EvictionPolicy,
    NamedCache, WriteStamp,
};
use crate::propagate::{apply, applied, ChangeNotification, Operation};

verus! {

#[derive(Clone, Copy, PartialEq, Eq, Structural, Debug)]
pub enum RegistryError {
    /// Caches are registered before the node joins the cluster, never after.
    AlreadyStarted,
    ZeroCapacity,
    DuplicateName,
    UnknownCache,
    /// The cache's local version counter is used up.
    VersionsExhausted,
}

pub open spec fn cache_at(s: Seq<NamedCache>, name: Seq<char>, i: int) -> bool {
    0 <= i < s.len() && s[i].name@ == name
}

pub open spec fn has_cache(s: Seq<NamedCache>, name: Seq<char>) -> bool {
    exists|i: int| cache_at(s, name, i)
}

/// A cache named `name` exists and can still take a local write.
pub open spec fn writable(s: Seq<NamedCache>, name: Seq<char>) -> bool {
    has_cache(s, name) && forall|i: int|
        #[trigger] cache_at(s, name, i) ==> s[i].next_version < u64::MAX
}

/// The cache after taking its next local version.
pub open spec fn bumped(c: NamedCache) -> NamedCache {
    NamedCache { next_version: (c.next_version + 1) as u64, ..c }
}

/// `new` differs from `old` at most at index `i`.
pub open spec fn only_at(old: Seq<NamedCache>, new: Seq<NamedCache>, i: int) -> bool {
    &&& new.len() == old.len()
    &&& forall|j: int| 0 <= j < old.len() && j != i ==> new[j] == old[j]
}

/// The one context of a node: its identifier, whether it has joined the
/// cluster, and every named cache it owns.
pub struct Registry {
    pub node_id: u64,
    pub started: bool,
    pub caches: Vec<NamedCache>,
}

impl Registry {
    pub open spec fn wf(&self) -> bool {
        &&& forall|i: int| 0 <= i < self.caches.len() ==> (#[trigger] self.caches@[i]).wf()
        &&& forall|i: int, j: int|
            0 <= i < self.caches.len() && 0 <= j < self.caches.len() && i != j
                ==> self.caches@[i].name@ != self.caches@[j].name@
    }

    pub fn new(node_id: u64) -> (r: Registry)
        ensures
            r.wf(),
            r.node_id == node_id,
            !r.started,
            r.caches@.len() == 0,
    {
        Registry { node_id, started: false, caches: Vec::new() }
    }

    fn find(&self, name: &String) -> (r: Option<usize>)
        requires
            self.wf(),
        ensures
            r matches Some(i) ==> cache_at(self.caches@, name@, i as int),
            r is None ==> !has_cache(self.caches@, name@),
    {
        let mut i: usize = 0;
        while i < self.caches.len()
            invariant
                i <= self.caches.len(),
                forall|j: int| 0 <= j < i ==> self.caches@[j].name@ != name@,
            decreases self.caches.len() - i,
        {
            if self.caches[i].name == *name {
                return Some(i);
            }
            i = i + 1;
        }
        None
    }

    /// Adds an empty cache. Refused once the node has started, for a capacity
    /// of zero, and for a name already taken.
    pub fn register_cache(&mut self, name: String, policy: EvictionPolicy, hard_cap: usize) -> (r:
        Result<(), RegistryError>)
        requires
            old(self).wf(),
        ensures
            final(self).wf(),
            final(self).node_id == old(self).node_id,
            final(self).started == old(self).started,
            r matches Err(e) ==> *final(self) == *old(self) && (e == RegistryError::AlreadyStarted
                <==> old(self).started) && (e == RegistryError::ZeroCapacity <==> !old(
                self,
            ).started && policy_cap(policy, hard_cap) < 1) && (e == RegistryError::DuplicateName
                <==> !old(self).started && policy_cap(policy, hard_cap) >= 1 && has_cache(
                old(self).caches@,
                name@,
            )) && e != RegistryError::UnknownCache && e != RegistryError::VersionsExhausted,
            r is Ok <==> !old(self).started && policy_cap(policy, hard_cap) >= 1 && !has_cache(
                old(self).caches@,
                name@,
            ),
            r is Ok ==> {
                let c = final(self).caches@.last();
                &&& final(self).caches@.len() == old(self).caches@.len() + 1
                &&& final(self).caches@.drop_last() == old(self).caches@
                &&& c.name@ == name@
                &&& c.policy == policy
                &&& c.hard_cap == hard_cap
                &&& c.entries@.len() == 0
                &&& c.tombstones@.len() == 0
                &&& c.clear_mark is None
                &&& c.next_version == 0
            },
    {
        if self.started {
            return Err(RegistryError::AlreadyStarted);
        }
        let dup = self.find(&name).is_some();
        match NamedCache::new(name, policy, hard_cap) {
            Err(ConfigError::ZeroCapacity) => Err(RegistryError::ZeroCapacity),
            Ok(c) => {
                if dup {
                    return Err(RegistryError::DuplicateName);
                }
                let ghost s0 = self.caches@;
                self.caches.push(c);
                proof {
                    assert(self.caches@.drop_last() =~= s0);
                    assert forall|i: int, j: int|
                        0 <= i < self.caches.len() && 0 <= j < self.caches.len() && i
                            != j implies self.caches@[i].name@ != self.caches@[j].name@ by {
                        if i == s0.len() {
                            assert(!cache_at(s0, c.name@, j));
                        } else if j == s0.len() {
                            assert(!cache_at(s0, c.name@, i));
                        }
                    }
                }
                Ok(())
            },
        }
    }

    /// Joins the cluster: from here on the set of caches is fixed.
    pub fn start(&mut self)
        requires
            old(self).wf(),
        ensures
            final(self).wf(),
            final(self).started,
            final(self).node_id == old(self).node_id,
            final(self).caches@ == old(self).caches@,
    {
        self.started = true;
    }

    /// The value under `key` in cache `cache` at time `now`.
    pub fn get(&self, cache: &String, key: &String, now: u64) -> (r: Result<
        Option<String>,
        RegistryError,
    >)
        requires
            self.wf(),
        ensures
            r is Err <==> !has_cache(self.caches@, cache@),
            r is Err ==> r == Err::<Option<String>, RegistryError>(RegistryError::UnknownCache),
            r matches Ok(v) ==> forall|i: int|
                #[trigger] cache_at(self.caches@, cache@, i) ==> match v {
                    Some(s) => crate::cache::value_at(self.caches@[i].entries@, key@, now) == Some(
                        s@,
                    ),
                    None => crate::cache::value_at(self.caches@[i].entries@, key@, now) is None,
                },
    {
        match self.find(cache) {
            Some(i) => {
                let v = self.caches[i].get(key, now);
                proof {
                    assert forall|j: int| #[trigger] cache_at(self.caches@, cache@, j) implies j
                        == i by {}
                }
                Ok(v)
            },
            None => Err(RegistryError::UnknownCache),
        }
    }

    /// Inserts locally and returns the notification to send to the peers.
    pub fn insert(
        &mut self,
        cache: &String,
        key: String,
        value: String,
        ttl_override: Option<u64>,
        now: u64,
    ) -> (r: Result<ChangeNotification, RegistryError>)
        requires
            old(self).wf(),
        ensures
            final(self).wf(),
            final(self).node_id == old(self).node_id,
            final(self).started == old(self).started,
            r matches Err(e) ==> *final(self) == *old(self) && (e == RegistryError::UnknownCache
                <==> !has_cache(old(self).caches@, cache@)) && (e
                == RegistryError::VersionsExhausted <==> has_cache(old(self).caches@, cache@)),
            r is Ok <==> writable(old(self).caches@, cache@),
            r matches Ok(n) ==> has_cache(old(self).caches@, cache@) && forall|i: int|
                #[trigger] cache_at(old(self).caches@, cache@, i) ==> {
                    let c0 = old(self).caches@[i];
                    let c1 = final(self).caches@[i];
                    &&& c0.next_version < u64::MAX
                    &&& only_at(old(self).caches@, final(self).caches@, i)
                    &&& c1.next_version == c0.next_version + 1
                    &&& n.stamp == (WriteStamp {
                        timestamp: now,
                        origin: old(self).node_id,
                        version: c0.next_version,
                    })
                    &&& stored(
                        c0,
                        NamedCache { next_version: c0.next_version, ..c1 },
                        Entry {
                            key,
                            value,
                            inserted_at: now,
                            expires_at: expiry_for(c0.policy, ttl_override, now),
                            stamp: n.stamp,
                        },
                    )
                },
            r matches Ok(n) ==> n.op == Operation::Insert && n.cache_name@ == cache@ && n.key@
                == key@ && n.value@ == value@,
    {
        let i = match self.find(cache) {
            Some(i) => i,
            None => return Err(RegistryError::UnknownCache),
        };
        proof {
            assert forall|j: int| #[trigger] cache_at(self.caches@, cache@, j) implies j == i by {}
        }
        if self.caches[i].next_version == u64::MAX {
            return Err(RegistryError::VersionsExhausted);
        }
        let n_key = key.clone();
        let n_value = value.clone();
        let ghost s0 = self.caches@;
        let stamp = self.caches[i].insert(key, value, ttl_override, self.node_id, now);
        proof {
            assert forall|j: int| #[trigger] cache_at(s0, cache@, j) implies j == i by {}
            assert(only_at(s0, self.caches@, i as int));
            assert forall|j: int| 0 <= j < self.caches.len() implies (#[trigger] self.caches@[j]).wf() by {
                if j != i {
                    assert(s0[j].wf());
                }
            }
        }
        Ok(
            ChangeNotification {
                cache_name: cache.clone(),
                key: n_key,
                op: Operation::Insert,
                value: n_value,
                stamp,
            },
        )
    }

    /// Removes locally; returns whether an entry was there and the
    /// notification to send to the peers. The removal is recorded as a
    /// received one would be, with its tombstone, so that an older insert
    /// arriving later is refused here as on the peers.
    pub fn remove(&mut self, cache: &String, key: &String, now: u64) -> (r: Result<
        (bool, ChangeNotification),
        RegistryError,
    >)
        requires
            old(self).wf(),
        ensures
            final(self).wf(),
            final(self).node_id == old(self).node_id,
            final(self).started == old(self).started,
            r is Ok <==> writable(old(self).caches@, cache@),
            r matches Err(e) ==> *final(self) == *old(self) && (e == RegistryError::UnknownCache
                <==> !has_cache(old(self).caches@, cache@)) && (e
                == RegistryError::VersionsExhausted <==> has_cache(old(self).caches@, cache@)),
            r matches Ok((was, n)) ==> forall|i: int|
                #[trigger] cache_at(old(self).caches@, cache@, i) ==> {
                    let c0 = old(self).caches@[i];
                    &&& only_at(old(self).caches@, final(self).caches@, i)
                    &&& was == has_key(c0.entries@, key@)
                    &&& n.stamp == (WriteStamp {
                        timestamp: now,
                        origin: old(self).node_id,
                        version: c0.next_version,
                    })
                    &&& applied(bumped(c0), final(self).caches@[i], n, now)
                },
            r matches Ok((was, n)) ==> n.op == Operation::Remove && n.cache_name@ == cache@
                && n.key@ == key@,
    {
        let i = match self.find(cache) {
            Some(i) => i,
            None => return Err(RegistryError::UnknownCache),
        };
        if self.caches[i].next_version == u64::MAX {
            return Err(RegistryError::VersionsExhausted);
        }
        let ghost s0 = self.caches@;
        proof {
            assert forall|j: int| #[trigger] cache_at(s0, cache@, j) implies j == i by {}
        }
        let was = self.caches[i].get_stamp(key).is_some();
        let stamp = self.caches[i].next_stamp(self.node_id, now);
        let n = ChangeNotification {
            cache_name: cache.clone(),
            key: key.clone(),
            op: Operation::Remove,
            value: String::new(),
            stamp,
        };
        apply(&mut self.caches[i], &n, now);
        proof {
            assert(only_at(s0, self.caches@, i as int));
            assert forall|j: int| 0 <= j < self.caches.len() implies (#[trigger] self.caches@[j]).wf() by {
                if j != i {
                    assert(s0[j].wf());
                }
            }
            assert(self.caches@[i as int].same_config(s0[i as int]));
        }
        Ok((was, n))
    }

    /// Clears one cache locally and returns the notification to send to the
    /// peers; the clearing is remembered as a received one would be.
    pub fn clear(&mut self, cache: &String, now: u64) -> (r: Result<
        ChangeNotification,
        RegistryError,
    >)
        requires
            old(self).wf(),
        ensures
            final(self).wf(),
            final(self).node_id == old(self).node_id,
            final(self).started == old(self).started,
            r is Ok <==> writable(old(self).caches@, cache@),
            r matches Err(e) ==> *final(self) == *old(self) && (e == RegistryError::UnknownCache
                <==> !has_cache(old(self).caches@, cache@)) && (e
                == RegistryError::VersionsExhausted <==> has_cache(old(self).caches@, cache@)),
            r matches Ok(n) ==> forall|i: int|
                #[trigger] cache_at(old(self).caches@, cache@, i) ==> {
                    let c0 = old(self).caches@[i];
                    &&& only_at(old(self).caches@, final(self).caches@, i)
                    &&& n.stamp == (WriteStamp {
                        timestamp: now,
                        origin: old(self).node_id,
                        version: c0.next_version,
                    })
                    &&& applied(bumped(c0), final(self).caches@[i], n, now)
                },
            r matches Ok(n) ==> n.op == Operation::ClearAll && n.cache_name@ == cache@,
    {
        let i = match self.find(cache) {
            Some(i) => i,
            None => return Err(RegistryError::UnknownCache),
        };
        if self.caches[i].next_version == u64::MAX {
            return Err(RegistryError::VersionsExhausted);
        }
        let ghost s0 = self.caches@;
        proof {
            assert forall|j: int| #[trigger] cache_at(s0, cache@, j) implies j == i by {}
        }
        let stamp = self.caches[i].next_stamp(self.node_id, now);
        let n = ChangeNotification {
            cache_name: cache.clone(),
            key: String::new(),
            op: Operation::ClearAll,
            value: String::new(),
            stamp,
        };
        apply(&mut self.caches[i], &n, now);
        proof {
            assert(only_at(s0, self.caches@, i as int));
            assert forall|j: int| 0 <= j < self.caches.len() implies (#[trigger] self.caches@[j]).wf() by {
                if j != i {
                    assert(s0[j].wf());
                }
            }
            assert(self.caches@[i as int].same_config(s0[i as int]));
        }
        Ok(n)
    }

    /// Empties every cache, as after a data migration, so that nothing from
    /// before it is served.
    pub fn clear_all(&mut self)
        requires
            old(self).wf(),
        ensures
            final(self).wf(),
            final(self).node_id == old(self).node_id,
            final(self).started == old(self).started,
            final(self).caches@.len() == old(self).caches@.len(),
            forall|i: int|
                0 <= i < final(self).caches@.len() ==> {
                    let c0 = old(self).caches@[i];
                    let c1 = #[trigger] final(self).caches@[i];
                    &&& c1.entries@.len() == 0
                    &&& c1.same_config(c0)
                    &&& c1.tombstones@ == c0.tombstones@
                    &&& c1.clear_mark == c0.clear_mark
                    &&& c1.next_version == c0.next_version
                },
    {
        let ghost s0 = self.caches@;
        let mut i: usize = 0;
        while i < self.caches.len()
            invariant
                self.node_id == old(self).node_id,
                self.started == old(self).started,
                self.caches@.len() == s0.len(),
                s0 == old(self).caches@,
                i <= self.caches.len(),
                forall|j: int| 0 <= j < s0.len() ==> (#[trigger] s0[j]).wf(),
                forall|a: int, b: int|
                    0 <= a < s0.len() && 0 <= b < s0.len() && a != b ==> s0[a].name@ != s0[b].name@,
                forall|j: int|
                    i <= j < s0.len() ==> #[trigger] self.caches@[j] == s0[j],
                forall|j: int|
                    0 <= j < i ==> {
                        let c0 = s0[j];
                        let c1 = #[trigger] self.caches@[j];
                        &&& c1.wf()
                        &&& c1.entries@.len() == 0
                        &&& c1.same_config(c0)
                        &&& c1.tombstones@ == c0.tombstones@
                        &&& c1.clear_mark == c0.clear_mark
                        &&& c1.next_version == c0.next_version
                    },
            decreases s0.len() - i,
        {
            self.caches[i].clear();
            i = i + 1;
        }
        proof {
            assert forall|a: int, b: int|
                0 <= a < self.caches.len() && 0 <= b < self.caches.len() && a != b implies self.caches@[a].name@
                    != self.caches@[b].name@ by {
                assert(self.caches@[a].same_config(s0[a]));
                assert(self.caches@[b].same_config(s0[b]));
            }
        }
    }

    /// Applies a notification received from a peer to the cache it names.
    pub fn apply_remote(&mut self, n: &ChangeNotification, now: u64) -> (r: Result<
        (),
        RegistryError,
    >)
        requires
            old(self).wf(),
        ensures
            final(self).wf(),
            final(self).node_id == old(self).node_id,
            final(self).started == old(self).started,
            r is Err <==> !has_cache(old(self).caches@, n.cache_name@),
            r is Err ==> r == Err::<(), RegistryError>(RegistryError::UnknownCache) && *final(self)
                == *old(self),
            r is Ok ==> forall|i: int|
                #[trigger] cache_at(old(self).caches@, n.cache_name@, i) ==> {
                    &&& only_at(old(self).caches@, final(self).caches@, i)
                    &&& applied(old(self).caches@[i], final(self).caches@[i], *n, now)
                },
    {
        let i = match self.find(&n.cache_name) {
            Some(i) => i,
            None => return Err(RegistryError::UnknownCache),
        };
        let ghost s0 = self.caches@;
        apply(&mut self.caches[i], n, now);
        proof {
            assert forall|j: int| #[trigger] cache_at(s0, n.cache_name@, j) implies j == i by {}
            assert(only_at(s0, self.caches@, i as int));
            assert forall|j: int| 0 <= j < self.caches.len() implies (#[trigger] self.caches@[j]).wf() by {
                if j != i {
                    assert(s0[j].wf());
                }
            }
            assert(self.caches@[i as int].same_config(s0[i as int]));
        }
        Ok(())
    }
}

} // verus!
