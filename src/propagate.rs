use vstd::prelude::*;
use crate::cache::{
    expiry_for, has_key, is_later, later, lookup, policy_ttl, removed, stored, tomb_at,
    EvictionPolicy, ClearMark, Entry, NamedCache, Tombstone, WriteStamp,
};

verus! {

#[derive(Clone, Copy, PartialEq, Eq, Structural, Debug)]
pub enum Operation {
    Insert,
    Remove,
    ClearAll,
}

/// One mutation of one cache, as shipped between nodes. The stamp carries the
/// origin node, its version counter and its wall-clock timestamp.
pub struct ChangeNotification {
    pub cache_name: String,
    pub key: String,
    pub op: Operation,
    pub value: String,
    pub stamp: WriteStamp,
}

impl ChangeNotification {
    pub fn duplicate(&self) -> (r: ChangeNotification)
        ensures
            r == *self,
    {
        ChangeNotification {
            cache_name: self.cache_name.clone(),
            key: self.key.clone(),
            op: self.op,
            value: self.value.clone(),
            stamp: self.stamp,
        }
    }
}

/// The entry that a received insert creates: its lifetime counts from the
/// moment it is applied here.
pub open spec fn remote_entry(policy: EvictionPolicy, n: ChangeNotification, now: u64) -> Entry {
    Entry {
        key: n.key,
        value: n.value,
        inserted_at: now,
        expires_at: expiry_for(policy, None, now),
        stamp: n.stamp,
    }
}

/// How long a removal or a clearing is remembered: the cache's lifetime.
pub open spec fn retention_end(policy: EvictionPolicy, now: u64) -> u64 {
    match policy_ttl(policy) {
        Some(t) => now.saturating_add(t),
        None => now,
    }
}

/// A received insert is refused when the cache already knows a write of the
/// key at least as late: an entry, a tombstone still retained, or a retained
/// clearing of the whole cache.
pub open spec fn insert_blocked(c: NamedCache, n: ChangeNotification, now: u64) -> bool {
    ||| (lookup(c.entries@, n.key@) matches Some(e) && !later(n.stamp, e.stamp))
    ||| (exists|i: int|
        tomb_at(c.tombstones@, n.key@, i) && !later(n.stamp, c.tombstones@[i].stamp) && now
            < c.tombstones@[i].until)
    ||| (c.clear_mark matches Some(m) && !later(n.stamp, m.stamp) && now < m.until)
}

/// The cache already shows the effect of `n`: applying it changes nothing.
pub open spec fn reflects(c: NamedCache, n: ChangeNotification, now: u64) -> bool {
    match n.op {
        Operation::Insert => insert_blocked(c, n, now),
        Operation::Remove => !has_key(c.entries@, n.key@) && exists|i: int|
            tomb_at(c.tombstones@, n.key@, i) && !later(n.stamp, c.tombstones@[i].stamp),
        Operation::ClearAll => c.entries@.len() == 0 && (c.clear_mark matches Some(m) && !later(
            n.stamp,
            m.stamp,
        )),
    }
}

/// The key's tombstone at `i` raised to `t` when `t` is the later write.
pub open spec fn tomb_raise(old: Seq<Tombstone>, i: int, t: Tombstone) -> Seq<Tombstone> {
    if later(t.stamp, old[i].stamp) {
        old.update(i, t)
    } else {
        old
    }
}

/// The tombstones after a removal: the key's tombstone is raised to `t` when
/// `t` is later, or `t` is added when the key has none.
pub open spec fn tombstone_recorded(
    old: Seq<Tombstone>,
    new: Seq<Tombstone>,
    t: Tombstone,
) -> bool {
    if exists|i: int| tomb_at(old, t.key@, i) {
        forall|i: int| tomb_at(old, t.key@, i) ==> new == tomb_raise(old, i, t)
    } else {
        new == old.push(t)
    }
}

pub open spec fn clear_recorded(old: Option<ClearMark>, m: ClearMark) -> Option<ClearMark> {
    match old {
        Some(o) => if later(m.stamp, o.stamp) {
            Some(m)
        } else {
            old
        },
        None => Some(m),
    }
}

/// What applying the received notification `n` at time `now` did to a cache.
pub open spec fn applied(old: NamedCache, new: NamedCache, n: ChangeNotification, now: u64) -> bool {
    &&& new.wf()
    &&& reflects(new, n, now)
    &&& (reflects(old, n, now) ==> new == old)
    &&& match n.op {
        Operation::Insert => if insert_blocked(old, n, now) {
            new == old
        } else {
            stored(old, new, remote_entry(old.policy, n, now))
        },
        Operation::Remove => {
            &&& removed(old, NamedCache { tombstones: old.tombstones, ..new }, n.key@)
            &&& tombstone_recorded(
                old.tombstones@,
                new.tombstones@,
                Tombstone { key: n.key, stamp: n.stamp, until: retention_end(old.policy, now) },
            )
        },
        Operation::ClearAll => {
            &&& new.entries@.len() == 0
            &&& new.same_config(old)
            &&& new.tombstones@ == old.tombstones@
            &&& new.next_version == old.next_version
            &&& new.clear_mark == clear_recorded(
                old.clear_mark,
                ClearMark { stamp: n.stamp, until: retention_end(old.policy, now) },
            )
        },
    }
}

fn retention(policy: EvictionPolicy, now: u64) -> (r: u64)
    ensures
        r == retention_end(policy, now),
{
    match policy {
        EvictionPolicy::Ttl { seconds } => now.saturating_add(seconds),
        EvictionPolicy::CapacityBounded { .. } => now,
    }
}

fn find_tomb(c: &NamedCache, key: &String) -> (r: Option<usize>)
    requires
        c.wf(),
    ensures
        r matches Some(i) ==> tomb_at(c.tombstones@, key@, i as int),
        r is None ==> !exists|i: int| tomb_at(c.tombstones@, key@, i),
{
    let mut i: usize = 0;
    while i < c.tombstones.len()
        invariant
            i <= c.tombstones.len(),
            forall|j: int| 0 <= j < i ==> c.tombstones@[j].key@ != key@,
        decreases c.tombstones.len() - i,
    {
        if c.tombstones[i].key == *key {
            return Some(i);
        }
        i = i + 1;
    }
    None
}

fn is_blocked(c: &NamedCache, n: &ChangeNotification, now: u64) -> (r: bool)
    requires
        c.wf(),
    ensures
        r == insert_blocked(*c, *n, now),
{
    let by_entry = match c.get_stamp(&n.key) {
        Some(s) => !is_later(&n.stamp, &s),
        None => false,
    };
    let by_tomb = match find_tomb(c, &n.key) {
        Some(i) => {
            let t = &c.tombstones[i];
            let b = !is_later(&n.stamp, &t.stamp) && now < t.until;
            proof {
                assert forall|j: int| tomb_at(c.tombstones@, n.key@, j) implies j == i by {}
            }
            b
        },
        None => false,
    };
    let by_clear = match c.clear_mark {
        Some(m) => !is_later(&n.stamp, &m.stamp) && now < m.until,
        None => false,
    };
    by_entry || by_tomb || by_clear
}

/// Applies a notification received from a peer to the local cache. Inserts
/// follow last-writer-wins on the write stamp; removals and clearings always
/// apply and are remembered for the cache's lifetime.
pub fn apply(c: &mut NamedCache, n: &ChangeNotification, now: u64)
    requires
        old(c).wf(),
    ensures
        applied(*old(c), *final(c), *n, now),
{
    let ghost c0 = *c;
    match n.op {
        Operation::Insert => {
            if !is_blocked(c, n, now) {
                let expires_at = match c.policy {
                    EvictionPolicy::Ttl { seconds } => Some(now.saturating_add(seconds)),
                    EvictionPolicy::CapacityBounded { .. } => None,
                };
                c.store(
                    Entry {
                        key: n.key.clone(),
                        value: n.value.clone(),
                        inserted_at: now,
                        expires_at,
                        stamp: n.stamp,
                    },
                );
                proof {
                    let e = remote_entry(c0.policy, *n, now);
                    assert(lookup(c.entries@, n.key@) == Some(e));
                    assert(!later(n.stamp, e.stamp));
                    assert(insert_blocked(*c, *n, now));
                    assert(stored(c0, *c, e));
                    assert(c.wf());
                }
            }
        },
        Operation::Remove => {
            c.remove(&n.key);
            let until = retention(c.policy, now);
            let t = Tombstone { key: n.key.clone(), stamp: n.stamp, until };
            let ghost c1 = *c;
            let ghost tg = Tombstone { key: n.key, stamp: n.stamp, until: retention_end(c0.policy, now) };
            assert(t == tg);
            assert(c1.tombstones@ == c0.tombstones@);
            match find_tomb(c, &n.key) {
                Some(i) => {
                    if is_later(&n.stamp, &c.tombstones[i].stamp) {
                        c.tombstones.set(i, t);
                    }
                    proof {
                        assert(tomb_at(c0.tombstones@, tg.key@, i as int));
                        assert(c.tombstones@ == tomb_raise(c0.tombstones@, i as int, tg));
                        assert forall|j: int| tomb_at(c0.tombstones@, tg.key@, j) implies j
                            == i by {}
                        assert(tombstone_recorded(c0.tombstones@, c.tombstones@, tg));
                        assert(tomb_at(c.tombstones@, n.key@, i as int));
                        assert forall|a: int, b: int|
                            0 <= a < c.tombstones@.len() && 0 <= b < c.tombstones@.len() && a
                                != b implies c.tombstones@[a].key@ != c.tombstones@[b].key@ by {
                            assert(c1.tombstones@[a].key@ != c1.tombstones@[b].key@);
                        }
                    }
                },
                None => {
                    c.tombstones.push(t);
                    proof {
                        assert(c.tombstones@ == c0.tombstones@.push(tg));
                        assert(tomb_at(c.tombstones@, n.key@, c1.tombstones@.len() as int));
                        assert forall|a: int, b: int|
                            0 <= a < c.tombstones@.len() && 0 <= b < c.tombstones@.len() && a
                                != b implies c.tombstones@[a].key@ != c.tombstones@[b].key@ by {
                            if a < c1.tombstones@.len() && b < c1.tombstones@.len() {
                            } else if a < c1.tombstones@.len() {
                                assert(!tomb_at(c1.tombstones@, n.key@, a));
                            } else {
                                assert(!tomb_at(c1.tombstones@, n.key@, b));
                            }
                        }
                    }
                },
            }
            proof {
                if reflects(c0, *n, now) {
                    let i = choose|i: int|
                        tomb_at(c0.tombstones@, n.key@, i) && !later(
                            n.stamp,
                            c0.tombstones@[i].stamp,
                        );
                    assert(c.tombstones@ == c0.tombstones@);
                }
            }
        },
        Operation::ClearAll => {
            c.clear();
            let m = ClearMark { stamp: n.stamp, until: retention(c.policy, now) };
            let replace = match c.clear_mark {
                Some(o) => is_later(&n.stamp, &o.stamp),
                None => true,
            };
            if replace {
                c.clear_mark = Some(m);
            }
        },
    }
}

/// Applying the same notification twice, as on a duplicate delivery, leaves
/// the cache as applying it once did.
pub proof fn lemma_apply_idempotent(
    c0: NamedCache,
    c1: NamedCache,
    c2: NamedCache,
    n: ChangeNotification,
    now: u64,
)
    requires
        c0.wf(),
        applied(c0, c1, n, now),
        applied(c1, c2, n, now),
    ensures
        c2 == c1,
{
}

/// Two inserts of one key with different stamps, applied in either order to a
/// cache that holds no later write of the key, leave the later of the two.
pub proof fn lemma_concurrent_inserts_converge(
    c: NamedCache,
    c1: NamedCache,
    c2: NamedCache,
    first: ChangeNotification,
    t1: u64,
    second: ChangeNotification,
    t2: u64,
)
    requires
        c.wf(),
        first.op is Insert,
        second.op is Insert,
        first.key@ == second.key@,
        first.stamp != second.stamp,
        !insert_blocked(c, first, t1),
        !insert_blocked(c, second, t2),
        applied(c, c1, first, t1),
        applied(c1, c2, second, t2),
    ensures
        lookup(c2.entries@, first.key@) == if later(first.stamp, second.stamp) {
            Some(remote_entry(c.policy, first, t1))
        } else {
            Some(remote_entry(c.policy, second, t2))
        },
{
    let e1 = remote_entry(c.policy, first, t1);
    assert(lookup(c1.entries@, first.key@) == Some(e1));
    if later(first.stamp, second.stamp) {
        assert(insert_blocked(c1, second, t2));
    } else {
        assert(later(second.stamp, first.stamp));
        assert(c1.tombstones@ == c.tombstones@);
        assert(!insert_blocked(c1, second, t2));
    }
}

/// Applying any received notification keeps the cache within its hard cap;
/// an insert that is not refused as stale is held afterwards.
pub proof fn lemma_apply_within_cap(old: NamedCache, new: NamedCache, n: ChangeNotification, now: u64)
    requires
        applied(old, new, n, now),
    ensures
        new.entries@.len() <= new.hard_cap,
        n.op is Insert && !insert_blocked(old, n, now) ==> lookup(new.entries@, n.key@) == Some(
            remote_entry(old.policy, n, now),
        ),
{
}

} // verus!
