//! Bookkeeping for per-file merge locks: a size- and age-bounded registry
//! from logical-file keys to usage records. The mutual-exclusion handles
//! themselves are reference-counted by the caller; the registry decides which
//! keys stay resident and which are evicted.

use vstd::prelude::*;
use crate::assoc::{
    assoc_map, distinct_keys, find_key, lemma_assoc_contains, lemma_assoc_get,
    lemma_assoc_remove, lemma_distinct_remove,
};

verus! {

/// The usage record kept for one logical-file key.
#[derive(Debug, Clone, Copy, PartialEq, Eq, Structural)]
pub struct FileLockEntry {
    /// The clock tick of the most recent use.
    pub last_used: u64,
    /// How many times the key has been fetched.
    pub access_count: u64,
}

/// A counter bump that stops at the counter's ceiling instead of wrapping.
pub open spec fn saturating_inc(c: u64) -> u64 {
    if c < u64::MAX {
        (c + 1) as u64
    } else {
        u64::MAX
    }
}

/// An entry this old counts as idle and may be reclaimed.
pub open spec fn lock_expired(last_used: u64, now: u64, max_age: u64) -> bool {
    (if now >= last_used {
        (now - last_used) as u64
    } else {
        0
    }) >= max_age
}

/// The views of a list of evicted keys.
pub open spec fn key_views(s: Seq<String>) -> Seq<Seq<char>> {
    s.map_values(|k: String| k@)
}

impl FileLockEntry {
    pub fn new(now: u64) -> (r: FileLockEntry)
        ensures
            r.last_used == now,
            r.access_count == 0,
    {
        FileLockEntry { last_used: now, access_count: 0 }
    }

    /// Marks the entry as just used.
    pub fn update_usage(&mut self, now: u64)
        ensures
            final(self).last_used == now,
            final(self).access_count == saturating_inc(old(self).access_count),
    {
        if self.access_count < u64::MAX {
            self.access_count = self.access_count + 1;
        }
        self.last_used = now;
    }
}

/// The registry of per-file lock records, holding at most `max_locks`
/// entries.
pub struct LockRegistry {
    entries: Vec<(String, FileLockEntry)>,
    max_locks: usize,
}

impl LockRegistry {
    /// Keys are unique and a capacity of at least one entry was configured.
    pub closed spec fn wf(&self) -> bool {
        distinct_keys(self.entries@) && self.max_locks >= 1
    }

    /// The registry read as a map from keys to usage records.
    pub closed spec fn lock_map(&self) -> Map<Seq<char>, FileLockEntry> {
        assoc_map(self.entries@)
    }

    /// How many entries are resident.
    pub closed spec fn num_locks(&self) -> nat {
        self.entries@.len()
    }

    /// The configured maximum number of resident entries.
    pub closed spec fn capacity(&self) -> nat {
        self.max_locks as nat
    }

    pub fn new(max_locks: usize) -> (r: LockRegistry)
        requires
            max_locks >= 1,
        ensures
            r.wf(),
            r.capacity() == max_locks,
            r.num_locks() == 0,
            r.lock_map() == Map::<Seq<char>, FileLockEntry>::empty(),
    {
        LockRegistry { entries: Vec::new(), max_locks }
    }

    /// How many lock records are resident.
    pub fn get_file_lock_count(&self) -> (n: usize)
        ensures
            n == self.num_locks(),
    {
        self.entries.len()
    }

    /// The usage record for `key`, if one is resident.
    pub fn lock_entry(&self, key: &str) -> (r: Option<FileLockEntry>)
        requires
            self.wf(),
        ensures
            match r {
                Some(e) => self.lock_map().contains_key(key@) && e == self.lock_map()[key@],
                None => !self.lock_map().contains_key(key@),
            },
    {
        proof {
            lemma_assoc_contains(self.entries@, key@);
        }
        match find_key(&self.entries, key) {
            Some(i) => {
                proof {
                    lemma_assoc_get(self.entries@, i as int);
                }
                Some(self.entries[i].1)
            },
            None => None,
        }
    }

    /// Fetches (creating if absent) the record for `key` and marks it just
    /// used. When the registry is full, the least-recently-used entries are
    /// evicted first, keeping the most-recently-used portion; the returned
    /// list holds the evicted keys. The registry never ends up above its
    /// capacity, and an eviction never touches an entry more recently used
    /// than one it keeps.
    pub fn get_file_lock(&mut self, key: &str, now: u64) -> (evicted: Vec<String>)
        requires
            old(self).wf(),
        ensures
            final(self).wf(),
            final(self).capacity() == old(self).capacity(),
            final(self).num_locks() <= old(self).capacity(),
            final(self).lock_map().contains_key(key@),
            final(self).lock_map()[key@].last_used == now,
            final(self).lock_map()[key@].access_count == (if old(self).lock_map().contains_key(
                key@,
            ) && !key_views(evicted@).contains(key@) {
                saturating_inc(old(self).lock_map()[key@].access_count)
            } else {
                1
            }),
            forall|k: Seq<char>|
                k != key@ ==> final(self).lock_map().contains_key(k) == (old(
                    self,
                ).lock_map().contains_key(k) && !key_views(evicted@).contains(k)),
            forall|k: Seq<char>|
                k != key@ && final(self).lock_map().contains_key(k) ==> final(self).lock_map()[k]
                    == old(self).lock_map()[k],
            forall|e: int|
                0 <= e < evicted@.len() ==> old(self).lock_map().contains_key(
                    #[trigger] evicted@[e]@,
                ),
            old(self).num_locks() < old(self).capacity() ==> evicted@.len() == 0,
            forall|k: Seq<char>, e: int|
                #![trigger final(self).lock_map().contains_key(k), evicted@[e]]
                final(self).lock_map().contains_key(k) && k != key@ && 0 <= e < evicted@.len()
                    ==> old(self).lock_map()[k].last_used >= old(self).lock_map()[
                    evicted@[e]@
                ].last_used,
    {
        let ghost m0 = old(self).lock_map();
        let mut evicted: Vec<String> = Vec::new();
        if self.entries.len() >= self.max_locks {
            let retain = (((self.max_locks as u128) * 8) / 10) as usize;
            proof {
                assert(retain < self.max_locks) by (nonlinear_arith)
                    requires
                        self.max_locks >= 1,
                        retain == ((self.max_locks as u128) * 8) / 10,
                ;
            }
            while self.entries.len() > retain
                invariant
                    distinct_keys(self.entries@),
                    m0 == old(self).lock_map(),
                    self.max_locks == old(self).max_locks,
                    retain < self.max_locks,
                    forall|k: Seq<char>|
                        assoc_map(self.entries@).contains_key(k) == (m0.contains_key(k)
                            && !key_views(evicted@).contains(k)),
                    forall|k: Seq<char>|
                        assoc_map(self.entries@).contains_key(k) ==> assoc_map(self.entries@)[k]
                            == m0[k],
                    forall|e: int|
                        0 <= e < evicted@.len() ==> m0.contains_key(#[trigger] evicted@[e]@),
                    forall|k: Seq<char>, e: int|
                        #![trigger assoc_map(self.entries@).contains_key(k), evicted@[e]]
                        assoc_map(self.entries@).contains_key(k) && 0 <= e < evicted@.len()
                            ==> m0[k].last_used >= m0[evicted@[e]@].last_used,
                decreases self.entries@.len(),
            {
                let mut mi: usize = 0;
                let mut j: usize = 1;
                while j < self.entries.len()
                    invariant
                        1 <= self.entries@.len(),
                        mi < j <= self.entries@.len(),
                        forall|t: int|
                            0 <= t < j ==> (#[trigger] self.entries@[t]).1.last_used
                                >= self.entries@[mi as int].1.last_used,
                    decreases self.entries@.len() - j,
                {
                    if self.entries[j].1.last_used < self.entries[mi].1.last_used {
                        mi = j;
                    }
                    j = j + 1;
                }
                let ghost prev = self.entries@;
                let ghost evicted_before = evicted@;
                let ghost rk = self.entries@[mi as int].0@;
                proof {
                    lemma_assoc_get(prev, mi as int);
                    lemma_assoc_remove(prev, mi as int);
                    lemma_distinct_remove(prev, mi as int);
                    assert forall|k: Seq<char>|
                        assoc_map(prev).contains_key(k) implies assoc_map(prev)[
                        k
                    ].last_used >= prev[mi as int].1.last_used by {
                        lemma_assoc_contains(prev, k);
                        let t = choose|t: int| 0 <= t < prev.len() && #[trigger] prev[t].0@ == k;
                        lemma_assoc_get(prev, t);
                    }
                }
                let entry = self.entries.remove(mi);
                evicted.push(entry.0);
                proof {
                    let vb = key_views(evicted_before);
                    let va = key_views(evicted@);
                    assert(va =~= vb.push(rk));
                    assert forall|k: Seq<char>| #[trigger] va.contains(k) implies (vb.contains(k)
                        || k == rk) by {
                        let i = choose|i: int| 0 <= i < va.len() && va[i] == k;
                        if i < vb.len() {
                            assert(vb[i] == k);
                        }
                    }
                    assert forall|k: Seq<char>| (vb.contains(k) || k == rk) implies #[trigger] va.contains(
                        k,
                    ) by {
                        if vb.contains(k) {
                            let i = choose|i: int| 0 <= i < vb.len() && vb[i] == k;
                            assert(va[i] == k);
                        } else {
                            assert(va[vb.len() as int] == k);
                        }
                    }
                    assert(assoc_map(self.entries@) == assoc_map(prev).remove(rk));
                    assert forall|k: Seq<char>|
                        assoc_map(self.entries@).contains_key(k) == (m0.contains_key(k)
                            && !key_views(evicted@).contains(k)) by {
                        assert(assoc_map(self.entries@).contains_key(k) == (assoc_map(
                            prev,
                        ).contains_key(k) && k != rk));
                    }
                    assert forall|k: Seq<char>|
                        assoc_map(self.entries@).contains_key(k) implies assoc_map(self.entries@)[k]
                        == m0[k] by {
                        assert(assoc_map(prev).contains_key(k));
                        assert(assoc_map(self.entries@)[k] == assoc_map(prev)[k]);
                    }
                    assert forall|e: int|
                        0 <= e < evicted@.len() implies m0.contains_key(
                        #[trigger] evicted@[e]@,
                    ) by {
                        assert(va[e] == evicted@[e]@);
                        if e < vb.len() {
                            assert(evicted_before[e]@ == evicted@[e]@);
                        } else {
                            assert(evicted@[e]@ == rk);
                            assert(assoc_map(prev).contains_key(rk));
                        }
                    }
                    assert forall|k: Seq<char>, e: int|
                        #![trigger assoc_map(self.entries@).contains_key(k), evicted@[e]]
                        assoc_map(self.entries@).contains_key(k) && 0 <= e < evicted@.len() implies
                        m0[k].last_used >= m0[evicted@[e]@].last_used by {
                        assert(assoc_map(prev).contains_key(k));
                        if e < vb.len() {
                            assert(evicted_before[e]@ == evicted@[e]@);
                        } else {
                            assert(evicted@[e]@ == rk);
                            assert(m0[rk] == assoc_map(prev)[rk]);
                            assert(m0[k] == assoc_map(prev)[k]);
                            assert(assoc_map(prev)[k].last_used >= prev[mi as int].1.last_used);
                        }
                    }
                }
            }
        }
        proof {
            lemma_assoc_contains(self.entries@, key@);
        }
        let ghost entries_mid = self.entries@;
        match find_key(&self.entries, key) {
            Some(i) => {
                proof {
                    lemma_assoc_get(self.entries@, i as int);
                    lemma_assoc_remove(self.entries@, i as int);
                    lemma_distinct_remove(self.entries@, i as int);
                }
                let pair = self.entries.remove(i);
                let k_owned = pair.0;
                let mut entry = pair.1;
                entry.update_usage(now);
                self.entries.push((k_owned, entry));
                proof {
                    assert(self.entries@.drop_last() =~= entries_mid.remove(i as int));
                    lemma_assoc_contains(entries_mid.remove(i as int), key@);
                    assert(assoc_map(self.entries@) =~= assoc_map(entries_mid).insert(
                        key@,
                        entry,
                    ));
                }
            },
            None => {
                let mut entry = FileLockEntry::new(now);
                entry.update_usage(now);
                self.entries.push((key.to_owned(), entry));
                proof {
                    assert(self.entries@.drop_last() =~= entries_mid);
                }
            },
        }
        evicted
    }

    /// Drops every record idle for at least `max_age` ticks, keeping the
    /// rest untouched, and reports how many were dropped.
    pub fn cleanup_file_locks(&mut self, now: u64, max_age: u64) -> (cleaned: usize)
        requires
            old(self).wf(),
        ensures
            final(self).wf(),
            final(self).capacity() == old(self).capacity(),
            forall|k: Seq<char>|
                final(self).lock_map().contains_key(k) == (old(self).lock_map().contains_key(k)
                    && !lock_expired(old(self).lock_map()[k].last_used, now, max_age)),
            forall|k: Seq<char>|
                final(self).lock_map().contains_key(k) ==> final(self).lock_map()[k] == old(
                    self,
                ).lock_map()[k],
            final(self).num_locks() + cleaned == old(self).num_locks(),
    {
        let ghost m0 = old(self).lock_map();
        let initial = self.entries.len();
        let mut idx: usize = 0;
        while idx < self.entries.len()
            invariant
                distinct_keys(self.entries@),
                m0 == old(self).lock_map(),
                self.max_locks == old(self).max_locks,
                idx <= self.entries@.len() <= old(self).entries@.len(),
                initial == old(self).entries@.len(),
                forall|j: int|
                    0 <= j < idx ==> !lock_expired(
                        (#[trigger] self.entries@[j]).1.last_used,
                        now,
                        max_age,
                    ),
                forall|k: Seq<char>|
                    #[trigger] assoc_map(self.entries@).contains_key(k) ==> m0.contains_key(k)
                        && assoc_map(self.entries@)[k] == m0[k],
                forall|k: Seq<char>|
                    m0.contains_key(k) && !lock_expired(m0[k].last_used, now, max_age)
                        ==> #[trigger] assoc_map(self.entries@).contains_key(k),
            decreases self.entries@.len() - idx,
        {
            let lu = self.entries[idx].1.last_used;
            let age = if now >= lu {
                now - lu
            } else {
                0
            };
            if age >= max_age {
                let ghost prev = self.entries@;
                let ghost rk = self.entries@[idx as int].0@;
                proof {
                    lemma_assoc_get(prev, idx as int);
                    lemma_assoc_remove(prev, idx as int);
                    lemma_distinct_remove(prev, idx as int);
                }
                let _ = self.entries.remove(idx);
                proof {
                    assert(assoc_map(self.entries@) == assoc_map(prev).remove(rk));
                    assert forall|k: Seq<char>|
                        assoc_map(self.entries@).contains_key(k) implies m0.contains_key(k)
                        && assoc_map(self.entries@)[k] == m0[k] by {
                        assert(assoc_map(self.entries@).contains_key(k) == (assoc_map(
                            prev,
                        ).contains_key(k) && k != rk));
                        assert(assoc_map(prev).contains_key(k));
                        assert(assoc_map(self.entries@)[k] == assoc_map(prev)[k]);
                    }
                    assert forall|k: Seq<char>|
                        m0.contains_key(k) && !lock_expired(m0[k].last_used, now, max_age) implies
                        assoc_map(self.entries@).contains_key(k) by {
                        assert(assoc_map(prev).contains_key(k));
                        assert(assoc_map(prev).contains_key(rk));
                        assert(assoc_map(prev)[rk] == prev[idx as int].1);
                        assert(m0[rk] == assoc_map(prev)[rk]);
                        assert(lock_expired(m0[rk].last_used, now, max_age));
                        assert(k != rk);
                        assert(assoc_map(self.entries@).contains_key(k) == (assoc_map(
                            prev,
                        ).contains_key(k) && k != rk));
                    }
                }
            } else {
                idx = idx + 1;
            }
        }
        proof {
            assert forall|k: Seq<char>| assoc_map(self.entries@).contains_key(k) implies (
            m0.contains_key(k) && !lock_expired(m0[k].last_used, now, max_age)) by {
                lemma_assoc_contains(self.entries@, k);
                let t = choose|t: int|
                    0 <= t < self.entries@.len() && #[trigger] self.entries@[t].0@ == k;
                lemma_assoc_get(self.entries@, t);
            }
        }
        initial - self.entries.len()
    }
}

} // verus!
