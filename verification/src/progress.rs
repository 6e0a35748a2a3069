//! In-memory tracking of in-flight transfers: a map from logical-file keys
//! to progress snapshots, with staleness expiry.

use vstd::prelude::*;
use crate::assoc::{
    assoc_map, distinct_keys, find_key, lemma_assoc_contains, lemma_assoc_get,
    lemma_assoc_remove, lemma_distinct_remove,
};
use crate::models::UploadProgress;
use crate::paths::file_key;

verus! {

/// One tracked transfer: its latest snapshot and when it was last touched.
pub struct ProgressSlot {
    pub progress: UploadProgress,
    pub last_updated: u64,
}

/// A snapshot this old counts as stale and may be reclaimed.
pub open spec fn progress_stale(last_updated: u64, now: u64, max_age: u64) -> bool {
    (if now >= last_updated {
        (now - last_updated) as u64
    } else {
        0
    }) >= max_age
}

/// The tracker of upload progress, one entry per logical-file key.
pub struct ProgressTracker {
    entries: Vec<(String, ProgressSlot)>,
}

impl ProgressTracker {
    /// Keys are unique.
    pub closed spec fn wf(&self) -> bool {
        distinct_keys(self.entries@)
    }

    /// The tracker read as a map from keys to slots.
    pub closed spec fn progress_map(&self) -> Map<Seq<char>, ProgressSlot> {
        assoc_map(self.entries@)
    }

    /// How many transfers are tracked.
    pub closed spec fn num_entries(&self) -> nat {
        self.entries@.len()
    }

    pub fn new() -> (r: ProgressTracker)
        ensures
            r.wf(),
            r.num_entries() == 0,
            r.progress_map() == Map::<Seq<char>, ProgressSlot>::empty(),
    {
        ProgressTracker { entries: Vec::new() }
    }

    /// How many transfers are tracked.
    pub fn get_progress_count(&self) -> (n: usize)
        ensures
            n == self.num_entries(),
    {
        self.entries.len()
    }

    /// Records the latest snapshot for a key, replacing any earlier one.
    pub fn update_progress(&mut self, key: &str, progress: UploadProgress, now: u64)
        requires
            old(self).wf(),
        ensures
            final(self).wf(),
            final(self).progress_map() == old(self).progress_map().insert(
                key@,
                ProgressSlot { progress, last_updated: now },
            ),
    {
        let ghost prev = self.entries@;
        proof {
            lemma_assoc_contains(self.entries@, key@);
        }
        let slot = ProgressSlot { progress, last_updated: now };
        match find_key(&self.entries, key) {
            Some(i) => {
                proof {
                    lemma_assoc_remove(prev, i as int);
                    lemma_distinct_remove(prev, i as int);
                }
                let pair = self.entries.remove(i);
                let k_owned = pair.0;
                self.entries.push((k_owned, slot));
                proof {
                    assert(self.entries@.drop_last() =~= prev.remove(i as int));
                    lemma_assoc_contains(prev.remove(i as int), key@);
                    assert(self.entries@.last().0@ == key@);
                    assert(assoc_map(self.entries@) =~= assoc_map(prev).insert(
                        key@,
                        self.entries@.last().1,
                    ));
                }
            },
            None => {
                self.entries.push((key.to_owned(), slot));
                proof {
                    assert(self.entries@.drop_last() =~= prev);
                }
            },
        }
    }

    /// The tracked snapshot for a key, if any.
    pub fn get_progress(&self, key: &str) -> (r: Option<&UploadProgress>)
        requires
            self.wf(),
        ensures
            match r {
                Some(p) => self.progress_map().contains_key(key@) && *p == self.progress_map()[
                    key@
                ].progress,
                None => !self.progress_map().contains_key(key@),
            },
    {
        proof {
            lemma_assoc_contains(self.entries@, key@);
        }
        match find_key(&self.entries, key) {
            Some(i) => {
                proof {
                    lemma_assoc_get(self.entries@, i as int);
                }
                Some(&self.entries[i].1.progress)
            },
            None => None,
        }
    }

    /// When the entry for a key was last touched, if one is tracked.
    pub fn last_updated(&self, key: &str) -> (r: Option<u64>)
        requires
            self.wf(),
        ensures
            match r {
                Some(t) => self.progress_map().contains_key(key@) && t == self.progress_map()[
                    key@
                ].last_updated,
                None => !self.progress_map().contains_key(key@),
            },
    {
        proof {
            lemma_assoc_contains(self.entries@, key@);
        }
        match find_key(&self.entries, key) {
            Some(i) => {
                proof {
                    lemma_assoc_get(self.entries@, i as int);
                }
                Some(self.entries[i].1.last_updated)
            },
            None => None,
        }
    }

    /// The tracked snapshot for one logical file, if any.
    pub fn get_upload_progress(&self, module: &str, filename: &str) -> (r: Option<&UploadProgress>)
        requires
            self.wf(),
        ensures
            match r {
                Some(p) => self.progress_map().contains_key(file_key(module@, filename@)) && *p
                    == self.progress_map()[file_key(module@, filename@)].progress,
                None => !self.progress_map().contains_key(file_key(module@, filename@)),
            },
    {
        let key = crate::paths::lock_key(module, filename);
        self.get_progress(key.as_str())
    }

    /// Forgets the entry for a key, if present.
    pub fn remove_progress(&mut self, key: &str)
        requires
            old(self).wf(),
        ensures
            final(self).wf(),
            final(self).progress_map() == old(self).progress_map().remove(key@),
    {
        let ghost prev = self.entries@;
        proof {
            lemma_assoc_contains(self.entries@, key@);
        }
        match find_key(&self.entries, key) {
            Some(i) => {
                proof {
                    lemma_assoc_remove(prev, i as int);
                    lemma_distinct_remove(prev, i as int);
                }
                let _ = self.entries.remove(i);
            },
            None => {
                proof {
                    assert(assoc_map(prev) =~= assoc_map(prev).remove(key@));
                }
            },
        }
    }

    /// Drops every snapshot stale for at least `max_age` ticks, keeping the
    /// rest untouched, and reports how many were dropped.
    pub fn cleanup_expired(&mut self, now: u64, max_age: u64) -> (cleaned: usize)
        requires
            old(self).wf(),
        ensures
            final(self).wf(),
            forall|k: Seq<char>|
                final(self).progress_map().contains_key(k) == (old(
                    self,
                ).progress_map().contains_key(k) && !progress_stale(
                    old(self).progress_map()[k].last_updated,
                    now,
                    max_age,
                )),
            forall|k: Seq<char>|
                final(self).progress_map().contains_key(k) ==> final(self).progress_map()[k] == old(
                    self,
                ).progress_map()[k],
            final(self).num_entries() + cleaned == old(self).num_entries(),
    {
        let ghost m0 = old(self).progress_map();
        let initial = self.entries.len();
        let mut idx: usize = 0;
        while idx < self.entries.len()
            invariant
                distinct_keys(self.entries@),
                m0 == old(self).progress_map(),
                idx <= self.entries@.len() <= old(self).entries@.len(),
                initial == old(self).entries@.len(),
                forall|j: int|
                    0 <= j < idx ==> !progress_stale(
                        (#[trigger] self.entries@[j]).1.last_updated,
                        now,
                        max_age,
                    ),
                forall|k: Seq<char>|
                    #[trigger] assoc_map(self.entries@).contains_key(k) ==> m0.contains_key(k)
                        && assoc_map(self.entries@)[k] == m0[k],
                forall|k: Seq<char>|
                    m0.contains_key(k) && !progress_stale(m0[k].last_updated, now, max_age)
                        ==> #[trigger] assoc_map(self.entries@).contains_key(k),
            decreases self.entries@.len() - idx,
        {
            let lu = self.entries[idx].1.last_updated;
            let age = if now >= lu {
                now - lu
            } else {
                0
            };
            if age >= max_age {
                let ghost prev = self.entries@;
                let ghost rk = self.entries@[idx as int].0@;
                proof {
                    lemma_assoc_get(prev, idx as int);
                    lemma_assoc_remove(prev, idx as int);
                    lemma_distinct_remove(prev, idx as int);
                }
                let _ = self.entries.remove(idx);
                proof {
                    assert(assoc_map(self.entries@) == assoc_map(prev).remove(rk));
                    assert forall|k: Seq<char>|
                        assoc_map(self.entries@).contains_key(k) implies m0.contains_key(k)
                        && assoc_map(self.entries@)[k] == m0[k] by {
                        assert(assoc_map(self.entries@).contains_key(k) == (assoc_map(
                            prev,
                        ).contains_key(k) && k != rk));
                        assert(assoc_map(prev).contains_key(k));
                        assert(assoc_map(self.entries@)[k] == assoc_map(prev)[k]);
                    }
                    assert forall|k: Seq<char>|
                        m0.contains_key(k) && !progress_stale(m0[k].last_updated, now, max_age)
                        implies assoc_map(self.entries@).contains_key(k) by {
                        assert(assoc_map(prev).contains_key(k));
                        assert(assoc_map(prev).contains_key(rk));
                        assert(assoc_map(prev)[rk] == prev[idx as int].1);
                        assert(m0[rk] == assoc_map(prev)[rk]);
                        assert(progress_stale(m0[rk].last_updated, now, max_age));
                        assert(k != rk);
                        assert(assoc_map(self.entries@).contains_key(k) == (assoc_map(
                            prev,
                        ).contains_key(k) && k != rk));
                    }
                }
            } else {
                idx = idx + 1;
            }
        }
        proof {
            assert forall|k: Seq<char>| assoc_map(self.entries@).contains_key(k) implies (
            m0.contains_key(k) && !progress_stale(m0[k].last_updated, now, max_age)) by {
                lemma_assoc_contains(self.entries@, k);
                let t = choose|t: int|
                    0 <= t < self.entries@.len() && #[trigger] self.entries@[t].0@ == k;
                lemma_assoc_get(self.entries@, t);
            }
        }
        initial - self.entries.len()
    }
}

} // verus!
