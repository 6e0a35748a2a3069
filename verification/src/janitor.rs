//! The janitor's reclamation rules: which temp-area files may be deleted,
//! and the combined periodic pass over locks, progress entries and temp
//! files. A file whose name does not carry the part or merge-scratch marker
//! is never touched, whatever its age.

use vstd::prelude::*;
use crate::locks::{lock_expired, LockRegistry};
use crate::paths::{part_marker, tmp_marker};
use crate::progress::{progress_stale, ProgressTracker};
use crate::text::{contains_chars, contains_sub, str_to_chars};

verus! {

/// How old a matching temp file must be, in seconds, before it is deleted.
pub const TEMP_FILE_MAX_AGE_SECS: u64 = 86400;

/// What the janitor needs to know about one file in the temp area.
pub struct TempFileMeta {
    pub name: String,
    pub age_secs: u64,
    pub size: u64,
}

/// The name carries the part marker or the merge-scratch marker: only such
/// files belong to this service's temp machinery.
pub open spec fn temp_artifact_name(name: Seq<char>) -> bool {
    contains_sub(name, part_marker()) || contains_sub(name, tmp_marker())
}

/// A file is reclaimed exactly when its name matches the temp naming
/// convention and it has outlived the age threshold.
pub open spec fn should_clean(name: Seq<char>, age_secs: u64) -> bool {
    temp_artifact_name(name) && age_secs > TEMP_FILE_MAX_AGE_SECS
}

/// Whether this name matches the temp naming convention.
pub fn is_temp_artifact(name: &str) -> (r: bool)
    ensures
        r == temp_artifact_name(name@),
{
    let cs = str_to_chars(name);
    let part: Vec<char> = vec!['.', 'p', 'a', 'r', 't'];
    let tmp: Vec<char> = vec!['.', 't', 'm', 'p', '.'];
    proof {
        assert(part@ =~= part_marker());
        assert(tmp@ =~= tmp_marker());
    }
    contains_chars(&cs, &part) || contains_chars(&cs, &tmp)
}

/// Picks out the files a cleanup pass may delete: exactly those matching the
/// temp naming convention and older than the threshold, by ascending index.
pub fn cleanup_temp_files(files: &Vec<TempFileMeta>) -> (r: Vec<usize>)
    ensures
        forall|t: int|
            0 <= t < r@.len() ==> (#[trigger] r@[t]) < files@.len() && should_clean(
                files@[r@[t] as int].name@,
                files@[r@[t] as int].age_secs,
            ),
        forall|a: int, b: int| 0 <= a < b < r@.len() ==> r@[a] < r@[b],
        forall|i: int|
            0 <= i < files@.len() && should_clean(
                (#[trigger] files@[i]).name@,
                files@[i].age_secs,
            ) ==> exists|t: int| 0 <= t < r@.len() && r@[t] == i,
{
    let mut r: Vec<usize> = Vec::new();
    let mut i: usize = 0;
    while i < files.len()
        invariant
            i <= files@.len(),
            forall|t: int|
                0 <= t < r@.len() ==> (#[trigger] r@[t]) < i && should_clean(
                    files@[r@[t] as int].name@,
                    files@[r@[t] as int].age_secs,
                ),
            forall|a: int, b: int| 0 <= a < b < r@.len() ==> r@[a] < r@[b],
            forall|k: int|
                0 <= k < i && should_clean((#[trigger] files@[k]).name@, files@[k].age_secs)
                    ==> exists|t: int| 0 <= t < r@.len() && r@[t] == k,
        decreases files@.len() - i,
    {
        let f = &files[i];
        if f.age_secs > TEMP_FILE_MAX_AGE_SECS && is_temp_artifact(f.name.as_str()) {
            let ghost r_before = r@;
            r.push(i);
            proof {
                assert(r@[r@.len() - 1] == i as usize);
                assert forall|k: int|
                    0 <= k < i + 1 && should_clean(
                        (#[trigger] files@[k]).name@,
                        files@[k].age_secs,
                    ) implies exists|t: int| 0 <= t < r@.len() && r@[t] == k by {
                    if k < i {
                        let t = choose|t: int| 0 <= t < r_before.len() && r_before[t] == k;
                        assert(r@[t] == k);
                    } else {
                        assert(r@[r@.len() - 1] == k);
                    }
                }
            }
        }
        i = i + 1;
    }
    r
}

/// What one janitor pass found and decided.
pub struct JanitorReport {
    /// How many idle lock records were evicted.
    pub locks_cleaned: usize,
    /// How many stale progress entries were dropped.
    pub progress_cleaned: usize,
    /// Which of the given temp files may be deleted, by ascending index.
    pub files_to_delete: Vec<usize>,
}

/// One reclamation pass: evicts idle lock records, drops stale progress
/// entries, and selects the temp files old enough (and so named) to delete.
pub fn janitor_pass(
    registry: &mut LockRegistry,
    tracker: &mut ProgressTracker,
    now: u64,
    lock_max_age: u64,
    progress_max_age: u64,
    files: &Vec<TempFileMeta>,
) -> (r: JanitorReport)
    requires
        old(registry).wf(),
        old(tracker).wf(),
    ensures
        final(registry).wf(),
        final(tracker).wf(),
        final(registry).capacity() == old(registry).capacity(),
        forall|k: Seq<char>|
            final(registry).lock_map().contains_key(k) == (old(registry).lock_map().contains_key(k)
                && !lock_expired(old(registry).lock_map()[k].last_used, now, lock_max_age)),
        forall|k: Seq<char>|
            final(registry).lock_map().contains_key(k) ==> final(registry).lock_map()[k] == old(
                registry,
            ).lock_map()[k],
        final(registry).num_locks() + r.locks_cleaned == old(registry).num_locks(),
        forall|k: Seq<char>|
            final(tracker).progress_map().contains_key(k) == (old(
                tracker,
            ).progress_map().contains_key(k) && !progress_stale(
                old(tracker).progress_map()[k].last_updated,
                now,
                progress_max_age,
            )),
        forall|k: Seq<char>|
            final(tracker).progress_map().contains_key(k) ==> final(tracker).progress_map()[k]
                == old(tracker).progress_map()[k],
        final(tracker).num_entries() + r.progress_cleaned == old(tracker).num_entries(),
        forall|t: int|
            0 <= t < r.files_to_delete@.len() ==> (#[trigger] r.files_to_delete@[t])
                < files@.len() && should_clean(
                files@[r.files_to_delete@[t] as int].name@,
                files@[r.files_to_delete@[t] as int].age_secs,
            ),
        forall|i: int|
            0 <= i < files@.len() && should_clean(
                (#[trigger] files@[i]).name@,
                files@[i].age_secs,
            ) ==> exists|t: int| 0 <= t < r.files_to_delete@.len() && r.files_to_delete@[t] == i,
{
    let locks_cleaned = registry.cleanup_file_locks(now, lock_max_age);
    let progress_cleaned = tracker.cleanup_expired(now, progress_max_age);
    let files_to_delete = cleanup_temp_files(files);
    JanitorReport { locks_cleaned, progress_cleaned, files_to_delete }
}

} // verus!
