use upload_core::locks::LockRegistry;
use upload_core::progress::ProgressTracker;
use upload_core::models::UploadProgress;

fn progress_for(module: &str, filename: &str) -> UploadProgress {
    UploadProgress {
        filename: filename.to_string(),
        module: module.to_string(),
        uploaded_chunks: 1,
        total_chunks: 4,
        total_size: 400,
        uploaded_size: 100,
        speed: 50,
        estimated_time: 6,
    }
}

#[test]
fn lock_registry_tracks_usage() {
    let mut reg = LockRegistry::new(10);
    assert_eq!(reg.get_file_lock_count(), 0);
    let evicted = reg.get_file_lock("m_f", 100);
    assert!(evicted.is_empty());
    assert_eq!(reg.get_file_lock_count(), 1);
    let entry = reg.lock_entry("m_f").expect("entry must be resident");
    assert_eq!(entry.last_used, 100);
    assert_eq!(entry.access_count, 1);

    let evicted2 = reg.get_file_lock("m_f", 250);
    assert!(evicted2.is_empty());
    assert_eq!(reg.get_file_lock_count(), 1);
    let entry2 = reg.lock_entry("m_f").expect("entry must be resident");
    assert_eq!(entry2.last_used, 250);
    assert_eq!(entry2.access_count, 2);
}

#[test]
fn lock_registry_never_exceeds_capacity() {
    let mut reg = LockRegistry::new(5);
    let keys = ["k1", "k2", "k3", "k4", "k5", "k6", "k7", "k8", "k9", "k10"];
    for (i, key) in keys.iter().enumerate() {
        reg.get_file_lock(key, 100 + i as u64);
        assert!(reg.get_file_lock_count() <= 5);
    }
}

#[test]
fn lock_eviction_drops_least_recently_used_first() {
    let mut reg = LockRegistry::new(5);
    reg.get_file_lock("k1", 10);
    reg.get_file_lock("k2", 20);
    reg.get_file_lock("k3", 30);
    reg.get_file_lock("k4", 40);
    reg.get_file_lock("k5", 50);
    // Registry is full: the next fetch evicts down to 80% of capacity,
    // dropping the oldest entry.
    let evicted = reg.get_file_lock("k6", 60);
    assert_eq!(evicted, vec!["k1".to_string()]);
    assert_eq!(reg.get_file_lock_count(), 5);
    assert!(reg.lock_entry("k1").is_none());
    assert!(reg.lock_entry("k2").is_some());
    assert!(reg.lock_entry("k6").is_some());
}

#[test]
fn idle_locks_are_cleaned_by_age() {
    let mut reg = LockRegistry::new(10);
    reg.get_file_lock("old", 100);
    reg.get_file_lock("fresh", 950);
    let cleaned = reg.cleanup_file_locks(1000, 500);
    assert_eq!(cleaned, 1);
    assert!(reg.lock_entry("old").is_none());
    assert!(reg.lock_entry("fresh").is_some());
    assert_eq!(reg.get_file_lock_count(), 1);
}

#[test]
fn progress_tracker_updates_and_removes() {
    let mut tracker = ProgressTracker::new();
    assert_eq!(tracker.get_progress_count(), 0);
    tracker.update_progress("m_f", progress_for("m", "f"), 100);
    assert_eq!(tracker.get_progress_count(), 1);
    let p = tracker.get_progress("m_f").expect("tracked");
    assert_eq!(p.uploaded_chunks, 1);
    assert_eq!(p.total_size, 400);

    let mut newer = progress_for("m", "f");
    newer.uploaded_chunks = 2;
    tracker.update_progress("m_f", newer, 200);
    assert_eq!(tracker.get_progress_count(), 1);
    let p2 = tracker.get_progress("m_f").expect("tracked");
    assert_eq!(p2.uploaded_chunks, 2);

    tracker.remove_progress("m_f");
    assert!(tracker.get_progress("m_f").is_none());
    assert_eq!(tracker.get_progress_count(), 0);
}

#[test]
fn progress_is_looked_up_by_module_and_filename() {
    let mut tracker = ProgressTracker::new();
    tracker.update_progress("m_f.bin", progress_for("m", "f.bin"), 100);
    let p = tracker.get_upload_progress("m", "f.bin").expect("tracked under its key");
    assert_eq!(p.module, "m");
    assert_eq!(p.filename, "f.bin");
    assert!(tracker.get_upload_progress("m", "other.bin").is_none());
}

#[test]
fn stale_progress_is_cleaned() {
    let mut tracker = ProgressTracker::new();
    tracker.update_progress("a", progress_for("m", "a"), 100);
    tracker.update_progress("b", progress_for("m", "b"), 900);
    let cleaned = tracker.cleanup_expired(1000, 500);
    assert_eq!(cleaned, 1);
    assert!(tracker.get_progress("a").is_none());
    assert!(tracker.get_progress("b").is_some());
}
