use upload_core::janitor::{cleanup_temp_files, is_temp_artifact, janitor_pass, TempFileMeta};
use upload_core::locks::LockRegistry;
use upload_core::progress::ProgressTracker;
use upload_core::models::UploadProgress;

fn meta(name: &str, age_secs: u64, size: u64) -> TempFileMeta {
    TempFileMeta { name: name.to_string(), age_secs, size }
}

const TWO_DAYS: u64 = 2 * 24 * 3600;
const ONE_HOUR: u64 = 3600;

#[test]
fn temp_naming_convention() {
    assert!(is_temp_artifact("f.bin.part0"));
    assert!(is_temp_artifact("a_b_f.bin.part12"));
    assert!(is_temp_artifact("f.bin.tmp.1234"));
    assert!(!is_temp_artifact("f.bin"));
    assert!(!is_temp_artifact("report.pdf"));
    assert!(!is_temp_artifact("partial.txt"));
}

#[test]
fn janitor_never_selects_foreign_files() {
    let files = vec![
        meta("keep.txt", TWO_DAYS, 10),
        meta("x.part0", TWO_DAYS, 5),
        meta("y.tmp.abc", TWO_DAYS, 7),
        meta("z.part1", ONE_HOUR, 3),
    ];
    let selection = cleanup_temp_files(&files);
    // Only old files matching the convention: never the foreign file, however
    // old, and never the young part file.
    assert_eq!(selection, vec![1, 2]);
}

#[test]
fn janitor_age_threshold_is_strict() {
    let files = vec![meta("x.part0", 24 * 3600, 5), meta("y.part1", 24 * 3600 + 1, 5)];
    let selection = cleanup_temp_files(&files);
    assert_eq!(selection, vec![1]);
}

#[test]
fn janitor_pass_reclaims_all_three_areas() {
    let mut reg = LockRegistry::new(10);
    reg.get_file_lock("idle", 100);
    reg.get_file_lock("busy", 9_900);

    let mut tracker = ProgressTracker::new();
    tracker.update_progress(
        "stale",
        UploadProgress {
            filename: "f".to_string(),
            module: "m".to_string(),
            uploaded_chunks: 0,
            total_chunks: 1,
            total_size: 1,
            uploaded_size: 0,
            speed: 0,
            estimated_time: 0,
        },
        100,
    );

    let files = vec![meta("old.part0", TWO_DAYS, 5), meta("fresh.part1", ONE_HOUR, 5)];
    let report = janitor_pass(&mut reg, &mut tracker, 10_000, 7_200, 6 * 3600, &files);
    assert_eq!(report.locks_cleaned, 1);
    assert_eq!(report.progress_cleaned, 0);
    assert_eq!(report.files_to_delete, vec![0]);
    assert!(reg.lock_entry("idle").is_none());
    assert!(reg.lock_entry("busy").is_some());

    let report2 = janitor_pass(&mut reg, &mut tracker, 100_000, 7_200, 6 * 3600, &files);
    assert_eq!(report2.progress_cleaned, 1);
    assert!(tracker.get_progress("stale").is_none());
}
