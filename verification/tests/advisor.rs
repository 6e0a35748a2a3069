use upload_core::resume::{check_file_exists, scan_part_indices};

fn names(list: &[&str]) -> Vec<String> {
    list.iter().map(|s| s.to_string()).collect()
}

#[test]
fn resume_detection_reports_present_indices_sorted() {
    let listing = names(&["f.bin.part4", "f.bin.part0", "f.bin.part2", "other.txt"]);
    let r = check_file_exists(None, 1000, &listing, "f.bin");
    assert!(!r.exists);
    assert!(!r.can_instant_upload);
    assert_eq!(r.size, None);
    assert_eq!(r.uploaded_chunks, vec![0, 2, 4]);
    assert!(r.can_resume);
}

#[test]
fn instant_upload_on_exact_size_match() {
    let listing = names(&["f.bin.part0"]);
    let r = check_file_exists(Some(1000), 1000, &listing, "f.bin");
    assert!(r.exists);
    assert!(r.can_instant_upload);
    assert_eq!(r.size, Some(1000));
    assert!(r.uploaded_chunks.is_empty());
    assert!(!r.can_resume);
}

#[test]
fn size_mismatch_falls_back_to_part_scan() {
    let listing = names(&["f.bin.part1"]);
    let r = check_file_exists(Some(999), 1000, &listing, "f.bin");
    assert!(!r.exists);
    assert!(!r.can_instant_upload);
    assert_eq!(r.size, None);
    assert_eq!(r.uploaded_chunks, vec![1]);
    assert!(r.can_resume);
}

#[test]
fn no_parts_means_no_resume() {
    let listing = names(&["unrelated.txt", "f.bin.notapart"]);
    let r = check_file_exists(None, 1000, &listing, "f.bin");
    assert!(r.uploaded_chunks.is_empty());
    assert!(!r.can_resume);
}

#[test]
fn scan_requires_the_filename_inside_the_part_name() {
    let listing = names(&["g.bin.part0", "f.bin.part1"]);
    let r = scan_part_indices(&listing, "f.bin");
    assert_eq!(r, vec![1]);
}

#[test]
fn scan_keeps_duplicate_indices_from_different_paths() {
    let listing = names(&["a_f.bin.part1", "b_f.bin.part1", "f.bin.part0"]);
    let r = scan_part_indices(&listing, "f.bin");
    assert_eq!(r, vec![0, 1, 1]);
}
