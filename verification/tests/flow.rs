use upload_core::config::ServerConfig;
use upload_core::external::{file_info_now, fresh_merge_temp_name};
use upload_core::upload::{
    chunk_exists_response, chunk_written_response, file_upload_outcome, make_file_info,
    plan_chunk_upload, progress_after_chunk, ChunkRejection,
};

#[test]
fn chunk_plan_lays_out_the_part_file() {
    let plan = plan_chunk_upload("m", "f.bin", &None, 2, Some(100), 1000)
        .expect("valid chunk must be planned");
    assert_eq!(plan.temp_dir, "./temp/m");
    assert_eq!(plan.part_name, "f.bin.part2");
    assert_eq!(plan.part_path, "./temp/m/f.bin.part2");
}

#[test]
fn chunk_plan_flattens_relative_paths() {
    let plan = plan_chunk_upload("m", "f.bin", &Some("a/b".to_string()), 0, None, 1000)
        .expect("valid chunk must be planned");
    assert_eq!(plan.part_path, "./temp/m/a_b_f.bin.part0");
}

#[test]
fn chunk_plan_rejects_traversal_before_anything_else() {
    let err = plan_chunk_upload("m", "../evil", &None, 0, Some(10_000), 1000)
        .expect_err("traversal must be rejected");
    assert_eq!(err, ChunkRejection::InvalidFilename);
}

#[test]
fn chunk_plan_rejects_traversal_in_the_relative_path() {
    let err = plan_chunk_upload("m", "f.bin", &Some("a/../b".to_string()), 0, None, 1000)
        .expect_err("relative-path traversal must be rejected");
    assert_eq!(err, ChunkRejection::InvalidRelativePath);
}

#[test]
fn chunk_plan_rejects_oversized_declarations() {
    let err = plan_chunk_upload("m", "f.bin", &None, 0, Some(1001), 1000)
        .expect_err("oversized declaration must be rejected");
    assert_eq!(err, ChunkRejection::FileTooLarge);
    assert!(plan_chunk_upload("m", "f.bin", &None, 0, Some(1000), 1000).is_ok());
}

#[test]
fn chunk_responses_point_at_the_next_index() {
    let r = chunk_written_response("f.bin", 0, 3);
    assert!(r.success);
    assert_eq!(r.next_chunk, Some(1));
    let last = chunk_written_response("f.bin", 2, 3);
    assert_eq!(last.next_chunk, None);
    // A re-sent chunk is a no-op success that always advances the client.
    let existing = chunk_exists_response("f.bin", 2, 3);
    assert!(existing.success);
    assert_eq!(existing.next_chunk, Some(3));
    assert_eq!(existing.message, "chunk already exists");
}

#[test]
fn file_info_carries_url_and_category() {
    let info = make_file_info("m", "photo.JPG", &None, 123, "2024-01-01 00:00:00".to_string(), None);
    assert_eq!(info.url, "/uploads/m/photo.JPG");
    assert_eq!(info.file_type, "image");
    assert_eq!(info.size, 123);
    assert_eq!(info.upload_time, "2024-01-01 00:00:00");
    let nested = make_file_info(
        "m",
        "f.bin",
        &Some("a/b".to_string()),
        1,
        "t".to_string(),
        Some("hash".to_string()),
    );
    assert_eq!(nested.url, "/uploads/m/a/b/f.bin");
    assert_eq!(nested.relative_path, Some("a/b".to_string()));
    assert_eq!(nested.file_hash, Some("hash".to_string()));
}

#[test]
fn empty_uploads_are_skipped() {
    assert!(file_upload_outcome("m", "f.bin", &None, 0, "t".to_string(), None).is_none());
    let info = file_upload_outcome("m", "f.bin", &None, 5, "t".to_string(), None)
        .expect("non-empty upload must produce metadata");
    assert_eq!(info.size, 5);
}

#[test]
fn progress_accumulates_across_chunks() {
    let first = progress_after_chunk(None, "m", "f.bin", 4, 400, 100, 0);
    assert_eq!(first.uploaded_chunks, 1);
    assert_eq!(first.uploaded_size, 100);
    assert_eq!(first.speed, 100);
    assert_eq!(first.estimated_time, 3);

    let second = progress_after_chunk(Some(&first), "m", "f.bin", 4, 400, 100, 2);
    assert_eq!(second.uploaded_chunks, 2);
    assert_eq!(second.uploaded_size, 200);
    assert_eq!(second.speed, 100);
    assert_eq!(second.estimated_time, 2);

    let crawling = progress_after_chunk(Some(&second), "m", "f.bin", 4, 400, 100, 1000);
    assert_eq!(crawling.uploaded_size, 300);
    assert_eq!(crawling.speed, 0);
    assert_eq!(crawling.estimated_time, 0);
}

#[test]
fn progress_saturates_instead_of_wrapping() {
    let mut prev = progress_after_chunk(None, "m", "f.bin", 2, 400, 100, 1);
    prev.uploaded_size = u64::MAX - 50;
    let next = progress_after_chunk(Some(&prev), "m", "f.bin", 2, 400, 100, 1);
    assert_eq!(next.uploaded_size, u64::MAX);
    assert_eq!(next.estimated_time, 0);
}

#[test]
fn merge_scratch_names_never_collide_with_the_destination() {
    let dest = "./uploads/m/f.bin";
    let scratch = fresh_merge_temp_name(dest);
    assert_eq!(scratch.len(), dest.len() + 41);
    assert!(scratch.starts_with(dest));
    assert!(scratch[dest.len()..].starts_with(".tmp."));
    assert_ne!(scratch, dest);
}

#[test]
fn timestamped_file_info_pins_everything_else() {
    let info = file_info_now("m", "f.pdf", &None, 9, None);
    assert_eq!(info.url, "/uploads/m/f.pdf");
    assert_eq!(info.file_type, "document");
    assert_eq!(info.size, 9);
    assert_eq!(info.module, "m");
}

#[test]
fn default_config_matches_documented_values() {
    let c = ServerConfig::default();
    assert_eq!(c.chunk_size, 5 * 1024 * 1024);
    assert_eq!(c.max_concurrent_chunks, 3);
    assert_eq!(c.max_file_size, 10 * 1024 * 1024 * 1024);
    assert_eq!(c.global_max_concurrent, 64);
    assert_eq!(c.merge_max_concurrent, 4);
    assert_eq!(c.max_memory_locks, 10000);
    assert_eq!(c.temp_file_cleanup_interval_secs, 3600);
    assert_eq!(c.lock_cleanup_interval_secs, 1800);
    assert_eq!(c.address, "127.0.0.1");
    assert_eq!(c.port, "2233");
}

#[test]
fn config_summary_renders_the_tuning() {
    let c = ServerConfig::default();
    let expected = "chunk size: 5 MB\nmax file size: 10 GB\nmax concurrent chunks: 3\nglobal max concurrent: 64\nmerge max concurrent: 4\nuploads dir: ./uploads/\ntemp dir: ./temp/\n";
    assert_eq!(c.log_config(), expected);
}
