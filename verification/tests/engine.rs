use upload_core::paths::part_file_name;
use upload_core::store::{ChunkStore, MergeError};

#[test]
fn chunk_write_is_idempotent() {
    let mut store = ChunkStore::new();
    let name = part_file_name("f.bin", &None, 0);
    let fresh = store.write_part(name.as_str(), b"first".to_vec());
    assert!(fresh);
    let fresh_again = store.write_part(name.as_str(), b"second".to_vec());
    assert!(!fresh_again);
    let kept = store.part_contents(name.as_str()).expect("part must be present");
    assert_eq!(kept.as_slice(), b"first");
}

#[test]
fn merge_concatenates_in_index_order() {
    let mut store = ChunkStore::new();
    // Upload order scrambled on purpose: 2, 0, 1.
    let n2 = part_file_name("f.bin", &None, 2);
    let n0 = part_file_name("f.bin", &None, 0);
    let n1 = part_file_name("f.bin", &None, 1);
    assert!(store.write_part(n2.as_str(), b"CC".to_vec()));
    assert!(store.write_part(n0.as_str(), b"AA".to_vec()));
    assert!(store.write_part(n1.as_str(), b"BB".to_vec()));
    let size = store
        .merge_chunk_files("m", "f.bin", &None, 3)
        .expect("all parts present, merge must succeed");
    assert_eq!(size, 6);
    let merged = store
        .artifact_contents("./uploads/m/f.bin")
        .expect("artifact must exist after merge");
    assert_eq!(merged.as_slice(), b"AABBCC");
}

#[test]
fn upload_order_does_not_change_the_merge() {
    let orders: [[usize; 3]; 2] = [[0, 1, 2], [2, 1, 0]];
    let bodies: [&[u8]; 3] = [b"AA", b"BB", b"CC"];
    let mut results = Vec::new();
    for order in orders {
        let mut store = ChunkStore::new();
        for i in order {
            let name = part_file_name("f.bin", &None, i);
            assert!(store.write_part(name.as_str(), bodies[i].to_vec()));
        }
        store.merge_chunk_files("m", "f.bin", &None, 3).expect("merge");
        results.push(store.artifact_contents("./uploads/m/f.bin").expect("artifact").clone());
    }
    assert_eq!(results[0], results[1]);
    assert_eq!(results[0].as_slice(), b"AABBCC");
}

#[test]
fn merge_consumes_part_files() {
    let mut store = ChunkStore::new();
    let n0 = part_file_name("f.bin", &None, 0);
    assert!(store.write_part(n0.as_str(), b"AA".to_vec()));
    store
        .merge_chunk_files("m", "f.bin", &None, 1)
        .expect("single part merge must succeed");
    assert!(!store.has_part(n0.as_str()));
}

#[test]
fn missing_chunk_aborts_and_leaves_destination_untouched() {
    let mut store = ChunkStore::new();
    let n0 = part_file_name("f.bin", &None, 0);
    let n2 = part_file_name("f.bin", &None, 2);
    assert!(store.write_part(n0.as_str(), b"AA".to_vec()));
    assert!(store.write_part(n2.as_str(), b"CC".to_vec()));
    let err = store
        .merge_chunk_files("m", "f.bin", &None, 3)
        .expect_err("chunk 1 is absent, merge must fail");
    assert_eq!(err, MergeError::MissingChunk(1));
    assert_eq!(err.message(), "missing chunk 1");
    assert!(store.artifact_contents("./uploads/m/f.bin").is_none());
    // The part before the missing index was consumed; the later one stays.
    assert!(!store.has_part(n0.as_str()));
    assert!(store.has_part(n2.as_str()));
}

#[test]
fn merge_with_relative_path_names_parts_in_flat_namespace() {
    let mut store = ChunkStore::new();
    let rel = Some("a/b".to_string());
    let n0 = part_file_name("f.bin", &rel, 0);
    assert_eq!(n0, "a_b_f.bin.part0");
    assert!(store.write_part(n0.as_str(), b"XY".to_vec()));
    let size = store
        .merge_chunk_files("m", "f.bin", &rel, 1)
        .expect("merge must succeed");
    assert_eq!(size, 2);
    let merged = store
        .artifact_contents("./uploads/m/a/b/f.bin")
        .expect("artifact must exist under the relative path");
    assert_eq!(merged.as_slice(), b"XY");
}

#[test]
fn merge_overwrites_earlier_artifact() {
    let mut store = ChunkStore::new();
    let n0 = part_file_name("f.bin", &None, 0);
    assert!(store.write_part(n0.as_str(), b"one".to_vec()));
    store.merge_chunk_files("m", "f.bin", &None, 1).expect("first merge");
    assert!(store.write_part(n0.as_str(), b"two".to_vec()));
    store.merge_chunk_files("m", "f.bin", &None, 1).expect("second merge");
    let merged = store.artifact_contents("./uploads/m/f.bin").expect("artifact");
    assert_eq!(merged.as_slice(), b"two");
}

#[test]
fn missing_chunk_message_renders_larger_indices() {
    let err = MergeError::MissingChunk(12);
    assert_eq!(err.message(), "missing chunk 12");
}

#[test]
fn merge_of_zero_chunks_installs_empty_artifact() {
    let mut store = ChunkStore::new();
    let size = store
        .merge_chunk_files("m", "f.bin", &None, 0)
        .expect("nothing to merge, trivially succeeds");
    assert_eq!(size, 0);
    let merged = store.artifact_contents("./uploads/m/f.bin").expect("artifact");
    assert!(merged.is_empty());
}
