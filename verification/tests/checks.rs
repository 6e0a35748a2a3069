use upload_core::filetype::{get_file_type, is_valid_file_extension};
use upload_core::validation::{
    is_valid_chunk_params, is_valid_file_size, is_valid_filename, is_valid_module_name,
    is_valid_module_path, is_valid_path,
};

#[test]
fn module_names_reject_traversal_and_separators() {
    assert!(is_valid_module_name("docs"));
    assert!(is_valid_module_name("a.b"));
    assert!(!is_valid_module_name("a..b"));
    assert!(!is_valid_module_name("a/b"));
    assert!(!is_valid_module_name("a\\b"));
}

#[test]
fn module_paths_accept_submodules_but_not_escapes() {
    assert!(is_valid_module_path("a/b"));
    assert!(is_valid_module_path("a"));
    assert!(!is_valid_module_path(""));
    assert!(!is_valid_module_path("/a"));
    assert!(!is_valid_module_path("a//b"));
    assert!(!is_valid_module_path("a/./b"));
    assert!(!is_valid_module_path("a/../b"));
    assert!(!is_valid_module_path("a/ /b"));
    assert!(!is_valid_module_path("a\\b"));
    assert!(!is_valid_module_path("a/"));
}

#[test]
fn filenames_reject_traversal() {
    assert!(is_valid_filename("x.txt"));
    assert!(is_valid_filename("a/b.txt"));
    assert!(!is_valid_filename("../x"));
    assert!(!is_valid_filename("a//b"));
    assert!(is_valid_path("sub/dir"));
    assert!(!is_valid_path("sub/../dir"));
}

#[test]
fn size_check_is_a_plain_bound() {
    assert!(is_valid_file_size(100, 100));
    assert!(is_valid_file_size(0, 100));
    assert!(!is_valid_file_size(101, 100));
}

#[test]
fn chunk_params_require_index_below_total() {
    assert!(is_valid_chunk_params(0, 1));
    assert!(is_valid_chunk_params(2, 3));
    assert!(!is_valid_chunk_params(1, 1));
    assert!(!is_valid_chunk_params(5, 3));
}

#[test]
fn extensions_are_checked_case_insensitively() {
    assert!(is_valid_file_extension("jpg"));
    assert!(is_valid_file_extension("JPG"));
    assert!(is_valid_file_extension("Pdf"));
    assert!(is_valid_file_extension("FLAC"));
    assert!(!is_valid_file_extension("exe"));
    assert!(!is_valid_file_extension(""));
}

#[test]
fn file_types_cover_every_category() {
    assert_eq!(get_file_type("png"), "image");
    assert_eq!(get_file_type("ZIP"), "archive");
    assert_eq!(get_file_type("docx"), "document");
    assert_eq!(get_file_type("mkv"), "video");
    assert_eq!(get_file_type("ogg"), "audio");
    assert_eq!(get_file_type("exe"), "other");
    assert_eq!(get_file_type(""), "other");
}
