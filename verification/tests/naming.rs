use upload_core::names::{
    basename_of, build_file_path, extension_of, generate_unique_filename, stem_of,
};
use upload_core::paths::{
    final_file_path, flatten_path, lock_key, merge_temp_name, module_dir_for, part_file_name,
    part_index_of, temp_dir_for,
};
use upload_core::text::{str_eq, u64_to_dec};

#[test]
fn part_names_are_deterministic() {
    assert_eq!(part_file_name("f.bin", &None, 0), "f.bin.part0");
    assert_eq!(part_file_name("f.bin", &None, 17), "f.bin.part17");
    assert_eq!(part_file_name("f.bin", &Some("a/b".to_string()), 3), "a_b_f.bin.part3");
    assert_eq!(part_file_name("f.bin", &Some("a\\b".to_string()), 3), "a_b_f.bin.part3");
}

#[test]
fn flattening_replaces_both_separators() {
    assert_eq!(flatten_path("a/b\\c/d"), "a_b_c_d");
    assert_eq!(flatten_path("plain"), "plain");
    assert_eq!(flatten_path(""), "");
}

#[test]
fn part_index_read_back_from_name() {
    assert_eq!(part_index_of("f.bin.part0"), Some(0));
    assert_eq!(part_index_of("f.bin.part12"), Some(12));
    assert_eq!(part_index_of("a_b_f.bin.part3"), Some(3));
    assert_eq!(part_index_of("x.part007"), Some(7));
}

#[test]
fn part_index_rejects_non_part_names() {
    assert_eq!(part_index_of("f.bin"), None);
    assert_eq!(part_index_of("f.bin.part"), None);
    assert_eq!(part_index_of("f.bin.part7x"), None);
    assert_eq!(part_index_of("readme.txt"), None);
    assert_eq!(part_index_of(""), None);
}

#[test]
fn part_index_rejects_oversized_numbers() {
    // Forty digits cannot fit a machine word.
    assert_eq!(part_index_of("f.part9999999999999999999999999999999999999999"), None);
}

#[test]
fn directories_and_keys() {
    assert_eq!(temp_dir_for("mod1"), "./temp/mod1");
    assert_eq!(module_dir_for("mod1"), "./uploads/mod1");
    assert_eq!(lock_key("mod1", "f.bin"), "mod1_f.bin");
    assert_eq!(final_file_path("mod1", "f.bin", &None), "./uploads/mod1/f.bin");
    assert_eq!(
        final_file_path("mod1", "f.bin", &Some("sub/dir".to_string())),
        "./uploads/mod1/sub/dir/f.bin"
    );
}

#[test]
fn merge_temp_name_appends_marker_and_token() {
    assert_eq!(merge_temp_name("./uploads/m/f.bin", "tok"), "./uploads/m/f.bin.tmp.tok");
}

#[test]
fn decimal_rendering() {
    assert_eq!(u64_to_dec(0), "0");
    assert_eq!(u64_to_dec(7), "7");
    assert_eq!(u64_to_dec(10), "10");
    assert_eq!(u64_to_dec(40960), "40960");
    assert_eq!(u64_to_dec(u64::MAX), "18446744073709551615");
}

#[test]
fn string_equality_by_characters() {
    assert!(str_eq("abc", "abc"));
    assert!(!str_eq("abc", "abd"));
    assert!(!str_eq("abc", "ab"));
    assert!(str_eq("", ""));
}

#[test]
fn extension_extraction() {
    assert_eq!(extension_of("a.txt"), "txt");
    assert_eq!(extension_of("archive.tar.gz"), "gz");
    assert_eq!(extension_of(".bashrc"), "");
    assert_eq!(extension_of("noext"), "");
    assert_eq!(extension_of("dir/f.md"), "md");
    assert_eq!(extension_of("a."), "");
}

#[test]
fn stem_extraction() {
    assert_eq!(stem_of("a.txt"), "a");
    assert_eq!(stem_of("archive.tar.gz"), "archive.tar");
    assert_eq!(stem_of(".bashrc"), ".bashrc");
    assert_eq!(stem_of("dir/f.md"), "f");
    assert_eq!(stem_of("noext"), "noext");
}

#[test]
fn basename_extraction() {
    assert_eq!(basename_of("a/b/c.txt"), Some("c.txt".to_string()));
    assert_eq!(basename_of("plain"), Some("plain".to_string()));
    assert_eq!(basename_of("a/"), None);
    assert_eq!(basename_of(".."), None);
    assert_eq!(basename_of("."), None);
    assert_eq!(basename_of(""), None);
}

#[test]
fn unique_filename_keeps_free_path() {
    let taken: Vec<String> = vec!["./uploads/m/other.txt".to_string()];
    let r = generate_unique_filename("f.txt", "./uploads/m/f.txt", &taken);
    assert_eq!(r, "./uploads/m/f.txt");
}

#[test]
fn unique_filename_counts_past_collisions() {
    let taken: Vec<String> = vec![
        "./uploads/m/f.txt".to_string(),
        "./uploads/m/f_1.txt".to_string(),
    ];
    let r = generate_unique_filename("f.txt", "./uploads/m/f.txt", &taken);
    assert_eq!(r, "./uploads/m/f_2.txt");
}

#[test]
fn unique_filename_without_extension() {
    let taken: Vec<String> = vec!["./uploads/m/data".to_string()];
    let r = generate_unique_filename("data", "./uploads/m/data", &taken);
    assert_eq!(r, "./uploads/m/data_1");
}

#[test]
fn build_file_path_lands_in_the_module_directory() {
    let empty: Vec<String> = Vec::new();
    assert_eq!(build_file_path("m", "f.txt", &None, &empty), "./uploads/m/f.txt");
    assert_eq!(
        build_file_path("m", "f.txt", &Some("sub".to_string()), &empty),
        "./uploads/m/sub/f.txt"
    );
    let taken = vec!["./uploads/m/f.txt".to_string()];
    assert_eq!(build_file_path("m", "f.txt", &None, &taken), "./uploads/m/f_1.txt");
}

#[test]
fn unique_filename_lowers_extension_and_falls_back_on_stem() {
    let taken: Vec<String> = vec!["./uploads/m/f.TXT".to_string()];
    let r = generate_unique_filename("f.TXT", "./uploads/m/f.TXT", &taken);
    assert_eq!(r, "./uploads/m/f_1.txt");

    let taken2: Vec<String> = vec!["x".to_string()];
    let r2 = generate_unique_filename("", "x", &taken2);
    assert_eq!(r2, "file_1");
}
