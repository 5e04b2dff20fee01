use openlist_uploader::paths::{
    build_target_dir, check_name_bytes_limit, file_name_from_path, folder_target_root, is_root_alist_path,
    is_upload_root, join_alist_path, normalize_alist_path,
};

#[test]
fn test_build_target_dir_with_parent() {
    let result = build_target_dir("/115Crypt", "12\\102号\\IMG\\_8689.MOV");
    assert_eq!(result, "/115Crypt/12/102号/IMG");
}

#[test]
fn test_build_target_dir_root() {
    let result = build_target_dir("/", "folder\\sub\\file.txt");
    assert_eq!(result, "/folder/sub");
}

#[test]
fn test_build_target_dir_no_parent() {
    let result = build_target_dir("/115Crypt", "file.txt");
    assert_eq!(result, "/115Crypt");
}

#[test]
fn test_build_target_dir_normalize_root() {
    let result = build_target_dir("/115Crypt/", "sub\\file.txt");
    assert_eq!(result, "/115Crypt/sub");
}

#[test]
fn test_folder_target_keeps_folder_name() {
    let folder_target = folder_target_root("/115Crypt", "课本");
    assert_eq!(folder_target, "/115Crypt/课本");
}

#[test]
fn test_folder_target_root() {
    let folder_target = folder_target_root("/", "课本");
    assert_eq!(folder_target, "/课本");
}

#[test]
fn test_folder_target_empty_folder_name() {
    let folder_target = folder_target_root("/115Crypt", "");
    assert_eq!(folder_target, "/115Crypt");
}

#[test]
fn test_folder_target_normalizes_root() {
    let folder_target = folder_target_root("/115Crypt/", "课本");
    assert_eq!(folder_target, "/115Crypt/课本");
}

#[test]
fn test_build_target_dir_with_folder_root() {
    let folder_target = "/115Crypt/课本";
    let result = build_target_dir(&folder_target, "12\\102号\\IMG\\_8689.MOV");
    assert_eq!(result, "/115Crypt/课本/12/102号/IMG");
}

#[test]
fn build_target_dir_with_forward_slashes() {
    assert_eq!(build_target_dir("115Crypt", "a/b/c.txt"), "/115Crypt/a/b");
}

#[test]
fn normalize_adds_leading_slash_and_trims() {
    assert_eq!(normalize_alist_path("  data/photos//  "), "/data/photos");
    assert_eq!(normalize_alist_path(""), "/");
    assert_eq!(normalize_alist_path(" / "), "/");
}

#[test]
fn root_paths_are_recognised() {
    assert!(is_root_alist_path("/"));
    assert!(is_root_alist_path("   "));
    assert!(!is_root_alist_path("/a"));
    assert!(is_upload_root("///"));
    assert!(!is_upload_root("/x/"));
}

#[test]
fn join_alist_path_joins_once() {
    assert_eq!(join_alist_path("/dir/", "/file.txt"), "/dir/file.txt");
    assert_eq!(join_alist_path("/", "file.txt"), "/file.txt");
    assert_eq!(join_alist_path("dir", "file.txt"), "/dir/file.txt");
}

#[test]
fn file_name_from_path_uses_last_component() {
    assert_eq!(file_name_from_path("C:\\videos\\a.mp4"), "a.mp4");
    assert_eq!(file_name_from_path("/home/u/b.txt"), "b.txt");
    assert_eq!(file_name_from_path("/home/u/"), "unknown");
}

#[test]
fn name_byte_limit_finds_first_long_segment() {
    let long = "中".repeat(59);
    assert_eq!(check_name_bytes_limit(&format!("/ok/{}", long)), Some(long.clone()));
    let short = "中".repeat(58);
    assert_eq!(check_name_bytes_limit(&format!("/ok/{}", short)), None);
}
