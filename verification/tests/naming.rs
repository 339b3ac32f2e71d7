use envscan::paths::{base_name_of, folder_of, is_env_file_name, is_ignored_dir, path_under};
use envscan::scan::make_file_ref;
use envscan::writer::{backup_file_name, join_path, temp_file_name, timestamp_token};

#[test]
fn env_naming_convention() {
    assert!(is_env_file_name(".env"));
    assert!(is_env_file_name(".env.local"));
    assert!(is_env_file_name(".env.production"));
    assert!(is_env_file_name(".env.."));
    assert!(is_env_file_name(".env.a\nb"));
    assert!(!is_env_file_name(".env."));
    assert!(!is_env_file_name("env"));
    assert!(!is_env_file_name(".envx"));
    assert!(!is_env_file_name(".environment"));
    assert!(!is_env_file_name("x.env"));
    assert!(!is_env_file_name(""));
}

#[test]
fn ignored_directory_names() {
    for name in ["node_modules", ".git", "dist", "build", ".next", "target", ".turbo", ".cache"] {
        assert!(is_ignored_dir(name));
    }
    assert!(!is_ignored_dir("src"));
    assert!(!is_ignored_dir("Node_Modules"));
    assert!(!is_ignored_dir(".github"));
}

#[test]
fn path_containment_respects_component_boundaries() {
    assert!(path_under("/a/b", "/a"));
    assert!(path_under("/a", "/a"));
    assert!(path_under("/a/b", "/"));
    assert!(!path_under("/ab", "/a"));
    assert!(!path_under("/a", "/a/b"));
}

#[test]
fn base_and_folder_of_paths() {
    assert_eq!(base_name_of("/x/y/.env"), ".env");
    assert_eq!(folder_of("/x/y/.env"), "/x/y");
    assert_eq!(folder_of("/x"), "/");
    assert_eq!(base_name_of("plain"), "plain");
    assert_eq!(folder_of("plain"), "plain");
}

#[test]
fn identifiers_are_hex_digests_of_the_path() {
    let a = make_file_ref("/r/proj/.env", 1, 2);
    let b = make_file_ref("/r/proj/.env", 1, 2);
    let c = make_file_ref("/r/other/.env", 1, 2);
    assert_eq!(a.id.len(), 64);
    assert!(a.id.chars().all(|ch| ch.is_ascii_hexdigit() && !ch.is_ascii_uppercase()));
    assert_eq!(a.id, b.id);
    assert_ne!(a.id, c.id);
    assert_ne!(a.id, a.absolute_path);
    assert_eq!(a.file_name, ".env");
    assert_eq!(a.folder_path, "/r/proj");
    assert_eq!(a.size, 1);
    assert_eq!(a.modified_at, 2);
}

#[test]
fn sibling_names_are_exact_and_fresh() {
    assert_eq!(temp_file_name(".env", "20240101120000"), "..env.tmp-20240101120000");
    assert_eq!(backup_file_name(".env", "20240101120000"), "..env.backup-20240101120000");
    assert_eq!(join_path("/x/y", "..env.tmp-1"), "/x/y/..env.tmp-1");
    let ts = timestamp_token();
    assert!(ts.len() >= 14);
    assert!(ts.chars().all(|c| c.is_ascii_digit() || c == '-'));
    assert_ne!(temp_file_name(".env", &ts), ".env");
    assert_ne!(backup_file_name(".env", &ts), ".env");
    assert_ne!(temp_file_name(".env", &ts), backup_file_name(".env", &ts));
}
