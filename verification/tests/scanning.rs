use envscan::errors::AppError;
use envscan::sandbox::SandboxState;
use envscan::scan::{scan_from_entries, FsEntry, ScanResult};

fn entry(path: &str, is_file: bool, size: u64) -> FsEntry {
    FsEntry {
        path: path.to_string(),
        is_file,
        size,
        modified_at: 0,
        canonical_path: path.to_string(),
    }
}

fn tree_entries() -> Vec<FsEntry> {
    vec![
        entry("/r", false, 0),
        entry("/r/proj", false, 0),
        entry("/r/proj/.env", true, 10),
        entry("/r/proj/.env.local", true, 20),
        entry("/r/proj/node_modules", false, 0),
        entry("/r/proj/node_modules/.env", true, 30),
        entry("/r/proj/readme.txt", true, 5),
        entry("/r/alpha", false, 0),
        entry("/r/alpha/.env.production", true, 7),
    ]
}

fn scan_tree(sandbox: &mut SandboxState) -> ScanResult {
    sandbox.begin_scan();
    scan_from_entries(sandbox, "/r", &tree_entries()).expect("scan should succeed")
}

#[test]
fn groups_are_sorted_and_pruned() {
    let mut sandbox = SandboxState::new();
    let res = scan_tree(&mut sandbox);
    assert_eq!(res.root_path, "/r");
    assert_eq!(res.groups.len(), 2);
    assert_eq!(res.groups[0].name, "alpha");
    assert_eq!(res.groups[0].root_path, "/r/alpha");
    assert_eq!(res.groups[1].name, "proj");
    assert_eq!(res.groups[1].root_path, "/r/proj");
    let proj = &res.groups[1];
    assert_eq!(proj.env_files.len(), 2);
    assert_eq!(proj.env_files[0].file_name, ".env");
    assert_eq!(proj.env_files[1].file_name, ".env.local");
    for g in &res.groups {
        for f in &g.env_files {
            assert!(!f.absolute_path.contains("node_modules"));
            assert_eq!(f.folder_path, g.root_path);
        }
    }
}

#[test]
fn env_file_inside_ignored_directory_never_surfaces() {
    let mut sandbox = SandboxState::new();
    let entries = vec![
        entry("/r/proj/.env", true, 1),
        entry("/r/proj/node_modules/.env", true, 2),
        entry("/r/proj/node_modules/dep/.env.local", true, 3),
        entry("/r/.git/.env", true, 4),
        entry("/r/dist/sub/.env", true, 5),
    ];
    sandbox.begin_scan();
    let res = scan_from_entries(&mut sandbox, "/r", &entries).unwrap();
    assert_eq!(res.groups.len(), 1);
    assert_eq!(res.groups[0].name, "proj");
    assert_eq!(res.groups[0].env_files.len(), 1);
    assert_eq!(res.groups[0].env_files[0].absolute_path, "/r/proj/.env");
}

#[test]
fn rescan_of_same_entries_is_identical() {
    let mut s1 = SandboxState::new();
    let mut s2 = SandboxState::new();
    let r1 = scan_tree(&mut s1);
    let r2 = scan_tree(&mut s2);
    assert_eq!(r1.root_path, r2.root_path);
    assert_eq!(r1.groups.len(), r2.groups.len());
    for (g1, g2) in r1.groups.iter().zip(r2.groups.iter()) {
        assert_eq!(g1.id, g2.id);
        assert_eq!(g1.name, g2.name);
        assert_eq!(g1.root_path, g2.root_path);
        assert_eq!(g1.env_files.len(), g2.env_files.len());
        for (f1, f2) in g1.env_files.iter().zip(g2.env_files.iter()) {
            assert_eq!(f1.id, f2.id);
            assert_eq!(f1.absolute_path, f2.absolute_path);
            assert_eq!(f1.file_name, f2.file_name);
            assert_eq!(f1.folder_path, f2.folder_path);
            assert_eq!(f1.size, f2.size);
            assert_eq!(f1.modified_at, f2.modified_at);
        }
    }
}

#[test]
fn sandbox_narrows_to_discovered_files() {
    let mut sandbox = SandboxState::new();
    scan_tree(&mut sandbox);
    assert!(sandbox.check_canonical("/r/proj/.env").is_ok());
    assert!(sandbox.check_canonical("/r/proj/.env.local").is_ok());
    assert!(sandbox.check_canonical("/r/alpha/.env.production").is_ok());
    // Under the root but never discovered.
    assert!(matches!(
        sandbox.check_canonical("/r/proj/readme.txt"),
        Err(AppError::PathNotAllowed)
    ));
    assert!(matches!(
        sandbox.check_canonical("/r/proj/node_modules/.env"),
        Err(AppError::PathNotAllowed)
    ));
    // Outside the root, including a sibling whose name shares the prefix.
    assert!(matches!(sandbox.check_canonical("/other/.env"), Err(AppError::PathNotAllowed)));
    assert!(matches!(sandbox.check_canonical("/rx/.env"), Err(AppError::PathNotAllowed)));
}

#[test]
fn check_before_any_scan_is_invalid_root() {
    let sandbox = SandboxState::new();
    assert!(matches!(sandbox.check_canonical("/r/proj/.env"), Err(AppError::InvalidRootPath)));
    assert!(matches!(sandbox.ensure_allowed_path("/anything"), Err(AppError::InvalidRootPath)));
}

#[test]
fn unresolvable_path_is_io_error_once_root_is_set() {
    let mut sandbox = SandboxState::new();
    scan_tree(&mut sandbox);
    let missing = "/no/such/directory/exists/.env";
    assert!(matches!(sandbox.ensure_allowed_path(missing), Err(AppError::IoError(_))));
}

#[test]
fn canceled_scan_reports_and_leaves_state_untouched() {
    let mut sandbox = SandboxState::new();
    scan_tree(&mut sandbox);
    // A new scan is requested but canceled before its entries are folded.
    sandbox.begin_scan();
    sandbox.cancel_scan();
    assert!(sandbox.is_cancel_requested());
    let second = vec![entry("/other/.env", true, 1)];
    let outcome = scan_from_entries(&mut sandbox, "/other", &second);
    assert!(matches!(outcome, Err(AppError::ScanCanceled)));
    // The previous sandbox still answers as before the canceled scan.
    assert!(sandbox.check_canonical("/r/proj/.env").is_ok());
    assert!(matches!(sandbox.check_canonical("/other/.env"), Err(AppError::PathNotAllowed)));
}

#[test]
fn begin_scan_clears_a_stale_cancellation() {
    let mut sandbox = SandboxState::new();
    sandbox.cancel_scan();
    sandbox.begin_scan();
    assert!(!sandbox.is_cancel_requested());
    let res = scan_from_entries(&mut sandbox, "/r", &tree_entries());
    assert!(res.is_ok());
}

#[test]
fn scanning_a_single_file_root() {
    let mut sandbox = SandboxState::new();
    sandbox.begin_scan();
    let entries = vec![entry("/home/me/.env", true, 3)];
    let res = scan_from_entries(&mut sandbox, "/home/me/.env", &entries).unwrap();
    assert_eq!(res.groups.len(), 1);
    assert_eq!(res.groups[0].name, "me");
    assert_eq!(res.groups[0].root_path, "/home/me");
    assert!(sandbox.check_canonical("/home/me/.env").is_ok());
}

#[test]
fn groups_with_equal_names_are_tied_by_folder_path() {
    let mut sandbox = SandboxState::new();
    sandbox.begin_scan();
    let entries = vec![
        entry("/r/b/proj/.env", true, 1),
        entry("/r/a/proj/.env", true, 2),
    ];
    let res = scan_from_entries(&mut sandbox, "/r", &entries).unwrap();
    assert_eq!(res.groups.len(), 2);
    assert_eq!(res.groups[0].root_path, "/r/a/proj");
    assert_eq!(res.groups[1].root_path, "/r/b/proj");
}
