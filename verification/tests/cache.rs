use fabric_installer::cache::{ensure_cached, installer_name, CacheDir, CachePlan, DirEntry};

fn empty_dir(path: &str) -> CacheDir {
    CacheDir { path: path.to_string(), exists: true, entries: Vec::new() }
}

fn entry_names(dir: &CacheDir) -> Vec<(String, bool)> {
    dir.entries.iter().map(|e| (e.name.clone(), e.is_file)).collect()
}

#[test]
fn installer_name_is_final_segment() {
    assert_eq!(installer_name("https://example/installer-1.2.3.jar"), "installer-1.2.3.jar");
    assert_eq!(installer_name("a/b/c.jar"), "c.jar");
    assert_eq!(installer_name("plain"), "plain");
    assert_eq!(installer_name("trailing/"), "");
    assert_eq!(installer_name(""), "");
}

#[test]
fn miss_on_empty_dir_downloads_to_target_path() {
    let mut dir = empty_dir("/tmp/cache/");
    let plan = ensure_cached(&mut dir, "https://example/installer-1.2.3.jar");
    match plan {
        CachePlan::Fetch { path, create_dir, stale } => {
            assert_eq!(path, "/tmp/cache/installer-1.2.3.jar");
            assert!(!create_dir);
            assert!(stale.is_empty());
        }
        CachePlan::Hit { .. } => panic!("expected a miss on an empty directory"),
    }
    assert_eq!(
        entry_names(&dir),
        vec![("installer-1.2.3.jar".to_string(), true)]
    );
}

#[test]
fn missing_dir_is_created_and_counts_as_empty() {
    let mut dir = CacheDir {
        path: "/tmp/cache/".to_string(),
        exists: false,
        entries: vec![DirEntry { name: "ghost-entry".to_string(), is_file: true }],
    };
    let plan = ensure_cached(&mut dir, "https://example/i.jar");
    match plan {
        CachePlan::Fetch { path, create_dir, stale } => {
            assert_eq!(path, "/tmp/cache/i.jar");
            assert!(create_dir);
            assert!(stale.is_empty());
        }
        CachePlan::Hit { .. } => panic!("expected a miss on a missing directory"),
    }
    assert!(dir.exists);
    assert_eq!(entry_names(&dir), vec![("i.jar".to_string(), true)]);
}

#[test]
fn second_call_with_same_url_is_a_hit() {
    let mut dir = empty_dir("/tmp/cache/");
    let url = "https://example/installer-1.2.3.jar";
    let first = ensure_cached(&mut dir, url);
    let first_path = match first {
        CachePlan::Fetch { path, .. } => path,
        CachePlan::Hit { .. } => panic!("first call must be a miss"),
    };
    let entries_after_first = entry_names(&dir);
    let second = ensure_cached(&mut dir, url);
    match second {
        CachePlan::Hit { path } => assert_eq!(path, first_path),
        CachePlan::Fetch { .. } => panic!("second call must be a pure hit"),
    }
    assert_eq!(entry_names(&dir), entries_after_first);
}

#[test]
fn new_url_invalidates_old_artifact() {
    let mut dir = empty_dir("/tmp/cache/");
    ensure_cached(&mut dir, "https://example/installer-1.2.2.jar");
    let plan = ensure_cached(&mut dir, "https://example/installer-1.2.3.jar");
    match plan {
        CachePlan::Fetch { path, stale, .. } => {
            assert_eq!(path, "/tmp/cache/installer-1.2.3.jar");
            assert_eq!(stale, vec!["/tmp/cache/installer-1.2.2.jar".to_string()]);
        }
        CachePlan::Hit { .. } => panic!("a different filename must be a miss"),
    }
    assert_eq!(
        entry_names(&dir),
        vec![("installer-1.2.3.jar".to_string(), true)]
    );
}

#[test]
fn unrelated_file_is_cleared_but_subdirectory_survives() {
    let mut dir = CacheDir {
        path: "/tmp/cache/".to_string(),
        exists: true,
        entries: vec![
            DirEntry { name: "notes.txt".to_string(), is_file: true },
            DirEntry { name: "keep-me".to_string(), is_file: false },
        ],
    };
    let plan = ensure_cached(&mut dir, "https://example/installer-1.2.3.jar");
    match plan {
        CachePlan::Fetch { stale, .. } => {
            assert_eq!(stale, vec!["/tmp/cache/notes.txt".to_string()]);
        }
        CachePlan::Hit { .. } => panic!("an unrelated file is not a hit"),
    }
    assert_eq!(
        entry_names(&dir),
        vec![
            ("keep-me".to_string(), false),
            ("installer-1.2.3.jar".to_string(), true),
        ]
    );
}

#[test]
fn hit_leaves_other_files_alone() {
    let mut dir = CacheDir {
        path: "/tmp/cache/".to_string(),
        exists: true,
        entries: vec![
            DirEntry { name: "other.txt".to_string(), is_file: true },
            DirEntry { name: "i.jar".to_string(), is_file: true },
        ],
    };
    let plan = ensure_cached(&mut dir, "https://example/i.jar");
    match plan {
        CachePlan::Hit { path } => assert_eq!(path, "/tmp/cache/i.jar"),
        CachePlan::Fetch { .. } => panic!("an existing target name is a hit"),
    }
    assert_eq!(dir.entries.len(), 2);
}
