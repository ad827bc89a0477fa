use workingcopy::errors::BackendIoError;
use workingcopy::errors::StatusError;
use workingcopy::filestate::FileState;
use workingcopy::filestate::COPIED;
use workingcopy::filestate::EXIST_NEXT;
use workingcopy::filestate::EXIST_P1;
use workingcopy::filesystem::FileSystemType;
use workingcopy::filesystem::PendingChange;
use workingcopy::filesystem::StaticFileSystem;
use workingcopy::manifest::FileMetadata;
use workingcopy::manifest::FileMode;
use workingcopy::manifest::HgId;
use workingcopy::manifest::ManifestEntry;
use workingcopy::manifest::MemoryTreeResolver;
use workingcopy::manifest::SparseProfile;
use workingcopy::manifest::TreeManifest;
use workingcopy::matcher::Matcher;
use workingcopy::status::Status;
use workingcopy::treestate::TreeState;
use workingcopy::workingcopy::WorkingCopy;
use workingcopy::RepoPathBuf;

fn path(s: &str) -> RepoPathBuf {
    RepoPathBuf::from_bytes(s.as_bytes().to_vec()).unwrap()
}

fn meta(id: u64) -> FileMetadata {
    FileMetadata { content_id: id, mode: FileMode::Regular }
}

fn manifest(entries: &[(&str, u64)]) -> TreeManifest {
    TreeManifest {
        files: entries
            .iter()
            .map(|(p, c)| ManifestEntry { path: path(p), meta: meta(*c) })
            .collect(),
        profile: None,
    }
}

fn texts(v: &Vec<RepoPathBuf>) -> Vec<String> {
    v.iter().map(|p| String::from_utf8(p.as_bytes().clone()).unwrap()).collect()
}

fn build_wc(
    parents: Vec<HgId>,
    manifests: Vec<(HgId, TreeManifest)>,
    records: Vec<(&str, FileState)>,
    changes: Vec<Result<PendingChange, BackendIoError>>,
    ignore: Matcher,
) -> WorkingCopy<MemoryTreeResolver, StaticFileSystem> {
    let mut ts = TreeState::new(parents);
    for (p, st) in records {
        ts.insert(&path(p), st);
    }
    let mut resolver = MemoryTreeResolver::new();
    for (id, m) in manifests {
        resolver.put(id, m);
    }
    WorkingCopy::new(
        "repo".to_string(),
        FileSystemType::Normal,
        ts,
        resolver,
        StaticFileSystem::new(changes),
        ignore,
        false,
    )
    .unwrap()
}

fn run(wc: &WorkingCopy<MemoryTreeResolver, StaticFileSystem>, exhaustive: bool) -> Status {
    wc.status(Matcher::Always, 0, exhaustive).unwrap()
}

#[test]
fn scenario_empty_repository_reports_disk_files_unknown() {
    let wc = build_wc(
        vec![],
        vec![],
        vec![],
        vec![Ok(PendingChange::Changed(path("note.txt"), meta(5)))],
        Matcher::Never,
    );
    let st = run(&wc, false);
    assert!(st.added.is_empty());
    assert!(st.modified.is_empty());
    assert!(st.removed.is_empty());
    assert_eq!(texts(&st.unknown), vec!["note.txt".to_string()]);
}

#[test]
fn scenario_unchanged_tracked_file_is_clean() {
    let p1 = HgId { id: 1 };
    let wc = build_wc(
        vec![p1],
        vec![(p1, manifest(&[("a/b.txt", 42)]))],
        vec![("a/b.txt", FileState::new(EXIST_P1 | EXIST_NEXT))],
        vec![Ok(PendingChange::Changed(path("a/b.txt"), meta(42)))],
        Matcher::Never,
    );
    let st = run(&wc, true);
    assert_eq!(texts(&st.clean), vec!["a/b.txt".to_string()]);
    assert!(st.modified.is_empty());
    let quiet = run(&wc, false);
    assert!(quiet.clean.is_empty());
}

#[test]
fn scenario_missing_tracked_file_is_deleted() {
    let p1 = HgId { id: 1 };
    let wc = build_wc(
        vec![p1],
        vec![(p1, manifest(&[("a/b.txt", 42)]))],
        vec![("a/b.txt", FileState::new(EXIST_P1 | EXIST_NEXT))],
        vec![Ok(PendingChange::Deleted(path("a/b.txt")))],
        Matcher::Never,
    );
    let st = run(&wc, false);
    assert_eq!(texts(&st.deleted), vec!["a/b.txt".to_string()]);
    assert!(st.removed.is_empty());
}

#[test]
fn scenario_dropped_tracked_file_is_removed() {
    let p1 = HgId { id: 1 };
    let wc = build_wc(
        vec![p1],
        vec![(p1, manifest(&[("a/b.txt", 42)]))],
        vec![("a/b.txt", FileState::new(EXIST_P1))],
        vec![Ok(PendingChange::Deleted(path("a/b.txt")))],
        Matcher::Never,
    );
    let st = run(&wc, false);
    assert_eq!(texts(&st.removed), vec!["a/b.txt".to_string()]);
    assert!(st.deleted.is_empty());
}

#[test]
fn scenario_changed_tracked_file_is_modified() {
    let p1 = HgId { id: 1 };
    let wc = build_wc(
        vec![p1],
        vec![(p1, manifest(&[("a/b.txt", 42)]))],
        vec![("a/b.txt", FileState::new(EXIST_P1 | EXIST_NEXT))],
        vec![Ok(PendingChange::Changed(path("a/b.txt"), meta(43)))],
        Matcher::Never,
    );
    let st = run(&wc, false);
    assert_eq!(texts(&st.modified), vec!["a/b.txt".to_string()]);
}

#[test]
fn scenario_flagged_new_file_is_added() {
    let p1 = HgId { id: 1 };
    let wc = build_wc(
        vec![p1],
        vec![(p1, manifest(&[("a/b.txt", 42)]))],
        vec![("c.txt", FileState::new(EXIST_NEXT))],
        vec![Ok(PendingChange::Changed(path("c.txt"), meta(9)))],
        Matcher::Never,
    );
    let st = run(&wc, false);
    assert_eq!(texts(&st.added), vec!["c.txt".to_string()]);
}

#[test]
fn scenario_untracked_ignored_file_is_ignored_not_unknown() {
    let p1 = HgId { id: 1 };
    let wc = build_wc(
        vec![p1],
        vec![(p1, manifest(&[("a/b.txt", 42)]))],
        vec![],
        vec![Ok(PendingChange::Changed(path("build/out.o"), meta(7)))],
        Matcher::DirPrefix(vec![path("build")]),
    );
    let st = run(&wc, false);
    assert_eq!(texts(&st.ignored), vec!["build/out.o".to_string()]);
    assert!(st.unknown.is_empty());
}

#[test]
fn scenario_tracked_file_matching_ignore_rules_is_never_ignored() {
    let p1 = HgId { id: 1 };
    let wc = build_wc(
        vec![p1],
        vec![(p1, manifest(&[("build/gen.rs", 4)]))],
        vec![("build/gen.rs", FileState::new(EXIST_P1 | EXIST_NEXT))],
        vec![Ok(PendingChange::Changed(path("build/gen.rs"), meta(5)))],
        Matcher::DirPrefix(vec![path("build")]),
    );
    let st = run(&wc, false);
    assert!(st.ignored.is_empty());
    assert_eq!(texts(&st.modified), vec!["build/gen.rs".to_string()]);
}

#[test]
fn scenario_sparse_profile_hides_tracked_files() {
    let p1 = HgId { id: 1 };
    let mut m = manifest(&[("vendor/lib.rs", 4), ("src/main.rs", 5)]);
    m.profile = Some(SparseProfile { cover_dirs: vec![], omit_dirs: vec![path("vendor")] });
    let wc = build_wc(
        vec![p1],
        vec![(p1, m)],
        vec![
            ("vendor/lib.rs", FileState::new(EXIST_P1 | EXIST_NEXT)),
            ("src/main.rs", FileState::new(EXIST_P1 | EXIST_NEXT)),
        ],
        vec![
            Ok(PendingChange::Changed(path("vendor/lib.rs"), meta(99))),
            Ok(PendingChange::Changed(path("src/main.rs"), meta(99))),
        ],
        Matcher::Never,
    );
    let st = run(&wc, false);
    assert_eq!(texts(&st.modified), vec!["src/main.rs".to_string()]);
    assert!(st.ignored.is_empty());
    assert!(st.unknown.is_empty());
}

#[test]
fn categories_are_mutually_exclusive() {
    let p1 = HgId { id: 1 };
    let wc = build_wc(
        vec![p1],
        vec![(p1, manifest(&[("a/b.txt", 42), ("kept.txt", 3), ("gone.txt", 8)]))],
        vec![
            ("a/b.txt", FileState::new(EXIST_P1 | EXIST_NEXT)),
            ("kept.txt", FileState::new(EXIST_P1 | EXIST_NEXT)),
            ("gone.txt", FileState::new(EXIST_P1)),
            ("c.txt", FileState::new(EXIST_NEXT)),
        ],
        vec![
            Ok(PendingChange::Changed(path("a/b.txt"), meta(43))),
            Ok(PendingChange::Changed(path("kept.txt"), meta(3))),
            Ok(PendingChange::Deleted(path("gone.txt"))),
            Ok(PendingChange::Changed(path("stray.txt"), meta(1))),
            Ok(PendingChange::Changed(path("build/out.o"), meta(2))),
        ],
        Matcher::DirPrefix(vec![path("build")]),
    );
    let st = run(&wc, true);
    let lists = [
        texts(&st.added),
        texts(&st.modified),
        texts(&st.removed),
        texts(&st.deleted),
        texts(&st.unknown),
        texts(&st.ignored),
        texts(&st.clean),
    ];
    let mut seen: Vec<String> = Vec::new();
    for list in &lists {
        for p in list {
            assert!(!seen.contains(p), "path {} stands in two categories", p);
            seen.push(p.clone());
        }
    }
    assert_eq!(texts(&st.added), vec!["c.txt".to_string()]);
    assert_eq!(texts(&st.modified), vec!["a/b.txt".to_string()]);
    assert_eq!(texts(&st.removed), vec!["gone.txt".to_string()]);
    assert_eq!(texts(&st.unknown), vec!["stray.txt".to_string()]);
    assert_eq!(texts(&st.ignored), vec!["build/out.o".to_string()]);
    assert_eq!(texts(&st.clean), vec!["kept.txt".to_string()]);
}

#[test]
fn two_status_calls_yield_identical_results() {
    let p1 = HgId { id: 1 };
    let wc = build_wc(
        vec![p1],
        vec![(p1, manifest(&[("a/b.txt", 42)]))],
        vec![
            ("a/b.txt", FileState::new(EXIST_P1 | EXIST_NEXT)),
            ("c.txt", FileState::new(EXIST_NEXT)),
        ],
        vec![Ok(PendingChange::Changed(path("a/b.txt"), meta(43)))],
        Matcher::Never,
    );
    let first = run(&wc, true);
    let second = run(&wc, true);
    assert_eq!(texts(&first.added), texts(&second.added));
    assert_eq!(texts(&first.modified), texts(&second.modified));
    assert_eq!(texts(&first.removed), texts(&second.removed));
    assert_eq!(texts(&first.deleted), texts(&second.deleted));
    assert_eq!(texts(&first.unknown), texts(&second.unknown));
    assert_eq!(texts(&first.ignored), texts(&second.ignored));
    assert_eq!(texts(&first.clean), texts(&second.clean));
}

#[test]
fn backend_errors_are_collected_beside_the_result() {
    let wc = build_wc(
        vec![],
        vec![],
        vec![],
        vec![
            Ok(PendingChange::Changed(path("ok.txt"), meta(1))),
            Err(BackendIoError { message: "unreadable: secrets.txt".to_string() }),
        ],
        Matcher::Never,
    );
    let st = run(&wc, false);
    assert_eq!(texts(&st.unknown), vec!["ok.txt".to_string()]);
    assert_eq!(st.errors.len(), 1);
    assert_eq!(st.errors[0].message, "unreadable: secrets.txt");
}

#[test]
fn unresolvable_parent_aborts_the_call() {
    let wc = build_wc(
        vec![HgId { id: 9 }],
        vec![],
        vec![],
        vec![],
        Matcher::Never,
    );
    let r = wc.status(Matcher::Always, 0, false);
    assert!(matches!(r, Err(StatusError::ManifestUnavailable)));
}

#[test]
fn virtualized_backend_without_support_is_refused() {
    let r = WorkingCopy::new(
        "repo".to_string(),
        FileSystemType::Eden,
        TreeState::new(vec![]),
        MemoryTreeResolver::new(),
        StaticFileSystem::new(vec![]),
        Matcher::Never,
        false,
    );
    assert!(matches!(r, Err(StatusError::ScopeMisconfiguration)));
}

#[test]
fn copymap_lists_copied_records() {
    let p1 = HgId { id: 1 };
    let wc = build_wc(
        vec![p1],
        vec![(p1, manifest(&[("old.txt", 2)]))],
        vec![
            ("old.txt", FileState::new(EXIST_P1)),
            (
                "new.txt",
                FileState::copied_from(EXIST_NEXT | COPIED, path("old.txt")),
            ),
        ],
        vec![],
        Matcher::Never,
    );
    let pairs = wc.copymap().unwrap();
    assert_eq!(pairs.len(), 1);
    assert_eq!(pairs[0].0.as_bytes(), path("new.txt").as_bytes());
    assert_eq!(pairs[0].1.as_bytes(), path("old.txt").as_bytes());
}

#[test]
fn copied_record_without_source_is_corrupt() {
    let wc = build_wc(
        vec![],
        vec![],
        vec![("new.txt", FileState::new(EXIST_NEXT | COPIED))],
        vec![],
        Matcher::Never,
    );
    assert!(matches!(wc.copymap(), Err(StatusError::FlagStoreCorrupt)));
}

#[test]
fn user_matcher_narrows_the_result() {
    let p1 = HgId { id: 1 };
    let wc = build_wc(
        vec![p1],
        vec![(p1, manifest(&[]))],
        vec![],
        vec![
            Ok(PendingChange::Changed(path("in/a.txt"), meta(1))),
            Ok(PendingChange::Changed(path("out/b.txt"), meta(2))),
        ],
        Matcher::Never,
    );
    let st = wc.status(Matcher::DirPrefix(vec![path("in")]), 0, false).unwrap();
    assert_eq!(texts(&st.unknown), vec!["in/a.txt".to_string()]);
}

#[test]
fn sparse_cover_limits_the_working_set() {
    let p1 = HgId { id: 1 };
    let mut m = manifest(&[("src/main.rs", 5)]);
    m.profile = Some(SparseProfile { cover_dirs: vec![path("src")], omit_dirs: vec![] });
    let wc = build_wc(
        vec![p1],
        vec![(p1, m)],
        vec![("src/main.rs", FileState::new(EXIST_P1 | EXIST_NEXT))],
        vec![
            Ok(PendingChange::Changed(path("src/main.rs"), meta(9))),
            Ok(PendingChange::Changed(path("docs/readme.md"), meta(1))),
        ],
        Matcher::Never,
    );
    let st = run(&wc, false);
    assert_eq!(texts(&st.modified), vec!["src/main.rs".to_string()]);
    assert!(st.unknown.is_empty());
}

#[test]
fn second_parent_membership_also_shields_from_ignore() {
    let p1 = HgId { id: 1 };
    let p2 = HgId { id: 2 };
    let wc = build_wc(
        vec![p1, p2],
        vec![
            (p1, manifest(&[("a.txt", 1)])),
            (p2, manifest(&[("build/from-p2.rs", 2)])),
        ],
        vec![("build/from-p2.rs", FileState::new(workingcopy::filestate::EXIST_P2 | EXIST_NEXT))],
        vec![Ok(PendingChange::Changed(path("build/from-p2.rs"), meta(3)))],
        Matcher::DirPrefix(vec![path("build")]),
    );
    let st = run(&wc, false);
    assert!(st.ignored.is_empty());
    // Not in the first parent, flagged for the next state: reported added.
    assert_eq!(texts(&st.added), vec!["build/from-p2.rs".to_string()]);
}

#[test]
fn newly_added_file_matching_ignore_rules_is_not_ignored() {
    let p1 = HgId { id: 1 };
    let wc = build_wc(
        vec![p1],
        vec![(p1, manifest(&[]))],
        vec![("build/new.rs", FileState::new(EXIST_NEXT))],
        vec![Ok(PendingChange::Changed(path("build/new.rs"), meta(3)))],
        Matcher::DirPrefix(vec![path("build")]),
    );
    let st = run(&wc, false);
    assert!(st.ignored.is_empty());
    assert_eq!(texts(&st.added), vec!["build/new.rs".to_string()]);
}
