use expectation::filesystem::{FakeFileSystem, FileSystem, FsStore};
use expectation::orchestrator::promotion_counts;
use expectation::promote::promote;
use expectation::provider::DiffMethod;
use expectation::results::{ResultKind, Verdict};
use expectation::validate::{difftest_prepare, difftest_validate};

#[test]
fn promote_ok_is_a_no_op() {
    let fs = FakeFileSystem::new();
    let mut store = FsStore::new();
    fs.write(&mut store, "expected/hi/foo.txt", b"kept".to_vec());
    let before = fs.files(&store);

    let description = promote(&ResultKind::Matched, fs.duplicate(), &mut store).unwrap();
    assert_eq!(description, "Nothing to do");
    assert_eq!(fs.files(&store), before);
    assert_eq!(fs.read(&store, "expected/hi/foo.txt").unwrap(), b"kept".to_vec());
}

#[test]
fn promote_io_error_is_a_no_op() {
    let fs = FakeFileSystem::new();
    let mut store = FsStore::new();
    let description = promote(
        &ResultKind::IoError("boom".to_string()),
        fs,
        &mut store,
    )
    .unwrap();
    assert_eq!(description, "Nothing to do");
}

#[test]
fn promote_expected_not_found_creates_the_baseline() {
    let fs = FakeFileSystem::new();
    let mut store = FsStore::new();
    fs.write(&mut store, "actual/hi/foo.txt", b"fresh".to_vec());
    let verdict = Verdict::expected_not_found(
        "hi",
        "foo.txt",
        "/actual/hi/foo.txt".to_string(),
        "/expected/hi/foo.txt".to_string(),
    );
    let description = promote(&verdict.kind, fs.duplicate(), &mut store).unwrap();
    assert_eq!(description, "moved /actual/hi/foo.txt -> /expected/hi/foo.txt");
    assert_eq!(fs.read(&store, "expected/hi/foo.txt").unwrap(), b"fresh".to_vec());
}

#[test]
fn promote_copy_from_missing_actual_fails() {
    let fs = FakeFileSystem::new();
    let mut store = FsStore::new();
    let verdict = Verdict::expected_not_found(
        "hi",
        "foo.txt",
        "/actual/hi/foo.txt".to_string(),
        "/expected/hi/foo.txt".to_string(),
    );
    assert!(promote(&verdict.kind, fs, &mut store).is_err());
}

#[test]
fn promote_actual_not_found_removes_the_stale_baseline() {
    let fs = FakeFileSystem::new();
    let mut store = FsStore::new();
    fs.write(&mut store, "expected/hi/old.txt", b"stale".to_vec());
    let verdict = Verdict::actual_not_found(
        "hi",
        "old.txt",
        "/actual/hi/old.txt".to_string(),
        "/expected/hi/old.txt".to_string(),
    );
    let description = promote(&verdict.kind, fs.duplicate(), &mut store).unwrap();
    assert_eq!(description, "removed /expected/hi/old.txt");
    assert!(!fs.exists_at(&store, "expected/hi/old.txt"));
}

#[test]
fn promoting_a_difference_then_revalidating_reports_ok() {
    let (fs, mut store, provider, mut registry) = difftest_prepare("hi");
    provider
        .root_fs
        .write(&mut store, "expected/hi/foo.txt", b"goodbye".to_vec());
    let mut w = provider.custom_test(&mut registry, "foo.txt", DiffMethod::Bytes);
    w.write_str("hello");
    w.finish(&mut store);
    let results = difftest_validate("hi", fs.duplicate(), &mut store, &provider, &mut registry);
    assert_eq!(results.len(), 1);
    assert!(matches!(results[0].kind, ResultKind::Difference(_)));

    let description = promote(&results[0].kind, fs.duplicate(), &mut store).unwrap();
    assert_eq!(description, "moved /actual/hi/foo.txt -> /expected/hi/foo.txt");

    let _w = provider.custom_test(&mut registry, "foo.txt", DiffMethod::Bytes);
    let results = difftest_validate("hi", fs, &mut store, &provider, &mut registry);
    assert_eq!(results, vec![Verdict::ok("hi", "foo.txt")]);
}

#[test]
fn promotion_counts_clean_batch_reports_zero_changes() {
    let batch = vec![
        (Verdict::ok("hi", "a.txt"), Ok("Nothing to do".to_string())),
        (Verdict::ok("hi", "b.txt"), Ok("Nothing to do".to_string())),
    ];
    let (passed, changed) = promotion_counts(&batch);
    assert!(passed);
    assert_eq!(changed, 0);
}

#[test]
fn promotion_counts_changes_and_failures() {
    let difference = Verdict::difference(
        "hi",
        "a.txt",
        "/actual/hi/a.txt".to_string(),
        "/expected/hi/a.txt".to_string(),
        vec![],
    );
    let missing = Verdict::actual_not_found(
        "hi",
        "b.txt",
        "/actual/hi/b.txt".to_string(),
        "/expected/hi/b.txt".to_string(),
    );
    let io = Verdict::io_error("hi", "c.txt", "lost".to_string());
    let batch = vec![
        (difference, Ok("moved".to_string())),
        (
            missing,
            Err(expectation::filesystem::FsError { message: "gone".to_string() }),
        ),
        (io, Ok("Nothing to do".to_string())),
    ];
    let (passed, changed) = promotion_counts(&batch);
    assert!(!passed);
    assert_eq!(changed, 2);
}
