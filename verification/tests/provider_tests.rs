use expectation::filesystem::{FakeFileSystem, FileSystem, FsStore};
use expectation::provider::{DiffMethod, Provider, Registry, Writer};
use expectation::validate::difftest_prepare;

#[test]
fn writer_does_not_write_to_filesystem_if_not_written_to() {
    let filesystem = FakeFileSystem::new();
    let mut store = FsStore::new();
    let writer = Writer::new(filesystem.duplicate(), "foo.txt".to_string());
    writer.finish(&mut store);
    assert!(filesystem.exists_at(&store, "foo.txt"));
}

#[test]
fn writer_round_trip_preserves_bytes() {
    let filesystem = FakeFileSystem::new();
    let mut store = FsStore::new();
    let mut writer = Writer::new(filesystem.duplicate(), "blob.bin".to_string());
    writer.write_bytes(&[0u8, 155u8, 255u8]);
    writer.finish(&mut store);
    let read_back = filesystem.read(&store, "blob.bin").unwrap();
    assert_eq!(read_back, vec![0u8, 155u8, 255u8]);
}

#[test]
fn writer_writing_nothing_creates_empty_file() {
    let filesystem = FakeFileSystem::new();
    let mut store = FsStore::new();
    let writer = Writer::new(filesystem.duplicate(), "empty.txt".to_string());
    writer.finish(&mut store);
    assert!(filesystem.exists_at(&store, "empty.txt"));
    let read_back = filesystem.read(&store, "empty.txt").unwrap();
    assert_eq!(read_back.len(), 0);
}

#[test]
fn not_used_provider() {
    let (fs, store, _provider, _registry) = difftest_prepare("hi");
    assert!(fs.is_empty(&store));
}

#[test]
fn provider_used_once() {
    let (fs, mut store, provider, mut registry) = difftest_prepare("hi");
    let mut w = provider.custom_test(&mut registry, "foo.txt", DiffMethod::Bytes);
    w.write_str("hello world");
    w.finish(&mut store);

    assert!(!fs.is_empty(&store));
    let contents = fs.read(&store, "actual/hi/foo.txt").unwrap();
    assert_eq!(contents, b"hello world".to_vec());
}

#[test]
fn provider_used_more_than_once() {
    let (fs, mut store, provider, mut registry) = difftest_prepare("hi");
    {
        let mut w = provider.custom_test(&mut registry, "foo.txt", DiffMethod::Bytes);
        w.write_str("hello world");
        w.finish(&mut store);
    }
    {
        let mut w = provider.custom_test(&mut registry, "bar.txt", DiffMethod::Bytes);
        w.write_str("hello world");
        w.finish(&mut store);
    }

    assert!(!fs.is_empty(&store));
    let contents = fs.read(&store, "actual/hi/foo.txt").unwrap();
    assert_eq!(contents, b"hello world".to_vec());
    let contents = fs.read(&store, "actual/hi/bar.txt").unwrap();
    assert_eq!(contents, b"hello world".to_vec());
}

#[test]
fn read_of_absent_path_fails() {
    let filesystem = FakeFileSystem::new();
    let store = FsStore::new();
    let err = filesystem.read(&store, "nowhere.txt").unwrap_err();
    assert_eq!(err.message, "/nowhere.txt does not exist");
}

#[test]
fn subsystem_handles_share_one_backing() {
    let top = FakeFileSystem::new();
    let mut store = FsStore::new();
    let child = top.subsystem("nested");
    child.write(&mut store, "file.txt", b"payload".to_vec());
    let contents = top.read(&store, "nested/file.txt").unwrap();
    assert_eq!(contents, b"payload".to_vec());
    assert_eq!(top.full_path_for("nested/file.txt"), "/nested/file.txt");
    assert_eq!(child.full_path_for("file.txt"), "/nested/file.txt");
}

#[test]
fn files_lists_relative_paths_and_copy_duplicates_contents() {
    let top = FakeFileSystem::new();
    let mut store = FsStore::new();
    top.write(&mut store, "a/one.txt", b"1".to_vec());
    top.write(&mut store, "b/two.txt", b"2".to_vec());
    let files = top.files(&store);
    assert_eq!(files, vec!["a/one.txt".to_string(), "b/two.txt".to_string()]);

    top.copy(&mut store, "a/one.txt", "b/one-copy.txt").unwrap();
    assert_eq!(top.read(&store, "b/one-copy.txt").unwrap(), b"1".to_vec());
    assert!(top.copy(&mut store, "missing.txt", "anywhere.txt").is_err());

    top.remove(&mut store, "a/one.txt");
    assert!(!top.exists_at(&store, "a/one.txt"));
    let files = top.files(&store);
    assert_eq!(
        files,
        vec!["b/two.txt".to_string(), "b/one-copy.txt".to_string()]
    );
}

#[test]
fn provider_new_and_subdir_extend_prefixes() {
    let top = FakeFileSystem::new();
    let act = top.subsystem("actual").subsystem("hi");
    let provider = Provider::new(top.duplicate(), act);
    let mut registry = Registry::new();
    let child = provider.subdir("inner");
    let w = child.custom_test(&mut registry, "foo.txt", DiffMethod::Bytes);
    let mut store = FsStore::new();
    w.finish(&mut store);
    let top2 = FakeFileSystem::new();
    assert!(top2.exists_at(&store, "actual/hi/inner/foo.txt"));
}
