use expectation::extensions::TextDiffExtension;
use expectation::filesystem::{FakeFileSystem, FileSystem, FsStore};
use expectation::provider::DiffMethod;
use expectation::results::Verdict;
use expectation::validate::{difftest_prepare, difftest_validate, file_filter, should_continue};

#[test]
fn validate_on_no_files() {
    let (fs, mut store, provider, mut registry) = difftest_prepare("hi");
    let results = difftest_validate("hi", fs, &mut store, &provider, &mut registry);
    assert!(results.is_empty());
}

#[test]
fn validate_one_file_expected_not_found() {
    let (fs, mut store, provider, mut registry) = difftest_prepare("hi");
    let mut w = provider.custom_test(&mut registry, "foo.txt", DiffMethod::Bytes);
    w.write_str("hello world");
    w.finish(&mut store);
    let results = difftest_validate("hi", fs, &mut store, &provider, &mut registry);

    assert_eq!(
        results,
        vec![Verdict::expected_not_found(
            "hi",
            "foo.txt",
            "/actual/hi/foo.txt".to_string(),
            "/expected/hi/foo.txt".to_string(),
        )]
    );
}

#[test]
fn validate_one_file_expected_not_found_subdir() {
    let (fs, mut store, provider, mut registry) = difftest_prepare("hi");
    let provider_inner = provider.subdir("hello");
    let mut w = provider_inner.custom_test(&mut registry, "foo.txt", DiffMethod::Bytes);
    w.write_str("hello world");
    w.finish(&mut store);
    let results = difftest_validate("hi", fs, &mut store, &provider, &mut registry);

    assert_eq!(
        results,
        vec![Verdict::expected_not_found(
            "hi",
            "hello/foo.txt",
            "/actual/hi/hello/foo.txt".to_string(),
            "/expected/hi/hello/foo.txt".to_string(),
        )]
    );
}

#[test]
fn validate_one_file_actual_not_found() {
    let (fs, mut store, provider, mut registry) = difftest_prepare("hi");
    provider
        .root_fs
        .write(&mut store, "expected/hi/something_else.txt", b"not found".to_vec());

    let mut w = provider.custom_test(&mut registry, "foo.txt", DiffMethod::Bytes);
    w.write_str("hello world");
    w.finish(&mut store);
    let results = difftest_validate("hi", fs, &mut store, &provider, &mut registry);

    assert_eq!(
        results,
        vec![
            Verdict::expected_not_found(
                "hi",
                "foo.txt",
                "/actual/hi/foo.txt".to_string(),
                "/expected/hi/foo.txt".to_string(),
            ),
            Verdict::actual_not_found(
                "hi",
                "something_else.txt",
                "/actual/hi/something_else.txt".to_string(),
                "/expected/hi/something_else.txt".to_string(),
            ),
        ]
    );
}

#[test]
fn validate_one_file_diff_is_bad() {
    let (fs, mut store, provider, mut registry) = difftest_prepare("hi");
    provider
        .root_fs
        .write(&mut store, "expected/hi/foo.txt", b"goodbye found".to_vec());

    let mut w = provider.custom_test(&mut registry, "foo.txt", DiffMethod::Bytes);
    w.write_str("hello world");
    w.finish(&mut store);
    let results = difftest_validate("hi", fs, &mut store, &provider, &mut registry);

    assert_eq!(
        results,
        vec![Verdict::difference(
            "hi",
            "foo.txt",
            "/actual/hi/foo.txt".to_string(),
            "/expected/hi/foo.txt".to_string(),
            vec!["/diff/hi/foo.txt.diff".to_string()],
        )]
    );
}

#[test]
fn validate_one_file_diff_is_bad_with_text_extension() {
    let (fs, mut store, provider, mut registry) = difftest_prepare("hi");
    provider
        .root_fs
        .write(&mut store, "expected/hi/foo.txt", b"goodbye found".to_vec());

    let mut w = provider.text_writer(&mut registry, "foo.txt");
    w.write_str("hello world");
    w.finish(&mut store);
    let results = difftest_validate("hi", fs, &mut store, &provider, &mut registry);

    assert_eq!(
        results,
        vec![Verdict::difference(
            "hi",
            "foo.txt",
            "/actual/hi/foo.txt".to_string(),
            "/expected/hi/foo.txt".to_string(),
            vec!["/diff/hi/foo.txt.diff".to_string()],
        )]
    );
}

#[test]
fn validate_matching_contents_report_ok() {
    let (fs, mut store, provider, mut registry) = difftest_prepare("hi");
    provider
        .root_fs
        .write(&mut store, "expected/hi/foo.txt", b"same".to_vec());
    let mut w = provider.custom_test(&mut registry, "foo.txt", DiffMethod::Bytes);
    w.write_str("same");
    w.finish(&mut store);
    let results = difftest_validate("hi", fs, &mut store, &provider, &mut registry);
    assert_eq!(results, vec![Verdict::ok("hi", "foo.txt")]);
    assert!(results[0].is_ok());
}

#[test]
fn validate_registering_a_path_twice_keeps_one_comparison() {
    let (fs, mut store, provider, mut registry) = difftest_prepare("hi");
    {
        let mut w = provider.custom_test(&mut registry, "foo.txt", DiffMethod::Bytes);
        w.write_str("first");
        w.finish(&mut store);
    }
    {
        let mut w = provider.custom_test(&mut registry, "foo.txt", DiffMethod::Bytes);
        w.write_str("second");
        w.finish(&mut store);
    }
    let results = difftest_validate("hi", fs, &mut store, &provider, &mut registry);
    assert_eq!(results.len(), 1);
    assert_eq!(
        results,
        vec![Verdict::expected_not_found(
            "hi",
            "foo.txt",
            "/actual/hi/foo.txt".to_string(),
            "/expected/hi/foo.txt".to_string(),
        )]
    );
}

#[test]
fn text_diff_artifact_holds_line_diff() {
    let (fs, mut store, provider, mut registry) = difftest_prepare("hi");
    provider
        .root_fs
        .write(&mut store, "expected/hi/foo.txt", b"goodbye".to_vec());
    let mut w = provider.text_writer(&mut registry, "foo.txt");
    w.write_str("hello");
    w.finish(&mut store);
    let results = difftest_validate("hi", fs.duplicate(), &mut store, &provider, &mut registry);

    assert_eq!(
        results,
        vec![Verdict::difference(
            "hi",
            "foo.txt",
            "/actual/hi/foo.txt".to_string(),
            "/expected/hi/foo.txt".to_string(),
            vec!["/diff/hi/foo.txt.diff".to_string()],
        )]
    );
    let diff_bytes = fs.read(&store, "diff/hi/foo.txt.diff").unwrap();
    assert_eq!(String::from_utf8(diff_bytes).unwrap(), "+hello\n-goodbye\n");
}

#[test]
fn text_diff_artifact_keeps_common_lines() {
    let (fs, mut store, provider, mut registry) = difftest_prepare("hi");
    provider
        .root_fs
        .write(&mut store, "expected/hi/log.txt", b"a\nc".to_vec());
    let mut w = provider.text_writer(&mut registry, "log.txt");
    w.write_str("a\nb");
    w.finish(&mut store);
    let _results = difftest_validate("hi", fs.duplicate(), &mut store, &provider, &mut registry);
    let diff_bytes = fs.read(&store, "diff/hi/log.txt.diff").unwrap();
    assert_eq!(String::from_utf8(diff_bytes).unwrap(), " a\n+b\n-c\n");
}

#[test]
fn byte_diff_artifact_lists_both_byte_strings() {
    let (fs, mut store, provider, mut registry) = difftest_prepare("hi");
    provider
        .root_fs
        .write(&mut store, "expected/hi/foo.txt", b"yo".to_vec());
    let mut w = provider.custom_test(&mut registry, "foo.txt", DiffMethod::Bytes);
    w.write_str("hi");
    w.finish(&mut store);
    let _results = difftest_validate("hi", fs.duplicate(), &mut store, &provider, &mut registry);
    let diff_bytes = fs.read(&store, "diff/hi/foo.txt.diff").unwrap();
    assert_eq!(
        String::from_utf8(diff_bytes).unwrap(),
        "actual: \n[104, 105]\nexpected: \n[121, 111]\n"
    );
}

#[test]
fn text_diff_on_invalid_utf8_reports_io_error_after_difference() {
    let (fs, mut store, provider, mut registry) = difftest_prepare("hi");
    provider
        .root_fs
        .write(&mut store, "expected/hi/foo.txt", vec![0xffu8, 0xfe, 0x00]);
    let mut w = provider.text_writer(&mut registry, "foo.txt");
    w.write_bytes(&[0xffu8]);
    w.finish(&mut store);
    let results = difftest_validate("hi", fs, &mut store, &provider, &mut registry);

    assert_eq!(
        results,
        vec![
            Verdict::difference(
                "hi",
                "foo.txt",
                "/actual/hi/foo.txt".to_string(),
                "/expected/hi/foo.txt".to_string(),
                vec![],
            ),
            Verdict::io_error(
                "hi",
                "foo.txt",
                "artifact is not valid utf-8 text".to_string(),
            ),
        ]
    );
}

#[test]
fn file_filter_matches_suffixes_and_name_filter_matches_substrings() {
    let svg_only: Option<Vec<String>> = Some(vec!["svg".to_string()]);
    assert!(file_filter("a.svg", &svg_only));
    assert!(!file_filter("a.png", &svg_only));
    let allow_all: Option<Vec<String>> = None;
    assert!(file_filter("a.png", &allow_all));

    let name_filter = Some("foo".to_string());
    assert!(should_continue("foobar", &name_filter));
    assert!(!should_continue("bar", &name_filter));
    assert!(should_continue("anything", &None));
}

#[test]
fn filtered_out_files_are_not_validated() {
    let (fs, mut store, provider, mut registry) = difftest_prepare("hi");
    {
        let mut w = provider.custom_test(&mut registry, "pic.svg", DiffMethod::Bytes);
        w.write_str("body");
        w.finish(&mut store);
    }
    {
        let mut w = provider.custom_test(&mut registry, "pic.png", DiffMethod::Bytes);
        w.write_str("body");
        w.finish(&mut store);
    }
    let filetypes = Some(vec!["svg".to_string()]);
    let results = expectation::validate::validate(
        "hi",
        fs,
        &mut store,
        &provider,
        &mut registry,
        &filetypes,
    );
    assert_eq!(
        results,
        vec![Verdict::expected_not_found(
            "hi",
            "pic.svg",
            "/actual/hi/pic.svg".to_string(),
            "/expected/hi/pic.svg".to_string(),
        )]
    );
}

#[test]
fn text_extension_registers_and_writes_in_one_step() {
    let (fs, mut store, provider, mut registry) = difftest_prepare("hi");
    provider.text(&mut registry, &mut store, "foo.txt", "hello");
    assert_eq!(
        fs.read(&store, "actual/hi/foo.txt").unwrap(),
        b"hello".to_vec()
    );
    let results = difftest_validate("hi", fs, &mut store, &provider, &mut registry);
    assert_eq!(
        results,
        vec![Verdict::expected_not_found(
            "hi",
            "foo.txt",
            "/actual/hi/foo.txt".to_string(),
            "/expected/hi/foo.txt".to_string(),
        )]
    );
}
