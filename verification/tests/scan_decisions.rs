use sift::index::RepositoryIndex;
use sift::language::Language;
use sift::model::{Error, IoErrorKind};
use sift::primitives::hash_bytes;
use sift::scanner::{
    source_file_from_bytes, within_size_limit, ScanError, ScanOutput, ScanWarning, MAX_FILE_SIZE,
};

#[test]
fn source_file_from_text_content() {
    let bytes = b"pub fn visible_fn() {}\n".to_vec();
    let file = source_file_from_bytes("visible.rs".to_string(), Language::Rust, bytes.clone()).unwrap();
    assert_eq!(file.path, "visible.rs");
    assert_eq!(file.language, Language::Rust);
    assert_eq!(file.content_hash, hash_bytes(&bytes));
    assert_eq!(file.symbols.len(), 1);
    assert_eq!(file.symbols[0].name, "visible_fn");
}

#[test]
fn binary_and_invalid_utf8_content_is_skipped() {
    assert!(source_file_from_bytes("binary.rs".to_string(), Language::Rust, b"fn a() {}\0".to_vec()).is_none());
    assert!(source_file_from_bytes("bad.rs".to_string(), Language::Rust, vec![0xff, 0xfe, b'a']).is_none());
    // a NUL beyond the sniffed prefix does not make a file binary
    let mut late_nul = vec![b' '; 9000];
    late_nul.push(0);
    assert!(source_file_from_bytes("late.py".to_string(), Language::Python, late_nul).is_some());
}

#[test]
fn size_limit_is_one_mebibyte() {
    assert_eq!(MAX_FILE_SIZE, 1024 * 1024);
    assert!(within_size_limit(1024 * 1024));
    assert!(!within_size_limit(1024 * 1024 + 1));
}

#[test]
fn walk_errors_at_root_are_fatal_elsewhere_warnings() {
    let mut out = ScanOutput::new();
    assert!(out.record_walk_error("repo", Some("repo/locked".to_string()), "permission denied".to_string()).is_ok());
    assert_eq!(out.diagnostics.warnings.len(), 1);
    assert_eq!(out.diagnostics.warnings[0].path(), "repo/locked");
    match out.record_walk_error("repo", None, "walk failed".to_string()) {
        Err(ScanError::Walk { path, kind, message }) => {
            assert_eq!(path, "repo");
            assert_eq!(kind, IoErrorKind::Other);
            assert_eq!(message, "walk failed");
        }
        Ok(()) => panic!("root errors are fatal"),
    }
    let err: Error = ScanError::root_not_found("repo".to_string()).into();
    match err {
        Error::Io { path, kind, message } => {
            assert_eq!(path, "repo");
            assert_eq!(kind, IoErrorKind::NotFound);
            assert_eq!(message, "root path does not exist");
        }
    }
}

#[test]
fn recorded_files_build_a_sorted_index() {
    assert!(ScanOutput::visits(1, true));
    assert!(!ScanOutput::visits(0, true));
    assert!(!ScanOutput::visits(2, false));
    let mut out = ScanOutput::new();
    let b = source_file_from_bytes("r/b.rs".to_string(), Language::Rust, b"fn b() {}\n".to_vec());
    let a = source_file_from_bytes("r/a.go".to_string(), Language::Go, b"package a\n".to_vec());
    out.record_file(Ok(b));
    out.record_file(Ok(None));
    out.record_file(Err(ScanWarning { path: "r/x.rs".to_string(), message: "cannot read content".to_string() }));
    out.record_file(Ok(a));
    assert_eq!(out.files_scanned, 4);
    let out = out.finish();
    let paths: Vec<&str> = out.files.iter().map(|f| f.path.as_str()).collect();
    assert_eq!(paths, vec!["r/a.go", "r/b.rs"]);
    let index = RepositoryIndex::from_scan("r".to_string(), out);
    assert_eq!(index.warnings_count(), 1);
    let stats = index.stats();
    assert_eq!(stats.files_scanned, 4);
    assert_eq!(stats.warnings_count, 1);
    assert_eq!(stats.languages, vec![(Language::Rust, 1), (Language::Go, 1)]);
    assert_eq!(index.find("b").len(), 1);
}
