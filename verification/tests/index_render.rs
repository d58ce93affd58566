use sift::index::RepositoryIndex;
use sift::language::Language;
use sift::model::{SourceFile, Symbol, SymbolKind};
use sift::render::{render_find, render_map, render_stats, thousands};
use sift::scanner::{ignored_dirs, is_ignored_dir, ScanWarning};

fn sample(path: &str, name: &str, kind: SymbolKind) -> SourceFile {
    SourceFile {
        path: path.to_string(),
        language: Language::Rust,
        symbols: vec![Symbol { name: name.to_string(), kind, line: 1 }],
        content_hash: 0,
    }
}

#[test]
fn find_matches_substrings_across_files() {
    let index = RepositoryIndex::from_parts(
        ".".to_string(),
        vec![
            sample("src/a.rs", "cleanup_session", SymbolKind::Function),
            sample("src/b.rs", "cleanup_all", SymbolKind::Function),
            sample("src/c.rs", "login", SymbolKind::Function),
        ],
        3,
    );

    let hits = index.find("cleanup");
    assert_eq!(hits.len(), 2);
    assert!(hits.iter().all(|m| m.symbol.name.contains("cleanup")));
    assert!(index.find("zzz").is_empty());
}

#[test]
fn stats_orders_languages_by_count_then_name() {
    let files = vec![
        sample("a.rs", "x", SymbolKind::Function),
        sample("b.rs", "y", SymbolKind::Function),
        sample("c.go", "z", SymbolKind::Function),
    ];
    let mut files = files;
    files[2].language = Language::Go;
    let index = RepositoryIndex::from_parts(".".to_string(), files, 9);

    let stats = index.stats();
    assert_eq!(stats.source_files, 3);
    assert_eq!(stats.symbols_total, 3);
    assert_eq!(stats.files_scanned, 9);
    assert_eq!(stats.languages, vec![(Language::Rust, 2), (Language::Go, 1)]);
}

#[test]
fn thousands_groups_digits() {
    assert_eq!(thousands(0), "0");
    assert_eq!(thousands(999), "999");
    assert_eq!(thousands(1_438), "1,438");
    assert_eq!(thousands(12_345_678), "12,345,678");
}

#[test]
fn stats_of_empty_index_lists_no_languages() {
    let index = RepositoryIndex::from_parts(".".to_string(), vec![], 0);
    let rendered = render_stats(&index);
    assert!(rendered.contains("Files scanned: 0"));
    assert!(!rendered.contains("Native engine"));
    assert!(!rendered.contains("Backend:"));
    assert!(!rendered.contains(Language::Rust.name()));
}

#[test]
fn ignored_dir_list_matches_spec() {
    assert_eq!(
        ignored_dirs(),
        [".git", "target", "node_modules", "dist", "build", ".next", "coverage", "vendor", ".cache"]
    );
}

#[test]
fn scanner_diagnostics_and_warning_accessors() {
    let warning = ScanWarning { path: "test.rs".to_string(), message: "unreadable file".to_string() };
    assert_eq!(warning.path(), "test.rs");
    assert_eq!(warning.message(), "unreadable file");

    let index = RepositoryIndex::from_parts(".".to_string(), vec![sample("src/a.rs", "x", SymbolKind::Function)], 1);
    assert_eq!(index.warnings_count(), 0);
    assert_eq!(index.stats().warnings_count, 0);
}

fn two_file_index() -> RepositoryIndex {
    let auth = SourceFile {
        path: "repo/src/auth.rs".to_string(),
        language: Language::Rust,
        symbols: vec![
            Symbol { name: "User".to_string(), kind: SymbolKind::Struct, line: 1 },
            Symbol { name: "login".to_string(), kind: SymbolKind::Function, line: 5 },
        ],
        content_hash: 1,
    };
    let session = SourceFile {
        path: "repo/src/session.rs".to_string(),
        language: Language::Rust,
        symbols: vec![Symbol { name: "cleanup_session".to_string(), kind: SymbolKind::Function, line: 5 }],
        content_hash: 2,
    };
    let readme = SourceFile {
        path: "repo/main.py".to_string(),
        language: Language::Python,
        symbols: vec![],
        content_hash: 3,
    };
    RepositoryIndex::from_parts("repo".to_string(), vec![session, readme, auth], 4)
}

#[test]
fn from_parts_sorts_files_by_path() {
    let index = two_file_index();
    let paths: Vec<&str> = index.files().iter().map(|f| f.path.as_str()).collect();
    assert_eq!(paths, vec!["repo/main.py", "repo/src/auth.rs", "repo/src/session.rs"]);
    let index = RepositoryIndex::from_parts(
        ".".to_string(),
        vec![sample("a/b", "x", SymbolKind::Function), sample("a.b", "y", SymbolKind::Function)],
        2,
    );
    let paths: Vec<&str> = index.files().iter().map(|f| f.path.as_str()).collect();
    assert_eq!(paths, vec!["a/b", "a.b"]);
    assert_eq!(index.root(), ".");
}

#[test]
fn render_find_blocks_and_relative_paths() {
    let index = two_file_index();
    let rendered = render_find(&index, "cleanup_session");
    assert_eq!(rendered, "cleanup_session\nkind: function\nfile: src/session.rs\nline: 5\nlanguage: Rust\n");
    let hits = index.find("cleanup_session");
    assert_eq!(hits[0].relative_path(index.root()), "src/session.rs");
    assert_eq!(hits[0].relative_path("elsewhere"), "repo/src/session.rs");
    let multiple = render_find(&index, "s");
    assert_eq!(multiple.matches("\n\n").count(), 1);
    assert_eq!(render_find(&index, "no_such_symbol"), "");
}

#[test]
fn render_map_groups_by_directory() {
    let index = two_file_index();
    let rendered = render_map(&index);
    let expected = "./\n\
└── main.py\n\
\n\
src/\n\
├── auth.rs\n\
│   ├── struct User\n\
│   └── fn login\n\
└── session.rs\n    └── fn cleanup_session\n";
    assert_eq!(rendered, expected);
}

#[test]
fn render_stats_full_report() {
    let index = two_file_index();
    let rendered = render_stats(&index);
    assert_eq!(
        rendered,
        "Files scanned: 4\nSource files: 3\nSymbols: 3\n\nLanguages:\nRust        2\nPython      1\n"
    );
}

#[test]
fn ignored_dir_membership() {
    assert!(is_ignored_dir("node_modules"));
    assert!(is_ignored_dir(".git"));
    assert!(!is_ignored_dir("src"));
    assert!(!is_ignored_dir("Target"));
}
