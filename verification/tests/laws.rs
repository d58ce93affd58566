use sift::path_order::path_precedes;
use sift::extract::extract_symbols;
use sift::index::RepositoryIndex;
use sift::language::Language;
use sift::model::{SourceFile, Symbol, SymbolKind};
use sift::native::Arena;
use sift::primitives::{find_bytes, hash_bytes, FNV1A_OFFSET_BASIS};
use sift::render::{render_find, thousands};
use sift::scanner::ScanOutput;

fn file(path: &str, language: Language, names: &[&str]) -> SourceFile {
    SourceFile {
        path: path.to_string(),
        language,
        symbols: names
            .iter()
            .map(|n| Symbol { name: n.to_string(), kind: SymbolKind::Function, line: 1 })
            .collect(),
        content_hash: 0,
    }
}

#[test]
fn extension_lookup_ignores_ascii_case() {
    for (lower, mixed) in [("rs", "Rs"), ("py", "PY"), ("cpp", "CpP"), ("tsx", "TSX"), ("md", "MD")] {
        assert_eq!(Language::from_extension(lower), Language::from_extension(mixed));
    }
    assert_eq!(Language::from_extension("Go"), Some(Language::Go));
}

#[test]
fn breakdown_counts_sum_to_source_files() {
    let index = RepositoryIndex::from_parts(
        ".".to_string(),
        vec![
            file("a.rs", Language::Rust, &["a"]),
            file("b.go", Language::Go, &["b"]),
            file("c.py", Language::Python, &[]),
            file("d.rs", Language::Rust, &["d", "e"]),
            file("e.py", Language::Python, &["f"]),
            file("f.c", Language::C, &[]),
        ],
        10,
    );
    let stats = index.stats();
    let total: usize = stats.languages.iter().map(|(_, n)| *n).sum();
    assert_eq!(total, stats.source_files);
    assert_eq!(total, 6);
    assert_eq!(
        stats.languages,
        vec![(Language::Rust, 2), (Language::Python, 2), (Language::C, 1), (Language::Go, 1)]
    );
}

#[test]
fn thousands_without_commas_is_plain_decimal() {
    for n in [0u64, 7, 999, 1_000, 65_536, 1_234_567, u64::MAX] {
        assert_eq!(thousands(n).replace(',', ""), n.to_string());
    }
    assert_eq!(thousands(u64::MAX), "18,446,744,073,709,551,615");
}

#[test]
fn find_report_is_empty_exactly_without_matches() {
    let index = RepositoryIndex::from_parts(
        "/repo".to_string(),
        vec![file("/repo/src/a.rs", Language::Rust, &["open_session", "close_session"])],
        1,
    );
    assert_eq!(render_find(&index, "zzz"), "");
    let report = render_find(&index, "session");
    assert_eq!(report.matches("\nkind: ").count(), 2);
    assert!(report.ends_with("language: Rust\n"));
}

#[test]
fn extracted_lines_are_one_based() {
    let source = b"fn first() {}\n\nstruct Second;\n";
    let symbols = extract_symbols(Language::Rust, source);
    assert!(!symbols.is_empty());
    assert!(symbols.iter().all(|s| s.line >= 1));
    assert_eq!(symbols[0].line, 1);
    assert_eq!(symbols[1].line, 3);
}

#[test]
fn arena_allocations_do_not_overlap() {
    let mut arena = Arena::new(64).expect("arena");
    let first = arena.alloc_bytes(10, 1).expect("first").len();
    let used_after_first = arena.used();
    let second = arena.alloc_bytes(8, 8).expect("second").len();
    assert_eq!(first, 10);
    assert_eq!(second, 8);
    assert!(used_after_first >= 10);
    assert!(arena.used() >= used_after_first + 8);
}

#[test]
fn empty_input_hashes_to_offset_basis_and_edge_finds() {
    assert_eq!(hash_bytes(b""), FNV1A_OFFSET_BASIS);
    assert_eq!(find_bytes(b"abc", b""), Some(0));
    assert_eq!(find_bytes(b"ab", b"abc"), None);
}

#[test]
fn paths_order_by_components() {
    // equal as components: neither comes first, so a stable sort keeps input order
    assert!(!path_precedes("a/b", "a//b"));
    assert!(!path_precedes("a//b", "a/b"));
    assert!(!path_precedes("a/./b", "a/b"));
    assert!(!path_precedes("a/b/", "a/b"));
    // component a,b before a,c even where a separator is doubled
    assert!(path_precedes("a/b", "a//c"));
    assert!(!path_precedes("a//c", "a/b"));
    // a component before a longer one it prefixes, whatever follows
    assert!(path_precedes("a/b", "a-b"));
    assert!(path_precedes("a", "a/b"));
    // root, then current directory, then parent, then normal components
    assert!(path_precedes("/z", "./a"));
    assert!(path_precedes("./z", "../a"));
    assert!(path_precedes("../z", "-a"));
    assert!(path_precedes("./z", "-a"));
}

#[test]
fn index_keeps_equal_paths_in_input_order() {
    let index = RepositoryIndex::from_parts(
        ".".to_string(),
        vec![
            file("a//c", Language::Rust, &["c"]),
            file("a/b", Language::Rust, &["first"]),
            file("a//b", Language::Rust, &["second"]),
        ],
        3,
    );
    let paths: Vec<&str> = index.files().iter().map(|f| f.path.as_str()).collect();
    assert_eq!(paths, vec!["a/b", "a//b", "a//c"]);
}

#[test]
fn extraction_is_a_function_of_its_input() {
    let source = b"fn alpha() {\n}\n\nfn beta() {\n}\n";
    let first = extract_symbols(Language::Rust, source);
    let second = extract_symbols(Language::Rust, source);
    assert_eq!(first, second);
    let lines: Vec<usize> = first.iter().map(|s| s.line).collect();
    assert_eq!(lines, vec![1, 4]);
    assert!(extract_symbols(Language::Rust, b"").is_empty());
}

#[test]
fn extension_is_text_after_the_last_dot_of_the_file_name() {
    assert_eq!(Language::detect("src/lib.rs"), Some(Language::Rust));
    assert_eq!(Language::detect("a.d/lib.tar.py"), Some(Language::Python));
    assert_eq!(Language::detect("src/.rs"), None);
    assert_eq!(Language::detect("src/rs"), None);
    assert_eq!(Language::detect("src/lib.rs/"), Some(Language::Rust));
}

#[test]
fn walk_error_at_root_spelled_differently_is_fatal() {
    let mut out = ScanOutput::new();
    assert!(out.record_walk_error("repo", Some("repo/".to_string()), "denied".to_string()).is_err());
    assert!(out.record_walk_error("./repo", Some("./repo//".to_string()), "denied".to_string()).is_err());
    assert!(out.record_walk_error("repo", Some("repo/sub".to_string()), "denied".to_string()).is_ok());
    assert_eq!(out.diagnostics.warnings.len(), 1);
}

#[test]
fn empty_query_finds_every_symbol() {
    let index = RepositoryIndex::from_parts(
        ".".to_string(),
        vec![file("a.rs", Language::Rust, &["a", "b"]), file("b.go", Language::Go, &["c"]), file("c.py", Language::Python, &[])],
        3,
    );
    assert_eq!(index.find("").len(), index.stats().symbols_total);
    assert_eq!(index.find("").len(), 3);
}

#[test]
fn grouped_rendering_has_one_separator_per_three_digits() {
    for n in [0u64, 9, 10, 999, 1_000, 123_456, 1_234_567, u64::MAX] {
        let d = n.to_string().len();
        let s = thousands(n);
        assert_eq!(s.len(), d + (d - 1) / 3);
        let groups: Vec<&str> = s.split(',').collect();
        assert!((1..=3).contains(&groups[0].len()));
        assert!(groups[1..].iter().all(|g| g.len() == 3));
    }
}
