use sift::index::RepositoryIndex;
use sift::language::Language;
use sift::model::SymbolKind;
use sift::render::render_find;
use sift::scanner::{source_file_from_bytes, ScanOutput};

const ROOT: &str = "fixtures/sample_repo";

const AUTH_RS: &str = "pub struct User {
    pub name: String,
}

pub fn login(user: &User) -> bool {
    user.name == \"admin\"
}

pub fn authenticate(token: &str) -> bool {
    !token.is_empty()
}
";

const SESSION_RS: &str = "pub struct Session {
    pub id: String,
}

pub fn cleanup_session(session: &Session) {
    drop(session);
}
";

/// The index a scan of the fixture's `src/` builds: each file goes through
/// the library's per-file decision and the scan record.
fn fixture_index() -> RepositoryIndex {
    let mut out = ScanOutput::new();
    for (name, text) in [("session.rs", SESSION_RS), ("auth.rs", AUTH_RS)] {
        let path = format!("{ROOT}/src/{name}");
        let language = Language::detect(&path).expect("rust file");
        let file = source_file_from_bytes(path, language, text.as_bytes().to_vec());
        out.record_file(Ok(file));
    }
    RepositoryIndex::from_scan(ROOT.to_string(), out.finish())
}

#[test]
fn finds_symbols_with_location_metadata() {
    let index = fixture_index();

    let hits = index.find("cleanup_session");
    assert_eq!(hits.len(), 1);

    let hit = &hits[0];
    assert_eq!(hit.symbol.name, "cleanup_session");
    assert_eq!(hit.symbol.kind, SymbolKind::Function);
    assert_eq!(hit.symbol.line, 5);
    assert_eq!(hit.file.language, Language::Rust);
    assert_eq!(hit.relative_path(index.root()), "src/session.rs");
}

#[test]
fn find_renders_one_block_per_match() {
    let index = fixture_index();
    let rendered = render_find(&index, "cleanup_session");

    let expected =
        "cleanup_session\nkind: function\nfile: src/session.rs\nline: 5\nlanguage: Rust\n".to_string();
    assert_eq!(rendered, expected);

    let multiple = render_find(&index, "a");
    assert!(multiple.matches("\n\n").count() >= 1, "blocks separated by blank lines");

    assert_eq!(render_find(&index, "no_such_symbol"), "");
}

#[test]
fn index_and_renderers_agree_on_relative_paths() {
    let index = fixture_index();
    let hit = &index.find("authenticate")[0];
    assert_eq!(hit.relative_path(index.root()), "src/auth.rs");
}
