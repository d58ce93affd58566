use sift::language::Language;
use sift::model::SymbolKind;

fn path_with(ext: &str) -> String {
    format!("some/file.{ext}")
}

#[test]
fn detects_supported_extensions() {
    let cases = [
        ("rs", Language::Rust),
        ("c", Language::C),
        ("h", Language::C),
        ("cpp", Language::Cpp),
        ("hpp", Language::Cpp),
        ("cc", Language::Cpp),
        ("go", Language::Go),
        ("js", Language::JavaScript),
        ("jsx", Language::JavaScript),
        ("mjs", Language::JavaScript),
        ("ts", Language::TypeScript),
        ("tsx", Language::TypeScript),
        ("mts", Language::TypeScript),
        ("py", Language::Python),
        ("pyi", Language::Python),
    ];
    for (ext, expected) in cases {
        assert_eq!(Language::from_extension(ext), Some(expected), "ext {ext}");
        assert_eq!(Language::detect(&path_with(ext)), Some(expected));
    }
}

#[test]
fn detection_is_case_insensitive() {
    assert_eq!(Language::from_extension("RS"), Some(Language::Rust));
    assert_eq!(Language::detect(&path_with("GO")), Some(Language::Go));
}

#[test]
fn unknown_or_missing_extension_yields_none() {
    assert_eq!(Language::from_extension("md"), None);
    assert_eq!(Language::from_extension("bin"), None);
    assert_eq!(Language::detect("noext"), None);
    assert_eq!(Language::detect("dir.d/"), None);
}

#[test]
fn names_render_for_display() {
    assert_eq!(Language::Rust.name(), "Rust");
    assert_eq!(Language::Cpp.name(), "C++");
    assert_eq!(Language::TypeScript.name(), "TypeScript");
}

#[test]
fn labels_cover_every_kind() {
    let kinds = [
        SymbolKind::Function,
        SymbolKind::Method,
        SymbolKind::Struct,
        SymbolKind::Class,
        SymbolKind::Enum,
        SymbolKind::Trait,
        SymbolKind::Interface,
        SymbolKind::Constant,
        SymbolKind::Variable,
        SymbolKind::Module,
    ];
    for kind in kinds {
        assert!(!kind.long_label().is_empty());
        assert!(!kind.short_label().is_empty());
    }
    assert_eq!(SymbolKind::Function.long_label(), "function");
    assert_eq!(SymbolKind::Function.short_label(), "fn");
    assert_eq!(SymbolKind::Constant.short_label(), "const");
}

#[test]
fn mixed_case_and_other_extensions() {
    assert_eq!(Language::from_extension("C++"), Some(Language::Cpp));
    assert_eq!(Language::from_extension("Cts"), Some(Language::TypeScript));
    assert_eq!(Language::from_extension("PYI"), Some(Language::Python));
    assert_eq!(Language::from_extension(""), None);
    assert_eq!(Language::detect(".gitignore"), None);
    assert_eq!(Language::detect("a/b.tar.gz"), None);
    assert_eq!(Language::detect("src/lib.RS"), Some(Language::Rust));
    assert_eq!(Language::Go.rank(), 3);
}

#[test]
fn every_kind_has_exact_labels() {
    let expected = [
        (SymbolKind::Function, "function", "fn"),
        (SymbolKind::Method, "method", "method"),
        (SymbolKind::Struct, "struct", "struct"),
        (SymbolKind::Class, "class", "class"),
        (SymbolKind::Enum, "enum", "enum"),
        (SymbolKind::Trait, "trait", "trait"),
        (SymbolKind::Interface, "interface", "interface"),
        (SymbolKind::Constant, "constant", "const"),
        (SymbolKind::Variable, "variable", "var"),
        (SymbolKind::Module, "module", "mod"),
    ];
    for (kind, long, short) in expected {
        assert_eq!(kind.long_label(), long);
        assert_eq!(kind.short_label(), short);
    }
}
