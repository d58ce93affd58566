//! The data model: symbols, their kinds, scanned source files, and the
//! shared error type.

use vstd::prelude::*;

use crate::language::Language;

verus! {

/// One extracted declaration.
#[derive(Debug, Clone, PartialEq, Eq)]
pub struct Symbol {
    pub name: String,
    pub kind: SymbolKind,
    /// 1-based line number where the declaration starts.
    pub line: usize,
}

/// The kinds of declarations that Sift reports.
#[derive(Debug, Clone, Copy, PartialEq, Eq, Structural, Hash)]
pub enum SymbolKind {
    Function,
    Method,
    Struct,
    Class,
    Enum,
    Trait,
    Interface,
    Constant,
    Variable,
    Module,
}

/// Long label of a kind (`kind: function`).
pub open spec fn long_label_of(kind: SymbolKind) -> Seq<char> {
    match kind {
        SymbolKind::Function => "function"@,
        SymbolKind::Method => "method"@,
        SymbolKind::Struct => "struct"@,
        SymbolKind::Class => "class"@,
        SymbolKind::Enum => "enum"@,
        SymbolKind::Trait => "trait"@,
        SymbolKind::Interface => "interface"@,
        SymbolKind::Constant => "constant"@,
        SymbolKind::Variable => "variable"@,
        SymbolKind::Module => "module"@,
    }
}

/// Short token of a kind (`fn login`, `struct User`).
pub open spec fn short_label_of(kind: SymbolKind) -> Seq<char> {
    match kind {
        SymbolKind::Function => "fn"@,
        SymbolKind::Method => "method"@,
        SymbolKind::Struct => "struct"@,
        SymbolKind::Class => "class"@,
        SymbolKind::Enum => "enum"@,
        SymbolKind::Trait => "trait"@,
        SymbolKind::Interface => "interface"@,
        SymbolKind::Constant => "const"@,
        SymbolKind::Variable => "var"@,
        SymbolKind::Module => "mod"@,
    }
}

impl SymbolKind {
    /// Long label used by `sift find` (`kind: function`).
    pub fn long_label(self) -> (r: &'static str)
        ensures
            r@ == long_label_of(self),
    {
        match self {
            SymbolKind::Function => "function",
            SymbolKind::Method => "method",
            SymbolKind::Struct => "struct",
            SymbolKind::Class => "class",
            SymbolKind::Enum => "enum",
            SymbolKind::Trait => "trait",
            SymbolKind::Interface => "interface",
            SymbolKind::Constant => "constant",
            SymbolKind::Variable => "variable",
            SymbolKind::Module => "module",
        }
    }

    /// Short token used by `sift map` (`fn login`, `struct User`).
    pub fn short_label(self) -> (r: &'static str)
        ensures
            r@ == short_label_of(self),
    {
        match self {
            SymbolKind::Function => "fn",
            SymbolKind::Method => "method",
            SymbolKind::Struct => "struct",
            SymbolKind::Class => "class",
            SymbolKind::Enum => "enum",
            SymbolKind::Trait => "trait",
            SymbolKind::Interface => "interface",
            SymbolKind::Constant => "const",
            SymbolKind::Variable => "var",
            SymbolKind::Module => "mod",
        }
    }
}

/// A scanned source file and its symbols.
///
/// `content_hash` is the FNV-1a hash of the raw file content; it gives cheap
/// change detection.
#[derive(Debug, Clone)]
pub struct SourceFile {
    /// The file's path, `/`-separated.
    pub path: String,
    pub language: Language,
    pub symbols: Vec<Symbol>,
    /// FNV-1a 64-bit hash of the raw file content.
    pub content_hash: u64,
}

/// The kind of an I/O failure (the categories of `std::io::ErrorKind` that
/// a scan reports; every other one is `Other`).
#[derive(Debug, Clone, Copy, PartialEq, Eq, Structural)]
pub enum IoErrorKind {
    NotFound,
    PermissionDenied,
    InvalidData,
    Other,
}

/// Errors surfaced across Sift.
#[derive(Debug, Clone)]
pub enum Error {
    /// A path could not be read: the kind of failure, and a message that
    /// says why.
    Io { path: String, kind: IoErrorKind, message: String },
}

} // verus!
