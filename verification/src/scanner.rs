//! The decisions of a repository scan: which directories are pruned, which
//! files become indexed source files, and how walk errors and per-file
//! outcomes are recorded. The walk and the file reads themselves are I/O
//! and happen outside the library, which is handed what they produce.

use vstd::prelude::*;
use vstd::utf8::valid_utf8;

use crate::extract::{extract_symbols, extracted_symbols, symbols_view};
use crate::index::{
    files_at_path, lemma_sort_by_path, lemma_sort_by_path_stable, sort_by_path, sort_files, sorted_by_path,
};
use crate::language::Language;
use crate::model::{Error, IoErrorKind, SourceFile};
use crate::path_order::{same_components, same_path};
use crate::primitives::{count_byte, count_spec, fnv1a_spec, hash_bytes};

verus! {

/// Files larger than this (bytes) are skipped: sources, not generated
/// artifacts or data dumps.
pub const MAX_FILE_SIZE: u64 = 1048576;

/// Leading bytes inspected for NUL when sniffing for binaries.
pub const BINARY_SNIFF_LEN: usize = 8192;

/// A file or subtree that the scan skipped, and why.
#[derive(Debug, Clone)]
pub struct ScanWarning {
    pub path: String,
    pub message: String,
}

impl ScanWarning {
    /// The path the warning is about.
    pub fn path(&self) -> (r: &str)
        ensures
            r@ == self.path@,
    {
        self.path.as_str()
    }

    /// What went wrong.
    pub fn message(&self) -> (r: &str)
        ensures
            r@ == self.message@,
    {
        self.message.as_str()
    }
}

/// Warnings collected during a scan.
#[derive(Debug, Clone)]
pub struct ScanDiagnostics {
    pub warnings: Vec<ScanWarning>,
}

impl Default for ScanDiagnostics {
    fn default() -> (r: ScanDiagnostics)
        ensures
            r.warnings@.len() == 0,
    {
        ScanDiagnostics { warnings: Vec::new() }
    }
}

/// A scan that cannot proceed: its root cannot be walked.
#[derive(Debug, Clone)]
pub enum ScanError {
    Walk { path: String, kind: IoErrorKind, message: String },
}

impl ScanError {
    /// The error of a scan whose root does not exist.
    pub fn root_not_found(root: String) -> (e: ScanError)
        ensures
            e matches ScanError::Walk { path, kind, message } && path@ == root@
                && kind == IoErrorKind::NotFound && message@ == "root path does not exist"@,
    {
        ScanError::Walk { path: root, kind: IoErrorKind::NotFound, message: "root path does not exist".to_owned() }
    }
}

/// Result of one scan pass.
#[derive(Debug)]
pub struct ScanOutput {
    pub files: Vec<SourceFile>,
    /// Files the walker visited after directory pruning.
    pub files_scanned: u64,
    pub diagnostics: ScanDiagnostics,
}

/// Directory names pruned from every scan.
pub open spec fn ignored_dir_names() -> Seq<Seq<char>> {
    seq![
        ".git"@,
        "target"@,
        "node_modules"@,
        "dist"@,
        "build"@,
        ".next"@,
        "coverage"@,
        "vendor"@,
        ".cache"@,
    ]
}

/// Directories pruned regardless of `.gitignore` state.
pub fn ignored_dirs() -> (r: Vec<&'static str>)
    ensures
        r@.map_values(|s: &str| s@) == ignored_dir_names(),
{
    let r = vec![".git", "target", "node_modules", "dist", "build", ".next", "coverage", "vendor", ".cache"];
    proof {
        assert(r@.map_values(|s: &str| s@) =~= ignored_dir_names());
    }
    r
}

/// Whether a directory of this name is pruned from the walk.
pub fn is_ignored_dir(name: &str) -> (r: bool)
    ensures
        r == ignored_dir_names().contains(name@),
{
    let dirs = ignored_dirs();
    let ghost names = dirs@.map_values(|s: &str| s@);
    let mut k: usize = 0;
    while k < dirs.len()
        invariant
            k <= dirs@.len(),
            names == dirs@.map_values(|s: &str| s@),
            names == ignored_dir_names(),
            forall|m: int| 0 <= m < k ==> names[m] != name@,
        decreases dirs@.len() - k,
    {
        if crate::syntax::str_equal(dirs[k], name) {
            proof {
                assert(names[k as int] == name@);
            }
            return true;
        }
        k = k + 1;
    }
    false
}

/// Calls `std::str::from_utf8`; std accepts exactly the valid UTF-8 inputs.
#[verifier::external_body]
fn is_valid_utf8(bytes: &[u8]) -> (r: bool)
    ensures
        r == valid_utf8(bytes@),
{
    std::str::from_utf8(bytes).is_ok()
}

/// Whether a file of this size (bytes) is small enough to index.
pub fn within_size_limit(len: u64) -> (r: bool)
    ensures
        r == (len <= MAX_FILE_SIZE),
{
    len <= MAX_FILE_SIZE
}

/// The bytes sniffed for NUL: the first `BINARY_SNIFF_LEN`, or all of them.
pub open spec fn sniffed_prefix(bytes: Seq<u8>) -> Seq<u8> {
    if bytes.len() <= BINARY_SNIFF_LEN {
        bytes
    } else {
        bytes.subrange(0, BINARY_SNIFF_LEN as int)
    }
}

/// Content that the scan indexes: no NUL among its sniffed prefix (not
/// binary) and valid UTF-8.
pub open spec fn indexable_content(bytes: Seq<u8>) -> bool {
    count_spec(sniffed_prefix(bytes), 0) == 0 && valid_utf8(bytes)
}

/// The indexed source file for the content of a file in a detected
/// language; `None` for binary (NUL-bearing) or non-UTF-8 content.
pub fn source_file_from_bytes(path: String, language: Language, bytes: Vec<u8>) -> (r: Option<SourceFile>)
    ensures
        r is Some <==> indexable_content(bytes@),
        r matches Some(f) ==> {
            &&& f.path@ == path@
            &&& f.language == language
            &&& f.content_hash == fnv1a_spec(bytes@)
            &&& symbols_view(f.symbols@) == extracted_symbols(language, bytes@)
        },
{
    let sniff_len = if bytes.len() < BINARY_SNIFF_LEN { bytes.len() } else { BINARY_SNIFF_LEN };
    let prefix = vstd::slice::slice_subrange(bytes.as_slice(), 0, sniff_len);
    proof {
        if bytes@.len() <= BINARY_SNIFF_LEN {
            assert(bytes@.subrange(0, sniff_len as int) =~= bytes@);
        }
    }
    if count_byte(prefix, 0) > 0 {
        return None;
    }
    if !is_valid_utf8(bytes.as_slice()) {
        return None;
    }
    let symbols = extract_symbols(language, bytes.as_slice());
    let content_hash = hash_bytes(bytes.as_slice());
    Some(SourceFile { path, language, symbols, content_hash })
}

impl ScanOutput {
    /// The output of a scan that has visited nothing yet.
    pub fn new() -> (r: ScanOutput)
        ensures
            r.files@.len() == 0,
            r.files_scanned == 0,
            r.diagnostics.warnings@.len() == 0,
    {
        ScanOutput { files: Vec::new(), files_scanned: 0, diagnostics: ScanDiagnostics::default() }
    }

    /// Records an error of the walk at `error_path` (the root where the
    /// error names no path): fatal where that path has the root's components
    /// (std's `Path` equality, so `repo/` is the root `repo`), with kind `Other` (it is an
    /// error of the walk, not an I/O error of its own), else a warning.
    pub fn record_walk_error(&mut self, root: &str, error_path: Option<String>, message: String) -> (r: Result<(), ScanError>)
        ensures
            ({
                let p = match error_path {
                    Some(p) => p@,
                    None => root@,
                };
                if same_components(p, root@) {
                    &&& r matches Err(ScanError::Walk { path, kind, message: m }) && path@ == root@
                        && kind == IoErrorKind::Other && m@ == message@
                    &&& final(self).diagnostics.warnings@ == old(self).diagnostics.warnings@
                } else {
                    &&& r is Ok
                    &&& final(self).diagnostics.warnings@.len() == old(self).diagnostics.warnings@.len() + 1
                    &&& final(self).diagnostics.warnings@.last().path@ == p
                    &&& final(self).diagnostics.warnings@.last().message@ == message@
                    &&& final(self).diagnostics.warnings@.drop_last() == old(self).diagnostics.warnings@
                }
            }),
            final(self).files@ == old(self).files@,
            final(self).files_scanned == old(self).files_scanned,
    {
        let path = match error_path {
            Some(p) => p,
            None => root.to_owned(),
        };
        if same_path(path.as_str(), root) {
            return Err(ScanError::Walk { path: root.to_owned(), kind: IoErrorKind::Other, message });
        }
        self.diagnostics.warnings.push(ScanWarning { path, message });
        Ok(())
    }

    /// Whether a walk entry is processed: every file below the root is,
    /// and counts as scanned.
    pub fn visits(depth: usize, is_file: bool) -> (r: bool)
        ensures
            r == (depth != 0 && is_file),
    {
        depth != 0 && is_file
    }

    /// Records the outcome of processing one visited file: an indexed file,
    /// a skipped one, or a warning.
    pub fn record_file(&mut self, outcome: Result<Option<SourceFile>, ScanWarning>)
        requires
            old(self).files_scanned < u64::MAX,
        ensures
            final(self).files_scanned == old(self).files_scanned + 1,
            final(self).files@ == match outcome {
                Ok(Some(f)) => old(self).files@.push(f),
                _ => old(self).files@,
            },
            final(self).diagnostics.warnings@ == match outcome {
                Err(w) => old(self).diagnostics.warnings@.push(w),
                _ => old(self).diagnostics.warnings@,
            },
    {
        self.files_scanned = self.files_scanned + 1;
        match outcome {
            Ok(Some(file)) => self.files.push(file),
            Ok(None) => {},
            Err(warning) => self.diagnostics.warnings.push(warning),
        }
    }

    /// Completes a scan: the files in deterministic (path) order.
    pub fn finish(self) -> (r: ScanOutput)
        ensures
            r.files@ == sort_by_path(self.files@),
            sorted_by_path(r.files@),
            r.files@.to_multiset() == self.files@.to_multiset(),
            forall|p: Seq<char>| #[trigger] files_at_path(r.files@, p) == files_at_path(self.files@, p),
            r.files_scanned == self.files_scanned,
            r.diagnostics.warnings@ == self.diagnostics.warnings@,
    {
        proof {
            lemma_sort_by_path(self.files@);
            assert forall|p: Seq<char>| #[trigger] files_at_path(sort_by_path(self.files@), p) == files_at_path(self.files@, p) by {
                lemma_sort_by_path_stable(self.files@, p);
            }
        }
        let ScanOutput { files, files_scanned, diagnostics } = self;
        ScanOutput { files: sort_files(files), files_scanned, diagnostics }
    }
}

impl From<ScanError> for Error {
    fn from(err: ScanError) -> (r: Error) {
        match err {
            ScanError::Walk { path, kind, message } => Error::Io { path, kind, message },
        }
    }
}

impl vstd::std_specs::convert::FromSpecImpl<ScanError> for Error {
    open spec fn obeys_from_spec() -> bool {
        true
    }

    open spec fn from_spec(v: ScanError) -> Error {
        match v {
            ScanError::Walk { path, kind, message } => Error::Io { path, kind, message },
        }
    }
}

} // verus!
