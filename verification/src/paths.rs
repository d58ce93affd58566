//! Path decomposition through `std::path::Path`.
//!
//! Paths are held as `/`-separated strings. What `std::path::Path` computes
//! of them (parent, file name, prefix stripping) is named here, and each
//! name is applied by the one wrapper that calls the std method; the
//! extension is stated in terms of the file name.

use vstd::prelude::*;

verus! {

/// `path` with the leading components `root` removed, as
/// `std::path::Path::strip_prefix` computes it (`None` where it fails).
pub uninterp spec fn stripped_path_of(path: Seq<char>, root: Seq<char>) -> Option<Seq<char>>;

/// The parent of a path, as `std::path::Path::parent` computes it.
pub uninterp spec fn parent_path_of(path: Seq<char>) -> Option<Seq<char>>;

/// The last component of a path, as `std::path::Path::file_name` computes it.
pub uninterp spec fn file_name_of(path: Seq<char>) -> Option<Seq<char>>;

/// Position of the last `.` in `s`, if any.
pub open spec fn last_dot(s: Seq<char>) -> Option<int>
    decreases s.len(),
{
    if s.len() == 0 {
        None
    } else if s.last() == '.' {
        Some(s.len() - 1)
    } else {
        last_dot(s.drop_last())
    }
}

/// The extension of a file name: the text after its last `.`, except for
/// `..` and for a name whose last `.` is its first character (`.bashrc`).
pub open spec fn name_extension(name: Seq<char>) -> Option<Seq<char>> {
    if name == seq!['.', '.'] {
        None
    } else {
        match last_dot(name) {
            Some(i) => if i == 0 {
                None
            } else {
                Some(name.skip(i + 1))
            },
            None => None,
        }
    }
}

/// The extension of a path: that of its last component, if it has one.
pub open spec fn path_extension_of(path: Seq<char>) -> Option<Seq<char>> {
    match file_name_of(path) {
        Some(n) => name_extension(n),
        None => None,
    }
}

/// Calls `std::path::Path::extension`, which splits the file name
/// (`Path::file_name`) at its last `.` as `name_extension` says.
#[verifier::external_body]
pub(crate) fn path_extension(path: &str) -> (r: Option<String>)
    ensures
        match r {
            Some(e) => path_extension_of(path@) == Some(e@),
            None => path_extension_of(path@) is None,
        },
{
    std::path::Path::new(path).extension().map(|e| e.to_string_lossy().into_owned())
}

/// Calls `std::path::Path::strip_prefix`; claims only that the result is
/// `stripped_path_of` the two paths.
#[verifier::external_body]
pub(crate) fn path_strip_prefix(path: &str, root: &str) -> (r: Option<String>)
    ensures
        match r {
            Some(e) => stripped_path_of(path@, root@) == Some(e@),
            None => stripped_path_of(path@, root@) is None,
        },
{
    std::path::Path::new(path).strip_prefix(root).ok().map(|p| p.to_string_lossy().into_owned())
}

/// Calls `std::path::Path::parent`; claims only that the result is
/// `parent_path_of` the path.
#[verifier::external_body]
pub(crate) fn path_parent(path: &str) -> (r: Option<String>)
    ensures
        match r {
            Some(e) => parent_path_of(path@) == Some(e@),
            None => parent_path_of(path@) is None,
        },
{
    std::path::Path::new(path).parent().map(|p| p.to_string_lossy().into_owned())
}

/// Calls `std::path::Path::file_name`; claims only that the result is
/// `file_name_of` the path.
#[verifier::external_body]
pub(crate) fn path_file_name(path: &str) -> (r: Option<String>)
    ensures
        match r {
            Some(e) => file_name_of(path@) == Some(e@),
            None => file_name_of(path@) is None,
        },
{
    std::path::Path::new(path).file_name().map(|n| n.to_string_lossy().into_owned())
}

} // verus!
