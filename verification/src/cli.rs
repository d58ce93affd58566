//! The commands of the command-line interface and the report each one
//! renders.

use vstd::prelude::*;

use crate::index::{total_symbols, RepositoryIndex};
use crate::render::{
    find_report, language_breakdown_report, map_report, render_find, render_map, render_stats,
};

verus! {

/// A command: which report to produce, over which repository root.
#[derive(Debug, Clone)]
pub enum Command {
    /// A tree of source files and their symbols.
    RepoMap { path: String },
    /// Symbols whose name contains `symbol` (case-sensitive).
    Find { symbol: String, path: String },
    /// Repository statistics.
    Stats { path: String },
}

/// A parsed command line.
#[derive(Debug, Clone)]
pub struct Cli {
    pub command: Command,
}

/// The repository root a command scans.
pub open spec fn command_root(command: Command) -> Seq<char> {
    match command {
        Command::RepoMap { path } => path@,
        Command::Find { path, .. } => path@,
        Command::Stats { path } => path@,
    }
}

/// The report of a command over an index of its root.
pub open spec fn command_report(command: Command, index: RepositoryIndex) -> Seq<char> {
    match command {
        Command::RepoMap { .. } => map_report(index.files_spec(), index.root_spec()),
        Command::Find { symbol, .. } => find_report(index.files_spec(), index.root_spec(), symbol@),
        Command::Stats { .. } => language_breakdown_report(index),
    }
}

impl Command {
    /// The repository root the command scans.
    pub fn root(&self) -> (r: &str)
        ensures
            r@ == command_root(*self),
    {
        match self {
            Command::RepoMap { path } => path.as_str(),
            Command::Find { path, .. } => path.as_str(),
            Command::Stats { path } => path.as_str(),
        }
    }
}

/// Renders the report of a command over an index of its root.
pub fn render_report(command: &Command, index: &RepositoryIndex) -> (s: String)
    requires
        total_symbols(index.files_spec()) <= usize::MAX,
    ensures
        s@ == command_report(*command, *index),
{
    match command {
        Command::RepoMap { .. } => render_map(index),
        Command::Find { symbol, .. } => render_find(index, symbol.as_str()),
        Command::Stats { .. } => render_stats(index),
    }
}

} // verus!
