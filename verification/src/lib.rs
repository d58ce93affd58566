//! Sift: repository scanning, symbol extraction, indexing and reporting,
//! with the computational core specified and verified.

pub mod primitives;
pub mod language;
pub mod model;
pub mod text;
pub mod paths;
pub mod path_order;
pub mod index;
pub mod render;
pub mod syntax;
pub mod lang;
pub mod extract;
pub mod treesitter;
pub mod scanner;
pub mod native;
pub mod cli;
mod std_trusted;
