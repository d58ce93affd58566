//! Per-language symbol classifiers over the syntax-tree model, and the
//! shared helpers they use.

pub mod common;
pub mod rust;
pub mod c;
pub mod cpp;
pub mod go;
pub mod python;
pub mod javascript;
pub mod typescript;
