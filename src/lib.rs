//! Consistent renaming of identifiers across a directory tree: file stems,
//! directory names and text contents, over an in-memory model of the tree.

pub mod text;
pub mod idmap;
pub mod names;
pub mod model;
pub mod passes;
pub mod convert;
pub mod uuid;
pub mod cache;
pub mod laws;
