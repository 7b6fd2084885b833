//! An immutable, structurally shared rope: a tree of text chunks that
//! supports concatenation, slicing, insertion, deletion, line indexing
//! and traversal without copying the whole document on every edit.

pub mod laws;
pub mod rcstring;
pub mod rope;
pub mod text;
