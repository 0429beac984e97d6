//! A directory-jump library: given a lowercased query, it finds the
//! directories of a tree whose names contain the query (case-insensitively,
//! skipping hidden entries), ranks them by path length, and resolves the
//! result either directly or through a numbered selection.

pub mod laws;
pub mod numeral;
pub mod resolve;
pub mod strutil;
pub mod tree;
