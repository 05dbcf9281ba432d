//! Recursive line search: every line of every readable text file under a root
//! that a regular expression matches, with the file's path and the line's
//! zero-based number.
//!
//! The library decides and computes; the caller touches the file system. A
//! [`walker::Walker`] asks for one file-system operation at a time and is told
//! what came of it, and [`matcher::search_file`] turns what was read from one
//! file into its match records. [`tree`] states what a depth-first visit of a
//! directory tree is and proves that the walker performs it.

pub mod lines;
pub mod matcher;
pub mod pattern;
pub mod tree;
pub mod walker;
