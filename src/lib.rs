//! Selects the files to print from a list of path arguments and renders
//! each as a fenced block labelled with its path.
//!
//! Paths are byte strings, as on Unix. The operating system's answers (what
//! a path is, its canonical form, a directory's entries, a file's bytes) are
//! handed in by the caller; everything decided from them is here:
//! - `paths`: resolving an argument and deriving the path shown for a file;
//! - `exclude`: substring matching against exclusion patterns;
//! - `walk`: a depth-first directory walk that prunes excluded subtrees;
//! - `text`: telling text from binary and building the printed block;
//! - `report`: what to do with each argument and what is said at the end.

pub mod exclude;
pub mod paths;
pub mod report;
pub mod text;
pub mod walk;
