//! Locates the files named by user input (paths, directories, glob patterns,
//! fragments of names), orders and deduplicates them, and renders each file
//! in full or as a depth-bounded skeleton of its syntax tree.
pub mod types;
pub mod paths;
pub mod file_resolver;
pub mod aggregate;
pub mod text;
pub mod symbol_extractor;
pub mod context;
pub mod syntax_tree;
