//! Core engine of a file-explorer backend: long-running, cancellable scans of
//! a directory tree (fuzzy name search, full-text content search, and
//! large-directory enumeration) that stream results back incrementally.
pub mod config;
pub mod content;
pub mod fsprobe;
pub mod fuzzy;
pub mod listing;
pub mod registry;
pub mod seqtools;
pub mod textops;
pub mod thumbs;
