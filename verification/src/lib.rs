//! Core engine of a directory browser.
//!
//! The engine has three parts:
//! - path resolution: expands user-typed path syntax (home shorthand,
//!   environment variables, mixed separators) into a canonical,
//!   separator-normalized path string;
//! - directory scanning: turns the raw metadata of a directory's children
//!   into classified entries, applying the hidden-entry filter;
//! - ordering: reorders entries in place under a stable comparison keyed by
//!   the active sort key.
//!
//! The engine itself touches no filesystem and no process environment: the
//! caller hands it the raw path text, a snapshot of the environment variables,
//! and the per-child metadata it observed, and receives plain values back.

pub mod file_manager;
pub mod file_ordering;
pub mod paths;
pub mod text;

pub use file_manager::{
    check_dir_exists, classify_open_error, extension_of, format_system_time_opt,
    get_files_in_dir, is_hidden, scan_outcome, DirProbe, FileInfo, FileType, RawEntry,
    ScanError, Timestamp,
};
pub use file_ordering::{DisplayOptions, KeyLess, SortBy};
pub use paths::{evaluate_path_vars, EnvVars, PathError};
