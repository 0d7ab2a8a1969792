//! Duplicate-file detection by content fingerprint.
//!
//! Files are identified by the SHA-256 digest of their bytes. The library
//! decides which files take part in a scan, groups them by fingerprint, and
//! derives reports and deletion plans from the groups. It never touches the
//! file system itself: callers hand it paths, sizes and bytes, and carry out
//! the actions it returns.
//!
//! ## Modules
//!
//! - [`hashing`]: fingerprints, computed in one go or chunk by chunk.
//! - [`file_compare`]: comparison of two files by fingerprint.
//! - [`filter`]: filter criteria and their command-line flags.
//! - [`traverser`]: the work list of a directory traversal.
//! - [`grouping`]: the grouping of files by fingerprint.
//! - [`scanner`]: the scan, from a listing of files to their grouping.
//! - [`report`]: the report on the groups with more than one file.
//! - [`safe_delete`]: deletion plans that keep one copy of every group.
//! - [`handler`]: the command line.
//! - [`text`]: strings as sequences of characters.
pub mod file_compare;
pub mod filter;
pub mod grouping;
pub mod handler;
pub mod hashing;
pub mod report;
pub mod safe_delete;
pub mod scanner;
pub mod text;
pub mod traverser;
