//! A small, verified batch pipeline over delimited text files: scan a
//! directory listing for delimited files, read their rows, load them into a
//! typed in-memory columnar table, run projection, filtering, sorting and
//! deduplication over the table, and merge many files' rows into one output,
//! optionally behind a synthesized header line.
//!
//! Tokenizing and rendering of the delimited text itself is delegated to the
//! `csv` crate behind a pair of trusted wrappers; everything downstream of the
//! raw records - type inference, the table, its operations, the merge logic -
//! is specified and verified here. File and directory access stays outside
//! the library: callers hand in bytes and take bytes or strings back.

pub mod errors;
pub mod numtext;
pub mod csvio;
pub mod scan;
pub mod table;
pub mod access;
pub mod rows;
pub mod query;
pub mod dedup;
pub mod merge;
pub mod order;
