//! Analysis and rewriting of text-file line endings and byte-order marks.
//!
//! The library classifies a file's line-ending convention (LF, CRLF, mixed)
//! from its bytes, detects a leading BOM, and computes the rewritten content
//! for a requested line-ending style or with the BOM stripped. All functions
//! work on plain byte sequences; reading and writing files is left to callers.

pub mod analysis;
pub mod backup;
pub mod bom;
pub mod rewrite;
pub mod scan;
pub mod types;
