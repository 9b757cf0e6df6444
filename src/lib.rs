//! Interactive scan-and-replace of SemVer version strings in text files.
//!
//! The library holds the whole decision logic: the SemVer matcher, the
//! operator's answers, the line model of a file and the replacement session
//! that walks a file match by match. Reading, prompting and writing are left
//! to the caller.

pub mod arguments;
pub mod engine;
pub mod lines;
pub mod operator;
pub mod semver;
