//! Verified core of a tool that exports the files touched by selected commits.
//!
//! The crate selects commits by a text filter or an explicit list of
//! identifiers, turns the change entries of the selected commits into file
//! writes below an export root, and packs a directory walk into a zip archive.
//! Reading the repository and touching the file system is left to the caller,
//! which hands plain values in and takes plain values back.

pub mod error;
pub mod extract;
pub mod path;
pub mod select;
pub mod text;
pub mod zip_utils;
pub mod zip_writer;

pub use error::ExportError;
pub use extract::extract_commit;
pub use select::select_commits;
pub use text::match_str;
pub use zip_utils::ZipUtils;
