//! The ways in which an export run can fail.

use vstd::prelude::*;

verus! {

/// Why a run stopped. Every one of these ends the run; nothing is retried.
#[derive(Debug, Clone, Copy, PartialEq, Eq, Structural)]
pub enum ExportError {
    /// The repository cannot be opened, or its history cannot be walked.
    Repository,
    /// The message, author name or author email of a commit is not text.
    MalformedCommit,
    /// The difference between two trees cannot be computed.
    DiffComputation,
    /// A directory cannot be created or a file cannot be written.
    FileSystem,
    /// The directory to archive does not exist or is not a directory.
    SourceNotFound,
    /// The archive cannot be created, or an entry cannot be read or written.
    ArchiveWrite,
}

impl ExportError {
    /// The name under which the error is reported.
    pub open spec fn name(self) -> Seq<char> {
        match self {
            ExportError::Repository => "RepositoryError"@,
            ExportError::MalformedCommit => "MalformedCommitError"@,
            ExportError::DiffComputation => "DiffComputationError"@,
            ExportError::FileSystem => "FileSystemError"@,
            ExportError::SourceNotFound => "SourceNotFoundError"@,
            ExportError::ArchiveWrite => "ArchiveWriteError"@,
        }
    }

    /// The name of the error as a string, for messages.
    pub fn describe(&self) -> (text: String)
        ensures
            text@ == self.name(),
    {
        match self {
            ExportError::Repository => "RepositoryError".to_owned(),
            ExportError::MalformedCommit => "MalformedCommitError".to_owned(),
            ExportError::DiffComputation => "DiffComputationError".to_owned(),
            ExportError::FileSystem => "FileSystemError".to_owned(),
            ExportError::SourceNotFound => "SourceNotFoundError".to_owned(),
            ExportError::ArchiveWrite => "ArchiveWriteError".to_owned(),
        }
    }
}

} // verus!
