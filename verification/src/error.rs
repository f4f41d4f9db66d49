//! The error type of the library.

use vstd::prelude::*;

verus! {

/// What can go wrong. Paths and the messages of underlying failures are
/// carried as text.
#[derive(Debug, Clone)]
pub enum YgrepError {
    /// A file-system operation failed.
    Io(String),
    /// The inverted index reported a failure.
    Index(String),
    /// A query could not be parsed.
    QueryParse(String),
    /// A setting or a stored value is not usable.
    Config(String),
    /// The workspace directory does not exist.
    WorkspaceNotFound(String),
    /// The workspace has no index yet.
    WorkspaceNotIndexed(String),
    /// The path has no usable form.
    InvalidPath(String),
    /// A chain of symbolic links is longer than allowed.
    SymlinkDepthExceeded(String),
    /// A symbolic link leads back to a place already visited.
    CircularSymlink(String),
    /// The background service could not be reached.
    DaemonConnection(String),
    /// A message of the background service was malformed.
    Protocol(String),
    /// A search took too long.
    Timeout,
    /// The file is larger than the configured limit.
    FileTooLarge { path: String, size: u64, max: u64 },
    /// The file's type is not indexed.
    UnsupportedFileType(String),
    /// The index directory could not be opened.
    IndexDirectory(String),
    /// The file watcher reported a failure.
    WatchError(String),
}

} // verus!
