//! Error kinds of the library. Per-file errors are isolated by the
//! ingestion pipeline; a commit failure rejects the whole batch.

use vstd::prelude::*;

verus! {

/// Why one file failed to ingest. The file is recorded in the failed list
/// and the batch continues.
#[derive(Clone, Copy, Debug, PartialEq, Eq, Structural)]
pub enum FileError {
    /// The file could not be opened, sized, read, or mapped.
    Io,
    /// The bytes were not valid UTF-8 for a plain-text file.
    Decode,
    /// No strategy could determine the content type.
    Classification,
    /// Text extraction failed, including an isolated abnormal termination
    /// inside the extraction library.
    Extraction,
    /// The inverted index rejected the document.
    IndexWrite,
    /// The metadata row could not be persisted; a compensating delete for
    /// the path was queued.
    MetadataWrite,
}

/// Why a whole batch was rejected.
#[derive(Clone, Copy, Debug, PartialEq, Eq, Structural)]
pub enum BatchError {
    /// The index commit failed; the batch may be retried.
    Commit,
}

/// Why startup failed. Fatal: the process exits non-zero.
#[derive(Clone, Copy, Debug, PartialEq, Eq, Structural)]
pub enum BootstrapError {
    /// The inverted index could not be opened or created.
    Index,
    /// The metadata store could not be opened or its schema created.
    Store,
}

/// Why the metadata store refused an operation.
#[derive(Clone, Copy, Debug, PartialEq, Eq, Structural)]
pub enum StoreError {
    Open,
    Schema,
    Write,
    Read,
}

/// Why the inverted index refused an operation.
#[derive(Clone, Copy, Debug, PartialEq, Eq, Structural)]
pub enum IndexError {
    Open,
    Write,
    Commit,
    Reload,
}

/// Why a search returned nothing through the error path.
#[derive(Clone, Copy, Debug, PartialEq, Eq, Structural)]
pub enum SearchError {
    /// The query did not parse against the contents field.
    Parse,
    /// The engine failed while executing the query.
    Execute,
}

} // verus!
