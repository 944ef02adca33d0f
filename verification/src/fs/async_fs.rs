//! Plain value types for file-system results: metadata, a discovered
//! file entry, and a file's content.

use vstd::prelude::*;

verus! {

/// Custom file metadata containing only the information needed.
#[derive(Debug)]
pub struct FileMetadata {
    /// Size of the file in bytes.
    pub size: u64,
}

/// A file discovered during directory scanning. It is never a
/// directory, only a file.
#[derive(Debug)]
pub struct FileEntry {
    /// The file path as a string.
    pub absolute_path: String,
    /// Custom metadata for the file.
    pub metadata: FileMetadata,
}

/// The content of a file along with its file entry.
#[derive(Debug)]
pub struct FileContent {
    /// The file entry containing path and metadata.
    pub entry: FileEntry,
    /// The raw content of the file.
    pub content: Vec<u8>,
}

} // verus!
