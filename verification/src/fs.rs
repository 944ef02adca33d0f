//! The data types that the file-system abstraction trades in. The
//! asynchronous operations themselves — existence checks, metadata
//! fetches, reads, writes and the directory walk — belong to the caller
//! that owns the file system; these types carry their results.

pub mod async_fs;
pub mod simple_async_fs;
