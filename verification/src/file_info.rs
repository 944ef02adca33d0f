//! A compact per-file summary: the file's path, size and text verdict,
//! for callers that need the successful outcome only.

use vstd::prelude::*;

verus! {

/// A successfully probed file: its path, whether it is text, and its
/// size in bytes.
#[derive(Debug)]
pub struct FileInfo {
    pub is_text: bool,
    pub path_to_file: String,
    pub size: u64,
}

} // verus!
