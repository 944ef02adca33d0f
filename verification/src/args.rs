//! The resolved configuration that the pipeline runs with. Turning
//! command-line input into these values — canonicalizing paths and
//! checking that the search directory exists — is the caller's work;
//! the pipeline only consumes the result.

use vstd::prelude::*;

verus! {

/// The resolved run configuration: where to write the archive, which
/// archive format to use, which patterns select candidates, and where
/// to search.
#[derive(Debug)]
pub struct Args {
    pub output_file_path: String,
    pub file_type: String,
    pub patterns: Vec<String>,
    pub search_dir: String,
}

} // verus!
