//! The plain file-system implementation's handle. The operations that
//! touch the file system are implemented where the asynchronous runtime
//! lives; the handle itself carries no state.

use vstd::prelude::*;

verus! {

/// The plain file-system implementation: a stateless handle.
pub struct SimpleAsyncFS;

impl SimpleAsyncFS {
    /// Creates a new instance of SimpleAsyncFS.
    pub fn new() -> Self {
        SimpleAsyncFS
    }
}

} // verus!
