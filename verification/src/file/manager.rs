//! Directories that downloads are saved to.

use vstd::prelude::*;

verus! {

/// Keeps directories for downloads.
#[derive(Debug, Clone, Copy, PartialEq, Eq, Structural)]
pub struct FileManager {}

impl FileManager {
    /// A file manager.
    pub fn new() -> (r: FileManager)
        ensures
            r == (FileManager {  }),
    {
        FileManager {  }
    }

    /// Whether a directory has to be created before it is used.
    pub fn must_create(&self, exists: bool) -> (r: bool)
        ensures
            r == !exists,
    {
        !exists
    }
}

impl Default for FileManager {
    fn default() -> (r: FileManager)
        ensures
            r == (FileManager {  }),
    {
        Self::new()
    }
}

} // verus!
