//! Temporary files that are removed unless the work that wrote them
//! finished.

use vstd::prelude::*;

verus! {

/// A temporary file to remove when the work is dropped, unless disarmed.
#[derive(Debug)]
pub struct TempFileCleanup {
    pub path: String,
    pub disarmed: bool,
}

impl TempFileCleanup {
    /// Watches `path`: it will be removed.
    pub fn new(path: String) -> (r: Self)
        ensures
            r.path == path,
            !r.disarmed,
    {
        TempFileCleanup { path, disarmed: false }
    }

    /// The work finished: the file stays.
    pub fn disarm(&mut self)
        ensures
            final(self).disarmed,
            final(self).path == old(self).path,
    {
        self.disarmed = true;
    }

    /// Whether the file is to be removed.
    pub fn should_remove(&self) -> (r: bool)
        ensures
            r == !self.disarmed,
    {
        !self.disarmed
    }
}

} // verus!
