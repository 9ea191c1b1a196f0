//! The one error of the library: a path that could not be read.

use vstd::prelude::*;
use vstd::string::*;

verus! {

/// A path that does not exist, is inaccessible or cannot be read, with the
/// cause that the system gave.
#[derive(Debug)]
pub struct FileSystemError {
    pub path: String,
    pub cause: String,
}

impl FileSystemError {
    /// The text shown to the user: the path, a colon and the cause.
    pub open spec fn message_text(&self) -> Seq<char> {
        self.path@ + ": "@ + self.cause@
    }

    /// The text shown to the user: the path, a colon and the cause.
    pub fn message(&self) -> (m: String)
        ensures
            m@ == self.message_text(),
    {
        let mut m = self.path.clone();
        m.append(": ");
        m.append(self.cause.as_str());
        m
    }
}

} // verus!
