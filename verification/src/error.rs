use vstd::prelude::*;

verus! {

/// What went wrong while touching a file.
#[derive(Debug)]
pub enum ErrorKind {
    /// A file could not be read.
    ReadFailed { path: String, reason: String },
    /// A file could not be written or removed.
    WriteFailed { path: String, reason: String },
}

} // verus!
