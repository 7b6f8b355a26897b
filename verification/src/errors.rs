use vstd::prelude::*;

verus! {

/// The kinds of unrecoverable failure a mirror run can end with.
#[derive(Clone, Copy, Debug, PartialEq, Eq, Structural)]
pub enum ErrorKind {
    /// A non-2xx status or a connection failure.
    Transport,
    /// A downloaded content blob hashed to something other than its expected digest.
    Integrity,
    /// A metadata document was malformed or missed a required key.
    Parse,
    /// An I/O failure while creating, reading or renaming files.
    Filesystem,
}

} // verus!
