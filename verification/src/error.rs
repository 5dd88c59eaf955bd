use vstd::prelude::*;

verus! {

/// A failure of a store operation.
///
/// Serialization of an in-memory event cannot fail here (the record
/// encoding is total), so the taxonomy has two members: filesystem
/// failures, and files whose contents do not decode as an event.
#[derive(Debug, Clone, PartialEq)]
pub enum Error {
    /// A directory or file operation failed at the filesystem level,
    /// for example because the target does not exist.  Carries the
    /// name of the path that the operation was aimed at.
    Filesystem { path: String },
    /// The contents of the named file do not decode as an event
    /// record.
    Deserialization { file: String },
}

} // verus!
