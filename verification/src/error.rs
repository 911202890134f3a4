use vstd::prelude::*;

verus! {

/// Failures reported by the browser core.
#[derive(Debug)]
pub enum CoreError {
    /// A caller-supplied value was rejected.
    InvalidArgument(String),
    /// The named kind of object (first field) with the given id (second) does not exist.
    NotFound(&'static str, String),
    /// Persistence failed; the message describes the storage error.
    Storage(String),
    /// A network operation failed.
    Network(String),
    /// An unexpected internal failure.
    Internal(String),
}

} // verus!
