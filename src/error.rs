//! The error kinds of the key-value capability.
use vstd::prelude::*;

verus! {

/// Every failure this layer reports; none of them ends the process.
#[derive(Clone, Debug)]
pub enum KeyvalueError {
    /// The name has no configuration entry, or the backend holds no such key.
    NotFound,
    /// The configured identity names no enabled key-value backend.
    UnsupportedResource,
    /// Building the backend instance failed; carries the backend's message.
    BackendConstructionError(String),
    /// A backend operation failed; carries the backend's message.
    BackendError(String),
}

} // verus!
