use vstd::prelude::*;

verus! {

/// Errors of the store.
#[derive(Debug, Clone, PartialEq, Eq)]
pub enum StoreError {
    /// A system call failed with this errno.
    System(i32),
    /// A read returned fewer bytes than requested.
    InsufficientData,
    Internal(String),
    WriteWindow,
    IoUring,
    Configuration(String),
    NotFound(String),
}

} // verus!
