//! The typed failures of the registry's three operations.

use vstd::prelude::*;

verus! {

/// Why an operation on the directory state failed.
///
/// Every error is terminal for the call that raised it: an operation either
/// fully applies its effect or leaves the store untouched.
#[derive(Clone, Copy, Debug, PartialEq, Eq, Structural)]
pub enum ContractError {
    /// `init` was called while the singleton record already exists.
    AlreadyInitialized,
    /// `handle` or `query` was called before `init`, or the singleton
    /// record does not hold a well-formed directory state.
    Uninitialized,
    /// `query` asked for a file name that was never registered.
    KeyNotFound,
}

impl ContractError {
    /// A human-readable description of the failure.
    pub fn describe(&self) -> (r: &'static str)
        ensures
            r@ == match self {
                ContractError::AlreadyInitialized => "directory state already initialized"@,
                ContractError::Uninitialized => "directory state not initialized"@,
                ContractError::KeyNotFound => "file name not registered"@,
            },
    {
        proof {
            reveal_strlit("directory state already initialized");
            reveal_strlit("directory state not initialized");
            reveal_strlit("file name not registered");
        }
        match self {
            ContractError::AlreadyInitialized => "directory state already initialized",
            ContractError::Uninitialized => "directory state not initialized",
            ContractError::KeyNotFound => "file name not registered",
        }
    }
}

} // verus!
