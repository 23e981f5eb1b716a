//! The error type shared by the quantum modules.

use vstd::prelude::*;

verus! {

/// An error raised by a quantum operation or a configuration check.
#[derive(Debug)]
pub enum CoreError {
    /// The operation cannot be carried out; the text says why.
    InvalidOperation(String),
    /// A configuration value is out of range; the text says which.
    InvalidConfig(String),
}

impl CoreError {
    /// An `InvalidOperation` error carrying `msg`.
    pub fn invalid_operation(msg: &str) -> (e: CoreError)
        ensures
            e matches CoreError::InvalidOperation(m) && m@ == msg@,
    {
        CoreError::InvalidOperation(msg.to_owned())
    }
}

} // verus!
