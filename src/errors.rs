//! Errors of the credential algebra.
use vstd::prelude::*;

verus! {

/// Why an operation of the credential algebra could not be carried out.
#[derive(Debug, Clone, Copy, PartialEq, Eq, Structural)]
pub enum CryptoError {
    /// A big-integer operation failed.
    ArithmeticError,
    /// The caller handed over data that the operation cannot work on.
    InvalidData,
    /// The operation was invoked in a state that does not permit it.
    InvalidState,
}

} // verus!
