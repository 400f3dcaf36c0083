//! The ways in which an operation on the runtime fails.

use vstd::prelude::*;

verus! {

/// Why an operation failed.
#[derive(Clone, Copy, Debug, PartialEq, Eq, Hash, Structural)]
pub enum Error {
    /// The encodings of a call site, or the number of its arguments,
    /// disagree with the selector or with the declared signature.
    SignatureMismatch,
    /// No class on the receiver's superclass chain has a method for the
    /// selector.
    MethodNotFound,
    /// The name is in use already.
    NameCollision,
    /// The class reference names no registered class.
    UnknownClass,
    /// An instance variable has the alignment zero, or the instance does
    /// not fit in the address space.
    BadLayout,
}

} // verus!
