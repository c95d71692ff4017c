//! Why a request to the allocator can fail.

use vstd::prelude::*;

verus! {

/// The failures the allocator reports. None of them is fatal: a failed call
/// leaves the allocator as it was.
#[derive(Debug, Clone, Copy, PartialEq, Eq, Structural)]
pub enum AllocError {
    /// The operation is not supported, whatever its arguments.
    InvalidParam,
    /// The request does not fit between the two bump pointers, its size
    /// overflows, or it asks for zero pages.
    NoMemory,
}

} // verus!
