use vstd::prelude::*;

verus! {

/// The recoverable failures of the lock engine.
#[derive(Debug, Clone, Copy, PartialEq, Eq, Structural)]
pub enum FlockError {
    /// A malformed argument: unknown whence or type code, a negative start,
    /// a missing mandatory field, or an endpoint that would invert a range.
    InvalidArgument,
    /// Offset arithmetic left the representable range.
    Overflow,
    /// A non-blocking request met a conflicting lock.
    WouldBlock,
}

} // verus!
