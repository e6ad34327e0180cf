//! The ways in which a request against the store can be refused.

use vstd::prelude::*;

verus! {

/// Why an operation on the store was refused.
#[derive(Clone, Copy, Debug, PartialEq, Eq, Structural)]
pub enum HookError {
    /// A state request named an index beyond the next free slot.
    OrderViolation,
    /// The slot holds a value of another kind than the one offered.
    TypeMismatch,
    /// The path names a position that does not exist and may not be created.
    UnknownPath,
    /// The index names a slot that was never established.
    UnknownSlot,
}

} // verus!
