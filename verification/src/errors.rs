//! The error taxonomy shared by every fallible operation of the crate.

use vstd::prelude::*;

verus! {

/// Why an operation failed.
///
/// Every boundary-facing operation reports failure through this type; none
/// aborts the process.
#[derive(Debug, Clone, Copy, PartialEq, Eq, Structural)]
pub enum Error {
    /// A mutable transaction is already outstanding on the document.
    Concurrency,
    /// Binary or textual input was malformed; `offset` is the byte position
    /// at which decoding gave up.
    Decode { offset: usize },
    /// A root type was requested under a name already bound to a different
    /// kind of shared type.
    TypeMismatch,
    /// A sticky index could not be mapped back to an offset: its anchor and
    /// the associativity-directed neighbour are both gone.
    AnchorUnresolvable,
    /// The operations an update or snapshot needs are not available and
    /// could not be made so. Updates whose causal predecessors are merely
    /// still in flight do not raise this: the engine buffers them and
    /// integrates them when the predecessors arrive. It arises when an
    /// update names a parent that cannot exist locally, or when restoring
    /// from a snapshot whose history the document has garbage-collected.
    MissingDependency,
    /// A position argument lay outside the current bounds of a shared type.
    OutOfBounds,
}

impl Error {
    /// A short human-readable description of the error.
    pub fn describe(&self) -> (r: &'static str)
        ensures
            r@.len() > 0,
    {
        let r = match self {
            Error::Concurrency => "already in a transaction",
            Error::Decode { offset: _ } => "malformed input",
            Error::TypeMismatch => "root already exists with a different type",
            Error::AnchorUnresolvable => "sticky index cannot be resolved",
            Error::MissingDependency => "update depends on missing operations",
            Error::OutOfBounds => "position out of bounds",
        };
        proof {
            reveal_strlit("already in a transaction");
            reveal_strlit("malformed input");
            reveal_strlit("root already exists with a different type");
            reveal_strlit("sticky index cannot be resolved");
            reveal_strlit("update depends on missing operations");
            reveal_strlit("position out of bounds");
        }
        r
    }
}

} // verus!
