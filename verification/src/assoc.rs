//! The associativity of a position anchor: which side of its referenced
//! element a sticky index clings to.

use vstd::prelude::*;

verus! {

/// Which neighbour a sticky index follows when its exact position is
/// contested by concurrent edits.
#[derive(Debug, Clone, Copy, PartialEq, Eq, Structural)]
pub enum Assoc {
    /// The anchor points at the space after the referenced element.
    After,
    /// The anchor points at the space before the referenced element.
    Before,
}

impl Assoc {
    /// The numeric tag used by the structured-text form: zero for
    /// after-association, minus one for before-association.
    pub fn tag(&self) -> (r: i8)
        ensures
            r == (match self {
                Assoc::After => 0i8,
                Assoc::Before => -1i8,
            }),
    {
        match self {
            Assoc::After => 0,
            Assoc::Before => -1,
        }
    }
}

} // verus!
