//! The per-cell state abstraction.

use vstd::prelude::*;

verus! {

/// The remaining possibilities at one cell.
///
/// `entropy_spec` measures how unresolved the cell is: `0` means the cell is
/// terminal (collapsed to a single possibility, or to none), anything greater
/// means the cell is still eligible for observation and propagation.
pub trait State: Sized {
    /// How unresolved this state is; `0` means resolved.
    spec fn entropy_spec(&self) -> u32;

    /// Report the entropy of this state.
    fn entropy(&self) -> (e: u32)
        ensures
            e == self.entropy_spec(),
    ;

    /// A snapshot of this state, equal by value to the original.
    fn clone_state(&self) -> (s: Self)
        ensures
            s == *self,
    ;
}

} // verus!
