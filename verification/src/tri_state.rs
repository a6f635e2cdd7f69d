//! A small concrete cell state: a set over a three-symbol alphabet.

use vstd::prelude::*;
use crate::state::State;

verus! {

/// A cell state over three symbols: each flag records whether the
/// corresponding symbol is still possible. `observed` is set by the rules of
/// this crate when a cell is resolved by an observation (rather than purely
/// by propagation); the driver never reads it.
#[derive(Clone, Copy, PartialEq, Eq, Structural, Debug)]
pub struct TriState {
    pub a: bool,
    pub b: bool,
    pub c: bool,
    pub observed: bool,
}

impl TriState {
    /// How many symbols are still possible.
    pub open spec fn poss_count(&self) -> int {
        (if self.a {
            1int
        } else {
            0
        }) + (if self.b {
            1int
        } else {
            0
        }) + (if self.c {
            1int
        } else {
            0
        })
    }

    /// A fresh state with the given symbols possible, not yet observed.
    pub fn new(a: bool, b: bool, c: bool) -> (s: TriState)
        ensures
            s.a == a,
            s.b == b,
            s.c == c,
            !s.observed,
    {
        TriState { a, b, c, observed: false }
    }

    /// Count the symbols still possible.
    pub fn count(&self) -> (n: u32)
        ensures
            n == self.poss_count(),
    {
        let mut n: u32 = 0;
        if self.a {
            n += 1;
        }
        if self.b {
            n += 1;
        }
        if self.c {
            n += 1;
        }
        n
    }
}

impl State for TriState {
    /// `0` once at most one symbol is left (a single possibility and the
    /// empty set are both terminal), otherwise the number of remaining
    /// symbols.
    open spec fn entropy_spec(&self) -> u32 {
        if self.poss_count() <= 1 {
            0u32
        } else {
            self.poss_count() as u32
        }
    }

    fn entropy(&self) -> (e: u32) {
        let n = self.count();
        if n <= 1 {
            0
        } else {
            n
        }
    }

    fn clone_state(&self) -> (s: Self) {
        *self
    }
}

} // verus!
