//! The total-entropy measure of a space, and how cell updates move it.
//!
//! The driver terminates because this measure never grows and strictly
//! shrinks whenever any cell's entropy strictly shrinks.

use vstd::prelude::*;
use crate::space::Space;
use crate::state::State;

verus! {

/// The sum of the entropies of the first `n` cells of the space, in
/// coordinate order.
pub open spec fn entropy_sum<St: State, Sp: Space<St>>(space: Sp, n: int) -> nat
    decreases n,
{
    if n <= 0 {
        0
    } else {
        entropy_sum(space, n - 1) + space.state_at(space.coords()[n - 1]).entropy_spec() as nat
    }
}

/// The sum of the entropies of every cell of the space.
pub open spec fn total_entropy<St: State, Sp: Space<St>>(space: Sp) -> nat {
    entropy_sum(space, space.coords().len() as int)
}

/// If no cell's entropy grew between `s1` and `s2` (same coordinates), the
/// partial sums did not grow either.
pub proof fn lemma_entropy_sum_mono<St: State, Sp: Space<St>>(s1: Sp, s2: Sp, n: int)
    requires
        s1.coords() == s2.coords(),
        forall|i: int|
            0 <= i < n ==> s2.state_at(#[trigger] s1.coords()[i]).entropy_spec() <= s1.state_at(
                s1.coords()[i],
            ).entropy_spec(),
    ensures
        entropy_sum(s2, n) <= entropy_sum(s1, n),
    decreases n,
{
    if n > 0 {
        lemma_entropy_sum_mono(s1, s2, n - 1);
    }
}

/// If additionally the cell at position `j` strictly shrank, the partial sum
/// that covers it strictly shrank.
pub proof fn lemma_entropy_sum_strict<St: State, Sp: Space<St>>(s1: Sp, s2: Sp, n: int, j: int)
    requires
        s1.coords() == s2.coords(),
        forall|i: int|
            0 <= i < n ==> s2.state_at(#[trigger] s1.coords()[i]).entropy_spec() <= s1.state_at(
                s1.coords()[i],
            ).entropy_spec(),
        0 <= j < n,
        s2.state_at(s1.coords()[j]).entropy_spec() < s1.state_at(s1.coords()[j]).entropy_spec(),
    ensures
        entropy_sum(s2, n) < entropy_sum(s1, n),
    decreases n,
{
    if j == n - 1 {
        lemma_entropy_sum_mono(s1, s2, n - 1);
    } else {
        lemma_entropy_sum_strict(s1, s2, n - 1, j);
    }
}

/// `lemma_entropy_sum_mono` stated over the whole space: pointwise
/// non-increasing entropies give a non-increasing total.
pub proof fn lemma_total_entropy_mono<St: State, Sp: Space<St>>(s1: Sp, s2: Sp)
    requires
        s1.coords() == s2.coords(),
        forall|c: <Sp as Space<St>>::Coordinate|
            #[trigger] s1.coords().contains(c) ==> s2.state_at(c).entropy_spec() <= s1.state_at(
                c,
            ).entropy_spec(),
    ensures
        total_entropy(s2) <= total_entropy(s1),
{
    assert forall|i: int|
        0 <= i < s1.coords().len() implies s2.state_at(
        #[trigger] s1.coords()[i],
    ).entropy_spec() <= s1.state_at(s1.coords()[i]).entropy_spec() by {
        assert(s1.coords().contains(s1.coords()[i]));
    }
    lemma_entropy_sum_mono(s1, s2, s1.coords().len() as int);
}

/// `lemma_entropy_sum_strict` stated over the whole space: a strict shrink of
/// one cell strictly shrinks the total.
pub proof fn lemma_total_entropy_strict<St: State, Sp: Space<St>>(
    s1: Sp,
    s2: Sp,
    c: <Sp as Space<St>>::Coordinate,
)
    requires
        s1.coords() == s2.coords(),
        forall|c2: <Sp as Space<St>>::Coordinate|
            #[trigger] s1.coords().contains(c2) ==> s2.state_at(c2).entropy_spec() <= s1.state_at(
                c2,
            ).entropy_spec(),
        s1.coords().contains(c),
        s2.state_at(c).entropy_spec() < s1.state_at(c).entropy_spec(),
    ensures
        total_entropy(s2) < total_entropy(s1),
{
    assert forall|i: int|
        0 <= i < s1.coords().len() implies s2.state_at(
        #[trigger] s1.coords()[i],
    ).entropy_spec() <= s1.state_at(s1.coords()[i]).entropy_spec() by {
        assert(s1.coords().contains(s1.coords()[i]));
    }
    let j = choose|j: int| 0 <= j < s1.coords().len() && s1.coords()[j] == c;
    lemma_entropy_sum_strict(s1, s2, s1.coords().len() as int, j);
}

} // verus!
