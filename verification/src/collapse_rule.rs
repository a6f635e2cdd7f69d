//! The domain-knowledge abstraction: how cells shrink and how one is chosen.

use vstd::prelude::*;
use crate::space::Space;
use crate::state::State;

verus! {

/// The local compatibility rule of a domain.
///
/// `collapse` must be monotone: it may only shrink a cell's entropy, never
/// grow it. `observe` must resolve the cell outright: afterwards its entropy
/// is `0`. Both receive a snapshot of the cell's neighborhood, one entry per
/// offset of `offsets_spec`, `None` where the space has no cell in that
/// direction. Both may assume the cell they are handed is still unresolved.
pub trait CollapseRule<St: State, Sp: Space<St>> {
    /// The directional offsets this rule considers, fixed for the rule's
    /// lifetime.
    spec fn offsets_spec(&self) -> Seq<Sp::CoordinateDelta>;

    /// What `collapse` leaves in a cell, as a function of the cell and its
    /// neighborhood snapshot alone: `collapse` is deterministic.
    spec fn collapse_spec(&self, cell: St, neighbor_states: Seq<Option<St>>) -> St;

    /// Produce the offset list; one neighborhood slot per entry.
    fn neighbor_offsets(&self) -> (v: Vec<Sp::CoordinateDelta>)
        ensures
            v@ == self.offsets_spec(),
    ;

    /// Shrink `cell` to the possibilities compatible with the given
    /// neighborhood snapshot. Never grows entropy.
    fn collapse(&self, cell: &mut St, neighbor_states: &Vec<Option<St>>)
        requires
            old(cell).entropy_spec() > 0,
            neighbor_states@.len() == self.offsets_spec().len(),
        ensures
            *final(cell) == self.collapse_spec(*old(cell), neighbor_states@),
            final(cell).entropy_spec() <= old(cell).entropy_spec(),
    ;

    /// Resolve `cell` to a single possibility, typically by a random choice
    /// among what remains; afterwards its entropy is `0`.
    fn observe(&self, cell: &mut St, neighbor_states: &Vec<Option<St>>)
        requires
            old(cell).entropy_spec() > 0,
            neighbor_states@.len() == self.offsets_spec().len(),
        ensures
            final(cell).entropy_spec() == 0,
    ;
}

/// Collapsing a cell twice against the same neighborhood leaves what one
/// collapse left: the rule is a filter, with nothing more to take away the
/// second time.
pub open spec fn rule_idempotent<St: State, Sp: Space<St>, Rule: CollapseRule<St, Sp>>(
    rule: Rule,
) -> bool {
    forall|x: St, ns: Seq<Option<St>>|
        rule.collapse_spec(#[trigger] rule.collapse_spec(x, ns), ns) == rule.collapse_spec(x, ns)
}

/// A collapse that leaves an unresolved cell's entropy unchanged leaves the
/// cell itself unchanged: every real shrink is visible in the entropy, which
/// is what the driver watches to decide whether neighbors must react.
pub open spec fn rule_shrink_visible<St: State, Sp: Space<St>, Rule: CollapseRule<St, Sp>>(
    rule: Rule,
) -> bool {
    forall|x: St, ns: Seq<Option<St>>|
        x.entropy_spec() > 0 && (#[trigger] rule.collapse_spec(x, ns)).entropy_spec()
            == x.entropy_spec() ==> rule.collapse_spec(x, ns) == x
}

} // verus!
