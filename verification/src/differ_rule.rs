//! A concrete rule: adjacent cells must end up holding different symbols.

use vstd::prelude::*;
use crate::collapse_rule::{rule_idempotent, rule_shrink_visible, CollapseRule};
use crate::state::State;
use crate::table_space::TableSpace;
use crate::tri_state::TriState;

verus! {

/// The first symbol survives at a cell iff every present neighbor could
/// still hold some other symbol.
pub open spec fn a_viable(ns: Seq<Option<TriState>>) -> bool {
    forall|i: int| 0 <= i < ns.len() ==> (#[trigger] ns[i] matches Some(n) ==> n.b || n.c)
}

/// As `a_viable`, for the second symbol.
pub open spec fn b_viable(ns: Seq<Option<TriState>>) -> bool {
    forall|i: int| 0 <= i < ns.len() ==> (#[trigger] ns[i] matches Some(n) ==> n.a || n.c)
}

/// As `a_viable`, for the third symbol.
pub open spec fn c_viable(ns: Seq<Option<TriState>>) -> bool {
    forall|i: int| 0 <= i < ns.len() ==> (#[trigger] ns[i] matches Some(n) ==> n.a || n.b)
}

/// What the differ rule's collapse leaves: each symbol stays possible only
/// while it is viable against the neighborhood snapshot.
pub open spec fn differ_collapse(cell: TriState, ns: Seq<Option<TriState>>) -> TriState {
    TriState {
        a: cell.a && a_viable(ns),
        b: cell.b && b_viable(ns),
        c: cell.c && c_viable(ns),
        observed: cell.observed,
    }
}

/// The rule that adjacent cells must differ. A symbol stays possible at a
/// cell only while every present neighbor could still hold some other
/// symbol; observation picks uniformly among the cell's remaining symbols
/// and marks the cell observed.
pub struct DifferRule {
    /// How many neighbor directions the spaces it is used with provide.
    pub directions: usize,
}

impl CollapseRule<TriState, TableSpace<TriState>> for DifferRule {
    open spec fn offsets_spec(&self) -> Seq<usize> {
        Seq::new(self.directions as nat, |i: int| i as usize)
    }

    open spec fn collapse_spec(&self, cell: TriState, neighbor_states: Seq<Option<TriState>>) -> TriState {
        differ_collapse(cell, neighbor_states)
    }

    fn neighbor_offsets(&self) -> (v: Vec<usize>) {
        let mut v: Vec<usize> = Vec::new();
        let mut i: usize = 0;
        while i < self.directions
            invariant
                v@.len() == i,
                i <= self.directions,
                forall|j: int| 0 <= j < i ==> v@[j] == j as usize,
            decreases self.directions - i,
        {
            v.push(i);
            i += 1;
        }
        proof {
            assert(v@ =~= self.offsets_spec());
        }
        v
    }

    fn collapse(&self, cell: &mut TriState, neighbor_states: &Vec<Option<TriState>>) {
        let mut keep_a = cell.a;
        let mut keep_b = cell.b;
        let mut keep_c = cell.c;
        let mut i: usize = 0;
        while i < neighbor_states.len()
            invariant
                *cell == *old(cell),
                i <= neighbor_states@.len(),
                keep_a == (old(cell).a && (forall|j: int|
                    0 <= j < i ==> (#[trigger] neighbor_states@[j] matches Some(n) ==> n.b
                        || n.c))),
                keep_b == (old(cell).b && (forall|j: int|
                    0 <= j < i ==> (#[trigger] neighbor_states@[j] matches Some(n) ==> n.a
                        || n.c))),
                keep_c == (old(cell).c && (forall|j: int|
                    0 <= j < i ==> (#[trigger] neighbor_states@[j] matches Some(n) ==> n.a
                        || n.b))),
            decreases neighbor_states@.len() - i,
        {
            if let Some(n) = neighbor_states[i] {
                if !(n.b || n.c) {
                    keep_a = false;
                }
                if !(n.a || n.c) {
                    keep_b = false;
                }
                if !(n.a || n.b) {
                    keep_c = false;
                }
            }
            i += 1;
        }
        cell.a = keep_a;
        cell.b = keep_b;
        cell.c = keep_c;
        proof {
            assert(*cell == differ_collapse(*old(cell), neighbor_states@));
            assert(cell.poss_count() <= old(cell).poss_count());
        }
    }

    fn observe(&self, cell: &mut TriState, neighbor_states: &Vec<Option<TriState>>) {
        let n = cell.count();
        let idx = crate::rng::sample_index(n as usize);
        if cell.a && idx == 0 {
            cell.b = false;
            cell.c = false;
        } else if cell.b && idx == (if cell.a {
            1
        } else {
            0
        }) {
            cell.a = false;
            cell.c = false;
        } else {
            proof {
                assert(cell.c);
            }
            cell.a = false;
            cell.b = false;
        }
        cell.observed = true;
    }
}

/// The differ rule is idempotent: collapsing a cell twice against one
/// neighborhood snapshot leaves exactly what one collapse left.
pub proof fn lemma_differ_rule_idempotent(rule: DifferRule)
    ensures
        rule_idempotent::<TriState, TableSpace<TriState>, DifferRule>(rule),
{
}

/// A differ-rule collapse that keeps an unresolved cell's entropy keeps the
/// cell: every real shrink shows up in the entropy the driver watches.
pub proof fn lemma_differ_rule_shrink_visible(rule: DifferRule)
    ensures
        rule_shrink_visible::<TriState, TableSpace<TriState>, DifferRule>(rule),
{
    assert forall|x: TriState, ns: Seq<Option<TriState>>|
        x.entropy_spec() > 0 && (#[trigger] rule.collapse_spec(x, ns)).entropy_spec()
            == x.entropy_spec() implies rule.collapse_spec(x, ns) == x by {
        let y = rule.collapse_spec(x, ns);
        assert(x.poss_count() >= 2);
        assert(y.poss_count() == x.poss_count());
    }
}

} // verus!
