//! Wave function collapse.
//!
//! A constraint-propagation solver: given a space of cells and a local
//! compatibility rule, it repeatedly observes the lowest-entropy unresolved
//! cell and propagates the consequences to its neighbors, until every cell
//! has been reduced to a single possibility (or to none, on contradiction).
//!
//! The cell state, the coordinate space and the rule are abstract
//! collaborators ([`State`], [`Space`], [`CollapseRule`]); the crate also
//! ships one small concrete binding of each for exercising the driver.

use std::collections::VecDeque;
use vstd::prelude::*;

pub mod collapse_rule;
pub mod differ_rule;
pub mod entropy;
mod rng;
pub mod space;
pub mod state;
pub mod table_space;
pub mod tri_state;

pub use collapse_rule::CollapseRule;
pub use space::Space;
pub use state::State;

use crate::collapse_rule::{rule_idempotent, rule_shrink_visible};
use crate::entropy::{lemma_total_entropy_mono, lemma_total_entropy_strict, total_entropy};
use crate::space::topology_ok;

verus! {

/// The state the rule is shown for a neighbor slot: the neighbor's current
/// state, or `None` where the space has no cell in that direction.
pub open spec fn snapshot_of<St: State, Sp: Space<St>>(
    space: Sp,
    neighbor: Option<<Sp as Space<St>>::Coordinate>,
) -> Option<St> {
    match neighbor {
        Some(c) => Some(space.state_at(c)),
        None => None,
    }
}

/// The neighborhood snapshot of cell `y`: one entry per offset, holding the
/// state of the neighbor in that direction, or `None` where there is none.
pub open spec fn neighborhood<St: State, Sp: Space<St>>(
    space: Sp,
    offsets: Seq<<Sp as Space<St>>::CoordinateDelta>,
    y: <Sp as Space<St>>::Coordinate,
) -> Seq<Option<St>> {
    Seq::new(offsets.len(), |i: int| snapshot_of(space, space.neighbor_spec(y, offsets[i])))
}

/// Cell `y` is locally consistent when the rule's collapse, applied to it
/// against its current neighborhood, would change nothing.
pub open spec fn locally_consistent<St: State, Sp: Space<St>, Rule: CollapseRule<St, Sp>>(
    space: Sp,
    rule: Rule,
    y: <Sp as Space<St>>::Coordinate,
) -> bool {
    rule.collapse_spec(space.state_at(y), neighborhood(space, rule.offsets_spec(), y))
        == space.state_at(y)
}

/// Local consistency of `y` carries over to a space in which `y`'s own
/// state, the neighbor links, and the states of `y`'s neighbors are all
/// unchanged.
proof fn lemma_consistent_transfer<St: State, Sp: Space<St>, Rule: CollapseRule<St, Sp>>(
    s1: Sp,
    s2: Sp,
    rule: Rule,
    y: <Sp as Space<St>>::Coordinate,
)
    requires
        forall|c: <Sp as Space<St>>::Coordinate, d: <Sp as Space<St>>::CoordinateDelta|
            #[trigger] s2.neighbor_spec(c, d) == s1.neighbor_spec(c, d),
        s2.state_at(y) == s1.state_at(y),
        forall|i: int|
            0 <= i < rule.offsets_spec().len() ==> (#[trigger] s1.neighbor_spec(
                y,
                rule.offsets_spec()[i],
            ) matches Some(m) ==> s2.state_at(m) == s1.state_at(m)),
        locally_consistent(s1, rule, y),
    ensures
        locally_consistent(s2, rule, y),
{
    let offs = rule.offsets_spec();
    assert forall|i: int|
        0 <= i < offs.len() implies neighborhood(s2, offs, y)[i] == neighborhood(s1, offs, y)[i] by {
        assert(s2.neighbor_spec(y, offs[i]) == s1.neighbor_spec(y, offs[i]));
        match s1.neighbor_spec(y, offs[i]) {
            Some(m) => {
                assert(s2.state_at(m) == s1.state_at(m));
            },
            None => {},
        }
    }
    assert(neighborhood(s2, offs, y) =~= neighborhood(s1, offs, y));
}

/// After one propagation step that rewrote `propagating` (from space `s1` to
/// space `s2`, storing the collapse of its old state against its snapshot
/// `ns`) and re-enqueued its still-unresolved neighbors, every unresolved
/// cell left out of the grown queue is locally consistent.
proof fn lemma_propagation_step_consistent<St: State, Sp: Space<St>, Rule: CollapseRule<St, Sp>>(
    s1: Sp,
    s2: Sp,
    rule: Rule,
    init_space: Sp,
    propagating: <Sp as Space<St>>::Coordinate,
    nbrs: Seq<Option<<Sp as Space<St>>::Coordinate>>,
    ns: Seq<Option<St>>,
    head_q: Seq<<Sp as Space<St>>::Coordinate>,
    q1: Seq<<Sp as Space<St>>::Coordinate>,
    q2: Seq<<Sp as Space<St>>::Coordinate>,
    y: <Sp as Space<St>>::Coordinate,
)
    requires
        topology_ok::<St, Sp>(init_space, rule.offsets_spec()),
        rule_idempotent::<St, Sp, Rule>(rule),
        forall|z: <Sp as Space<St>>::Coordinate|
            #[trigger] s1.coords().contains(z) && s1.state_at(z).entropy_spec() > 0
                && !head_q.contains(z) ==> locally_consistent(s1, rule, z),
        forall|c: <Sp as Space<St>>::Coordinate, d: <Sp as Space<St>>::CoordinateDelta|
            #[trigger] s1.neighbor_spec(c, d) == init_space.neighbor_spec(c, d),
        forall|c: <Sp as Space<St>>::Coordinate, d: <Sp as Space<St>>::CoordinateDelta|
            #[trigger] s2.neighbor_spec(c, d) == s1.neighbor_spec(c, d),
        s1.coords() == init_space.coords(),
        s2.coords() == s1.coords(),
        s1.coords().contains(propagating),
        s1.state_at(propagating).entropy_spec() > 0,
        nbrs.len() == rule.offsets_spec().len(),
        forall|i: int|
            0 <= i < nbrs.len() ==> #[trigger] nbrs[i] == s1.neighbor_spec(
                propagating,
                rule.offsets_spec()[i],
            ),
        forall|i: int|
            0 <= i < nbrs.len() ==> (#[trigger] nbrs[i] matches Some(n) ==> s1.coords().contains(
                n,
            )),
        ns == neighborhood(s1, rule.offsets_spec(), propagating),
        s2.state_at(propagating) == rule.collapse_spec(s1.state_at(propagating), ns),
        forall|z: <Sp as Space<St>>::Coordinate|
            s1.coords().contains(z) && z != propagating ==> s2.state_at(z) == s1.state_at(z),
        head_q.len() > 0,
        head_q[0] == propagating,
        q1 == head_q.subrange(1, head_q.len() as int),
        forall|x: <Sp as Space<St>>::Coordinate| #[trigger] q1.contains(x) ==> q2.contains(x),
        forall|j: int|
            0 <= j < nbrs.len() ==> (#[trigger] nbrs[j] matches Some(n) ==> (s2.state_at(
                n,
            ).entropy_spec() > 0 ==> q2.contains(n))),
        s2.coords().contains(y),
        s2.state_at(y).entropy_spec() > 0,
        !q2.contains(y),
    ensures
        locally_consistent(s2, rule, y),
{
    let offs = rule.offsets_spec();
    if y == propagating {
        assert forall|i: int|
            0 <= i < offs.len() implies neighborhood(s2, offs, y)[i] == ns[i] by {
            assert(s2.neighbor_spec(y, offs[i]) == s1.neighbor_spec(y, offs[i]));
            assert(s1.neighbor_spec(y, offs[i]) == init_space.neighbor_spec(y, offs[i]));
            match s1.neighbor_spec(y, offs[i]) {
                Some(m) => {
                    assert(init_space.neighbor_spec(y, offs[i]) != Some(y));
                    assert(m != y);
                    assert(nbrs[i] == Some(m));
                    assert(s1.coords().contains(m));
                    assert(s2.state_at(m) == s1.state_at(m));
                },
                None => {},
            }
        }
        assert(neighborhood(s2, offs, y) =~= ns);
        let x0 = s1.state_at(propagating);
        assert(rule.collapse_spec(rule.collapse_spec(x0, ns), ns) == rule.collapse_spec(x0, ns));
        assert(locally_consistent(s2, rule, y));
    } else if exists|i: int|
        0 <= i < offs.len() && (#[trigger] s1.neighbor_spec(y, offs[i])) == Some(propagating) {
        let i = choose|i: int|
            0 <= i < offs.len() && (#[trigger] s1.neighbor_spec(y, offs[i])) == Some(propagating);
        assert(init_space.neighbor_spec(y, offs[i]) == Some(propagating));
        let j = choose|j: int|
            0 <= j < offs.len() && (#[trigger] init_space.neighbor_spec(propagating, offs[j]))
                == Some(y);
        assert(s1.neighbor_spec(propagating, offs[j]) == Some(y));
        assert(nbrs[j] == Some(y));
        assert(q2.contains(y));
        assert(false);
    } else {
        if head_q.contains(y) {
            let k = choose|k: int| 0 <= k < head_q.len() && head_q[k] == y;
            if k == 0 {
                assert(y == propagating);
                assert(false);
            } else {
                assert(q1[k - 1] == y);
                assert(q1.contains(y));
                assert(false);
            }
        }
        assert(s2.state_at(y) == s1.state_at(y));
        assert(locally_consistent(s1, rule, y));
        assert forall|i: int|
            0 <= i < offs.len() implies (#[trigger] s1.neighbor_spec(y, offs[i]) matches Some(m)
                ==> s2.state_at(m) == s1.state_at(m)) by {
            match s1.neighbor_spec(y, offs[i]) {
                Some(m) => {
                    assert(m != propagating);
                    assert(s1.neighbor_spec(y, offs[i]) == init_space.neighbor_spec(y, offs[i]));
                    assert(init_space.coords().contains(m));
                    assert(s1.coords().contains(m));
                    assert(s2.state_at(m) == s1.state_at(m));
                },
                None => {},
            }
        }
        lemma_consistent_transfer::<St, Sp, Rule>(s1, s2, rule, y);
    }
}

/// Fill `neighbor_states` with a clone of each present neighbor's current
/// state, `None` for each absent one.
fn snapshot_states<St: State, Sp: Space<St>>(
    space: &Sp,
    neighbors: &Vec<Option<<Sp as Space<St>>::Coordinate>>,
    neighbor_states: &mut Vec<Option<St>>,
)
    requires
        space.wf(),
        forall|i: int|
            0 <= i < neighbors@.len() ==> (#[trigger] neighbors@[i] matches Some(n)
                ==> space.coords().contains(n)),
    ensures
        final(neighbor_states)@.len() == neighbors@.len(),
        forall|i: int|
            0 <= i < neighbors@.len() ==> final(neighbor_states)@[i] == snapshot_of(
                *space,
                neighbors@[i],
            ),
{
    neighbor_states.clear();
    let mut i: usize = 0;
    while i < neighbors.len()
        invariant
            space.wf(),
            i <= neighbors@.len(),
            forall|j: int|
                0 <= j < neighbors@.len() ==> (#[trigger] neighbors@[j] matches Some(n)
                    ==> space.coords().contains(n)),
            neighbor_states@.len() == i,
            forall|j: int|
                0 <= j < i ==> neighbor_states@[j] == snapshot_of(*space, neighbors@[j]),
        decreases neighbors@.len() - i,
    {
        match neighbors[i] {
            Some(c) => {
                let st = space.get(c).clone_state();
                neighbor_states.push(Some(st));
            },
            None => {
                neighbor_states.push(None);
            },
        }
        i += 1;
    }
}

/// Among the still-unresolved coordinates, pick one of strictly minimum
/// positive entropy, uniformly at random among ties; drop the coordinates
/// that have become resolved from the unresolved set. Returns `None` exactly
/// when every tracked coordinate is resolved.
pub fn find_next_to_collapse<St: State, Sp: Space<St>>(
    unresolved_set: &mut Vec<<Sp as Space<St>>::Coordinate>,
    lowest_entropy_set: &mut Vec<<Sp as Space<St>>::Coordinate>,
    space: &Sp,
) -> (r: Option<<Sp as Space<St>>::Coordinate>)
    requires
        space.wf(),
        forall|c: <Sp as Space<St>>::Coordinate|
            #[trigger] old(unresolved_set)@.contains(c) ==> space.coords().contains(c),
    ensures
        forall|c: <Sp as Space<St>>::Coordinate|
            #![trigger final(unresolved_set)@.contains(c)]
            #![trigger old(unresolved_set)@.contains(c)]
            final(unresolved_set)@.contains(c) <==> (old(unresolved_set)@.contains(c)
                && space.state_at(c).entropy_spec() > 0),
        r is None ==> forall|c: <Sp as Space<St>>::Coordinate|
            #[trigger] old(unresolved_set)@.contains(c) ==> space.state_at(c).entropy_spec() == 0,
        r matches Some(c) ==> old(unresolved_set)@.contains(c) && space.state_at(
            c,
        ).entropy_spec() > 0 && (forall|c2: <Sp as Space<St>>::Coordinate|
            #[trigger] old(unresolved_set)@.contains(c2) && space.state_at(c2).entropy_spec() > 0
                ==> space.state_at(c).entropy_spec() <= space.state_at(c2).entropy_spec()),
        r matches Some(c) ==> final(lowest_entropy_set)@.contains(c) && (forall|
            c2: <Sp as Space<St>>::Coordinate,
        |
            #[trigger] final(lowest_entropy_set)@.contains(c2) <==> (old(
                unresolved_set,
            )@.contains(c2) && space.state_at(c2).entropy_spec() == space.state_at(
                c,
            ).entropy_spec())),
        (exists|c: <Sp as Space<St>>::Coordinate|
            #[trigger] old(unresolved_set)@.contains(c) && space.state_at(c).entropy_spec() > 0)
            ==> r is Some,
{
    let ghost olds = unresolved_set@;
    let mut lowest: u32 = u32::MAX;
    lowest_entropy_set.clear();
    let mut keep: Vec<<Sp as Space<St>>::Coordinate> = Vec::new();
    let mut i: usize = 0;
    while i < unresolved_set.len()
        invariant
            space.wf(),
            unresolved_set@ == olds,
            i <= olds.len(),
            forall|c: <Sp as Space<St>>::Coordinate|
                #[trigger] olds.contains(c) ==> space.coords().contains(c),
            forall|j: int|
                0 <= j < keep@.len() ==> olds.contains(#[trigger] keep@[j]) && space.state_at(
                    keep@[j],
                ).entropy_spec() > 0,
            forall|j: int|
                0 <= j < i ==> (space.state_at(#[trigger] olds[j]).entropy_spec() > 0
                    ==> keep@.contains(olds[j])),
            forall|j: int|
                0 <= j < lowest_entropy_set@.len() ==> olds.contains(
                    #[trigger] lowest_entropy_set@[j],
                ) && space.state_at(lowest_entropy_set@[j]).entropy_spec() == lowest,
            forall|j: int|
                0 <= j < i ==> ((space.state_at(#[trigger] olds[j]).entropy_spec() == lowest
                    && space.state_at(olds[j]).entropy_spec() > 0)
                    ==> lowest_entropy_set@.contains(olds[j])),
            forall|j: int|
                0 <= j < i ==> (space.state_at(#[trigger] olds[j]).entropy_spec() > 0 ==> lowest
                    <= space.state_at(olds[j]).entropy_spec()),
            (lowest_entropy_set@.len() == 0 <==> (forall|j: int|
                0 <= j < i ==> space.state_at(#[trigger] olds[j]).entropy_spec() == 0)),
            lowest_entropy_set@.len() == 0 ==> lowest == u32::MAX,
            lowest_entropy_set@.len() > 0 ==> lowest > 0,
        decreases olds.len() - i,
    {
        let c = unresolved_set[i];
        proof {
            assert(olds.contains(olds[i as int]));
        }
        let e = space.get(c).entropy();
        if e == 0 {
        } else {
            let ghost keep0 = keep@;
            keep.push(c);
            proof {
                assert forall|x: <Sp as Space<St>>::Coordinate|
                    keep0.contains(x) implies keep@.contains(x) by {
                    let m = choose|m: int| 0 <= m < keep0.len() && keep0[m] == x;
                    assert(keep@[m] == x);
                }
                assert(keep@[keep@.len() - 1] == c);
            }
            if e < lowest {
                lowest = e;
                lowest_entropy_set.clear();
                lowest_entropy_set.push(c);
                proof {
                    assert(lowest_entropy_set@[0] == c);
                }
            } else if e == lowest {
                let ghost cands0 = lowest_entropy_set@;
                lowest_entropy_set.push(c);
                proof {
                    assert forall|x: <Sp as Space<St>>::Coordinate|
                        cands0.contains(x) implies lowest_entropy_set@.contains(x) by {
                        let m = choose|m: int| 0 <= m < cands0.len() && cands0[m] == x;
                        assert(lowest_entropy_set@[m] == x);
                    }
                    assert(lowest_entropy_set@[lowest_entropy_set@.len() - 1] == c);
                }
            }
        }
        i += 1;
    }
    *unresolved_set = keep;
    if lowest_entropy_set.len() == 0 {
        None
    } else {
        let idx = crate::rng::sample_index(lowest_entropy_set.len());
        let c = lowest_entropy_set[idx];
        proof {
            assert(lowest_entropy_set@.contains(lowest_entropy_set@[idx as int]));
            assert(space.state_at(c).entropy_spec() == lowest);
            assert forall|c2: <Sp as Space<St>>::Coordinate|
                #[trigger] lowest_entropy_set@.contains(c2) implies (olds.contains(c2)
                && space.state_at(c2).entropy_spec() == space.state_at(c).entropy_spec()) by {
                let m = choose|m: int|
                    0 <= m < lowest_entropy_set@.len() && lowest_entropy_set@[m] == c2;
            }
            assert forall|c2: <Sp as Space<St>>::Coordinate|
                olds.contains(c2) && space.state_at(c2).entropy_spec() == space.state_at(
                    c,
                ).entropy_spec() implies #[trigger] lowest_entropy_set@.contains(c2) by {
                let m = choose|m: int| 0 <= m < olds.len() && olds[m] == c2;
                assert(space.state_at(olds[m]).entropy_spec() == lowest);
            }
        }
        Some(c)
    }
}

/// Drain the work queue: pop a coordinate, skip it if already resolved,
/// otherwise let the rule shrink it against a snapshot of its neighborhood;
/// whenever a cell actually shrank, re-enqueue its still-unresolved
/// neighbors. On return the queue is empty and no cell's entropy has grown;
/// and if the topology is sound for the rule's offsets, the rule is an
/// idempotent filter whose shrinks always show in the entropy, and every
/// unresolved cell that was not already locally consistent was enqueued,
/// then on return every still-unresolved cell is locally consistent.
#[verifier::loop_isolation(false)]
pub fn run_propagation<Rule: CollapseRule<St, Sp>, St: State, Sp: Space<St>>(
    space: &mut Sp,
    rule: &Rule,
    to_propagate: &mut VecDeque<<Sp as Space<St>>::Coordinate>,
    neighbor_directions: &Vec<<Sp as Space<St>>::CoordinateDelta>,
    neighbors: &mut Vec<Option<<Sp as Space<St>>::Coordinate>>,
    neighbor_states: &mut Vec<Option<St>>,
)
    requires
        old(space).wf(),
        neighbor_directions@ == rule.offsets_spec(),
        forall|i: int|
            0 <= i < old(to_propagate)@.len() ==> old(space).coords().contains(
                #[trigger] old(to_propagate)@[i],
            ),
    ensures
        final(space).wf(),
        final(space).coords() == old(space).coords(),
        final(to_propagate)@.len() == 0,
        forall|c: <Sp as Space<St>>::Coordinate|
            #[trigger] old(space).coords().contains(c) ==> final(space).state_at(
                c,
            ).entropy_spec() <= old(space).state_at(c).entropy_spec(),
        (topology_ok::<St, Sp>(*old(space), rule.offsets_spec()) && rule_idempotent::<St, Sp, Rule>(
            *rule,
        ) && rule_shrink_visible::<St, Sp, Rule>(*rule) && (forall|
            y: <Sp as Space<St>>::Coordinate,
        |
            #[trigger] old(space).coords().contains(y) && old(space).state_at(y).entropy_spec() > 0
                && !old(to_propagate)@.contains(y) ==> locally_consistent(*old(space), *rule, y)))
            ==> (forall|y: <Sp as Space<St>>::Coordinate|
            #[trigger] old(space).coords().contains(y) && final(space).state_at(y).entropy_spec()
                > 0 ==> locally_consistent(*final(space), *rule, y)),
{
    let ghost offs = rule.offsets_spec();
    let ghost init_space = *space;
    let ghost init_q = to_propagate@;
    let ghost hyp = topology_ok::<St, Sp>(init_space, offs) && rule_idempotent::<St, Sp, Rule>(
        *rule,
    ) && rule_shrink_visible::<St, Sp, Rule>(*rule) && (forall|y: <Sp as Space<St>>::Coordinate|
        #[trigger] init_space.coords().contains(y) && init_space.state_at(y).entropy_spec() > 0
            && !init_q.contains(y) ==> locally_consistent(init_space, *rule, y));
    while to_propagate.len() != 0
        invariant
            space.wf(),
            space.coords() == old(space).coords(),
            neighbor_directions@ == rule.offsets_spec(),
            forall|i: int|
                0 <= i < to_propagate@.len() ==> space.coords().contains(
                    #[trigger] to_propagate@[i],
                ),
            forall|c: <Sp as Space<St>>::Coordinate|
                #[trigger] old(space).coords().contains(c) ==> space.state_at(c).entropy_spec()
                    <= old(space).state_at(c).entropy_spec(),
            forall|c: <Sp as Space<St>>::Coordinate, d: <Sp as Space<St>>::CoordinateDelta|
                #[trigger] space.neighbor_spec(c, d) == old(space).neighbor_spec(c, d),
            hyp ==> (forall|y: <Sp as Space<St>>::Coordinate|
                #[trigger] space.coords().contains(y) && space.state_at(y).entropy_spec() > 0
                    && !to_propagate@.contains(y) ==> locally_consistent(*space, *rule, y)),
        decreases total_entropy(*space), to_propagate@.len(),
    {
        let ghost head = *space;
        let ghost head_q = to_propagate@;
        proof {
            assert(space.coords().contains(to_propagate@[0]));
        }
        let propagating = to_propagate.pop_front().unwrap();
        let ghost q1 = to_propagate@;
        let entropy_before = space.get(propagating).entropy();
        if entropy_before != 0 {
            space.neighbors(propagating, neighbor_directions, neighbors);
            snapshot_states(space, neighbors, neighbor_states);
            let mut st = space.get(propagating).clone_state();
            rule.collapse(&mut st, neighbor_states);
            let entropy_after = st.entropy();
            space.put(propagating, st);
            proof {
                assert forall|c: <Sp as Space<St>>::Coordinate|
                    #[trigger] head.coords().contains(c) implies space.state_at(
                    c,
                ).entropy_spec() <= head.state_at(c).entropy_spec() by {
                    if c != propagating {
                        assert(space.state_at(c) == head.state_at(c));
                    }
                }
                if entropy_after < entropy_before {
                    lemma_total_entropy_strict::<St, Sp>(head, *space, propagating);
                } else {
                    lemma_total_entropy_mono::<St, Sp>(head, *space);
                    lemma_total_entropy_mono::<St, Sp>(*space, head);
                }
                if hyp {
                    assert forall|i: int|
                        0 <= i < offs.len() implies neighbor_states@[i] == neighborhood(
                        head,
                        offs,
                        propagating,
                    )[i] by {
                        assert(neighbor_directions@[i] == offs[i]);
                        assert(neighbors@[i] == head.neighbor_spec(propagating, offs[i]));
                        assert(neighbor_states@[i] == snapshot_of(head, neighbors@[i]));
                    }
                    assert(neighbor_states@ =~= neighborhood(head, offs, propagating));
                }
            }
            if entropy_after < entropy_before {
                let ghost mid = *space;
                let mut i: usize = 0;
                while i < neighbors.len()
                    invariant
                        *space == mid,
                        space.wf(),
                        space.coords() == old(space).coords(),
                        i <= neighbors@.len(),
                        forall|j: int|
                            0 <= j < neighbors@.len() ==> (#[trigger] neighbors@[j] matches Some(n)
                                ==> space.coords().contains(n)),
                        forall|j: int|
                            0 <= j < to_propagate@.len() ==> space.coords().contains(
                                #[trigger] to_propagate@[j],
                            ),
                        forall|x: <Sp as Space<St>>::Coordinate|
                            #[trigger] q1.contains(x) ==> to_propagate@.contains(x),
                        forall|j: int|
                            0 <= j < i ==> (#[trigger] neighbors@[j] matches Some(n) ==> (
                            space.state_at(n).entropy_spec() > 0 ==> to_propagate@.contains(n))),
                    decreases neighbors@.len() - i,
                {
                    if let Some(neighbor) = neighbors[i] {
                        if space.get(neighbor).entropy() != 0 {
                            let ghost qb = to_propagate@;
                            to_propagate.push_back(neighbor);
                            proof {
                                assert forall|x: <Sp as Space<St>>::Coordinate|
                                    qb.contains(x) implies to_propagate@.contains(x) by {
                                    let m = choose|m: int| 0 <= m < qb.len() && qb[m] == x;
                                    assert(to_propagate@[m] == x);
                                }
                                assert(to_propagate@[to_propagate@.len() - 1] == neighbor);
                            }
                        }
                    }
                    i += 1;
                }
                proof {
                    if hyp {
                        assert forall|y: <Sp as Space<St>>::Coordinate|
                            space.coords().contains(y) && space.state_at(y).entropy_spec() > 0
                                && !to_propagate@.contains(y) implies locally_consistent(
                            *space,
                            *rule,
                            y,
                        ) by {
                            lemma_propagation_step_consistent::<St, Sp, Rule>(
                                head,
                                *space,
                                *rule,
                                init_space,
                                propagating,
                                neighbors@,
                                neighbor_states@,
                                head_q,
                                q1,
                                to_propagate@,
                                y,
                            );
                        }
                    }
                }
            } else {
                proof {
                    if hyp {
                        assert(st.entropy_spec() == head.state_at(propagating).entropy_spec());
                        assert(st == head.state_at(propagating));
                        assert forall|y: <Sp as Space<St>>::Coordinate|
                            space.coords().contains(y) && space.state_at(y).entropy_spec() > 0
                                && !to_propagate@.contains(y) implies locally_consistent(
                            *space,
                            *rule,
                            y,
                        ) by {
                            assert forall|z: <Sp as Space<St>>::Coordinate|
                                #[trigger] head.coords().contains(z) implies space.state_at(z)
                                == head.state_at(z) by {
                                if z != propagating {
                                }
                            }
                            if head_q.contains(y) {
                                let k = choose|k: int|
                                    0 <= k < head_q.len() && head_q[k] == y;
                                if k == 0 {
                                    assert(y == propagating);
                                    assert(locally_consistent(head, *rule, y));
                                } else {
                                    assert(to_propagate@[k - 1] == y);
                                    assert(false);
                                }
                            } else {
                                assert(locally_consistent(head, *rule, y));
                            }
                            lemma_consistent_transfer::<St, Sp, Rule>(head, *space, *rule, y);
                        }
                    }
                }
            }
        } else {
            proof {
                if hyp {
                    assert forall|y: <Sp as Space<St>>::Coordinate|
                        space.coords().contains(y) && space.state_at(y).entropy_spec() > 0
                            && !to_propagate@.contains(y) implies locally_consistent(
                        *space,
                        *rule,
                        y,
                    ) by {
                        if head_q.contains(y) {
                            let k = choose|k: int| 0 <= k < head_q.len() && head_q[k] == y;
                            if k == 0 {
                                assert(y == propagating);
                                assert(false);
                            } else {
                                assert(to_propagate@[k - 1] == y);
                                assert(false);
                            }
                        }
                    }
                }
            }
        }
    }
    proof {
        if hyp {
            assert forall|y: <Sp as Space<St>>::Coordinate|
                old(space).coords().contains(y) && space.state_at(y).entropy_spec()
                    > 0 implies locally_consistent(*space, *rule, y) by {
                assert(space.coords().contains(y));
                assert(!to_propagate@.contains(y));
            }
        }
    }
}

/// Perform the wave function collapse algorithm on a given state-space with
/// the provided collapse rule.
///
/// On return every cell of the space is resolved: its entropy is `0`, and it
/// never rose above what it was on entry. A cell may end resolved to the
/// empty possibility set (a contradiction); detecting that is the caller's
/// concern.
pub fn collapse<Rule: CollapseRule<St, Sp>, St: State, Sp: Space<St>>(space: &mut Sp, rule: &Rule)
    requires
        old(space).wf(),
    ensures
        final(space).wf(),
        final(space).coords() == old(space).coords(),
        forall|c: <Sp as Space<St>>::Coordinate|
            #[trigger] old(space).coords().contains(c) ==> final(space).state_at(
                c,
            ).entropy_spec() == 0,
        forall|c: <Sp as Space<St>>::Coordinate|
            #[trigger] old(space).coords().contains(c) ==> final(space).state_at(
                c,
            ).entropy_spec() <= old(space).state_at(c).entropy_spec(),
{
    let mut unresolved_set: Vec<<Sp as Space<St>>::Coordinate> = Vec::new();
    let mut lowest_entropy_set: Vec<<Sp as Space<St>>::Coordinate> = Vec::new();
    let neighbor_directions = rule.neighbor_offsets();
    let coord_list = space.coordinate_list();
    let mut idx: usize = 0;
    while idx < coord_list.len()
        invariant
            *space == *old(space),
            space.wf(),
            coord_list@ == space.coords(),
            idx <= coord_list@.len(),
            forall|c: <Sp as Space<St>>::Coordinate|
                #[trigger] unresolved_set@.contains(c) ==> space.coords().contains(c),
            forall|j: int|
                0 <= j < idx ==> (space.state_at(#[trigger] coord_list@[j]).entropy_spec() > 0
                    ==> unresolved_set@.contains(coord_list@[j])),
        decreases coord_list@.len() - idx,
    {
        let c = coord_list[idx];
        proof {
            assert(space.coords()[idx as int] == c);
            assert(space.coords().contains(c));
        }
        if space.get(c).entropy() > 0 {
            let ghost u0 = unresolved_set@;
            unresolved_set.push(c);
            proof {
                assert forall|x: <Sp as Space<St>>::Coordinate|
                    u0.contains(x) implies unresolved_set@.contains(x) by {
                    let m = choose|m: int| 0 <= m < u0.len() && u0[m] == x;
                    assert(unresolved_set@[m] == x);
                }
                assert(unresolved_set@[unresolved_set@.len() - 1] == c);
                assert forall|x: <Sp as Space<St>>::Coordinate|
                    #[trigger] unresolved_set@.contains(x) implies space.coords().contains(x) by {
                    let m = choose|m: int|
                        0 <= m < unresolved_set@.len() && unresolved_set@[m] == x;
                    if m < u0.len() {
                        assert(u0.contains(u0[m]));
                    } else {
                        assert(x == c);
                    }
                }
            }
        }
        idx += 1;
    }
    let mut neighbors: Vec<Option<<Sp as Space<St>>::Coordinate>> = Vec::new();
    let mut neighbor_states: Vec<Option<St>> = Vec::new();
    let mut to_propagate: VecDeque<<Sp as Space<St>>::Coordinate> = VecDeque::new();
    let mut qi: usize = 0;
    while qi < unresolved_set.len()
        invariant
            *space == *old(space),
            space.wf(),
            qi <= unresolved_set@.len(),
            forall|c: <Sp as Space<St>>::Coordinate|
                #[trigger] unresolved_set@.contains(c) ==> space.coords().contains(c),
            forall|j: int|
                0 <= j < to_propagate@.len() ==> space.coords().contains(
                    #[trigger] to_propagate@[j],
                ),
        decreases unresolved_set@.len() - qi,
    {
        let c = unresolved_set[qi];
        proof {
            assert(unresolved_set@.contains(unresolved_set@[qi as int]));
        }
        to_propagate.push_back(c);
        qi += 1;
    }
    proof {
        assert forall|c: <Sp as Space<St>>::Coordinate|
            space.coords().contains(c) && space.state_at(c).entropy_spec() > 0 implies
            unresolved_set@.contains(c) by {
            let m = choose|m: int| 0 <= m < space.coords().len() && space.coords()[m] == c;
            assert(coord_list@[m] == c);
        }
    }
    run_propagation(space, rule, &mut to_propagate, &neighbor_directions, &mut neighbors,
        &mut neighbor_states);
    loop
        invariant
            space.wf(),
            space.coords() == old(space).coords(),
            neighbor_directions@ == rule.offsets_spec(),
            to_propagate@.len() == 0,
            forall|c: <Sp as Space<St>>::Coordinate|
                #[trigger] unresolved_set@.contains(c) ==> space.coords().contains(c),
            forall|c: <Sp as Space<St>>::Coordinate|
                #[trigger] space.coords().contains(c) && space.state_at(c).entropy_spec() > 0
                    ==> unresolved_set@.contains(c),
            forall|c: <Sp as Space<St>>::Coordinate|
                #[trigger] space.coords().contains(c) ==> space.state_at(c).entropy_spec() <= old(
                    space,
                ).state_at(c).entropy_spec(),
        ensures
            space.wf(),
            space.coords() == old(space).coords(),
            forall|c: <Sp as Space<St>>::Coordinate|
                #[trigger] space.coords().contains(c) ==> space.state_at(c).entropy_spec() == 0,
            forall|c: <Sp as Space<St>>::Coordinate|
                #[trigger] space.coords().contains(c) ==> space.state_at(c).entropy_spec() <= old(
                    space,
                ).state_at(c).entropy_spec(),
        decreases total_entropy(*space),
    {
        let ghost at_select = *space;
        let ghost pre_unresolved = unresolved_set@;
        let r = find_next_to_collapse::<St, Sp>(&mut unresolved_set, &mut lowest_entropy_set,
            space);
        match r {
            None => {
                proof {
                    assert forall|c: <Sp as Space<St>>::Coordinate|
                        #[trigger] unresolved_set@.contains(c) implies space.coords().contains(
                        c,
                    ) by {
                        assert(pre_unresolved.contains(c));
                    }
                    assert forall|c: <Sp as Space<St>>::Coordinate|
                        space.coords().contains(c) implies space.state_at(c).entropy_spec()
                        == 0 by {
                        if space.state_at(c).entropy_spec() > 0 {
                            assert(pre_unresolved.contains(c));
                        }
                    }
                }
                break ;
            },
            Some(to_collapse) => {
                space.neighbors(to_collapse, &neighbor_directions, &mut neighbors);
                snapshot_states(space, &neighbors, &mut neighbor_states);
                let mut st = space.get(to_collapse).clone_state();
                rule.observe(&mut st, &neighbor_states);
                space.put(to_collapse, st);
                let ghost after_put = *space;
                proof {
                    assert forall|c: <Sp as Space<St>>::Coordinate|
                        #[trigger] at_select.coords().contains(c) implies space.state_at(
                        c,
                    ).entropy_spec() <= at_select.state_at(c).entropy_spec() by {
                        if c != to_collapse {
                            assert(space.state_at(c) == at_select.state_at(c));
                        }
                    }
                    lemma_total_entropy_strict::<St, Sp>(at_select, *space, to_collapse);
                }
                let mut i: usize = 0;
                while i < neighbors.len()
                    invariant
                        *space == after_put,
                        space.wf(),
                        i <= neighbors@.len(),
                        forall|j: int|
                            0 <= j < neighbors@.len() ==> (#[trigger] neighbors@[j] matches Some(n)
                                ==> space.coords().contains(n)),
                        forall|j: int|
                            0 <= j < to_propagate@.len() ==> space.coords().contains(
                                #[trigger] to_propagate@[j],
                            ),
                    decreases neighbors@.len() - i,
                {
                    if let Some(neighbor_coord) = neighbors[i] {
                        to_propagate.push_back(neighbor_coord);
                    }
                    i += 1;
                }
                run_propagation(space, rule, &mut to_propagate, &neighbor_directions,
                    &mut neighbors, &mut neighbor_states);
                proof {
                    lemma_total_entropy_mono::<St, Sp>(after_put, *space);
                    assert forall|c: <Sp as Space<St>>::Coordinate|
                        #[trigger] unresolved_set@.contains(c) implies space.coords().contains(
                        c,
                    ) by {
                        assert(pre_unresolved.contains(c));
                    }
                    assert forall|c: <Sp as Space<St>>::Coordinate|
                        #[trigger] space.coords().contains(c) && space.state_at(
                        c,
                    ).entropy_spec() > 0 implies unresolved_set@.contains(c) by {
                        assert(space.state_at(c).entropy_spec() <= after_put.state_at(
                            c,
                        ).entropy_spec());
                        assert(c != to_collapse);
                        assert(after_put.state_at(c) == at_select.state_at(c));
                        assert(pre_unresolved.contains(c));
                    }
                    assert forall|c: <Sp as Space<St>>::Coordinate|
                        #[trigger] space.coords().contains(c) implies space.state_at(
                        c,
                    ).entropy_spec() <= old(space).state_at(c).entropy_spec() by {
                        assert(space.state_at(c).entropy_spec() <= after_put.state_at(
                            c,
                        ).entropy_spec());
                        if c != to_collapse {
                            assert(after_put.state_at(c) == at_select.state_at(c));
                        }
                    }
                }
            },
        }
    }
}

} // verus!
