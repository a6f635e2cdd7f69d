//! The cell-container abstraction: coordinates, cell access, topology.

use vstd::prelude::*;
use crate::state::State;

verus! {

/// An indexed container of cells, each holding a `State`, together with the
/// topology: which coordinate (if any) one reaches from a cell by a given
/// directional offset.
///
/// At the specification level a space is a sequence of coordinates
/// (`coords`, each cell exactly once), a cell-state map (`state_at`), and a
/// neighbor function (`neighbor_spec`). Writing a cell (`put`) changes that
/// cell's state and nothing else: neither the coordinate sequence nor any
/// other cell.
pub trait Space<St: State>: Sized {
    /// Identifies one cell of the space.
    type Coordinate: Copy;

    /// A directional offset between coordinates.
    type CoordinateDelta;

    /// Well-formedness of the container itself.
    spec fn wf(&self) -> bool;

    /// Every coordinate of the space, each exactly once.
    spec fn coords(&self) -> Seq<Self::Coordinate>;

    /// The state currently held at a coordinate.
    spec fn state_at(&self, c: Self::Coordinate) -> St;

    /// The cell reached from `c` by offset `d`, or `None` at a boundary.
    spec fn neighbor_spec(&self, c: Self::Coordinate, d: Self::CoordinateDelta) -> Option<
        Self::Coordinate,
    >;

    /// Enumerate every cell of the space exactly once, in a stable order.
    fn coordinate_list(&self) -> (v: Vec<Self::Coordinate>)
        requires
            self.wf(),
        ensures
            v@ == self.coords(),
    ;

    /// Read the cell at `c`.
    fn get(&self, c: Self::Coordinate) -> (s: &St)
        requires
            self.wf(),
            self.coords().contains(c),
        ensures
            *s == self.state_at(c),
    ;

    /// Replace the cell at `c`, leaving every other cell and the topology
    /// unchanged.
    fn put(&mut self, c: Self::Coordinate, s: St)
        requires
            old(self).wf(),
            old(self).coords().contains(c),
        ensures
            final(self).wf(),
            final(self).coords() == old(self).coords(),
            final(self).state_at(c) == s,
            forall|c2: Self::Coordinate|
                old(self).coords().contains(c2) && c2 != c ==> final(self).state_at(c2) == old(
                    self,
                ).state_at(c2),
            forall|c2: Self::Coordinate, d: Self::CoordinateDelta|
                #[trigger] final(self).neighbor_spec(c2, d) == old(self).neighbor_spec(c2, d),
    ;

    /// For each offset in `deltas`, write into `out` the coordinate of the
    /// neighbor it leads to from `c`, or `None` where the space ends.
    fn neighbors(
        &self,
        c: Self::Coordinate,
        deltas: &Vec<Self::CoordinateDelta>,
        out: &mut Vec<Option<Self::Coordinate>>,
    )
        requires
            self.wf(),
            self.coords().contains(c),
        ensures
            final(out)@.len() == deltas@.len(),
            forall|i: int|
                0 <= i < deltas@.len() ==> final(out)@[i] == self.neighbor_spec(c, deltas@[i]),
            forall|i: int|
                0 <= i < deltas@.len() ==> (#[trigger] final(out)@[i] matches Some(n)
                    ==> self.coords().contains(n)),
    ;
}

/// The neighbor structure a space presents to a rule's offset list is sound
/// for propagation when, over those offsets: no cell is its own neighbor;
/// every neighbor of a cell is itself a cell; and neighborhood is symmetric,
/// so that whoever can see a changed cell is reachable from it and can be
/// re-enqueued.
pub open spec fn topology_ok<St: State, Sp: Space<St>>(
    space: Sp,
    offsets: Seq<<Sp as Space<St>>::CoordinateDelta>,
) -> bool {
    &&& (forall|c: <Sp as Space<St>>::Coordinate, i: int|
        0 <= i < offsets.len() ==> #[trigger] space.neighbor_spec(c, offsets[i]) != Some(c))
    &&& (forall|c: <Sp as Space<St>>::Coordinate, i: int|
        0 <= i < offsets.len() ==> (#[trigger] space.neighbor_spec(c, offsets[i]) matches Some(m)
            ==> space.coords().contains(m)))
    &&& (forall|y: <Sp as Space<St>>::Coordinate, i: int|
        0 <= i < offsets.len() ==> (#[trigger] space.neighbor_spec(y, offsets[i]) matches Some(x)
            ==> exists|j: int|
            0 <= j < offsets.len() && #[trigger] space.neighbor_spec(x, offsets[j]) == Some(y)))
}

} // verus!
