//! A concrete space whose topology is an explicit adjacency table.

use vstd::prelude::*;
use crate::space::Space;
use crate::state::State;

verus! {

/// Is `nbr` a valid adjacency table for `n` cells: one row per cell, every
/// link pointing at a cell.
pub open spec fn table_ok(n: int, nbr: Seq<Vec<Option<usize>>>) -> bool {
    &&& nbr.len() == n
    &&& forall|i: int, j: int|
        0 <= i < n && 0 <= j < nbr[i]@.len() ==> (#[trigger] nbr[i]@[j] matches Some(m) ==> (
        m as int) < n)
}

/// The link stored in an adjacency table: row `c`, column `d`, `None` past
/// the end of the row.
pub open spec fn spec_link(nbr: Seq<Vec<Option<usize>>>, c: usize, d: usize) -> Option<usize> {
    if (c as int) < nbr.len() && (d as int) < nbr[c as int]@.len() {
        nbr[c as int]@[d as int]
    } else {
        None
    }
}

/// A space of cells `0..n` whose neighbor in direction `d` from cell `c` is
/// whatever the adjacency table holds at row `c`, column `d` (`None` where
/// the row is shorter, e.g. at a boundary).
pub struct TableSpace<St> {
    states: Vec<St>,
    nbr: Vec<Vec<Option<usize>>>,
}

impl<St: State> TableSpace<St> {
    /// Build a space from cell states and an adjacency table; `None` exactly
    /// when the table does not fit the states (wrong row count, or a link to
    /// a cell that does not exist).
    pub fn new(states: Vec<St>, nbr: Vec<Vec<Option<usize>>>) -> (r: Option<TableSpace<St>>)
        ensures
            r matches Some(sp) ==> {
                &&& sp.wf()
                &&& sp.coords().len() == states@.len()
                &&& (forall|c: usize|
                    #[trigger] sp.coords().contains(c) <==> (c as int) < states@.len())
                &&& (forall|i: int|
                    0 <= i < states@.len() ==> sp.state_at(i as usize) == states@[i])
                &&& (forall|c: usize, d: usize|
                    #[trigger] sp.neighbor_spec(c, d) == spec_link(nbr@, c, d))
            },
            (r is Some) <==> table_ok(states@.len() as int, nbr@),
    {
        if nbr.len() != states.len() {
            return None;
        }
        let n = states.len();
        let mut i: usize = 0;
        while i < nbr.len()
            invariant
                nbr@.len() == states@.len(),
                n == states@.len(),
                i <= nbr@.len(),
                forall|i2: int, j: int|
                    0 <= i2 < i && 0 <= j < nbr@[i2]@.len() ==> (#[trigger] nbr@[i2]@[j] matches
                        Some(m) ==> (m as int) < states@.len()),
            decreases nbr@.len() - i,
        {
            let mut j: usize = 0;
            while j < nbr[i].len()
                invariant
                    nbr@.len() == states@.len(),
                    n == states@.len(),
                    0 <= i < nbr@.len(),
                    j <= nbr@[i as int]@.len(),
                    forall|i2: int, j2: int|
                        0 <= i2 < i && 0 <= j2 < nbr@[i2]@.len() ==> (#[trigger] nbr@[i2]@[j2]
                            matches Some(m) ==> (m as int) < states@.len()),
                    forall|j2: int|
                        0 <= j2 < j ==> (#[trigger] nbr@[i as int]@[j2] matches Some(m) ==> (
                        m as int) < states@.len()),
                decreases nbr@[i as int]@.len() - j,
            {
                if let Some(m) = nbr[i][j] {
                    if m >= n {
                        proof {
                            assert(nbr@[i as int]@[j as int] matches Some(m2) && (m2 as int)
                                >= states@.len());
                        }
                        return None;
                    }
                }
                j += 1;
            }
            i += 1;
        }
        let sp = TableSpace { states, nbr };
        proof {
            sp.lemma_coords_index();
        }
        Some(sp)
    }

    /// Coordinates are exactly the indices below the cell count.
    proof fn lemma_coords_index(&self)
        ensures
            forall|c: usize|
                #[trigger] self.coords().contains(c) <==> (c as int) < self.states@.len(),
    {
        assert forall|c: usize|
            #[trigger] self.coords().contains(c) implies (c as int) < self.states@.len() by {
            let m = choose|m: int| 0 <= m < self.coords().len() && self.coords()[m] == c;
        }
        assert forall|c: usize|
            (c as int) < self.states@.len() implies #[trigger] self.coords().contains(c) by {
            assert(self.coords()[c as int] == c);
        }
    }
}

impl<St: State> Space<St> for TableSpace<St> {
    type Coordinate = usize;

    type CoordinateDelta = usize;

    closed spec fn wf(&self) -> bool {
        table_ok(self.states@.len() as int, self.nbr@)
    }

    closed spec fn coords(&self) -> Seq<usize> {
        Seq::new(self.states@.len(), |i: int| i as usize)
    }

    closed spec fn state_at(&self, c: usize) -> St {
        self.states@[c as int]
    }

    closed spec fn neighbor_spec(&self, c: usize, d: usize) -> Option<usize> {
        spec_link(self.nbr@, c, d)
    }

    fn coordinate_list(&self) -> (v: Vec<usize>) {
        let mut v: Vec<usize> = Vec::new();
        let mut i: usize = 0;
        while i < self.states.len()
            invariant
                v@.len() == i,
                i <= self.states@.len(),
                forall|j: int| 0 <= j < i ==> v@[j] == j as usize,
            decreases self.states@.len() - i,
        {
            v.push(i);
            i += 1;
        }
        proof {
            assert(v@ =~= self.coords());
        }
        v
    }

    fn get(&self, c: usize) -> (s: &St) {
        proof {
            self.lemma_coords_index();
        }
        &self.states[c]
    }

    fn put(&mut self, c: usize, s: St) {
        proof {
            self.lemma_coords_index();
        }
        self.states[c] = s;
        proof {
            assert(self.coords() =~= old(self).coords());
            assert forall|c2: usize|
                old(self).coords().contains(c2) && c2 != c implies self.state_at(c2) == old(
                self,
            ).state_at(c2) by {
                old(self).lemma_coords_index();
            }
        }
    }

    fn neighbors(&self, c: usize, deltas: &Vec<usize>, out: &mut Vec<Option<usize>>) {
        proof {
            self.lemma_coords_index();
        }
        out.clear();
        let mut i: usize = 0;
        while i < deltas.len()
            invariant
                self.wf(),
                (c as int) < self.states@.len(),
                forall|c2: usize|
                    #[trigger] self.coords().contains(c2) <==> (c2 as int)
                        < self.states@.len(),
                out@.len() == i,
                i <= deltas@.len(),
                forall|j: int| 0 <= j < i ==> out@[j] == self.neighbor_spec(c, deltas@[j]),
                forall|j: int|
                    0 <= j < i ==> (#[trigger] out@[j] matches Some(n) ==> self.coords().contains(
                        n,
                    )),
            decreases deltas@.len() - i,
        {
            let d = deltas[i];
            let link = if d < self.nbr[c].len() {
                self.nbr[c][d]
            } else {
                None
            };
            out.push(link);
            i += 1;
        }
    }
}

/// The links of an adjacency table are irreflexive and, within the first
/// `k` columns, mutual: wherever one cell lists another, the other lists it
/// back somewhere among its own first `k` columns.
pub open spec fn table_symmetric(nbr: Seq<Vec<Option<usize>>>, k: int) -> bool {
    &&& (forall|c: int, i: int|
        0 <= c < nbr.len() && 0 <= i < nbr[c]@.len() ==> #[trigger] nbr[c]@[i] != Some(c as usize))
    &&& (forall|c: int, i: int|
        0 <= c < nbr.len() && 0 <= i < k && i < nbr[c]@.len() ==> (#[trigger] nbr[c]@[i] matches
            Some(m) ==> exists|j: int|
            0 <= j < k && j < nbr[m as int]@.len() && nbr[m as int]@[j] == Some(c as usize)))
}

/// A space built over a well-formed, irreflexive, mutual adjacency table
/// presents a sound topology for the offset list `0..k`: that discharges
/// the topology hypothesis of the propagation fixed-point guarantee.
pub proof fn lemma_table_topology<St: State>(
    sp: TableSpace<St>,
    nbr: Seq<Vec<Option<usize>>>,
    offsets: Seq<usize>,
    k: int,
)
    requires
        forall|c: usize, d: usize| #[trigger] sp.neighbor_spec(c, d) == spec_link(nbr, c, d),
        forall|c: usize| #[trigger] sp.coords().contains(c) <==> (c as int) < nbr.len(),
        table_ok(nbr.len() as int, nbr),
        table_symmetric(nbr, k),
        0 <= k <= usize::MAX,
        offsets.len() == k,
        forall|i: int| 0 <= i < k ==> offsets[i] == i as usize,
    ensures
        crate::space::topology_ok::<St, TableSpace<St>>(sp, offsets),
{
    assert forall|c: usize, i: int|
        0 <= i < offsets.len() implies #[trigger] sp.neighbor_spec(c, offsets[i]) != Some(c) by {
        assert(sp.neighbor_spec(c, offsets[i]) == spec_link(nbr, c, offsets[i]));
        let d = offsets[i];
        if (c as int) < nbr.len() && (d as int) < nbr[c as int]@.len() {
            assert(nbr[c as int]@[d as int] != Some((c as int) as usize));
        }
    }
    assert forall|c: usize, i: int|
        0 <= i < offsets.len() implies (#[trigger] sp.neighbor_spec(c, offsets[i]) matches Some(m)
        ==> sp.coords().contains(m)) by {
        assert(sp.neighbor_spec(c, offsets[i]) == spec_link(nbr, c, offsets[i]));
        let d = offsets[i];
        if (c as int) < nbr.len() && (d as int) < nbr[c as int]@.len() {
            match nbr[c as int]@[d as int] {
                Some(m) => {
                    assert(sp.coords().contains(m));
                },
                None => {},
            }
        }
    }
    assert forall|y: usize, i: int|
        0 <= i < offsets.len() implies (#[trigger] sp.neighbor_spec(y, offsets[i]) matches Some(x)
        ==> exists|j: int|
        0 <= j < offsets.len() && #[trigger] sp.neighbor_spec(x, offsets[j]) == Some(y)) by {
        assert(sp.neighbor_spec(y, offsets[i]) == spec_link(nbr, y, offsets[i]));
        let d = offsets[i];
        if (y as int) < nbr.len() && (d as int) < nbr[y as int]@.len() {
            match nbr[y as int]@[d as int] {
                Some(x) => {
                    assert(d == i as usize);
                    assert(d as int == i);
                    assert(nbr[y as int]@[i] == Some(x));
                    let j = choose|j: int|
                        0 <= j < k && j < nbr[x as int]@.len() && nbr[x as int]@[j] == Some(
                            (y as int) as usize,
                        );
                    assert(offsets[j] == j as usize);
                    assert(sp.neighbor_spec(x, offsets[j]) == spec_link(nbr, x, offsets[j]));
                    assert((x as int) < nbr.len());
                    assert(spec_link(nbr, x, offsets[j]) == Some(y));
                },
                None => {},
            }
        }
    }
}

} // verus!
