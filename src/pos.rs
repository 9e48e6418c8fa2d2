//! Positions on the unbounded plane and their Moore neighbourhoods.

use vstd::prelude::*;

verus! {

/// The offset of the `k`-th Moore neighbour, in the order in which
/// `Pos::neighbours` lists them.
pub open spec fn offset(k: int) -> (int, int) {
    if k == 0 {
        (1, 1)
    } else if k == 1 {
        (1, -1)
    } else if k == 2 {
        (-1, 1)
    } else if k == 3 {
        (-1, -1)
    } else if k == 4 {
        (1, 0)
    } else if k == 5 {
        (0, 1)
    } else if k == 6 {
        (-1, 0)
    } else {
        (0, -1)
    }
}

/// The `k`-th Moore neighbour of the point `p`, for `0 <= k < 8`.
pub open spec fn neighbour_at(p: (int, int), k: int) -> (int, int) {
    (p.0 + offset(k).0, p.1 + offset(k).1)
}

/// `q` is one of the eight cells that touch `p`, diagonals included.
pub open spec fn is_neighbour(p: (int, int), q: (int, int)) -> bool {
    exists|k: int| 0 <= k < 8 && #[trigger] neighbour_at(p, k) == q
}

/// A position in the world grid.
#[derive(Clone, Copy, Debug, PartialEq, Eq, Hash, Structural)]
pub struct Pos {
    pub x: isize,
    pub y: isize,
}

impl View for Pos {
    type V = (int, int);

    open spec fn view(&self) -> (int, int) {
        (self.x as int, self.y as int)
    }
}

/// A position whose eight neighbours all have coordinates that fit in `isize`.
pub open spec fn has_neighbours(p: (int, int)) -> bool {
    isize::MIN < p.0 < isize::MAX && isize::MIN < p.1 < isize::MAX
}

impl Pos {
    /// Construct a new cartesian position.
    pub fn new(x: isize, y: isize) -> (r: Pos)
        ensures
            r.x == x,
            r.y == y,
    {
        Pos { x, y }
    }

    /// The eight positions around this one, diagonals included.
    ///
    /// This only computes locations: it says nothing of whether they are
    /// alive, and does not depend on any board, so a result may lie outside
    /// of a grid.
    pub fn neighbours(&self) -> (r: [Pos; 8])
        requires
            has_neighbours(self@),
        ensures
            forall|k: int| 0 <= k < 8 ==> #[trigger] r@[k]@ == neighbour_at(self@, k),
            forall|k: int| 0 <= k < 8 ==> #[trigger] r@[k] != *self,
            forall|i: int, j: int| 0 <= i < j < 8 ==> #[trigger] r@[i] != #[trigger] r@[j],
            forall|k: int| 0 <= k < 8 ==> is_neighbour(r@[k]@, self@),
    {
        let r = [
            Pos::new(self.x + 1, self.y + 1),
            Pos::new(self.x + 1, self.y - 1),
            Pos::new(self.x - 1, self.y + 1),
            Pos::new(self.x - 1, self.y - 1),
            Pos::new(self.x + 1, self.y),
            Pos::new(self.x, self.y + 1),
            Pos::new(self.x - 1, self.y),
            Pos::new(self.x, self.y - 1),
        ];
        assert forall|k: int| 0 <= k < 8 implies is_neighbour(r@[k]@, self@) by {
            neighbours_symmetric(self@, k);
        }
        r
    }
}

/// Neighbourhood is symmetric: every position is a neighbour of each of its
/// neighbours.
pub proof fn neighbours_symmetric(p: (int, int), k: int)
    requires
        0 <= k < 8,
    ensures
        is_neighbour(neighbour_at(p, k), p),
{
    // The opposite offset: the diagonals pair up as k and 3 - k, the
    // orthogonal ones as k and k + 2.
    let j = if k < 4 {
        3 - k
    } else if k < 6 {
        k + 2
    } else {
        k - 2
    };
    assert(neighbour_at(neighbour_at(p, k), j) == p);
}

} // verus!
