//! The coordinate-system abstraction: a policy binding a `Size` to a linear
//! index for every valid coordinate and to a canonical enumeration order,
//! together with the conformance check that traversal order and storage
//! order coincide.

use vstd::prelude::*;

use crate::coord::{Coord, Size};

verus! {

/// A mapping from coordinate to position in the store backing a grid.
/// Implementations own the size of the grid.
pub trait CoordSystem: Sized {
    /// Whether this system can address its whole grid with the machine's
    /// index type; exec methods may assume it.
    spec fn spec_wf(&self) -> bool;

    /// The size of the grid.
    spec fn spec_size(&self) -> Size;

    /// The index of the backing store this system assigns to a coordinate.
    spec fn spec_index(&self, coord: Coord) -> int;

    /// The canonical enumeration order over all valid coordinates.
    spec fn spec_coords(&self) -> Seq<Coord>;

    /// The size of the grid.
    fn size(&self) -> (s: Size)
        ensures
            s == self.spec_size(),
    ;

    /// Given a coordinate, returns the index of the backing store which
    /// corresponds to that coordinate. May assume that the coordinate is
    /// valid for the grid.
    fn index_of_coord_unchecked(&self, coord: Coord) -> (r: usize)
        requires
            self.spec_wf(),
            coord.is_valid_spec(self.spec_size()),
        ensures
            r == self.spec_index(coord),
    ;

    /// Coordinates in the same order as elements are stored in the grid.
    fn coord_iter(&self) -> (v: Vec<Coord>)
        requires
            self.spec_wf(),
        ensures
            v@ == self.spec_coords(),
    ;

    /// The index of a coordinate the caller has already shown to be valid.
    fn index_of_coord_checked(&self, coord: Coord) -> (r: usize)
        requires
            self.spec_wf(),
            coord.is_valid_spec(self.spec_size()),
        ensures
            r == self.spec_index(coord),
    {
        self.index_of_coord_unchecked(coord)
    }

    /// The index of a coordinate, or nothing if the coordinate is not
    /// valid.
    fn index_of_coord(&self, coord: Coord) -> (r: Option<usize>)
        requires
            self.spec_wf(),
        ensures
            match r {
                Some(i) => coord.is_valid_spec(self.spec_size()) && i == self.spec_index(coord),
                None => !coord.is_valid_spec(self.spec_size()),
            },
    {
        let size = self.size();
        if coord.is_valid(size) {
            Some(self.index_of_coord_unchecked(coord))
        } else {
            None
        }
    }

    /// The index of the cell any coordinate wraps onto: the coordinate is
    /// normalized into the grid first, so this is total whenever the grid
    /// has at least one cell.
    fn index_of_normalized_coord(&self, coord: Coord) -> (r: usize)
        requires
            self.spec_wf(),
            self.spec_size().w() >= 1,
            self.spec_size().h() >= 1,
        ensures
            r == self.spec_index(coord.normalize_spec(self.spec_size())),
    {
        let size = self.size();
        proof {
            use_type_invariant(size);
            size.lemma_normalized_index_in_range(coord);
        }
        self.index_of_coord_unchecked(coord.normalize(size))
    }
}

/// The traversal/index agreement invariant: enumerating the canonical order
/// and mapping each coordinate through the index function yields exactly
/// `0, 1, ..., count - 1`, so traversal order and storage order coincide.
pub open spec fn conforms<C: CoordSystem>(coord_system: &C) -> bool {
    &&& coord_system.spec_coords().len() == coord_system.spec_size().count_spec()
    &&& forall|i: int|
        0 <= i < coord_system.spec_coords().len() ==> (
        #[trigger] coord_system.spec_coords()[i]).is_valid_spec(coord_system.spec_size())
            && coord_system.spec_index(coord_system.spec_coords()[i]) == i
}

/// The conformance check for `CoordSystem` implementations: whether the
/// given coordinate system visits its coordinates in index order. This is
/// the correctness gate an alternative traversal order must pass before a
/// grid may trust it.
pub fn validate<C: CoordSystem>(coord_system: &C) -> (r: bool)
    requires
        coord_system.spec_wf(),
    ensures
        r == conforms(coord_system),
{
    let coords = coord_system.coord_iter();
    let size = coord_system.size();
    let n = coords.len();
    let count = match (size.x() as usize).checked_mul(size.y() as usize) {
        Some(count) => count,
        None => {
            return false;
        },
    };
    if n != count {
        return false;
    }
    let mut i: usize = 0;
    while i < n
        invariant
            i <= n,
            coord_system.spec_wf(),
            size == coord_system.spec_size(),
            coords@ == coord_system.spec_coords(),
            n == coords@.len() == size.count_spec(),
            forall|k: int|
                0 <= k < i ==> (#[trigger] coords@[k]).is_valid_spec(size)
                    && coord_system.spec_index(coords@[k]) == k,
        decreases n - i,
    {
        let c = coords[i];
        if !c.is_valid(size) {
            return false;
        }
        if coord_system.index_of_coord_unchecked(c) != i {
            return false;
        }
        i += 1;
    }
    true
}

/// The row-major coordinate system: starts in the top-left corner and
/// traverses each row left to right, rows from top to bottom; the index of
/// a coordinate is `y * width + x`.
#[derive(Debug, Clone, Hash, PartialEq, Eq)]
pub struct XThenY {
    pub(crate) size: Size,
}

impl XThenY {
    pub fn new(size: Size) -> (r: Self)
        ensures
            r.spec_size() == size,
    {
        Self { size }
    }
}

impl CoordSystem for XThenY {
    /// Row-major addressing can serve any grid whose cell count fits the
    /// index type.
    open(crate) spec fn spec_wf(&self) -> bool {
        self.size.count_spec() <= usize::MAX
    }

    open(crate) spec fn spec_size(&self) -> Size {
        self.size
    }

    open(crate) spec fn spec_index(&self, coord: Coord) -> int {
        self.size.index_of_coord_spec(coord)
    }

    open(crate) spec fn spec_coords(&self) -> Seq<Coord> {
        Seq::new(
            self.size.count_spec() as nat,
            |i: int| self.size.coord_of_index_spec(i),
        )
    }

    fn size(&self) -> (s: Size) {
        self.size
    }

    fn index_of_coord_unchecked(&self, coord: Coord) -> (r: usize) {
        proof {
            self.size.lemma_index_in_range(coord);
        }
        (coord.y as usize) * (self.size.x() as usize) + (coord.x as usize)
    }

    fn coord_iter(&self) -> (v: Vec<Coord>) {
        let v = self.size.coords();
        proof {
            assert(v@ =~= self.spec_coords());
        }
        v
    }
}

/// The row-major system conforms: its canonical order visits every valid
/// coordinate exactly once, in exactly the order of its linear indices.
pub proof fn lemma_x_then_y_conforms(coord_system: &XThenY)
    requires
        coord_system.spec_size().extents_in_range(),
    ensures
        conforms(coord_system),
{
    let size = coord_system.spec_size();
    assert forall|i: int| 0 <= i < coord_system.spec_coords().len() implies (
    #[trigger] coord_system.spec_coords()[i]).is_valid_spec(size) && coord_system.spec_index(
        coord_system.spec_coords()[i],
    ) == i by {
        size.lemma_index_coord_round_trip(i);
    }
}

} // verus!
