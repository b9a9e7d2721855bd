//! A dense two-dimensional grid: a `Size` together with a contiguous store
//! of one element per cell, addressed through row-major linear indices.

use vstd::prelude::*;

use crate::coord::{Coord, Size};

verus! {

/// Error: the sequence handed to a grid constructor does not hold exactly
/// one element per cell of the requested size.
#[derive(Debug, Clone, Copy, PartialEq, Eq, Structural)]
pub struct IteratorLengthDifferentFromSize;

/// Error from `get2_mut`: the two requested cells cannot both be borrowed.
/// The two out-of-bounds cases are checked independently, so a caller can
/// tell which side failed.
#[derive(Debug, Clone, Copy, PartialEq, Eq, Structural)]
pub enum Get2Error {
    CoordsEqual,
    LeftOutOfBounds,
    RightOutOfBounds,
}

/// A grid of cells of type `T`. The backing store always holds exactly
/// `size.count()` elements; element `i` is the cell at the coordinate whose
/// row-major linear index is `i`.
#[derive(Debug, Hash, PartialEq, Eq)]
pub struct Grid<T> {
    cells: Vec<T>,
    size: Size,
}

impl<T: Clone> Clone for Grid<T> {
    /// A cell-by-cell clone: the same size, each cell a clone of the
    /// original cell.
    fn clone(&self) -> (res: Self)
        ensures
            res.size_spec() == self.size_spec(),
            res@.len() == self@.len(),
            forall|i: int| 0 <= i < self@.len() ==> cloned::<T>(self@[i], res@[i]),
            self.wf() ==> res.wf(),
    {
        Grid { cells: self.cells.clone(), size: self.size }
    }
}

impl<T> View for Grid<T> {
    type V = Seq<T>;

    /// The cells in storage (row-major) order.
    closed spec fn view(&self) -> Seq<T> {
        self.cells@
    }
}

/// Splitting a sequence at two positions, replacing the head of each of the
/// two tails, and stitching the pieces back together is the same as updating
/// the two positions in place.
proof fn lemma_stitch_two_updates<T>(orig: Seq<T>, i: int, j: int, va: T, vb: T)
    requires
        0 <= i < j < orig.len(),
    ensures
        (orig.subrange(0, i) + orig.subrange(i, j).update(0, va)) + orig.subrange(
            j,
            orig.len() as int,
        ).update(0, vb) == orig.update(i, va).update(j, vb),
{
    assert((orig.subrange(0, i) + orig.subrange(i, j).update(0, va)) + orig.subrange(
        j,
        orig.len() as int,
    ).update(0, vb) =~= orig.update(i, va).update(j, vb));
}

impl<T> Grid<T> {
    /// The grid's extent.
    pub closed spec fn size_spec(self) -> Size {
        self.size
    }

    /// The cell stored at a valid coordinate.
    pub open spec fn cell_at(self, c: Coord) -> T {
        self@[self.size_spec().index_of_coord_spec(c)]
    }

    /// Well-formedness: the store is sized exactly to the grid, one element
    /// per cell. Every constructor establishes it and every method
    /// preserves it.
    pub open spec fn wf(self) -> bool {
        self@.len() == self.size_spec().count_spec()
    }

    /// Builds a grid of the given size from a sequence of cells in row-major
    /// order: element `i` corresponds to coordinate `(i % width, i / width)`.
    /// Reports an error if the sequence length is not exactly one element
    /// per cell.
    pub fn try_new_iterator(size: Size, cells: Vec<T>) -> (r: Result<
        Grid<T>,
        IteratorLengthDifferentFromSize,
    >)
        ensures
            match r {
                Ok(g) => {
                    &&& cells@.len() == size.count_spec()
                    &&& g.size_spec() == size
                    &&& g@ == cells@
                    &&& g.wf()
                },
                Err(e) => {
                    &&& cells@.len() != size.count_spec()
                    &&& e == IteratorLengthDifferentFromSize
                },
            },
    {
        let n = cells.len();
        match (size.x() as usize).checked_mul(size.y() as usize) {
            Some(count) => {
                if n == count {
                    Ok(Grid { cells, size })
                } else {
                    Err(IteratorLengthDifferentFromSize)
                }
            },
            None => Err(IteratorLengthDifferentFromSize),
        }
    }

    /// As `try_new_iterator`, for callers who have already established that
    /// the sequence length matches.
    pub fn new_iterator(size: Size, cells: Vec<T>) -> (g: Grid<T>)
        requires
            cells@.len() == size.count_spec(),
        ensures
            g.size_spec() == size,
            g@ == cells@,
            g.wf(),
    {
        Grid { cells, size }
    }

    /// Returns the width.
    pub fn width(&self) -> (r: u32)
        ensures
            r == self.size_spec().w(),
    {
        self.size.x()
    }

    /// Returns the height.
    pub fn height(&self) -> (r: u32)
        ensures
            r == self.size_spec().h(),
    {
        self.size.y()
    }

    /// Returns the extent of the grid.
    pub fn size(&self) -> (r: Size)
        ensures
            r == self.size_spec(),
    {
        self.size
    }

    /// Returns the number of cells.
    pub fn len(&self) -> (r: usize)
        requires
            self.wf(),
        ensures
            r == self@.len(),
            r == self.size_spec().count_spec(),
    {
        self.cells.len()
    }

    /// The backing store in row-major order.
    pub fn raw(&self) -> (r: &[T])
        ensures
            r@ == self@,
    {
        self.cells.as_slice()
    }

    /// Exclusive access to the backing store in row-major order. A slice
    /// cannot change length, so the store stays sized to the grid.
    pub fn raw_mut(&mut self) -> (r: &mut [T])
        ensures
            r@ == old(self)@,
            final(self)@ == final(r)@,
            final(self).size_spec() == old(self).size_spec(),
    {
        self.cells.as_mut_slice()
    }

    /// The row-major linear index of a coordinate, or nothing if the
    /// coordinate is not valid for this grid.
    pub fn index_of_coord(&self, coord: Coord) -> (r: Option<usize>)
        requires
            self.wf(),
        ensures
            r == if coord.is_valid_spec(self.size_spec()) {
                Some(self.size_spec().index_of_coord_spec(coord) as usize)
            } else {
                None::<usize>
            },
    {
        // The store is a real vector, so its length, and with it the cell
        // count, fits the index type.
        let _n = self.cells.len();
        self.size.index(coord)
    }

    /// The row-major linear index of a coordinate the caller has already
    /// shown to be valid.
    pub fn index_of_coord_unchecked(&self, coord: Coord) -> (r: usize)
        requires
            self.wf(),
            coord.is_valid_spec(self.size_spec()),
        ensures
            r == self.size_spec().index_of_coord_spec(coord),
    {
        // The store is a real vector, so its length, and with it the cell
        // count, fits the index type.
        let _n = self.cells.len();
        proof {
            self.size.lemma_index_in_range(coord);
        }
        (coord.y as usize) * (self.size.x() as usize) + (coord.x as usize)
    }

    /// The cell at a coordinate, or nothing if the coordinate is not valid.
    pub fn get(&self, coord: Coord) -> (r: Option<&T>)
        requires
            self.wf(),
        ensures
            match r {
                Some(p) => coord.is_valid_spec(self.size_spec()) && *p == self.cell_at(coord),
                None => !coord.is_valid_spec(self.size_spec()),
            },
    {
        // The store is a real vector, so its length, and with it the cell
        // count, fits the index type.
        let _n = self.cells.len();
        proof {
            if coord.is_valid_spec(self.size_spec()) {
                self.size.lemma_index_in_range(coord);
            }
        }
        match self.index_of_coord(coord) {
            Some(index) => Some(&self.cells[index]),
            None => None,
        }
    }

    /// The cell at a coordinate the caller has already shown to be valid.
    pub fn get_checked(&self, coord: Coord) -> (r: &T)
        requires
            self.wf(),
            coord.is_valid_spec(self.size_spec()),
        ensures
            *r == self.cell_at(coord),
    {
        proof {
            self.size.lemma_index_in_range(coord);
        }
        let index = self.index_of_coord_unchecked(coord);
        &self.cells[index]
    }

    /// The cell at the given position of the backing store.
    pub fn get_index_checked(&self, index: usize) -> (r: &T)
        requires
            index < self@.len(),
        ensures
            *r == self@[index as int],
    {
        &self.cells[index]
    }

    /// The cell a coordinate wraps onto: any coordinate, valid or not, is
    /// first normalized into the grid. Total for every coordinate as long as
    /// the grid has at least one cell.
    pub fn get_tiled(&self, coord: Coord) -> (r: &T)
        requires
            self.wf(),
            self.size_spec().w() >= 1,
            self.size_spec().h() >= 1,
        ensures
            *r == self.cell_at(coord.normalize_spec(self.size_spec())),
    {
        proof {
            use_type_invariant(self.size);
            self.size.lemma_normalized_index_in_range(coord);
        }
        let normalized = coord.normalize(self.size);
        let index = self.index_of_coord_unchecked(normalized);
        &self.cells[index]
    }

    /// Exclusive access to the cell at the given position of the backing
    /// store.
    pub fn get_index_checked_mut(&mut self, index: usize) -> (r: &mut T)
        requires
            old(self).wf(),
            index < old(self)@.len(),
        ensures
            *r == old(self)@[index as int],
            final(self).size_spec() == old(self).size_spec(),
            final(self)@ == old(self)@.update(index as int, *final(r)),
            final(self).wf(),
    {
        &mut self.cells[index]
    }

    /// Exclusive access to the cell at a coordinate the caller has already
    /// shown to be valid. Writing through the result changes that cell and
    /// no other.
    pub fn get_checked_mut(&mut self, coord: Coord) -> (r: &mut T)
        requires
            old(self).wf(),
            coord.is_valid_spec(old(self).size_spec()),
        ensures
            *r == old(self).cell_at(coord),
            final(self).size_spec() == old(self).size_spec(),
            final(self)@ == old(self)@.update(
                old(self).size_spec().index_of_coord_spec(coord),
                *final(r),
            ),
            final(self).wf(),
    {
        proof {
            self.size.lemma_index_in_range(coord);
        }
        let index = self.index_of_coord_unchecked(coord);
        &mut self.cells[index]
    }

    /// Exclusive access to the cell at a coordinate, or nothing if the
    /// coordinate is not valid; the grid is unchanged in that case.
    pub fn get_mut(&mut self, coord: Coord) -> (r: Option<&mut T>)
        requires
            old(self).wf(),
        ensures
            match r {
                Some(p) => {
                    &&& coord.is_valid_spec(old(self).size_spec())
                    &&& *p == old(self).cell_at(coord)
                    &&& final(self).size_spec() == old(self).size_spec()
                    &&& final(self)@ == old(self)@.update(
                        old(self).size_spec().index_of_coord_spec(coord),
                        *final(p),
                    )
                    &&& final(self).wf()
                },
                None => {
                    &&& !coord.is_valid_spec(old(self).size_spec())
                    &&& *final(self) == *old(self)
                },
            },
    {
        if !coord.is_valid(self.size) {
            return None;
        }
        proof {
            self.size.lemma_index_in_range(coord);
        }
        let index = self.index_of_coord_unchecked(coord);
        let (_, rest) = self.cells.as_mut_slice().split_at_mut(index);
        rest.first_mut()
    }

    /// Exclusive access to the cell any coordinate wraps onto. Total for
    /// every coordinate as long as the grid has at least one cell.
    pub fn get_tiled_mut(&mut self, coord: Coord) -> (r: &mut T)
        requires
            old(self).wf(),
            old(self).size_spec().w() >= 1,
            old(self).size_spec().h() >= 1,
        ensures
            *r == old(self).cell_at(coord.normalize_spec(old(self).size_spec())),
            final(self).size_spec() == old(self).size_spec(),
            final(self)@ == old(self)@.update(
                old(self).size_spec().index_of_coord_spec(
                    coord.normalize_spec(old(self).size_spec()),
                ),
                *final(r),
            ),
            final(self).wf(),
    {
        proof {
            use_type_invariant(self.size);
            self.size.lemma_normalized_index_in_range(coord);
        }
        let normalized = coord.normalize(self.size);
        let index = self.index_of_coord_unchecked(normalized);
        &mut self.cells[index]
    }

    /// Exclusive access to two distinct cells of the backing store at once.
    /// The store is split once at the larger index into two disjoint
    /// regions; no cell is copied and no cell aliases the other.
    pub fn get2_index_mut(&mut self, ia: usize, ib: usize) -> (r: (&mut T, &mut T))
        requires
            old(self).wf(),
            ia < old(self)@.len(),
            ib < old(self)@.len(),
            ia != ib,
        ensures
            *r.0 == old(self)@[ia as int],
            *r.1 == old(self)@[ib as int],
            final(self).size_spec() == old(self).size_spec(),
            final(self)@ == old(self)@.update(ia as int, *final(r.0)).update(
                ib as int,
                *final(r.1),
            ),
            final(self).wf(),
    {
        let ghost orig = self.cells@;
        if ia < ib {
            let (left, right) = self.cells.as_mut_slice().split_at_mut(ib);
            let pb = right.first_mut().unwrap();
            let (_ll, mid) = left.split_at_mut(ia);
            let pa = mid.first_mut().unwrap();
            proof {
                lemma_stitch_two_updates(orig, ia as int, ib as int, *final(pa), *final(pb));
            }
            (pa, pb)
        } else {
            let (left, right) = self.cells.as_mut_slice().split_at_mut(ia);
            let pa = right.first_mut().unwrap();
            let (_ll, mid) = left.split_at_mut(ib);
            let pb = mid.first_mut().unwrap();
            proof {
                lemma_stitch_two_updates(orig, ib as int, ia as int, *final(pb), *final(pa));
                assert(orig.update(ib as int, *final(pb)).update(ia as int, *final(pa))
                    =~= orig.update(ia as int, *final(pa)).update(ib as int, *final(pb)));
            }
            (pa, pb)
        }
    }

    /// Exclusive access to the two cells at two distinct valid coordinates.
    /// Writing through either view changes its own cell and no other, so
    /// the two views never alias.
    pub fn get2_checked_mut(&mut self, a: Coord, b: Coord) -> (r: (&mut T, &mut T))
        requires
            old(self).wf(),
            a.is_valid_spec(old(self).size_spec()),
            b.is_valid_spec(old(self).size_spec()),
            a != b,
        ensures
            *r.0 == old(self).cell_at(a),
            *r.1 == old(self).cell_at(b),
            final(self).size_spec() == old(self).size_spec(),
            final(self)@ == old(self)@.update(
                old(self).size_spec().index_of_coord_spec(a),
                *final(r.0),
            ).update(old(self).size_spec().index_of_coord_spec(b), *final(r.1)),
            final(self).wf(),
    {
        proof {
            self.size.lemma_index_in_range(a);
            self.size.lemma_index_in_range(b);
            self.size.lemma_index_of_coord_injective(a, b);
        }
        let ia = self.index_of_coord_unchecked(a);
        let ib = self.index_of_coord_unchecked(b);
        self.get2_index_mut(ia, ib)
    }

    /// As `get2_checked_mut`, reporting the reasons the two cells cannot be
    /// borrowed instead of demanding them up front: equal coordinates and
    /// each side's bounds are checked independently.
    pub fn get2_mut(&mut self, a: Coord, b: Coord) -> (r: Result<(&mut T, &mut T), Get2Error>)
        requires
            old(self).wf(),
        ensures
            match r {
                Ok(p) => {
                    &&& a != b
                    &&& a.is_valid_spec(old(self).size_spec())
                    &&& b.is_valid_spec(old(self).size_spec())
                    &&& *p.0 == old(self).cell_at(a)
                    &&& *p.1 == old(self).cell_at(b)
                    &&& final(self).size_spec() == old(self).size_spec()
                    &&& final(self)@ == old(self)@.update(
                        old(self).size_spec().index_of_coord_spec(a),
                        *final(p.0),
                    ).update(old(self).size_spec().index_of_coord_spec(b), *final(p.1))
                    &&& final(self).wf()
                },
                Err(e) => {
                    &&& *final(self) == *old(self)
                    &&& e == Get2Error::CoordsEqual <==> a == b
                    &&& e == Get2Error::LeftOutOfBounds <==> a != b && !a.is_valid_spec(
                        old(self).size_spec(),
                    )
                    &&& e == Get2Error::RightOutOfBounds <==> a != b && a.is_valid_spec(
                        old(self).size_spec(),
                    ) && !b.is_valid_spec(old(self).size_spec())
                },
            },
    {
        if a.x == b.x && a.y == b.y {
            return Err(Get2Error::CoordsEqual);
        }
        if !a.is_valid(self.size) {
            return Err(Get2Error::LeftOutOfBounds);
        }
        if !b.is_valid(self.size) {
            return Err(Get2Error::RightOutOfBounds);
        }
        Ok(self.get2_checked_mut(a, b))
    }

    /// Whether a coordinate lies on the outer boundary of the grid.
    pub fn is_on_edge(&self, coord: Coord) -> (r: bool)
        ensures
            r == self.size_spec().is_on_edge_spec(coord),
    {
        self.size.is_on_edge(coord)
    }

    /// The grid's coordinates in canonical row-major order: position `i` of
    /// the result holds the coordinate whose linear index is `i`.
    pub fn coord_iter(&self) -> (v: Vec<Coord>)
        requires
            self.wf(),
        ensures
            v@.len() == self.size_spec().count_spec(),
            forall|i: int|
                0 <= i < v@.len() ==> v@[i] == self.size_spec().coord_of_index_spec(i),
    {
        // The store is a real vector, so its length, and with it the cell
        // count, fits the index type.
        let _n = self.cells.len();
        self.size.coords()
    }
}

impl<T> Grid<T> {
    /// Builds a grid by calling the generator once per coordinate, in
    /// canonical row-major traversal order, storing results in storage
    /// order; the two orders coincide, so cell `i` holds a result of the
    /// generator on the coordinate whose linear index is `i`.
    pub fn new_fn<F: Fn(Coord) -> T>(size: Size, f: F) -> (g: Grid<T>)
        requires
            size.count_spec() <= usize::MAX,
            forall|c: Coord| c.is_valid_spec(size) ==> call_requires(f, (c,)),
        ensures
            g.wf(),
            g.size_spec() == size,
            g@.len() == size.count_spec(),
            forall|i: int|
                0 <= i < g@.len() ==> call_ensures(
                    f,
                    (size.coord_of_index_spec(i),),
                    #[trigger] g@[i],
                ),
    {
        let coords = size.coords();
        let mut cells: Vec<T> = Vec::new();
        let mut i: usize = 0;
        while i < coords.len()
            invariant
                i <= coords@.len(),
                cells@.len() == i,
                coords@.len() == size.count_spec(),
                forall|k: int| 0 <= k < coords@.len() ==> coords@[k] == size.coord_of_index_spec(k),
                forall|c: Coord| c.is_valid_spec(size) ==> call_requires(f, (c,)),
                forall|k: int|
                    0 <= k < i ==> call_ensures(
                        f,
                        (size.coord_of_index_spec(k),),
                        #[trigger] cells@[k],
                    ),
            decreases coords@.len() - i,
        {
            proof {
                use_type_invariant(size);
                size.lemma_index_coord_round_trip(i as int);
            }
            let c = coords[i];
            cells.push(f(c));
            i += 1;
        }
        Grid { cells, size }
    }
}

impl<T: Clone> Grid<T> {
    /// Builds a grid with every cell a clone of the given value.
    pub fn new_clone(size: Size, value: T) -> (g: Grid<T>)
        requires
            size.count_spec() <= usize::MAX,
        ensures
            g.wf(),
            g.size_spec() == size,
            g@.len() == size.count_spec(),
            forall|i: int| 0 <= i < g@.len() ==> cloned::<T>(value, #[trigger] g@[i]),
    {
        let count = size.count();
        let mut cells: Vec<T> = Vec::new();
        cells.resize(count, value);
        Grid { cells, size }
    }
}

impl<T: Copy> Grid<T> {
    /// Builds a grid with every cell a copy of the given value.
    pub fn new_copy(size: Size, value: T) -> (g: Grid<T>)
        requires
            size.count_spec() <= usize::MAX,
        ensures
            g.wf(),
            g.size_spec() == size,
            g@.len() == size.count_spec(),
            forall|i: int| 0 <= i < g@.len() ==> #[trigger] g@[i] == value,
    {
        let count = size.count();
        let mut cells: Vec<T> = Vec::new();
        let mut i: usize = 0;
        while i < count
            invariant
                i <= count,
                cells@.len() == i,
                forall|k: int| 0 <= k < i ==> #[trigger] cells@[k] == value,
            decreases count - i,
        {
            cells.push(value);
            i += 1;
        }
        Grid { cells, size }
    }
}

impl<T: Default> Grid<T> {
    /// Builds a grid with every cell a default-constructed value.
    pub fn new_default(size: Size) -> (g: Grid<T>)
        requires
            size.count_spec() <= usize::MAX,
        ensures
            g.wf(),
            g.size_spec() == size,
            g@.len() == size.count_spec(),
            forall|i: int|
                0 <= i < g@.len() ==> call_ensures(T::default, (), #[trigger] g@[i]),
    {
        let count = size.count();
        let mut cells: Vec<T> = Vec::new();
        let mut i: usize = 0;
        while i < count
            invariant
                i <= count,
                cells@.len() == i,
                forall|k: int| 0 <= k < i ==> call_ensures(T::default, (), #[trigger] cells@[k]),
            decreases count - i,
        {
            cells.push(T::default());
            i += 1;
        }
        Grid { cells, size }
    }
}

impl<T> Grid<T> {
    /// Builds a grid of the same size by transforming every cell of the
    /// consumed grid, preserving per-cell order.
    pub fn new_grid_map<U, F: Fn(U) -> T>(grid: Grid<U>, f: F) -> (g: Grid<T>)
        requires
            grid.wf(),
            forall|i: int| 0 <= i < grid@.len() ==> call_requires(f, (#[trigger] grid@[i],)),
        ensures
            g.wf(),
            g.size_spec() == grid.size_spec(),
            g@.len() == grid@.len(),
            forall|i: int| 0 <= i < g@.len() ==> call_ensures(f, (grid@[i],), #[trigger] g@[i]),
    {
        let Grid { cells: mut src, size } = grid;
        let ghost orig = src@;
        proof {
            assert(orig.subrange(0, orig.len() as int) =~= orig);
        }
        let mut rev: Vec<T> = Vec::new();
        while src.len() > 0
            invariant
                src@ == orig.subrange(0, src@.len() as int),
                rev@.len() + src@.len() == orig.len(),
                forall|k: int|
                    0 <= k < rev@.len() ==> call_ensures(
                        f,
                        (orig[orig.len() - 1 - k],),
                        #[trigger] rev@[k],
                    ),
                forall|i: int| 0 <= i < orig.len() ==> call_requires(f, (#[trigger] orig[i],)),
            decreases src@.len(),
        {
            let ghost m = src@.len() as int;
            let u = src.pop().unwrap();
            proof {
                assert(orig.subrange(0, m).subrange(0, m - 1) =~= orig.subrange(0, m - 1));
                assert(u == orig.subrange(0, m)[m - 1]);
            }
            rev.push(f(u));
        }
        let mut cells: Vec<T> = Vec::new();
        while rev.len() > 0
            invariant
                cells@.len() + rev@.len() == orig.len(),
                forall|k: int|
                    0 <= k < rev@.len() ==> call_ensures(
                        f,
                        (orig[orig.len() - 1 - k],),
                        #[trigger] rev@[k],
                    ),
                forall|k: int|
                    0 <= k < cells@.len() ==> call_ensures(f, (orig[k],), #[trigger] cells@[k]),
            decreases rev@.len(),
        {
            let v = rev.pop().unwrap();
            cells.push(v);
        }
        Grid { cells, size }
    }

    /// As `new_grid_map`, handing the transformation each cell's coordinate
    /// as well.
    pub fn new_grid_map_with_coord<U, F: Fn(Coord, U) -> T>(grid: Grid<U>, f: F) -> (g: Grid<T>)
        requires
            grid.wf(),
            forall|i: int|
                0 <= i < grid@.len() ==> call_requires(
                    f,
                    (grid.size_spec().coord_of_index_spec(i), #[trigger] grid@[i]),
                ),
        ensures
            g.wf(),
            g.size_spec() == grid.size_spec(),
            g@.len() == grid@.len(),
            forall|i: int|
                0 <= i < g@.len() ==> call_ensures(
                    f,
                    (grid.size_spec().coord_of_index_spec(i), grid@[i]),
                    #[trigger] g@[i],
                ),
    {
        let Grid { cells: mut src, size } = grid;
        // The store is a real vector, so its length, and with it the cell
        // count, fits the index type.
        let _n = src.len();
        let coords = size.coords();
        let ghost orig = src@;
        proof {
            assert(orig.subrange(0, orig.len() as int) =~= orig);
        }
        let mut rev: Vec<T> = Vec::new();
        while src.len() > 0
            invariant
                src@ == orig.subrange(0, src@.len() as int),
                src@.len() <= orig.len() == size.count_spec(),
                rev@.len() + src@.len() == orig.len(),
                coords@.len() == size.count_spec(),
                forall|k: int| 0 <= k < coords@.len() ==> coords@[k] == size.coord_of_index_spec(k),
                forall|k: int|
                    0 <= k < rev@.len() ==> call_ensures(
                        f,
                        (size.coord_of_index_spec(orig.len() - 1 - k), orig[orig.len() - 1 - k]),
                        #[trigger] rev@[k],
                    ),
                forall|i: int|
                    0 <= i < orig.len() ==> call_requires(
                        f,
                        (size.coord_of_index_spec(i), #[trigger] orig[i]),
                    ),
            decreases src@.len(),
        {
            let ghost m = src@.len() as int;
            let idx = src.len() - 1;
            let u = src.pop().unwrap();
            proof {
                assert(orig.subrange(0, m).subrange(0, m - 1) =~= orig.subrange(0, m - 1));
                assert(u == orig.subrange(0, m)[m - 1]);
            }
            let c = coords[idx];
            rev.push(f(c, u));
        }
        let mut cells: Vec<T> = Vec::new();
        while rev.len() > 0
            invariant
                cells@.len() + rev@.len() == orig.len(),
                forall|k: int|
                    0 <= k < rev@.len() ==> call_ensures(
                        f,
                        (size.coord_of_index_spec(orig.len() - 1 - k), orig[orig.len() - 1 - k]),
                        #[trigger] rev@[k],
                    ),
                forall|k: int|
                    0 <= k < cells@.len() ==> call_ensures(
                        f,
                        (size.coord_of_index_spec(k), orig[k]),
                        #[trigger] cells@[k],
                    ),
            decreases rev@.len(),
        {
            let v = rev.pop().unwrap();
            cells.push(v);
        }
        Grid { cells, size }
    }

    /// Builds a grid of the same size by transforming every cell of the
    /// borrowed grid, preserving per-cell order.
    pub fn new_grid_map_ref<U, F: Fn(&U) -> T>(grid: &Grid<U>, f: F) -> (g: Grid<T>)
        requires
            grid.wf(),
            forall|i: int| 0 <= i < grid@.len() ==> call_requires(f, (&#[trigger] grid@[i],)),
        ensures
            g.wf(),
            g.size_spec() == grid.size_spec(),
            g@.len() == grid@.len(),
            forall|i: int| 0 <= i < g@.len() ==> call_ensures(f, (&grid@[i],), #[trigger] g@[i]),
    {
        let n = grid.cells.len();
        let mut cells: Vec<T> = Vec::new();
        let mut i: usize = 0;
        while i < n
            invariant
                i <= n == grid@.len(),
                cells@.len() == i,
                forall|k: int| 0 <= k < n ==> call_requires(f, (&#[trigger] grid@[k],)),
                forall|k: int|
                    0 <= k < i ==> call_ensures(f, (&grid@[k],), #[trigger] cells@[k]),
            decreases n - i,
        {
            let v = f(&grid.cells[i]);
            cells.push(v);
            i += 1;
        }
        Grid { cells, size: grid.size }
    }

    /// As `new_grid_map_ref`, handing the transformation each cell's
    /// coordinate as well.
    pub fn new_grid_map_ref_with_coord<U, F: Fn(Coord, &U) -> T>(grid: &Grid<U>, f: F) -> (g:
        Grid<T>)
        requires
            grid.wf(),
            forall|i: int|
                0 <= i < grid@.len() ==> call_requires(
                    f,
                    (grid.size_spec().coord_of_index_spec(i), &#[trigger] grid@[i]),
                ),
        ensures
            g.wf(),
            g.size_spec() == grid.size_spec(),
            g@.len() == grid@.len(),
            forall|i: int|
                0 <= i < g@.len() ==> call_ensures(
                    f,
                    (grid.size_spec().coord_of_index_spec(i), &grid@[i]),
                    #[trigger] g@[i],
                ),
    {
        let n = grid.cells.len();
        let coords = grid.size.coords();
        let mut cells: Vec<T> = Vec::new();
        let mut i: usize = 0;
        while i < n
            invariant
                i <= n == grid@.len(),
                n == grid.size_spec().count_spec(),
                cells@.len() == i,
                coords@.len() == grid.size_spec().count_spec(),
                forall|k: int|
                    0 <= k < coords@.len() ==> coords@[k]
                        == grid.size_spec().coord_of_index_spec(k),
                forall|k: int|
                    0 <= k < n ==> call_requires(
                        f,
                        (grid.size_spec().coord_of_index_spec(k), &#[trigger] grid@[k]),
                    ),
                forall|k: int|
                    0 <= k < i ==> call_ensures(
                        f,
                        (grid.size_spec().coord_of_index_spec(k), &grid@[k]),
                        #[trigger] cells@[k],
                    ),
            decreases n - i,
        {
            let c = coords[i];
            let v = f(c, &grid.cells[i]);
            cells.push(v);
            i += 1;
        }
        Grid { cells, size: grid.size }
    }

    /// Transforms every cell of this grid, consuming it.
    pub fn map<U, F: Fn(T) -> U>(self, f: F) -> (g: Grid<U>)
        requires
            self.wf(),
            forall|i: int| 0 <= i < self@.len() ==> call_requires(f, (#[trigger] self@[i],)),
        ensures
            g.wf(),
            g.size_spec() == self.size_spec(),
            g@.len() == self@.len(),
            forall|i: int| 0 <= i < g@.len() ==> call_ensures(f, (self@[i],), #[trigger] g@[i]),
    {
        Grid::new_grid_map(self, f)
    }

    /// Transforms every cell of this grid together with its coordinate,
    /// consuming the grid.
    pub fn map_with_coord<U, F: Fn(Coord, T) -> U>(self, f: F) -> (g: Grid<U>)
        requires
            self.wf(),
            forall|i: int|
                0 <= i < self@.len() ==> call_requires(
                    f,
                    (self.size_spec().coord_of_index_spec(i), #[trigger] self@[i]),
                ),
        ensures
            g.wf(),
            g.size_spec() == self.size_spec(),
            g@.len() == self@.len(),
            forall|i: int|
                0 <= i < g@.len() ==> call_ensures(
                    f,
                    (self.size_spec().coord_of_index_spec(i), self@[i]),
                    #[trigger] g@[i],
                ),
    {
        Grid::new_grid_map_with_coord(self, f)
    }

    /// Transforms every cell of this grid, borrowing it.
    pub fn map_ref<U, F: Fn(&T) -> U>(&self, f: F) -> (g: Grid<U>)
        requires
            self.wf(),
            forall|i: int| 0 <= i < self@.len() ==> call_requires(f, (&#[trigger] self@[i],)),
        ensures
            g.wf(),
            g.size_spec() == self.size_spec(),
            g@.len() == self@.len(),
            forall|i: int| 0 <= i < g@.len() ==> call_ensures(f, (&self@[i],), #[trigger] g@[i]),
    {
        Grid::new_grid_map_ref(self, f)
    }

    /// Transforms every cell of this grid together with its coordinate,
    /// borrowing the grid.
    pub fn map_ref_with_coord<U, F: Fn(Coord, &T) -> U>(&self, f: F) -> (g: Grid<U>)
        requires
            self.wf(),
            forall|i: int|
                0 <= i < self@.len() ==> call_requires(
                    f,
                    (self.size_spec().coord_of_index_spec(i), &#[trigger] self@[i]),
                ),
        ensures
            g.wf(),
            g.size_spec() == self.size_spec(),
            g@.len() == self@.len(),
            forall|i: int|
                0 <= i < g@.len() ==> call_ensures(
                    f,
                    (self.size_spec().coord_of_index_spec(i), &self@[i]),
                    #[trigger] g@[i],
                ),
    {
        Grid::new_grid_map_ref_with_coord(self, f)
    }
}

impl<T> Grid<T> {
    /// Pairs every cell with its coordinate, in storage order: entry `i`
    /// holds the coordinate whose linear index is `i` and a reference to
    /// cell `i`. Traversal order and storage order coincide, so the
    /// coordinate stream can be zipped against the raw cell stream.
    pub fn enumerate(&self) -> (v: Vec<(Coord, &T)>)
        requires
            self.wf(),
        ensures
            v@.len() == self@.len(),
            forall|i: int|
                0 <= i < v@.len() ==> (#[trigger] v@[i]).0 == self.size_spec().coord_of_index_spec(
                    i,
                ) && *v@[i].1 == self@[i],
    {
        let n = self.cells.len();
        let coords = self.size.coords();
        let mut v: Vec<(Coord, &T)> = Vec::new();
        let mut i: usize = 0;
        while i < n
            invariant
                i <= n == self@.len(),
                n == self.size_spec().count_spec(),
                v@.len() == i,
                coords@.len() == self.size_spec().count_spec(),
                forall|k: int|
                    0 <= k < coords@.len() ==> coords@[k] == self.size_spec().coord_of_index_spec(
                        k,
                    ),
                forall|k: int|
                    0 <= k < i ==> (#[trigger] v@[k]).0 == self.size_spec().coord_of_index_spec(k)
                        && *v@[k].1 == self@[k],
            decreases n - i,
        {
            let c = coords[i];
            v.push((c, &self.cells[i]));
            i += 1;
        }
        v
    }

    /// As `enumerate`, consuming the grid and handing the cells out by
    /// value.
    pub fn into_enumerate(self) -> (v: Vec<(Coord, T)>)
        requires
            self.wf(),
        ensures
            v@.len() == self@.len(),
            forall|i: int|
                0 <= i < v@.len() ==> (#[trigger] v@[i]).0 == self.size_spec().coord_of_index_spec(
                    i,
                ) && v@[i].1 == self@[i],
    {
        let Grid { cells: mut src, size } = self;
        // The store is a real vector, so its length, and with it the cell
        // count, fits the index type.
        let _n = src.len();
        let coords = size.coords();
        let ghost orig = src@;
        proof {
            assert(orig.subrange(0, orig.len() as int) =~= orig);
        }
        let mut rev: Vec<(Coord, T)> = Vec::new();
        while src.len() > 0
            invariant
                src@ == orig.subrange(0, src@.len() as int),
                src@.len() <= orig.len() == size.count_spec(),
                rev@.len() + src@.len() == orig.len(),
                coords@.len() == size.count_spec(),
                forall|k: int| 0 <= k < coords@.len() ==> coords@[k] == size.coord_of_index_spec(k),
                forall|k: int|
                    0 <= k < rev@.len() ==> (#[trigger] rev@[k]).0 == size.coord_of_index_spec(
                        orig.len() - 1 - k,
                    ) && rev@[k].1 == orig[orig.len() - 1 - k],
            decreases src@.len(),
        {
            let ghost m = src@.len() as int;
            let idx = src.len() - 1;
            let u = src.pop().unwrap();
            proof {
                assert(orig.subrange(0, m).subrange(0, m - 1) =~= orig.subrange(0, m - 1));
                assert(u == orig.subrange(0, m)[m - 1]);
            }
            let c = coords[idx];
            rev.push((c, u));
        }
        let mut v: Vec<(Coord, T)> = Vec::new();
        while rev.len() > 0
            invariant
                v@.len() + rev@.len() == orig.len(),
                forall|k: int|
                    0 <= k < rev@.len() ==> (#[trigger] rev@[k]).0 == size.coord_of_index_spec(
                        orig.len() - 1 - k,
                    ) && rev@[k].1 == orig[orig.len() - 1 - k],
                forall|k: int|
                    0 <= k < v@.len() ==> (#[trigger] v@[k]).0 == size.coord_of_index_spec(k)
                        && v@[k].1 == orig[k],
            decreases rev@.len(),
        {
            let p = rev.pop().unwrap();
            v.push(p);
        }
        v
    }

    /// The backing store split into rows: one contiguous chunk of length
    /// `width` per row, top to bottom. Valid for the row-major layout this
    /// grid uses.
    pub fn rows(&self) -> (v: Vec<&[T]>)
        requires
            self.wf(),
            self.size_spec().w() >= 1,
        ensures
            v@.len() == self.size_spec().h(),
            forall|y: int|
                0 <= y < v@.len() ==> (#[trigger] v@[y])@ == self@.subrange(
                    y * self.size_spec().w(),
                    (y + 1) * self.size_spec().w(),
                ),
    {
        let ghost w = self.size_spec().w();
        let ghost h = self.size_spec().h();
        // The store is a real vector, so its length, and with it the cell
        // count, fits the index type.
        let _n = self.cells.len();
        let width = self.size.x() as usize;
        let mut rest: &[T] = self.cells.as_slice();
        let mut v: Vec<&[T]> = Vec::new();
        let mut y: u32 = 0;
        let height = self.size.y();
        proof {
            assert(h * w == self.size_spec().count_spec()) by (nonlinear_arith)
                requires
                    w == self.size_spec().w(),
                    h == self.size_spec().h(),
            ;
            assert(self@.subrange(0, self@.len() as int) =~= self@);
        }
        while y < height
            invariant
                y <= height,
                w == self.size_spec().w() >= 1,
                h == self.size_spec().h() == height,
                width == w,
                self@.len() == h * w,
                v@.len() == y,
                rest@ == self@.subrange(y * w, (h * w) as int),
                forall|k: int|
                    0 <= k < y ==> (#[trigger] v@[k])@ == self@.subrange(k * w, (k + 1) * w),
            decreases height - y,
        {
            proof {
                assert((y + 1) * w == y * w + w && y * w >= 0 && (y + 1) * w <= h * w) by (
                nonlinear_arith)
                    requires
                        0 <= y < h,
                        w >= 1,
                ;
            }
            let (head, tail) = rest.split_at(width);
            proof {
                assert(head@ =~= self@.subrange(y * w, (y + 1) * w));
                assert(tail@ =~= self@.subrange((y + 1) * w, (h * w) as int));
            }
            v.push(head);
            rest = tail;
            y = y + 1;
        }
        v
    }
}

impl<T> Grid<T> {
    /// The coordinates on the outer boundary of this grid, each exactly
    /// once, in the fixed order of the edge enumeration.
    pub fn edge_coord_iter(&self) -> (v: Vec<Coord>)
        requires
            self.wf(),
        ensures
            v@.len() == self.size_spec().edge_count_spec(),
            forall|k: int| 0 <= k < v@.len() ==> v@[k] == self.size_spec().edge_coord_at(k),
    {
        // The store is a real vector, so its length, and with it the cell
        // count, fits the index type.
        let _n = self.cells.len();
        self.size.edge_coords()
    }

    /// The cells on the outer boundary of this grid, in edge-enumeration
    /// order: entry `k` is the cell at the `k`-th boundary coordinate.
    pub fn edge_iter(&self) -> (v: Vec<&T>)
        requires
            self.wf(),
        ensures
            v@.len() == self.size_spec().edge_count_spec(),
            forall|k: int|
                0 <= k < v@.len() ==> *(#[trigger] v@[k]) == self.cell_at(
                    self.size_spec().edge_coord_at(k),
                ),
    {
        let coords = self.edge_coord_iter();
        let n = coords.len();
        let mut v: Vec<&T> = Vec::new();
        let mut i: usize = 0;
        while i < n
            invariant
                i <= n,
                self.wf(),
                n == self.size_spec().edge_count_spec(),
                coords@.len() == n,
                forall|k: int| 0 <= k < n ==> coords@[k] == self.size_spec().edge_coord_at(k),
                v@.len() == i,
                forall|k: int|
                    0 <= k < i ==> *(#[trigger] v@[k]) == self.cell_at(
                        self.size_spec().edge_coord_at(k),
                    ),
            decreases n - i,
        {
            proof {
                use_type_invariant(self.size);
                self.size.lemma_edge_coord_at_on_edge(i as int);
            }
            let c = coords[i];
            v.push(self.get_checked(c));
            i += 1;
        }
        v
    }

    /// The boundary cells paired with their coordinates, in
    /// edge-enumeration order.
    pub fn edge_enumerate(&self) -> (v: Vec<(Coord, &T)>)
        requires
            self.wf(),
        ensures
            v@.len() == self.size_spec().edge_count_spec(),
            forall|k: int|
                0 <= k < v@.len() ==> (#[trigger] v@[k]).0 == self.size_spec().edge_coord_at(k)
                    && *v@[k].1 == self.cell_at(self.size_spec().edge_coord_at(k)),
    {
        let coords = self.edge_coord_iter();
        let n = coords.len();
        let mut v: Vec<(Coord, &T)> = Vec::new();
        let mut i: usize = 0;
        while i < n
            invariant
                i <= n,
                self.wf(),
                n == self.size_spec().edge_count_spec(),
                coords@.len() == n,
                forall|k: int| 0 <= k < n ==> coords@[k] == self.size_spec().edge_coord_at(k),
                v@.len() == i,
                forall|k: int|
                    0 <= k < i ==> (#[trigger] v@[k]).0 == self.size_spec().edge_coord_at(k)
                        && *v@[k].1 == self.cell_at(self.size_spec().edge_coord_at(k)),
            decreases n - i,
        {
            proof {
                use_type_invariant(self.size);
                self.size.lemma_edge_coord_at_on_edge(i as int);
            }
            let c = coords[i];
            v.push((c, self.get_checked(c)));
            i += 1;
        }
        v
    }
}

impl<T: Clone> Grid<T> {
    /// The grid mirrored over the main diagonal: the cell at `(x, y)` of
    /// the result is a clone of the cell at `(y, x)` of this grid.
    pub fn transpose_clone(&self) -> (g: Grid<T>)
        requires
            self.wf(),
        ensures
            g.wf(),
            g.size_spec().w() == self.size_spec().h(),
            g.size_spec().h() == self.size_spec().w(),
            forall|c: Coord|
                c.is_valid_spec(g.size_spec()) ==> cloned::<T>(
                    self.cell_at(c.transpose_spec()),
                    #[trigger] g.cell_at(c),
                ),
    {
        let n = self.cells.len();
        let size_t = self.size.transpose();
        proof {
            assert(size_t.count_spec() == self.size_spec().count_spec()) by (nonlinear_arith)
                requires
                    size_t.w() == self.size_spec().h(),
                    size_t.h() == self.size_spec().w(),
            ;
        }
        let coords = size_t.coords();
        let mut cells: Vec<T> = Vec::new();
        let mut i: usize = 0;
        while i < n
            invariant
                i <= n,
                self.wf(),
                n == self@.len() == size_t.count_spec(),
                size_t.w() == self.size_spec().h(),
                size_t.h() == self.size_spec().w(),
                cells@.len() == i,
                coords@.len() == size_t.count_spec(),
                forall|k: int| 0 <= k < coords@.len() ==> coords@[k] == size_t.coord_of_index_spec(k),
                forall|k: int|
                    0 <= k < i ==> cloned::<T>(
                        self.cell_at(size_t.coord_of_index_spec(k).transpose_spec()),
                        #[trigger] cells@[k],
                    ),
            decreases n - i,
        {
            proof {
                use_type_invariant(size_t);
                size_t.lemma_index_coord_round_trip(i as int);
                self.size.lemma_index_in_range(coords@[i as int].transpose_spec());
            }
            let c = coords[i];
            cells.push(self.get_checked(c.transpose()).clone());
            i += 1;
        }
        let g = Grid { cells, size: size_t };
        proof {
            use_type_invariant(size_t);
            assert forall|c: Coord| c.is_valid_spec(g.size_spec()) implies cloned::<T>(
                self.cell_at(c.transpose_spec()),
                #[trigger] g.cell_at(c),
            ) by {
                size_t.lemma_index_in_range(c);
                size_t.lemma_coord_index_round_trip(c);
                let i = size_t.index_of_coord_spec(c);
                assert(0 <= i < g@.len());
                assert(size_t.coord_of_index_spec(i) == c);
            }
        }
        g
    }
}

/// Enumeration order matches construction order: in a grid whose cell at
/// every valid coordinate is that coordinate itself, the cell at storage
/// position `i` is exactly the coordinate whose linear index is `i`, so
/// pairing the canonical coordinate stream against the raw cell stream
/// yields only pairs whose coordinate equals the stored value.
pub proof fn lemma_enumeration_matches_construction(g: Grid<Coord>)
    requires
        g.wf(),
        g.size_spec().extents_in_range(),
        forall|c: Coord|
            c.is_valid_spec(g.size_spec()) ==> #[trigger] g.cell_at(c) == c,
    ensures
        forall|i: int| 0 <= i < g@.len() ==> g@[i] == g.size_spec().coord_of_index_spec(i),
{
    assert forall|i: int| 0 <= i < g@.len() implies g@[i] == g.size_spec().coord_of_index_spec(
        i,
    ) by {
        g.size_spec().lemma_index_coord_round_trip(i);
        assert(g.cell_at(g.size_spec().coord_of_index_spec(i)) == g.size_spec().coord_of_index_spec(
            i,
        ));
    }
}

/// Whether one of the positions `indices[from..]` is exactly `i`.
spec fn index_listed(indices: Seq<usize>, from: int, i: int) -> bool {
    exists|k: int| from <= k < indices.len() && indices[k] == i
}

/// One disjoint-partition pass: hands out one mutable view per listed
/// position of the slice, all at once. The positions must be strictly
/// increasing, so every view is disjoint from every other: the slice is
/// split once per position and no cell is reachable twice. `base` is the
/// absolute position of the slice's first element; `indices[from..]` are
/// absolute positions.
fn take_cells_mut<'a, T>(s: &'a mut [T], indices: &Vec<usize>, from: usize, base: usize) -> (v:
    Vec<&'a mut T>)
    requires
        from <= indices@.len(),
        base + old(s)@.len() <= usize::MAX,
        forall|k1: int, k2: int|
            from <= k1 < k2 < indices@.len() ==> #[trigger] indices@[k1] < #[trigger] indices@[k2],
        forall|k: int|
            from <= k < indices@.len() ==> base <= #[trigger] indices@[k] && indices@[k] - base
                < old(s)@.len(),
    ensures
        v@.len() == indices@.len() - from,
        forall|k: int|
            0 <= k < v@.len() ==> *(#[trigger] v@[k]) == old(s)@[indices@[from + k] - base],
        final(s)@.len() == old(s)@.len(),
        forall|k: int|
            0 <= k < v@.len() ==> final(s)@[indices@[from + k] - base] == *final(#[trigger] v@[k]),
        forall|i: int|
            0 <= i < old(s)@.len() && !index_listed(indices@, from as int, base + i)
                ==> final(s)@[i] == old(s)@[i],
    decreases indices@.len() - from,
{
    if from >= indices.len() {
        let v: Vec<&'a mut T> = Vec::new();
        return v;
    }
    let ghost orig = s@;
    let i0 = indices[from];
    let off = i0 - base;
    let (_skip, tail) = s.split_at_mut(off);
    let (head, tail2) = tail.split_at_mut(1);
    let ghost tail2_orig = tail2@;
    let cell = head.first_mut().unwrap();
    let rest = take_cells_mut(tail2, indices, from + 1, i0 + 1);
    let mut v: Vec<&'a mut T> = Vec::new();
    v.push(cell);
    let mut rest_tail = rest;
    v.append(&mut rest_tail);
    proof {
        assert forall|i: int|
            0 <= i < orig.len() && !(#[trigger] index_listed(indices@, from as int, base + i))
                && i != off implies !index_listed(
                indices@,
                from as int + 1,
                (i0 + 1) + (i - off - 1),
            ) by {
            if index_listed(indices@, from as int + 1, (i0 + 1) + (i - off - 1)) {
                let k = choose|k: int|
                    from + 1 <= k < indices@.len() && indices@[k] == (i0 + 1) + (i - off - 1);
                assert(indices@[k] == base + i);
                assert(index_listed(indices@, from as int, base + i));
            }
        }
        assert forall|k: int| 1 <= k < v@.len() implies #[trigger] indices@[from + k] - base
            > off by {
            assert(indices@[from as int] < indices@[from + k]);
        }
    }
    v
}

impl<T> Grid<T> {
    /// Exclusive access to every boundary cell at once, in edge-enumeration
    /// order. The boundary coordinates are collected up front; since the
    /// enumeration visits each boundary cell exactly once, in strictly
    /// increasing storage order, one disjoint-partition pass can hand out
    /// all the views together, and no view aliases another. Cells off the
    /// boundary are untouched.
    pub fn edge_iter_mut(&mut self) -> (v: Vec<&mut T>)
        requires
            old(self).wf(),
        ensures
            v@.len() == old(self).size_spec().edge_count_spec(),
            forall|k: int|
                0 <= k < v@.len() ==> *(#[trigger] v@[k]) == old(self).cell_at(
                    old(self).size_spec().edge_coord_at(k),
                ),
            final(self).size_spec() == old(self).size_spec(),
            final(self)@.len() == old(self)@.len(),
            final(self).wf(),
            forall|k: int|
                0 <= k < v@.len() ==> final(self)@[old(self).size_spec().index_of_coord_spec(
                    old(self).size_spec().edge_coord_at(k),
                )] == *final(#[trigger] v@[k]),
            forall|c: Coord|
                c.is_valid_spec(old(self).size_spec()) && !old(
                    self,
                ).size_spec().is_on_edge_spec(c) ==> final(self).cell_at(c) == old(self).cell_at(
                    c,
                ),
    {
        let ghost size = self.size_spec();
        let store_len = self.cells.len();
        let coords = self.size.edge_coords();
        let mut indices: Vec<usize> = Vec::new();
        let mut k: usize = 0;
        while k < coords.len()
            invariant
                k <= coords@.len(),
                self.wf(),
                size == self.size_spec(),
                store_len == self@.len(),
                coords@.len() == size.edge_count_spec(),
                forall|j: int| 0 <= j < coords@.len() ==> coords@[j] == size.edge_coord_at(j),
                indices@.len() == k,
                forall|j: int|
                    0 <= j < k ==> #[trigger] indices@[j] == size.index_of_coord_spec(
                        size.edge_coord_at(j),
                    ) && indices@[j] < store_len,
            decreases coords@.len() - k,
        {
            proof {
                use_type_invariant(self.size);
                self.size.lemma_edge_coord_at_on_edge(k as int);
                self.size.lemma_index_in_range(coords@[k as int]);
            }
            let c = coords[k];
            indices.push(self.index_of_coord_unchecked(c));
            k += 1;
        }
        proof {
            use_type_invariant(self.size);
            assert forall|k1: int, k2: int|
                0 <= k1 < k2 < indices@.len() implies #[trigger] indices@[k1]
                < #[trigger] indices@[k2] by {
                size.lemma_edge_index_strictly_increasing(k1, k2);
            }
            assert forall|c: Coord|
                c.is_valid_spec(size) && !(#[trigger] size.is_on_edge_spec(c)) implies 0
                <= size.index_of_coord_spec(c) < store_len && !index_listed(
                indices@,
                0,
                size.index_of_coord_spec(c),
            ) by {
                size.lemma_index_in_range(c);
                if index_listed(indices@, 0, size.index_of_coord_spec(c)) {
                    let j = choose|j: int|
                        0 <= j < indices@.len() && indices@[j] == size.index_of_coord_spec(c);
                    size.lemma_edge_coord_at_on_edge(j);
                    if c != size.edge_coord_at(j) {
                        size.lemma_index_of_coord_injective(c, size.edge_coord_at(j));
                    }
                }
            }
        }
        take_cells_mut(self.cells.as_mut_slice(), &indices, 0, 0)
    }
}

impl<T> Grid<T> {
    /// Exclusive access to one row: a contiguous chunk of length `width`.
    /// The rest of the store is untouched.
    pub fn row_mut(&mut self, y: u32) -> (r: &mut [T])
        requires
            old(self).wf(),
            old(self).size_spec().w() >= 1,
            y < old(self).size_spec().h(),
        ensures
            r@ == old(self)@.subrange(
                y * old(self).size_spec().w(),
                (y + 1) * old(self).size_spec().w(),
            ),
            final(self).size_spec() == old(self).size_spec(),
            final(self)@ == old(self)@.subrange(0, y * old(self).size_spec().w()) + final(r)@
                + old(self)@.subrange(
                (y + 1) * old(self).size_spec().w(),
                old(self)@.len() as int,
            ),
    {
        let ghost w = self.size_spec().w();
        let ghost h = self.size_spec().h();
        // The store is a real vector, so its length, and with it the cell
        // count, fits the index type.
        let _n = self.cells.len();
        let width = self.size.x() as usize;
        proof {
            assert((y + 1) * w == y * w + w && 0 <= y * w && (y + 1) * w <= h * w) by (
            nonlinear_arith)
                requires
                    0 <= y < h,
                    w >= 1,
            ;
            assert(h * w == self.size_spec().count_spec()) by (nonlinear_arith)
                requires
                    w == self.size_spec().w(),
                    h == self.size_spec().h(),
            ;
        }
        let hi = (y as usize) * width + width;
        let (left, _right) = self.cells.as_mut_slice().split_at_mut(hi);
        let (_ll, row) = left.split_at_mut(hi - width);
        row
    }
}

impl<T> Grid<T> {
    /// Exclusive access to every cell at once, in storage order: one
    /// disjoint-partition pass hands out one view per cell, and no view
    /// aliases another.
    pub fn iter_mut(&mut self) -> (v: Vec<&mut T>)
        requires
            old(self).wf(),
        ensures
            v@.len() == old(self)@.len(),
            forall|i: int| 0 <= i < v@.len() ==> *(#[trigger] v@[i]) == old(self)@[i],
            final(self).size_spec() == old(self).size_spec(),
            final(self)@.len() == old(self)@.len(),
            final(self).wf(),
            forall|i: int| 0 <= i < v@.len() ==> final(self)@[i] == *final(#[trigger] v@[i]),
    {
        let n = self.cells.len();
        let mut indices: Vec<usize> = Vec::new();
        let mut i: usize = 0;
        while i < n
            invariant
                i <= n,
                indices@.len() == i,
                forall|j: int| 0 <= j < i ==> #[trigger] indices@[j] == j,
            decreases n - i,
        {
            indices.push(i);
            i += 1;
        }
        take_cells_mut(self.cells.as_mut_slice(), &indices, 0, 0)
    }

}


} // verus!
