//! Geometry primitives: an integer coordinate pair and a validated extent.

use vstd::prelude::*;

verus! {

/// The largest extent a `Size` may have on either axis: one more than the
/// largest representable `i32` coordinate, so that every cell of a maximal
/// grid is still addressable by a signed coordinate.
pub const SIZE_MAX: u32 = 0x8000_0000;

/// General purpose coordinate. Validity is always relative to a `Size`;
/// the pair itself is unbounded.
#[derive(Debug, Clone, Copy, Hash, PartialEq, Eq, Structural, PartialOrd, Ord)]
pub struct Coord {
    pub x: i32,
    pub y: i32,
}

/// A non-negative extent. A size cannot be created which would contain
/// un-addressable cells: each axis is at most one greater than the maximum
/// `i32`.
#[derive(Debug, Clone, Copy, Hash, PartialEq, Eq, Structural, PartialOrd, Ord)]
pub struct Size {
    pub(crate) x: u32,
    pub(crate) y: u32,
}

/// Wraps any integer, including a negative one, into `[0, extent)`. In spec
/// arithmetic `%` is Euclidean, so the remainder is already non-negative.
pub open spec fn normalize_part_spec(value: int, extent: int) -> int {
    value % extent
}

/// For any integer and any positive extent, the wrapped value lies in
/// `[0, extent)` and is congruent to the original value modulo the extent.
pub proof fn lemma_normalize_part_in_range(value: int, extent: int)
    requires
        extent >= 1,
    ensures
        0 <= normalize_part_spec(value, extent) < extent,
        (value - normalize_part_spec(value, extent)) % extent == 0,
{
    vstd::arithmetic::div_mod::lemma_mod_bound(value, extent);
    vstd::arithmetic::div_mod::lemma_fundamental_div_mod(value, extent);
    assert(value - value % extent == (value / extent) * extent) by (nonlinear_arith)
        requires
            value == extent * (value / extent) + value % extent,
    ;
    vstd::arithmetic::div_mod::lemma_mod_multiples_basic(value / extent, extent);
}

impl Coord {
    /// Both components non-negative and strictly inside the extent.
    pub open spec fn is_valid_spec(self, size: Size) -> bool {
        0 <= self.x && 0 <= self.y && self.x < size.w() && self.y < size.h()
    }

    /// Both components wrapped into the extents of `size`.
    pub open spec fn normalize_spec(self, size: Size) -> Coord {
        Coord {
            x: normalize_part_spec(self.x as int, size.w()) as i32,
            y: normalize_part_spec(self.y as int, size.h()) as i32,
        }
    }

    pub fn new(x: i32, y: i32) -> (c: Self)
        ensures
            c == (Coord { x, y }),
    {
        Self { x, y }
    }

    pub fn is_valid(self, size: Size) -> (r: bool)
        ensures
            r == self.is_valid_spec(size),
    {
        if self.x < 0 || self.y < 0 {
            return false;
        }
        let x = self.x as u32;
        let y = self.y as u32;
        x < size.x() && y < size.y()
    }

    /// Wraps one component into `[0, extent)`, correcting the sign of the
    /// remainder for negative inputs.
    pub fn normalize_part(value: i32, extent: u32) -> (r: i32)
        requires
            1 <= extent <= SIZE_MAX,
        ensures
            r == normalize_part_spec(value as int, extent as int),
    {
        (value as i64).checked_rem_euclid(extent as i64).unwrap() as i32
    }

    /// Wraps any coordinate, valid or not, onto the grid of the given size.
    pub fn normalize(self, size: Size) -> (r: Self)
        requires
            size.w() >= 1,
            size.h() >= 1,
        ensures
            r == self.normalize_spec(size),
    {
        proof {
            use_type_invariant(size);
        }
        Self {
            x: Self::normalize_part(self.x, size.x()),
            y: Self::normalize_part(self.y, size.y()),
        }
    }

    /// The coordinate mirrored over the main diagonal.
    pub open spec fn transpose_spec(self) -> Coord {
        Coord { x: self.y, y: self.x }
    }

    pub fn transpose(self) -> (r: Self)
        ensures
            r == self.transpose_spec(),
    {
        Self { x: self.y, y: self.x }
    }
}

impl Size {
    /// The width, as a mathematical integer.
    pub open(crate) spec fn w(self) -> int {
        self.x as int
    }

    /// The height, as a mathematical integer.
    pub open(crate) spec fn h(self) -> int {
        self.y as int
    }

    /// The number of cells in a grid of this size.
    pub open spec fn count_spec(self) -> int {
        self.w() * self.h()
    }

    /// Row-major linear index of a coordinate: `y * width + x`.
    pub open spec fn index_of_coord_spec(self, c: Coord) -> int {
        c.y * self.w() + c.x
    }

    /// The coordinate stored at a row-major linear index.
    pub open spec fn coord_of_index_spec(self, i: int) -> Coord {
        Coord { x: (i % self.w()) as i32, y: (i / self.w()) as i32 }
    }

    /// A valid coordinate's row-major index lies inside `[0, count)`.
    pub proof fn lemma_index_in_range(self, c: Coord)
        requires
            c.is_valid_spec(self),
        ensures
            0 <= self.index_of_coord_spec(c) < self.count_spec(),
    {
        assert(0 <= c.y * self.w() + c.x < self.w() * self.h()) by (nonlinear_arith)
            requires
                0 <= c.x < self.w(),
                0 <= c.y < self.h(),
        ;
    }

    /// Round trip from a valid coordinate through its index and back.
    pub proof fn lemma_coord_index_round_trip(self, c: Coord)
        requires
            c.is_valid_spec(self),
        ensures
            self.coord_of_index_spec(self.index_of_coord_spec(c)) == c,
    {
        vstd::arithmetic::div_mod::lemma_fundamental_div_mod_converse(
            self.index_of_coord_spec(c),
            self.w(),
            c.y as int,
            c.x as int,
        );
    }

    /// Round trip from an in-range index through its coordinate and back;
    /// the coordinate is always valid.
    pub proof fn lemma_index_coord_round_trip(self, i: int)
        requires
            self.extents_in_range(),
            0 <= i < self.count_spec(),
        ensures
            self.coord_of_index_spec(i).is_valid_spec(self),
            self.index_of_coord_spec(self.coord_of_index_spec(i)) == i,
    {
        assert(self.w() >= 1) by (nonlinear_arith)
            requires
                0 <= i < self.w() * self.h(),
                self.w() >= 0,
        ;
        vstd::arithmetic::div_mod::lemma_fundamental_div_mod(i, self.w());
        vstd::arithmetic::div_mod::lemma_mod_bound(i, self.w());
        assert(i / self.w() < self.h()) by (nonlinear_arith)
            requires
                self.w() >= 1,
                i < self.w() * self.h(),
                i == self.w() * (i / self.w()) + i % self.w(),
                0 <= i % self.w() < self.w(),
        ;
        assert(i / self.w() >= 0) by {
            vstd::arithmetic::div_mod::lemma_div_pos_is_pos(i, self.w());
        }
        let c = self.coord_of_index_spec(i);
        assert(c.x == i % self.w() && c.y == i / self.w());
        assert(c.y * self.w() == self.w() * (i / self.w())) by (nonlinear_arith)
            requires
                c.y == i / self.w(),
        ;
    }

    /// Two coordinates whose components are congruent modulo the extents
    /// normalize to the same cell: tiling is periodic.
    pub proof fn lemma_normalize_periodic(self, a: Coord, b: Coord)
        requires
            self.extents_in_range(),
            self.w() >= 1,
            self.h() >= 1,
            (a.x - b.x) % self.w() == 0,
            (a.y - b.y) % self.h() == 0,
        ensures
            a.normalize_spec(self) == b.normalize_spec(self),
    {
        vstd::arithmetic::div_mod::lemma_mod_equivalence(a.x as int, b.x as int, self.w());
        vstd::arithmetic::div_mod::lemma_mod_equivalence(a.y as int, b.y as int, self.h());
    }

    /// A normalized coordinate is valid, and its row-major index, the row
    /// times the width plus the column, lies inside `[0, count)`.
    pub proof fn lemma_normalized_index_in_range(self, c: Coord)
        requires
            self.extents_in_range(),
            self.w() >= 1,
            self.h() >= 1,
        ensures
            c.normalize_spec(self).is_valid_spec(self),
            self.index_of_coord_spec(c.normalize_spec(self)) == c.normalize_spec(self).y
                * self.w() + c.normalize_spec(self).x,
            0 <= self.index_of_coord_spec(c.normalize_spec(self)) < self.count_spec(),
    {
        vstd::arithmetic::div_mod::lemma_mod_bound(c.x as int, self.w());
        vstd::arithmetic::div_mod::lemma_mod_bound(c.y as int, self.h());
        self.lemma_index_in_range(c.normalize_spec(self));
    }

    /// Distinct valid coordinates have distinct row-major indices: the index
    /// map is injective on the valid range, so no two cells alias.
    pub proof fn lemma_index_of_coord_injective(self, a: Coord, b: Coord)
        requires
            a.is_valid_spec(self),
            b.is_valid_spec(self),
            a != b,
        ensures
            self.index_of_coord_spec(a) != self.index_of_coord_spec(b),
    {
        self.lemma_coord_index_round_trip(a);
        self.lemma_coord_index_round_trip(b);
    }

    /// Every `Size` that can be built keeps both extents within `SIZE_MAX`.
    #[verifier::type_invariant]
    pub open spec fn extents_in_range(self) -> bool {
        0 <= self.w() <= SIZE_MAX && 0 <= self.h() <= SIZE_MAX
    }

    /// Creates a new `Size`. Extents above `SIZE_MAX` would contain cells no
    /// signed coordinate can address, so they are ruled out up front.
    pub fn new(x: u32, y: u32) -> (s: Self)
        requires
            x <= SIZE_MAX,
            y <= SIZE_MAX,
        ensures
            s.w() == x,
            s.h() == y,
    {
        Self { x, y }
    }

    /// Returns the width.
    pub fn x(&self) -> (r: u32)
        ensures
            r == self.w(),
    {
        self.x
    }

    /// Returns the height.
    pub fn y(&self) -> (r: u32)
        ensures
            r == self.h(),
    {
        self.y
    }

    /// Returns the number of cells in a 2D grid of this size. Callers are
    /// responsible for choosing sizes whose cell count fits the index type.
    pub fn count(&self) -> (r: usize)
        requires
            self.count_spec() <= usize::MAX,
        ensures
            r == self.count_spec(),
    {
        (self.x as usize) * (self.y as usize)
    }

    /// Suppose an array implements a 2D grid of this size, where traversing
    /// the array from start to end traverses the grid top to bottom, left to
    /// right within each row. For a coordinate valid for such a grid, returns
    /// the index into the array corresponding to that coordinate.
    pub fn index(&self, coord: Coord) -> (r: Option<usize>)
        requires
            self.count_spec() <= usize::MAX,
        ensures
            r == if coord.is_valid_spec(*self) {
                Some(self.index_of_coord_spec(coord) as usize)
            } else {
                None::<usize>
            },
    {
        if coord.x < 0 || coord.y < 0 {
            return None;
        }
        let x = coord.x as u32;
        let y = coord.y as u32;
        if x >= self.x || y >= self.y {
            return None;
        }
        proof {
            self.lemma_index_in_range(coord);
        }
        Some((y as usize) * (self.x as usize) + (x as usize))
    }

    /// The inverse of `index`: the coordinate whose row-major index is
    /// `index`, or nothing if the index lies outside the grid.
    pub fn coord(&self, index: usize) -> (r: Option<Coord>)
        ensures
            r == if index < self.count_spec() {
                Some(self.coord_of_index_spec(index as int))
            } else {
                None::<Coord>
            },
    {
        if self.x == 0 {
            proof {
                assert(self.count_spec() == 0) by (nonlinear_arith)
                    requires
                        self.w() == 0,
                ;
            }
            return None;
        }
        let ghost i = index as int;
        proof {
            vstd::arithmetic::div_mod::lemma_fundamental_div_mod(i, self.w());
            vstd::arithmetic::div_mod::lemma_mod_bound(i, self.w());
        }
        let y = index / (self.x as usize);
        if y >= self.y as usize {
            proof {
                assert(i >= self.count_spec()) by (nonlinear_arith)
                    requires
                        self.w() >= 1,
                        i >= 0,
                        i / self.w() >= self.h(),
                        i == self.w() * (i / self.w()) + i % self.w(),
                        i % self.w() >= 0,
                ;
            }
            return None;
        }
        let x = index % (self.x as usize);
        proof {
            use_type_invariant(*self);
            assert(i < self.count_spec()) by (nonlinear_arith)
                requires
                    self.w() >= 1,
                    i >= 0,
                    i / self.w() < self.h(),
                    i == self.w() * (i / self.w()) + i % self.w(),
                    i % self.w() < self.w(),
            ;
        }
        Some(Coord::new(x as i32, y as i32))
    }

    /// The size mirrored over the main diagonal.
    pub open(crate) spec fn transpose_spec(self) -> Size {
        Size { x: self.y, y: self.x }
    }

    pub fn transpose(self) -> (r: Self)
        ensures
            r == self.transpose_spec(),
            r.w() == self.h(),
            r.h() == self.w(),
    {
        proof {
            use_type_invariant(self);
        }
        Self { x: self.y, y: self.x }
    }

    /// A coordinate on the outer boundary of the rectangle of this size:
    /// valid, and on the first or last row or column.
    pub open spec fn is_on_edge_spec(self, c: Coord) -> bool {
        c.is_valid_spec(self) && (c.x == 0 || c.y == 0 || c.x == self.w() - 1 || c.y == self.h()
            - 1)
    }

    /// All the coordinates within a rectangle of this size, in canonical
    /// row-major order: y from top to bottom, x left to right within each
    /// row. The coordinate at position `i` is exactly the one whose linear
    /// index is `i`, so traversal order and storage order coincide.
    pub fn coords(&self) -> (v: Vec<Coord>)
        requires
            self.count_spec() <= usize::MAX,
        ensures
            v@.len() == self.count_spec(),
            forall|i: int| 0 <= i < v@.len() ==> v@[i] == self.coord_of_index_spec(i),
    {
        proof {
            use_type_invariant(*self);
        }
        let w = self.x;
        let h = self.y;
        let mut v: Vec<Coord> = Vec::new();
        let mut y: u32 = 0;
        while y < h
            invariant
                0 <= y <= h,
                w == self.w(),
                h == self.h(),
                self.count_spec() <= usize::MAX,
                v@.len() == y * w,
                forall|i: int| 0 <= i < v@.len() ==> v@[i] == self.coord_of_index_spec(i),
            decreases h - y,
        {
            let mut x: u32 = 0;
            proof {
                assert((y + 1) * w <= h * w && y * w >= 0) by (nonlinear_arith)
                    requires
                        0 <= y < h,
                        w >= 0,
                ;
                assert(h * w == self.count_spec()) by (nonlinear_arith)
                    requires
                        w == self.w(),
                        h == self.h(),
                ;
            }
            while x < w
                invariant
                    0 <= x <= w,
                    0 <= y < h,
                    w == self.w(),
                    h == self.h(),
                    v@.len() == y * w + x,
                    (y + 1) * w <= self.count_spec() <= usize::MAX,
                    forall|i: int| 0 <= i < v@.len() ==> v@[i] == self.coord_of_index_spec(i),
                decreases w - x,
            {
                proof {
                    assert(y * w + x < (y + 1) * w) by (nonlinear_arith)
                        requires
                            x < w,
                    ;
                    vstd::arithmetic::div_mod::lemma_fundamental_div_mod_converse(
                        y * w + x,
                        w as int,
                        y as int,
                        x as int,
                    );
                }
                v.push(Coord { x: x as i32, y: y as i32 });
                x = x + 1;
            }
            y = y + 1;
            proof {
                assert(y * w == (y - 1) * w + w) by (nonlinear_arith);
            }
        }
        proof {
            assert(h * w == self.count_spec()) by (nonlinear_arith)
                requires
                    w == self.w(),
                    h == self.h(),
            ;
        }
        v
    }

    pub fn is_on_edge(&self, coord: Coord) -> (r: bool)
        ensures
            r == self.is_on_edge_spec(coord),
    {
        if !coord.is_valid(*self) {
            return false;
        }
        coord.x == 0 || coord.y == 0 || coord.x as u32 == self.x - 1 || coord.y as u32 == self.y
            - 1
    }
}

impl Size {
    /// How many cells each row strictly between the first and last rows
    /// contributes to the edge: its two end cells, or one when the rows are
    /// a single cell wide.
    pub open spec fn edge_per_middle_row(self) -> int {
        if self.w() >= 2 {
            2
        } else {
            1
        }
    }

    /// The number of cells on the outer boundary of a rectangle of this
    /// size: `2 * (w + h) - 4` when both extents are at least two, with the
    /// degenerate single-row, single-column and empty cases handled.
    pub open spec fn edge_count_spec(self) -> int {
        if self.w() == 0 || self.h() == 0 {
            0
        } else if self.h() == 1 {
            self.w()
        } else {
            2 * self.w() + (self.h() - 2) * self.edge_per_middle_row()
        }
    }

    /// The boundary coordinate visited at step `k` of the edge enumeration:
    /// the top row left to right, then for each middle row its left and
    /// right end cells, then the bottom row left to right.
    pub open spec fn edge_coord_at(self, k: int) -> Coord {
        let per = self.edge_per_middle_row();
        if k < self.w() {
            Coord { x: k as i32, y: 0 }
        } else if k < self.w() + (self.h() - 2) * per {
            let j = k - self.w();
            Coord {
                x: if j % per == 0 {
                    0
                } else {
                    (self.w() - 1) as i32
                },
                y: (1 + j / per) as i32,
            }
        } else {
            Coord { x: (k - self.w() - (self.h() - 2) * per) as i32, y: (self.h() - 1) as i32 }
        }
    }

    /// The step of the edge enumeration that visits a boundary coordinate.
    pub open spec fn edge_index_of_spec(self, c: Coord) -> int {
        let per = self.edge_per_middle_row();
        if c.y == 0 {
            c.x as int
        } else if c.y == self.h() - 1 {
            self.w() + (self.h() - 2) * per + c.x
        } else {
            self.w() + (c.y - 1) * per + if c.x == 0 {
                0int
            } else {
                1int
            }
        }
    }

    /// Every coordinate the edge enumeration visits lies on the boundary,
    /// and the enumeration index can be recovered from it: no coordinate is
    /// visited twice.
    pub proof fn lemma_edge_coord_at_on_edge(self, k: int)
        requires
            self.extents_in_range(),
            0 <= k < self.edge_count_spec(),
        ensures
            self.is_on_edge_spec(self.edge_coord_at(k)),
            self.edge_index_of_spec(self.edge_coord_at(k)) == k,
    {
        let w = self.w();
        let h = self.h();
        let per = self.edge_per_middle_row();
        let c = self.edge_coord_at(k);
        if k < w {
        } else if k < w + (h - 2) * per {
            let j = k - w;
            assert(0 <= j < (h - 2) * per);
            assert(j / per < h - 2 && j / per >= 0) by (nonlinear_arith)
                requires
                    0 <= j < (h - 2) * per,
                    1 <= per,
            ;
            vstd::arithmetic::div_mod::lemma_fundamental_div_mod(j, per);
            vstd::arithmetic::div_mod::lemma_mod_bound(j, per);
            if j % per == 0 {
            } else {
                assert(per == 2);
                assert(w >= 2);
            }
        } else {
            let x = k - w - (h - 2) * per;
            assert(h >= 2);
            assert((h - 2) * per >= 0) by (nonlinear_arith)
                requires
                    h >= 2,
                    per >= 1,
            ;
            assert(0 <= x < w);
            if h - 1 == 0 {
                assert(false);
            }
        }
    }

    /// Every boundary coordinate is visited by the edge enumeration, at the
    /// step `edge_index_of_spec` names: each boundary coordinate is visited
    /// exactly once.
    pub proof fn lemma_edge_index_of_on_edge(self, c: Coord)
        requires
            self.extents_in_range(),
            self.is_on_edge_spec(c),
        ensures
            0 <= self.edge_index_of_spec(c) < self.edge_count_spec(),
            self.edge_coord_at(self.edge_index_of_spec(c)) == c,
    {
        let w = self.w();
        let h = self.h();
        let per = self.edge_per_middle_row();
        let k = self.edge_index_of_spec(c);
        if c.y == 0 {
            if h == 1 {
            } else {
                assert((h - 2) * per >= 0) by (nonlinear_arith)
                    requires
                        h >= 2,
                        per >= 1,
                ;
            }
        } else if c.y == h - 1 {
            assert(h >= 2);
            let x = c.x as int;
            assert((h - 2) * per >= 0) by (nonlinear_arith)
                requires
                    h >= 2,
                    per >= 1,
            ;
            assert(k == w + (h - 2) * per + x);
            assert(k >= w + (h - 2) * per);
        } else {
            assert(1 <= c.y < h - 1);
            assert(c.x == 0 || c.x == w - 1);
            let side: int = if c.x == 0 {
                0
            } else {
                1
            };
            assert(side < per);
            let j = (c.y - 1) * per + side;
            vstd::arithmetic::div_mod::lemma_fundamental_div_mod_converse(
                j,
                per,
                c.y - 1,
                side,
            );
            assert(j < (h - 2) * per) by (nonlinear_arith)
                requires
                    0 <= c.y - 1 < h - 2,
                    0 <= side < per,
                    j == (c.y - 1) * per + side,
            ;
            assert(j >= 0) by (nonlinear_arith)
                requires
                    0 <= c.y - 1,
                    0 <= side,
                    per >= 1,
                    j == (c.y - 1) * per + side,
            ;
            if side == 1 {
                assert(per == 2);
                assert(c.x == w - 1);
            }
        }
    }

    /// All the coordinates on the outer boundary of a rectangle of this
    /// size, each exactly once, in a fixed order: the top row left to
    /// right, then each middle row's end cells, then the bottom row left to
    /// right.
    pub fn edge_coords(&self) -> (v: Vec<Coord>)
        requires
            self.count_spec() <= usize::MAX,
        ensures
            v@.len() == self.edge_count_spec(),
            forall|k: int| 0 <= k < v@.len() ==> v@[k] == self.edge_coord_at(k),
    {
        proof {
            use_type_invariant(*self);
        }
        let w = self.x;
        let h = self.y;
        let ghost per = self.edge_per_middle_row();
        let ghost ec = self.edge_count_spec();
        let mut v: Vec<Coord> = Vec::new();
        if w == 0 || h == 0 {
            return v;
        }
        proof {
            assert(ec <= self.count_spec()) by (nonlinear_arith)
                requires
                    ec == self.edge_count_spec(),
                    per == self.edge_per_middle_row(),
                    self.w() >= 1,
                    self.h() >= 1,
            ;
        }
        let mut x: u32 = 0;
        while x < w
            invariant
                x <= w,
                w == self.w(),
                h == self.h() >= 1,
                v@.len() == x,
                forall|k: int| 0 <= k < v@.len() ==> v@[k] == self.edge_coord_at(k),
            decreases w - x,
        {
            v.push(Coord { x: x as i32, y: 0 });
            x = x + 1;
        }
        if h == 1 {
            return v;
        }
        let mut y: u32 = 1;
        while y < h - 1
            invariant
                1 <= y <= h - 1,
                w == self.w() >= 1,
                h == self.h() >= 2,
                per == self.edge_per_middle_row(),
                v@.len() == w + (y - 1) * per,
                forall|k: int| 0 <= k < v@.len() ==> v@[k] == self.edge_coord_at(k),
            decreases h - 1 - y,
        {
            let ghost j0 = (y - 1) * per;
            proof {
                vstd::arithmetic::div_mod::lemma_fundamental_div_mod_converse(j0, per, y - 1, 0);
                assert(j0 + per <= (h - 2) * per && j0 >= 0) by (nonlinear_arith)
                    requires
                        1 <= y < h - 1,
                        per >= 1,
                        j0 == (y - 1) * per,
                ;
            }
            v.push(Coord { x: 0, y: y as i32 });
            if w > 1 {
                proof {
                    vstd::arithmetic::div_mod::lemma_fundamental_div_mod_converse(
                        j0 + 1,
                        per,
                        y - 1,
                        1,
                    );
                }
                v.push(Coord { x: (w - 1) as i32, y: y as i32 });
            }
            proof {
                assert(y * per == (y - 1) * per + per) by (nonlinear_arith);
            }
            y = y + 1;
        }
        let ghost middle = (h - 2) * per;
        let mut x2: u32 = 0;
        while x2 < w
            invariant
                x2 <= w,
                w == self.w() >= 1,
                h == self.h() >= 2,
                per == self.edge_per_middle_row(),
                middle == (self.h() - 2) * per,
                v@.len() == w + middle + x2,
                forall|k: int| 0 <= k < v@.len() ==> v@[k] == self.edge_coord_at(k),
            decreases w - x2,
        {
            proof {
                assert(middle >= 0) by (nonlinear_arith)
                    requires
                        h >= 2,
                        per >= 1,
                        middle == (h - 2) * per,
                ;
            }
            v.push(Coord { x: x2 as i32, y: (h - 1) as i32 });
            x2 = x2 + 1;
        }
        v
    }
}

impl Size {
    /// The edge enumeration visits coordinates in strictly increasing
    /// row-major linear index order: later steps land on strictly later
    /// cells of the backing store.
    pub proof fn lemma_edge_index_strictly_increasing(self, k1: int, k2: int)
        requires
            self.extents_in_range(),
            0 <= k1 < k2 < self.edge_count_spec(),
        ensures
            self.index_of_coord_spec(self.edge_coord_at(k1)) < self.index_of_coord_spec(
                self.edge_coord_at(k2),
            ),
    {
        let w = self.w();
        let h = self.h();
        let per = self.edge_per_middle_row();
        self.lemma_edge_coord_at_on_edge(k1);
        self.lemma_edge_coord_at_on_edge(k2);
        let a = self.edge_coord_at(k1);
        let b = self.edge_coord_at(k2);
        // First: the coordinates grow lexicographically by (y, then x).
        if w <= k1 && k1 < w + (h - 2) * per && w <= k2 && k2 < w + (h - 2) * per {
            let j1 = k1 - w;
            let j2 = k2 - w;
            vstd::arithmetic::div_mod::lemma_fundamental_div_mod(j1, per);
            vstd::arithmetic::div_mod::lemma_fundamental_div_mod(j2, per);
            vstd::arithmetic::div_mod::lemma_mod_bound(j1, per);
            vstd::arithmetic::div_mod::lemma_mod_bound(j2, per);
            assert(j1 / per <= j2 / per) by (nonlinear_arith)
                requires
                    0 <= j1 < j2,
                    per >= 1,
                    j1 == per * (j1 / per) + j1 % per,
                    j2 == per * (j2 / per) + j2 % per,
                    0 <= j1 % per < per,
                    0 <= j2 % per < per,
            ;
            if j1 / per == j2 / per {
                assert(j1 % per < j2 % per) by (nonlinear_arith)
                    requires
                        j1 < j2,
                        per >= 1,
                        j1 == per * (j1 / per) + j1 % per,
                        j2 == per * (j2 / per) + j2 % per,
                        j1 / per == j2 / per,
                ;
                assert(per == 2 && j1 % per == 0 && j2 % per == 1);
                assert(a.y == b.y && a.x < b.x);
            } else {
                assert(a.y < b.y);
            }
        }
        // Lexicographic growth turns into linear-index growth because every
        // edge coordinate is valid.
        assert(a.y < b.y || (a.y == b.y && a.x < b.x));
        if a.y < b.y {
            assert(a.y * w + a.x < b.y * w + b.x) by (nonlinear_arith)
                requires
                    a.y < b.y,
                    0 <= a.x < w,
                    0 <= b.x,
            ;
        }
    }
}

impl Size {
    /// For a rectangle at least two cells wide and two tall, the edge holds
    /// exactly the perimeter's `2 * (w + h) - 4` cells: corners counted
    /// once.
    pub proof fn lemma_edge_count_formula(self)
        requires
            self.w() >= 2,
            self.h() >= 2,
        ensures
            self.edge_count_spec() == 2 * (self.w() + self.h()) - 4,
    {
    }

    /// A rectangle at most one cell wide or tall is all edge: the edge
    /// holds every cell.
    pub proof fn lemma_edge_count_degenerate(self)
        requires
            self.w() <= 1 || self.h() <= 1,
        ensures
            self.edge_count_spec() == self.count_spec(),
    {
        assert(self.w() <= 1 || self.h() <= 1 ==> (self.w() * self.h() == if self.w() == 0
            || self.h() == 0 {
            0int
        } else if self.h() == 1 {
            self.w()
        } else {
            self.h()
        })) by (nonlinear_arith)
            requires
                self.w() >= 0,
                self.h() >= 0,
        ;
    }
}

} // verus!
