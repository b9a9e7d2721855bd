//! A dense two-dimensional grid: a contiguous store of elements addressed by
//! integer `(x, y)` coordinates, with row-major traversal, bounds-safe and
//! checked accessors, coordinate normalization (tiling), simultaneous mutable
//! access to two distinct cells, and perimeter (edge) enumeration.

pub mod coord;
pub mod coord_system;
pub mod grid;

pub use coord::Coord;
pub use coord::Size;
pub use coord::SIZE_MAX;
pub use coord_system::conforms;
pub use coord_system::validate;
pub use coord_system::CoordSystem;
pub use coord_system::XThenY;
pub use grid::Get2Error;
pub use grid::Grid;
pub use grid::IteratorLengthDifferentFromSize;
