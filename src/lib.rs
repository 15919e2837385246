//! Two-dimensional grids stored in a single linear buffer, with a pluggable
//! strategy that maps positions to buffer indices.
//!
//! - `geom`: positions, sizes, rectangles and the error type.
//! - `layout`: traversal orders and linear layouts (row-major, column-major,
//!   tiled), each a bijection between the cells of a grid and buffer indices.
//! - `grid`: the unchecked read and write primitives a grid implements, and
//!   the bounds-checked operations every grid receives from them.
//! - `buf`: a grid over an owned buffer of elements.
//! - `bits` and `bitgrid`: words used as arrays of bits, and a grid of
//!   booleans packed one per bit.
//! - `ops`: rectangle copies, scaled copies and blends between grids.
//! - `blend`: simple blend functions.
//! - `transform`: views of a grid, magnified or mapped.
//! - `zorder`: the Z-order (Morton) index of a position, and a layout built
//!   on it for square grids whose side is a power of two.

pub mod geom;
pub mod layout;
pub mod grid;
pub mod buf;
pub mod ops;
pub mod bits;
pub mod bitgrid;
pub mod blend;
pub mod zorder;
pub mod transform;
