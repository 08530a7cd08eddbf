//! Fixed-length buffers of cells, row-major grids laid over them, and the
//! drawing of clipped line segments into anything that behaves like a grid.
//!
//! - [`array`]: [`Array`], a buffer that owns its cells or is a view onto
//!   the cells of another.
//! - [`table`]: [`Table`], a grid over the first cells of an array.
//! - [`graphics`]: [`Graphics2D`], what a grid must offer for lines to be
//!   drawn into it, and the drawing itself.
//! - [`utility`]: the saturating and the wrapping addition of the integer
//!   types.
//! - [`error`]: [`Error`], why an operation was refused.
//!
//! Every executable function carries a contract that Verus proves. Checked
//! operations answer a bad index, size or range with an [`Error`] and change
//! nothing; their `unchecked` twins demand the same conditions of the
//! caller in `requires`. A view borrows the array it was made from, so the
//! borrow rules keep the cells alive for as long as the view is, and a
//! contract says what the array holds once the view is gone.
pub mod array;
pub mod error;
pub mod graphics;
pub mod table;
pub mod utility;

pub use array::Array;
pub use error::Error;
pub use graphics::Graphics2D;
pub use table::Table;
