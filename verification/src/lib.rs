//! A strided n-dimensional array engine.
//!
//! One contiguous buffer, shared by every handle and view derived from it,
//! is addressed through a layout descriptor: a shape (per-axis extents),
//! strides (per-axis element steps) and a format tag that selects dense,
//! contiguous-slice or arbitrary-gather addressing. Views never copy data;
//! in-place mutation is granted only to the sole holder of a buffer.

pub mod errors;
pub mod iter;
pub mod layout;
pub mod ndarray;
pub mod ndarray_mut;
