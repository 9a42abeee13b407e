//! Layout and broadcasting engine for multidimensional arrays.
//!
//! The crate decides how many axes an array has, how long each axis is, how
//! axis positions map to linear memory offsets, how two differently-shaped
//! arrays combine element-wise, and how to classify an array's memory
//! arrangement (row-major, column-major, or neither) for fast-path dispatch.
//! All arithmetic over shapes and strides is overflow-checked and verified.

pub mod aliases;
pub mod axes;
pub mod bitset;
pub mod broadcast;
pub mod checked;
pub mod classify;
pub mod dimensionality;
pub mod dyn_repr;
pub mod error;
pub mod layout;
pub mod n_repr;
pub mod offset;
pub mod shape;
pub mod strides;
