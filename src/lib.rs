//! A fixed-width bit container for packing and unpacking the fields of a
//! protocol header row.
//!
//! Fields are pushed in declaration order at the low end of the row and popped
//! back in the same order from the high end, so the bit offset of each field
//! never has to be tracked by the caller.
pub mod model;
pub mod bits32;
pub mod laws;

pub use bits32::Bits32;
