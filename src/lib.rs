//! A grow-able list of bits packed into bytes, most significant bit first.
//!
//! The list supports reading and writing any bit, pushing and popping at the
//! tail, and appending a whole second list.
pub mod bits;
pub mod laws;
pub mod list;

pub use bits::{bitmask, split_index};
pub use list::BitArrayList;
