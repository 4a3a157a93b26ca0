//! An index-stable vector whose vacated slots are reused by later insertions.
//!
//! [`VecList`] hands out a `usize` index for every pushed value. The index stays
//! valid until the value is popped, and popped slots are recycled, the most
//! recently vacated one first. The contract of every operation is stated over
//! the abstract state [`Slots`]; the module [`laws`] proves what follows from
//! these contracts for several operations in a row.

pub mod laws;
mod node;
pub mod slots;
pub mod veclist;

pub use slots::Slots;
pub use veclist::VecList;
