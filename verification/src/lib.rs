//! A growable array kept in a block of element slots, with the cursors that
//! move its values out from either end.
//!
//! [`RawVec`] is the block, [`RawValIter`] a cursor over a range of its
//! slots, [`MyVec`] the array, and [`IntoIter`] and [`Drain`] the two
//! iterators that an array gives. The module [`model`] says what the
//! operations do to the sequence of elements and proves what follows from
//! that for every array.

pub mod drain;
pub mod error;
pub mod into_iter;
pub mod model;
pub mod my_vec;
pub mod raw_val_iter;
pub mod raw_vec;

pub use drain::Drain;
pub use error::IndexOutOfBounds;
pub use into_iter::IntoIter;
pub use my_vec::MyVec;
pub use raw_val_iter::RawValIter;
pub use raw_vec::RawVec;
