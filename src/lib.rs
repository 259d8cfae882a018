//! Type erasure on the stack, proved safe.
//!
//! A [`TypeErased<C>`](TypeErased) owns `C` cells of storage and nothing else. Placing a value
//! in it writes the value's bytes into the first cells and forgets its type; getting the value
//! back requires the caller to show that the cells hold the bytes of a value of the type asked
//! for.
//!
//! The container fits any type whose size is at most `C` and whose alignment is at most 8.
//! `TypeErased` is neither `Send` nor `Sync`, since whether that would be sound depends on
//! the type that was erased.

pub mod container;
pub mod erasable;

pub use container::TypeErased;
pub use erasable::{Erasable, MaybeByte};
