//! A shared mutable handle.
//!
//! Several handles ([`Imp`]) may refer to one value. Every handle reads and
//! writes that value, a write through one handle is seen through all the
//! others, and the value lives until the last handle to it is given back.
//! Handles are compared by identity: two handles are the same if they refer
//! to the same storage cell, whatever the cells hold.
//!
//! The values live in a [`Store`]. A handle is a small key into the store, so
//! holding a handle never borrows the value: reading takes the store by shared
//! reference and writing takes it by mutable reference, through any handle.
//! That a value has at most one mutable view at a time is thereby settled by
//! Rust's borrowing rules, and the contracts can say what every read returns.
//!
//! - [`handle`] holds the store and the handles, with their operations.
//! - [`model`] holds the mathematical model that the contracts are stated
//!   over: a heap of storage cells, each a value with its number of shares.
//! - [`laws`] holds what is proved of the operations taken together.

pub mod handle;
pub mod laws;
pub mod model;

pub use handle::Imp;
pub use handle::Store;
pub use model::Heap;
pub use model::Storage;
