//! A keyed cache in which the value of a key is computed at most once.
//!
//! The map keeps its pairs in a vector of slots and finds them again through
//! a hash table of slot numbers, probed with a hash that is computed once per
//! request.
//!
//! - `equivalent`: comparing a borrowed query with an owned key.
//! - `hashing`: the hash of a request.
//! - `index_table`: the hash table of slot numbers, which is `hashbrown`'s.
//! - `raw`: the slots, found and stored by a hash computed beforehand.
//! - `outcome`: how a request ends, as the contracts state it.
//! - `unsync`: the map.
//! - `laws`: what holds of every sequence of requests.
use vstd::prelude::*;

pub mod equivalent;
pub mod hashing;
pub mod index_table;
pub mod infallible;
pub mod laws;
pub mod outcome;
pub mod raw;
pub mod unsync;

pub use equivalent::{Equivalent, ToOwnedEquivalent};
pub use hashing::hash_one;
