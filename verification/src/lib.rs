//! A map backed by a growable vector of key-value pairs.
//!
//! Lookup, insertion and removal scan the pairs linearly, so the map is
//! meant for small numbers of entries, or for keys that are cheap to
//! compare but expensive or impossible to hash or order. Removal swaps the
//! last pair into the vacated slot, so the order of the surviving pairs is
//! not preserved across removals.

pub mod entry;
pub mod eq;
pub mod iter;
pub mod map;
pub mod model;
pub mod storage;

pub use entry::{Entry, OccupiedEntry, VacantEntry};
pub use eq::lemma_eq_is_map_eq;
pub use iter::{Drain, IntoIter, Iter, IterMut, Keys, Values};
pub use map::{lemma_pairs_round_trip, LinearMap};
pub use model::{
    distinct_keys, lemma_map_of_pairs_len, lemma_map_of_pairs_reverse, map_of_pairs,
    obeys_eq_model,
};
