//! Insertion-ordered hash table over machine words.
//!
//! A table keeps a keyed index for lookups and an ordered index by insertion
//! rank for iteration. Ranks are handed out by a counter that only `clear`
//! resets, so iteration follows first-insertion order, in-place updates keep
//! an entry's place, and a traversal can resume after its callback removed or
//! inserted entries. Keys are compared and hashed by a caller-chosen
//! [`HashType`].
use vstd::prelude::*;

pub mod api;
pub mod entry;
pub mod fnv;
pub mod hash_type;
pub mod iter;
pub mod laws;
pub mod model;
pub mod st;
pub mod traverse;
pub mod typedefs;

pub use entry::{Entry, OccupiedEntry, VacantEntry};
pub use hash_type::{HashType, NumericHash};
pub use iter::{InsertRanks, Iter, Keys, Values};
pub use st::StHash;
pub use traverse::{foreach_action, ForeachAction};
pub use typedefs::{st_data_t, st_hash_t, st_index_t, st_retval};

verus! {

} // verus!
