//! Storage abstractions of a vector-database worker: a key-value blockfile
//! addressed by (prefix, key) pairs, and transactional segment ingestion with
//! offset-id assignment.

use vstd::prelude::*;
pub mod blockstore;
pub mod segment;

verus! {

} // verus!
