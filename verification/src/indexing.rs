//! Parameters of the nearest-neighbour index over chunk embeddings.

use vstd::prelude::*;

verus! {

/// The number of neighbours each point of the index links to.
pub const MAX_NB_CONNECTION: usize = 16;

/// The size of the candidate list while the index is built.
pub const EF_CONSTRUCTION: usize = 200;

} // verus!
