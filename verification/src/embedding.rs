//! Batching chunks for the embedding model.

use vstd::prelude::*;

verus! {

/// The number of chunk texts handed to the embedding model at once.
pub const EMBEDDING_BATCH_SIZE: usize = 256;

/// The ranges `[start, end)` of consecutive chunks that are embedded together:
/// batches of `EMBEDDING_BATCH_SIZE` chunks in order, the last one holding what
/// is left.
pub fn embedding_batches(count: usize) -> (batches: Vec<(usize, usize)>)
    ensures
        batches@.len() == (count + 255) / 256,
        forall|j: int|
            0 <= j < batches@.len() ==> (#[trigger] batches@[j]).0 == 256 * j && batches@[j].1 == if 256
                * j + 256 <= count {
                256 * j + 256
            } else {
                count as int
            },
{
    let full = count / 256;
    let count_batches = if count % 256 == 0 {
        full
    } else {
        full + 1
    };
    let mut batches: Vec<(usize, usize)> = Vec::new();
    for j in 0..count_batches
        invariant
            count_batches == (count + 255) / 256,
            batches@.len() == j,
            forall|k: int|
                0 <= k < batches@.len() ==> (#[trigger] batches@[k]).0 == 256 * k && batches@[k].1
                    == if 256 * k + 256 <= count {
                    256 * k + 256
                } else {
                    count as int
                },
    {
        let start = EMBEDDING_BATCH_SIZE * j;
        let end = if count - start >= EMBEDDING_BATCH_SIZE {
            start + EMBEDDING_BATCH_SIZE
        } else {
            count
        };
        batches.push((start, end));
    }
    batches
}

} // verus!
