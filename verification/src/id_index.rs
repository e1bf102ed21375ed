//! An index from chunk identifiers to positions in a list of chunks.

use vstd::prelude::*;

verus! {

/// Where each identifier of `ids` last occurs: the map that inserting the
/// pairs `(ids[i], i)` in order leaves behind.
pub open spec fn id_positions(ids: Seq<Seq<u8>>) -> Map<Seq<u8>, nat>
    decreases ids.len(),
{
    if ids.len() == 0 {
        Map::empty()
    } else {
        id_positions(ids.drop_last()).insert(ids.last(), (ids.len() - 1) as nat)
    }
}

/// Indexing keeps every identifier and only those, each leading to the last
/// position where it occurs.
pub proof fn lemma_id_positions(ids: Seq<Seq<u8>>, id: Seq<u8>)
    ensures
        id_positions(ids).contains_key(id) <==> ids.contains(id),
        id_positions(ids).contains_key(id) ==> {
            let p = id_positions(ids)[id] as int;
            &&& 0 <= p < ids.len()
            &&& ids[p] == id
            &&& forall|j: int| p < j < ids.len() ==> ids[j] != id
        },
    decreases ids.len(),
{
    if ids.len() > 0 {
        let rest = ids.drop_last();
        lemma_id_positions(rest, id);
        if ids.last() == id {
            assert(ids.contains(id)) by {
                assert(ids[ids.len() - 1] == id);
            }
        } else {
            if ids.contains(id) {
                let j = choose|j: int| 0 <= j < ids.len() && ids[j] == id;
                assert(rest[j] == id);
            }
            if rest.contains(id) {
                let j = choose|j: int| 0 <= j < rest.len() && rest[j] == id;
                assert(ids[j] == id);
                let p = id_positions(rest)[id] as int;
                assert(id_positions(ids)[id] == id_positions(rest)[id]);
                assert(ids[p] == rest[p]);
                assert forall|k: int| p < k < ids.len() implies ids[k] != id by {
                    if k < rest.len() {
                        assert(ids[k] == rest[k]);
                    }
                }
            }
        }
    }
}

/// The number of buckets an index spreads its identifiers over.
pub const BUCKET_COUNT: usize = 65536;

/// The bucket of an identifier: its first two bytes.
pub open spec fn bucket_of(id: Seq<u8>) -> int {
    id[0] as int * 256 + id[1] as int
}

/// A map from 32-byte identifiers to positions.
pub struct ChunkIdIndex {
    buckets: Vec<Vec<([u8; 32], usize)>>,
    map: Ghost<Map<Seq<u8>, nat>>,
}

impl View for ChunkIdIndex {
    type V = Map<Seq<u8>, nat>;

    closed spec fn view(&self) -> Map<Seq<u8>, nat> {
        self.map@
    }
}

/// Whether two identifiers are equal.
pub fn ids_equal(a: &[u8; 32], b: &[u8; 32]) -> (eq: bool)
    ensures
        eq == (a@ == b@),
{
    let mut i: usize = 0;
    while i < 32
        invariant
            i <= 32,
            forall|j: int| 0 <= j < i ==> a@[j] == b@[j],
        decreases 32 - i,
    {
        if a[i] != b[i] {
            return false;
        }
        i = i + 1;
    }
    assert(a@ =~= b@);
    true
}

fn bucket_index(id: &[u8; 32]) -> (b: usize)
    ensures
        b == bucket_of(id@),
        b < BUCKET_COUNT,
{
    id[0] as usize * 256 + id[1] as usize
}

impl ChunkIdIndex {
    /// Every bucket holds distinct identifiers that belong to it, and the
    /// buckets together are exactly the map.
    pub closed spec fn wf(&self) -> bool {
        &&& self.buckets@.len() == BUCKET_COUNT
        &&& forall|b: int, j: int, k: int|
            0 <= b < BUCKET_COUNT && 0 <= j < k < self.buckets@[b]@.len()
                ==> self.buckets@[b]@[j].0@ != self.buckets@[b]@[k].0@
        &&& forall|b: int, j: int|
            #![trigger self.buckets@[b]@[j]]
            0 <= b < BUCKET_COUNT && 0 <= j < self.buckets@[b]@.len() ==> {
                &&& bucket_of(self.buckets@[b]@[j].0@) == b
                &&& self.map@.contains_key(self.buckets@[b]@[j].0@)
                &&& self.map@[self.buckets@[b]@[j].0@] == self.buckets@[b]@[j].1
            }
        &&& forall|key: Seq<u8>|
            #[trigger] self.map@.contains_key(key) ==> key.len() == 32 && exists|j: int|
                0 <= j < self.buckets@[bucket_of(key)]@.len()
                    && self.buckets@[bucket_of(key)]@[j].0@ == key
    }

    /// An index that maps nothing.
    pub fn new() -> (index: Self)
        ensures
            index.wf(),
            index@ == Map::<Seq<u8>, nat>::empty(),
    {
        let mut buckets: Vec<Vec<([u8; 32], usize)>> = Vec::new();
        for b in 0..BUCKET_COUNT
            invariant
                buckets@.len() == b,
                forall|c: int| 0 <= c < b ==> (#[trigger] buckets@[c])@.len() == 0,
        {
            buckets.push(Vec::new());
        }
        ChunkIdIndex { buckets, map: Ghost(Map::empty()) }
    }

    /// Maps `id` to `position`, replacing what it mapped to before.
    pub fn insert(&mut self, id: &[u8; 32], position: usize)
        requires
            old(self).wf(),
        ensures
            final(self).wf(),
            final(self)@ == old(self)@.insert(id@, position as nat),
    {
        let b = bucket_index(id);
        let ghost old_buckets = self.buckets@;
        let ghost new_map = self.map@.insert(id@, position as nat);
        let mut bucket: Vec<([u8; 32], usize)> = Vec::new();
        std::mem::swap(&mut bucket, &mut self.buckets[b]);
        let ghost old_bucket = bucket@;
        proof {
            assert(old_bucket == old_buckets[b as int]@);
        }
        let n = bucket.len();
        let mut j: usize = 0;
        while j < n && !ids_equal(&bucket[j].0, id)
            invariant
                n == bucket@.len(),
                j <= n,
                bucket@ == old_bucket,
                forall|k: int| 0 <= k < j ==> bucket@[k].0@ != id@,
            decreases n - j,
        {
            j = j + 1;
        }
        let found = j < n;
        if found {
            bucket.set(j, (*id, position));
        } else {
            bucket.push((*id, position));
        }
        let ghost new_bucket = bucket@;
        proof {
            if found {
                assert(new_bucket == old_bucket.update(j as int, (*id, position)));
                assert(old_bucket[j as int].0@ == id@);
            } else {
                assert(new_bucket == old_bucket.push((*id, position)));
            }
        }
        self.buckets.set(b, bucket);
        self.map = Ghost(new_map);
        proof {
            let buckets = self.buckets@;
            assert(buckets[b as int]@ == new_bucket);
            assert(forall|c: int| 0 <= c < BUCKET_COUNT && c != b ==> buckets[c] == old_buckets[c]);
            assert forall|c: int, k: int|
                #![trigger buckets[c]@[k]]
                0 <= c < BUCKET_COUNT && 0 <= k < buckets[c]@.len() implies {
                &&& bucket_of(buckets[c]@[k].0@) == c
                &&& new_map.contains_key(buckets[c]@[k].0@)
                &&& new_map[buckets[c]@[k].0@] == buckets[c]@[k].1
            } by {
                if c != b {
                    assert(buckets[c] == old_buckets[c]);
                    assert(old_buckets[c]@[k] == buckets[c]@[k]);
                } else if buckets[c]@[k].0@ != id@ {
                    assert(k < old_bucket.len());
                    assert(buckets[c]@[k] == old_buckets[c]@[k]);
                }
            }
            assert forall|key: Seq<u8>| #[trigger] new_map.contains_key(key) implies key.len() == 32
                && exists|k: int|
                0 <= k < buckets[bucket_of(key)]@.len() && buckets[bucket_of(key)]@[k].0@ == key by {
                if key != id@ {
                    assert(old(self).map@.contains_key(key));
                    let k = choose|k: int|
                        0 <= k < old_buckets[bucket_of(key)]@.len()
                            && old_buckets[bucket_of(key)]@[k].0@ == key;
                    assert(buckets[bucket_of(key)]@[k].0@ == key);
                } else {
                    assert(new_bucket[j as int].0@ == key);
                }
            }
            assert forall|c: int, k: int, l: int|
                0 <= c < BUCKET_COUNT && 0 <= k < l < buckets[c]@.len() implies buckets[c]@[k].0@
                != buckets[c]@[l].0@ by {
                if c != b {
                    assert(buckets[c] == old_buckets[c]);
                } else {
                    if k < old_bucket.len() && l < old_bucket.len() {
                        if found && (k == j || l == j) {
                            assert(old_bucket[j as int].0@ == id@);
                        }
                    }
                }
            }
        }
    }

    /// The position that `id` maps to, if any.
    pub fn get(&self, id: &[u8; 32]) -> (position: Option<usize>)
        requires
            self.wf(),
        ensures
            position matches Some(p) ==> self@.contains_key(id@) && self@[id@] == p,
            position is None ==> !self@.contains_key(id@),
    {
        let b = bucket_index(id);
        let bucket = &self.buckets[b];
        let n = bucket.len();
        let mut j: usize = 0;
        while j < n
            invariant
                n == bucket@.len(),
                bucket@ == self.buckets@[b as int]@,
                b < BUCKET_COUNT,
                b == bucket_of(id@),
                j <= n,
                self.wf(),
                forall|k: int| 0 <= k < j ==> bucket@[k].0@ != id@,
            decreases n - j,
        {
            if ids_equal(&bucket[j].0, id) {
                assert(self.buckets@[b as int]@[j as int].0@ == id@);
                assert(self.map@.contains_key(self.buckets@[b as int]@[j as int].0@));
                return Some(bucket[j].1);
            }
            j = j + 1;
        }
        proof {
            if self.map@.contains_key(id@) {
                let k = choose|k: int|
                    0 <= k < self.buckets@[bucket_of(id@)]@.len()
                        && self.buckets@[bucket_of(id@)]@[k].0@ == id@;
                assert(bucket@[k].0@ == id@);
            }
        }
        None
    }
}

} // verus!
