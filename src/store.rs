//! An append-only, in-memory store that maps content addresses to chunk bytes.
//! Addresses lie back to back in one buffer and chunks in another; a side table of
//! chunk sizes keeps the chunk boundaries, which the chunk buffer does not record.

use vstd::prelude::*;
use crate::bridge::{prefix_sum, lemma_prefix_sum_agree, lemma_prefix_sum_monotone, IO_SIZE, MAX_CHUNKS, NAME_SIZE};

verus! {

/// The SHA3-256 digest of `data`.
pub uninterp spec fn sha3_256_of(data: Seq<u8>) -> Seq<u8>;

/// Relies on tiny_keccak's `Sha3::v256` with `update` and `finalize`: the SHA3-256
/// digest of `data`, written into a 32-byte array.
#[verifier::external_body]
fn sha3_256(data: &[u8]) -> (r: Vec<u8>)
    ensures
        r@ == sha3_256_of(data@),
        r@.len() == NAME_SIZE,
{
    let mut hasher = tiny_keccak::Sha3::v256();
    let mut output = [0u8; 32];
    tiny_keccak::Hasher::update(&mut hasher, data);
    tiny_keccak::Hasher::finalize(hasher, &mut output);
    output.to_vec()
}

/// Why the store refused a request.
#[derive(Debug, Clone, Copy, PartialEq, Eq, Structural)]
pub enum StoreError {
    /// No stored chunk has the requested address.
    NotFound,
    /// An address to store is not exactly `NAME_SIZE` bytes long.
    BadName,
    /// The chunk would exceed the store's chunk count or byte capacity.
    Full,
}

pub struct RamBasedStorage {
    /// Chunk bytes, back to back, in the order they were stored.
    pub chunks: Vec<u8>,
    /// Addresses, `NAME_SIZE` bytes each, in the order they were stored.
    pub datamap: Vec<u8>,
    /// Size of each stored chunk, in the order they were stored.
    pub sizes: Vec<usize>,
}

impl RamBasedStorage {
    pub open spec fn count(&self) -> int {
        self.sizes@.len() as int
    }

    /// Address of entry `i`.
    pub open spec fn name_at(&self, i: int) -> Seq<u8> {
        self.datamap@.subrange(NAME_SIZE * i, NAME_SIZE * i + NAME_SIZE)
    }

    /// Bytes of entry `i`.
    pub open spec fn chunk_at(&self, i: int) -> Seq<u8> {
        self.chunks@.subrange(prefix_sum(self.sizes@, i), prefix_sum(self.sizes@, i + 1))
    }

    /// The buffers and the size table agree, within the bridge's capacities.
    pub open spec fn wf(&self) -> bool {
        &&& self.count() <= MAX_CHUNKS
        &&& self.datamap@.len() == NAME_SIZE * self.count()
        &&& self.chunks@.len() == prefix_sum(self.sizes@, self.count())
        &&& self.chunks@.len() <= IO_SIZE
    }

    /// Index of the first of the first `n` entries whose address is `name`.
    pub open spec fn find(&self, name: Seq<u8>, n: int) -> Option<int>
        decreases n,
    {
        if n <= 0 {
            None
        } else {
            match self.find(name, n - 1) {
                Some(k) => Some(k),
                None => if self.name_at(n - 1) == name {
                    Some(n - 1)
                } else {
                    None
                },
            }
        }
    }

    /// Bytes of the first entry whose address is `name`.
    pub open spec fn lookup(&self, name: Seq<u8>) -> Option<Seq<u8>> {
        match self.find(name, self.count()) {
            Some(i) => Some(self.chunk_at(i)),
            None => None,
        }
    }

    /// The store can take a chunk of `data` under `name`.
    pub open spec fn has_room_for(&self, name: Seq<u8>, data: Seq<u8>) -> bool {
        &&& name.len() == NAME_SIZE
        &&& self.count() < MAX_CHUNKS
        &&& self.chunks@.len() + data.len() <= IO_SIZE
    }

    /// `self` is `before` with one entry, `name` and `data`, appended.
    pub open spec fn appended(&self, before: RamBasedStorage, name: Seq<u8>, data: Seq<u8>) -> bool {
        &&& self.count() == before.count() + 1
        &&& forall|i: int|
            0 <= i < before.count() ==> #[trigger] self.name_at(i) == before.name_at(i)
                && self.chunk_at(i) == before.chunk_at(i)
        &&& self.name_at(before.count()) == name
        &&& self.chunk_at(before.count()) == data
    }

    /// An empty store.
    pub fn new() -> (s: RamBasedStorage)
        ensures
            s.wf(),
            s.count() == 0,
    {
        RamBasedStorage { chunks: Vec::new(), datamap: Vec::new(), sizes: Vec::new() }
    }

    /// Looks `name` up, in the order the entries were stored; the first match wins.
    pub fn get(&self, name: &[u8]) -> (r: Result<Vec<u8>, StoreError>)
        requires
            self.wf(),
        ensures
            match r {
                Ok(v) => self.lookup(name@) == Some(v@),
                Err(e) => self.lookup(name@) is None && e == StoreError::NotFound,
            },
    {
        let total_names = self.sizes.len();
        if name.len() != NAME_SIZE {
            proof {
                self.lemma_find_none_wrong_length(name@, self.count());
            }
            return Err(StoreError::NotFound);
        }
        let mut i: usize = 0;
        let mut chunk_start: usize = 0;
        while i < total_names
            invariant
                self.wf(),
                total_names == self.count(),
                name@.len() == NAME_SIZE,
                i <= total_names,
                chunk_start == prefix_sum(self.sizes@, i as int),
                self.find(name@, i as int) is None,
            decreases total_names - i,
        {
            let name_start = i * NAME_SIZE;
            let mut matches = true;
            let mut j: usize = 0;
            while j < NAME_SIZE
                invariant
                    self.wf(),
                    total_names == self.count(),
                    name@.len() == NAME_SIZE,
                    i < total_names,
                    name_start == NAME_SIZE * i,
                    j <= NAME_SIZE,
                    matches <==> forall|k: int| 0 <= k < j ==> name@[k] == self.datamap@[name_start + k],
                decreases NAME_SIZE - j,
            {
                if name[j] != self.datamap[name_start + j] {
                    matches = false;
                }
                j = j + 1;
            }
            proof {
                lemma_prefix_sum_monotone(self.sizes@, i + 1, self.count());
                if matches {
                    assert(self.name_at(i as int) =~= name@);
                } else {
                    let k = choose|k: int| 0 <= k < NAME_SIZE && name@[k] != self.datamap@[name_start + k];
                    assert(self.name_at(i as int)[k] != name@[k]);
                }
            }
            if matches {
                let chunk_end = chunk_start + self.sizes[i];
                let mut chunk: Vec<u8> = Vec::new();
                let mut c: usize = chunk_start;
                while c < chunk_end
                    invariant
                        self.wf(),
                        chunk_start <= c <= chunk_end <= self.chunks@.len(),
                        chunk@ == self.chunks@.subrange(chunk_start as int, c as int),
                    decreases chunk_end - c,
                {
                    chunk.push(self.chunks[c]);
                    c = c + 1;
                    assert(chunk@ =~= self.chunks@.subrange(chunk_start as int, c as int));
                }
                proof {
                    self.lemma_find_stable(name@, i as int + 1, self.count());
                }
                return Ok(chunk);
            }
            chunk_start = chunk_start + self.sizes[i];
            i = i + 1;
        }
        Err(StoreError::NotFound)
    }

    /// Appends `name` and `data` as a new entry; an address that is already stored
    /// is stored again, and lookups keep finding the earlier entry.
    pub fn put(&mut self, name: Vec<u8>, data: Vec<u8>) -> (r: Result<(), StoreError>)
        requires
            old(self).wf(),
        ensures
            final(self).wf(),
            r is Ok <==> old(self).has_room_for(name@, data@),
            r is Ok ==> final(self).appended(*old(self), name@, data@),
            r is Err ==> *final(self) == *old(self),
            r == Err::<(), StoreError>(StoreError::BadName) <==> name@.len() != NAME_SIZE,
    {
        if name.len() != NAME_SIZE {
            return Err(StoreError::BadName);
        }
        if self.sizes.len() >= MAX_CHUNKS || data.len() > IO_SIZE - self.chunks.len() {
            return Err(StoreError::Full);
        }
        let ghost before = *self;
        let ghost name0 = name@;
        let ghost data0 = data@;
        let mut name = name;
        let mut data = data;
        let size = data.len();
        self.datamap.append(&mut name);
        self.chunks.append(&mut data);
        self.sizes.push(size);
        proof {
            let n = before.count();
            let s0 = before.sizes@;
            let s1 = self.sizes@;
            assert forall|k: int| 0 <= k < n implies s0[k] == s1[k] by {}
            assert forall|i: int| 0 <= i <= n implies prefix_sum(s1, i) == prefix_sum(s0, i) by {
                lemma_prefix_sum_agree(s0, s1, i);
            }
            assert forall|i: int| 0 <= i < n implies #[trigger] self.name_at(i) == before.name_at(i)
                && self.chunk_at(i) == before.chunk_at(i) by {
                lemma_prefix_sum_monotone(s0, i + 1, n);
                lemma_prefix_sum_agree(s0, s1, i);
                lemma_prefix_sum_agree(s0, s1, i + 1);
                lemma_prefix_sum_monotone(s0, i, i + 1);
                assert(self.name_at(i) =~= before.name_at(i));
                assert(self.chunk_at(i) =~= before.chunk_at(i));
            }
            assert(self.name_at(n) =~= name0);
            assert(self.chunk_at(n) =~= data0);
        }
        Ok(())
    }

    /// Deleting is not supported: the store is append-only, so this changes nothing
    /// and reports success.
    pub fn delete(&mut self, _name: &[u8]) -> (r: Result<(), StoreError>)
        ensures
            r is Ok,
            *final(self) == *old(self),
    {
        Ok(())
    }

    /// The content address of `data`: its SHA3-256 digest.
    pub fn generate_address(&self, data: &[u8]) -> (r: Vec<u8>)
        ensures
            r@ == sha3_256_of(data@),
            r@.len() == NAME_SIZE,
    {
        sha3_256(data)
    }

    /// A found index is in range and holds the address looked for.
    pub proof fn lemma_find_some(&self, name: Seq<u8>, n: int)
        requires
            self.find(name, n) is Some,
        ensures
            0 <= self.find(name, n)->0 < n,
            self.name_at(self.find(name, n)->0) == name,
        decreases n,
    {
        if n > 0 && self.find(name, n - 1) is Some {
            self.lemma_find_some(name, n - 1);
        }
    }

    /// Two stores whose first `n` addresses agree find an address at the same index.
    pub proof fn lemma_find_agree(&self, other: RamBasedStorage, name: Seq<u8>, n: int)
        requires
            forall|i: int| 0 <= i < n ==> #[trigger] self.name_at(i) == other.name_at(i),
        ensures
            self.find(name, n) == other.find(name, n),
        decreases n,
    {
        if n > 0 {
            self.lemma_find_agree(other, name, n - 1);
            assert(self.name_at(n - 1) == other.name_at(n - 1));
        }
    }

    proof fn lemma_find_none_wrong_length(&self, name: Seq<u8>, n: int)
        requires
            self.wf(),
            name.len() != NAME_SIZE,
            n <= self.count(),
        ensures
            self.find(name, n) is None,
        decreases n,
    {
        if n > 0 {
            self.lemma_find_none_wrong_length(name, n - 1);
            assert(self.name_at(n - 1).len() == NAME_SIZE);
        }
    }

    /// Once found among the first `a` entries, an address is found at the same index
    /// among the first `b >= a`.
    pub proof fn lemma_find_stable(&self, name: Seq<u8>, a: int, b: int)
        requires
            0 <= a <= b,
            self.find(name, a) is Some,
        ensures
            self.find(name, b) == self.find(name, a),
        decreases b - a,
    {
        if a < b {
            self.lemma_find_stable(name, a, b - 1);
        }
    }
}

/// Putting a chunk under an address that no earlier entry uses, then looking that
/// address up, gives back exactly the bytes that were put.
pub proof fn lemma_put_then_get(before: RamBasedStorage, after: RamBasedStorage, name: Seq<u8>, data: Seq<u8>)
    requires
        before.wf(),
        before.lookup(name) is None,
        after.appended(before, name, data),
    ensures
        after.lookup(name) == Some(data),
{
    after.lemma_find_agree(before, name, before.count());
}

/// Deleting is a no-op: after a delete every address looks up as it did before.
pub proof fn lemma_delete_keeps_lookups(before: RamBasedStorage, after: RamBasedStorage, name: Seq<u8>)
    requires
        after == before,
    ensures
        after.lookup(name) == before.lookup(name),
{
}

/// Address generation is deterministic: equal bytes get equal addresses.
pub proof fn lemma_address_deterministic(first: Seq<u8>, second: Seq<u8>)
    requires
        first == second,
    ensures
        sha3_256_of(first) == sha3_256_of(second),
{
}

} // verus!
