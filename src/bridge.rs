//! Fixed-capacity byte regions and scalar slots: the only state exchanged across the
//! call boundary. Each region is read and written one byte at a time by index.

use vstd::prelude::*;

verus! {

/// Largest number of chunks the bridge can describe.
pub const MAX_CHUNKS: usize = 50;

/// Largest size of one encrypted chunk, in bytes.
pub const CHUNK_SIZE: usize = 1024 * 1024 + 16;

/// Capacity of the input region and of the chunk region.
pub const IO_SIZE: usize = CHUNK_SIZE * MAX_CHUNKS;

/// Length of a content address.
pub const NAME_SIZE: usize = 32;

/// Capacity of the serialized data map region.
pub const DATAMAP_CAPACITY: usize = NAME_SIZE * MAX_CHUNKS;

/// Largest length of an encoded address.
pub const URL_SIZE: usize = 66;

/// Exit code of a call that succeeded.
pub const EXIT_OK: u8 = 0;

/// Exit code of a call whose requested input length exceeds the input region.
pub const EXIT_LENGTH_EXCEEDED: u8 = 1;

/// Exit code of a call whose engine result could not be laid out in the bridge.
pub const EXIT_ASSEMBLY_FAILED: u8 = 2;

/// Sum of the first `n` entries of `s`.
pub open spec fn prefix_sum(s: Seq<usize>, n: int) -> int
    decreases n,
{
    if n <= 0 {
        0
    } else {
        prefix_sum(s, n - 1) + s[n - 1] as int
    }
}

/// A prefix sum never decreases as more entries are added.
pub proof fn lemma_prefix_sum_monotone(s: Seq<usize>, i: int, j: int)
    requires
        0 <= i <= j <= s.len(),
    ensures
        0 <= prefix_sum(s, i) <= prefix_sum(s, j),
    decreases j - i,
{
    if i < j {
        lemma_prefix_sum_monotone(s, i, j - 1);
    } else {
        lemma_prefix_sum_nonneg(s, i);
    }
}

proof fn lemma_prefix_sum_nonneg(s: Seq<usize>, n: int)
    ensures
        prefix_sum(s, n) >= 0,
    decreases n,
{
    if n > 0 {
        lemma_prefix_sum_nonneg(s, n - 1);
    }
}

/// Two sequences that agree on their first `n` entries have the same prefix sum there.
pub proof fn lemma_prefix_sum_agree(s: Seq<usize>, t: Seq<usize>, n: int)
    requires
        0 <= n <= s.len(),
        n <= t.len(),
        forall|k: int| 0 <= k < n ==> s[k] == t[k],
    ensures
        prefix_sum(s, n) == prefix_sum(t, n),
    decreases n,
{
    if n > 0 {
        lemma_prefix_sum_agree(s, t, n - 1);
    }
}

/// The scratch memory of one session: the input region, the result regions and the
/// scalar result slots.
pub struct Bridge {
    pub input: Vec<u8>,
    pub exit_code: u8,
    pub chunks_count: usize,
    pub chunks_size: Vec<usize>,
    pub datamap_size: usize,
    pub chunks: Vec<u8>,
    pub datamap: Vec<u8>,
    pub xorname: Vec<u8>,
    pub safeurl: Vec<u8>,
}

impl Bridge {
    /// Every region has its published capacity.
    pub open spec fn wf(&self) -> bool {
        &&& self.input@.len() == IO_SIZE
        &&& self.chunks_size@.len() == MAX_CHUNKS
        &&& self.chunks@.len() == IO_SIZE
        &&& self.datamap@.len() == DATAMAP_CAPACITY
        &&& self.xorname@.len() == NAME_SIZE
        &&& self.safeurl@.len() == URL_SIZE
    }

    /// Offset in the chunk region at which chunk `chunk_index` starts.
    pub open spec fn chunk_start(&self, chunk_index: int) -> int {
        prefix_sum(self.chunks_size@, chunk_index)
    }

    /// The byte that `get_byte_for_chunk` reads.
    pub open spec fn byte_for_chunk(&self, chunk_index: int, byte_index: int) -> u8 {
        self.chunks@[self.chunk_start(chunk_index) + byte_index]
    }

    /// The chunk region holds the chunks `cs` back to back, as chunks `0 .. cs.len()`,
    /// with their sizes and count published.
    pub open spec fn holds_chunks(&self, cs: Seq<Seq<u8>>) -> bool {
        &&& self.wf()
        &&& cs.len() <= MAX_CHUNKS
        &&& self.chunks_count == cs.len()
        &&& self.chunk_start(cs.len() as int) <= IO_SIZE
        &&& forall|k: int| 0 <= k < cs.len() ==> #[trigger] self.chunks_size@[k] == cs[k].len()
        &&& forall|k: int, j: int|
            0 <= k < cs.len() && 0 <= j < cs[k].len() ==> #[trigger] self.chunks@[self.chunk_start(k) + j]
                == #[trigger] cs[k][j]
    }

    /// A bridge with every region and slot zeroed.
    pub fn new() -> (b: Bridge)
        ensures
            b.wf(),
            b.exit_code == EXIT_OK,
            b.chunks_count == 0,
            b.datamap_size == 0,
    {
        Bridge {
            input: vec![0u8; IO_SIZE],
            exit_code: EXIT_OK,
            chunks_count: 0,
            chunks_size: vec![0usize; MAX_CHUNKS],
            datamap_size: 0,
            chunks: vec![0u8; IO_SIZE],
            datamap: vec![0u8; DATAMAP_CAPACITY],
            xorname: vec![0u8; NAME_SIZE],
            safeurl: vec![0u8; URL_SIZE],
        }
    }
}

pub fn get_input_byte(b: &Bridge, i: usize) -> (r: u8)
    requires
        b.wf(),
        i < IO_SIZE,
    ensures
        r == b.input@[i as int],
{
    b.input[i]
}

pub fn set_input_byte(b: &mut Bridge, i: usize, v: u8)
    requires
        old(b).wf(),
        i < IO_SIZE,
    ensures
        *final(b) == (Bridge { input: final(b).input, ..*old(b) }),
        final(b).input@ == old(b).input@.update(i as int, v),
{
    b.input[i] = v;
}

pub fn get_exit_code(b: &Bridge) -> (r: u8)
    ensures
        r == b.exit_code,
{
    b.exit_code
}

pub fn set_exit_code(b: &mut Bridge, v: u8)
    ensures
        *final(b) == (Bridge { exit_code: v, ..*old(b) }),
{
    b.exit_code = v;
}

pub fn get_chunks_count(b: &Bridge) -> (r: usize)
    ensures
        r == b.chunks_count,
{
    b.chunks_count
}

pub fn set_chunks_count(b: &mut Bridge, v: usize)
    ensures
        *final(b) == (Bridge { chunks_count: v, ..*old(b) }),
{
    b.chunks_count = v;
}

pub fn get_chunks_size(b: &Bridge, i: usize) -> (r: usize)
    requires
        b.wf(),
        i < MAX_CHUNKS,
    ensures
        r == b.chunks_size@[i as int],
{
    b.chunks_size[i]
}

pub fn set_chunks_size(b: &mut Bridge, i: usize, v: usize)
    requires
        old(b).wf(),
        i < MAX_CHUNKS,
    ensures
        *final(b) == (Bridge { chunks_size: final(b).chunks_size, ..*old(b) }),
        final(b).chunks_size@ == old(b).chunks_size@.update(i as int, v),
{
    b.chunks_size[i] = v;
}

pub fn get_datamap_size(b: &Bridge) -> (r: usize)
    ensures
        r == b.datamap_size,
{
    b.datamap_size
}

pub fn set_datamap_size(b: &mut Bridge, v: usize)
    ensures
        *final(b) == (Bridge { datamap_size: v, ..*old(b) }),
{
    b.datamap_size = v;
}

/// Reads byte `byte_index` of chunk `chunk_index`: chunks lie back to back in the
/// chunk region, so the chunk starts after the sizes of all chunks before it.
pub fn get_byte_for_chunk(b: &Bridge, chunk_index: usize, byte_index: usize) -> (r: u8)
    requires
        b.wf(),
        chunk_index <= MAX_CHUNKS,
        b.chunk_start(chunk_index as int) + byte_index < IO_SIZE,
    ensures
        r == b.byte_for_chunk(chunk_index as int, byte_index as int),
{
    let mut start_index: usize = 0;
    let mut i: usize = 0;
    while i < chunk_index
        invariant
            b.wf(),
            i <= chunk_index <= MAX_CHUNKS,
            b.chunk_start(chunk_index as int) + byte_index < IO_SIZE,
            start_index == b.chunk_start(i as int),
        decreases chunk_index - i,
    {
        proof {
            lemma_prefix_sum_monotone(b.chunks_size@, i + 1, chunk_index as int);
        }
        start_index = start_index + b.chunks_size[i];
        i = i + 1;
    }
    get_chunks_byte(b, start_index + byte_index)
}

/// `get_byte_for_chunk` with its range checked: `None` where the chunk index passes
/// the size table or the byte lies beyond the chunk region.
pub fn try_byte_for_chunk(b: &Bridge, chunk_index: usize, byte_index: usize) -> (r: Option<u8>)
    requires
        b.wf(),
    ensures
        chunk_index <= MAX_CHUNKS && b.chunk_start(chunk_index as int) + byte_index < IO_SIZE ==> r
            == Some(b.byte_for_chunk(chunk_index as int, byte_index as int)),
        !(chunk_index <= MAX_CHUNKS && b.chunk_start(chunk_index as int) + byte_index < IO_SIZE) ==> r
            is None,
{
    if chunk_index > MAX_CHUNKS || byte_index >= IO_SIZE {
        proof {
            if chunk_index <= MAX_CHUNKS {
                lemma_prefix_sum_monotone(b.chunks_size@, 0, chunk_index as int);
            }
        }
        return None;
    }
    let mut start_index: usize = 0;
    let mut i: usize = 0;
    while i < chunk_index
        invariant
            b.wf(),
            i <= chunk_index <= MAX_CHUNKS,
            byte_index < IO_SIZE,
            start_index == b.chunk_start(i as int),
            start_index < IO_SIZE,
        decreases chunk_index - i,
    {
        let size = b.chunks_size[i];
        if size >= IO_SIZE - start_index {
            proof {
                lemma_prefix_sum_monotone(b.chunks_size@, i + 1, chunk_index as int);
            }
            return None;
        }
        start_index = start_index + size;
        i = i + 1;
    }
    if byte_index >= IO_SIZE - start_index {
        return None;
    }
    Some(get_chunks_byte(b, start_index + byte_index))
}

pub fn get_chunks_byte(b: &Bridge, i: usize) -> (r: u8)
    requires
        b.wf(),
        i < IO_SIZE,
    ensures
        r == b.chunks@[i as int],
{
    b.chunks[i]
}

pub fn set_chunks_byte(b: &mut Bridge, i: usize, v: u8)
    requires
        old(b).wf(),
        i < IO_SIZE,
    ensures
        *final(b) == (Bridge { chunks: final(b).chunks, ..*old(b) }),
        final(b).chunks@ == old(b).chunks@.update(i as int, v),
{
    b.chunks[i] = v;
}

pub fn get_datamap_byte(b: &Bridge, i: usize) -> (r: u8)
    requires
        b.wf(),
        i < DATAMAP_CAPACITY,
    ensures
        r == b.datamap@[i as int],
{
    b.datamap[i]
}

pub fn set_datamap_byte(b: &mut Bridge, i: usize, v: u8)
    requires
        old(b).wf(),
        i < DATAMAP_CAPACITY,
    ensures
        *final(b) == (Bridge { datamap: final(b).datamap, ..*old(b) }),
        final(b).datamap@ == old(b).datamap@.update(i as int, v),
{
    b.datamap[i] = v;
}

pub fn get_xorname_byte(b: &Bridge, i: usize) -> (r: u8)
    requires
        b.wf(),
        i < NAME_SIZE,
    ensures
        r == b.xorname@[i as int],
{
    b.xorname[i]
}

pub fn set_xorname_byte(b: &mut Bridge, i: usize, v: u8)
    requires
        old(b).wf(),
        i < NAME_SIZE,
    ensures
        *final(b) == (Bridge { xorname: final(b).xorname, ..*old(b) }),
        final(b).xorname@ == old(b).xorname@.update(i as int, v),
{
    b.xorname[i] = v;
}

pub fn get_safeurl_byte(b: &Bridge, i: usize) -> (r: u8)
    requires
        b.wf(),
        i < URL_SIZE,
    ensures
        r == b.safeurl@[i as int],
{
    b.safeurl[i]
}

pub fn set_safeurl_byte(b: &mut Bridge, i: usize, v: u8)
    requires
        old(b).wf(),
        i < URL_SIZE,
    ensures
        *final(b) == (Bridge { safeurl: final(b).safeurl, ..*old(b) }),
        final(b).safeurl@ == old(b).safeurl@.update(i as int, v),
{
    b.safeurl[i] = v;
}

} // verus!
