//! Drives one self-encryption call around the engine: validates the requested input
//! length and reads the input out of the bridge, then lays the engine's data map and
//! chunks out in the bridge's result regions.

use vstd::prelude::*;
use crate::bridge::{
    prefix_sum, lemma_prefix_sum_monotone, Bridge, DATAMAP_CAPACITY, EXIT_ASSEMBLY_FAILED,
    EXIT_LENGTH_EXCEEDED, EXIT_OK, IO_SIZE, MAX_CHUNKS, NAME_SIZE,
};
use crate::store::RamBasedStorage;

verus! {

/// One entry of a chunked data map: the address of chunk `chunk_num`.
pub struct ChunkRef {
    pub chunk_num: usize,
    pub hash: Vec<u8>,
}

/// What the engine reports once it is closed.
pub enum DataMap {
    /// The content was split into chunks; each entry gives a chunk's address.
    Chunks(Vec<ChunkRef>),
    /// The content was small enough to be kept inline.
    Content(Vec<u8>),
    /// The content was empty.
    Empty,
}

/// Why a data map could not be laid out in the bridge.
#[derive(Debug, Clone, Copy, PartialEq, Eq, Structural)]
pub enum AssembleError {
    /// More chunks than the bridge can describe.
    TooManyChunks,
    /// An entry's chunk number differs from its position in the data map.
    OutOfOrder,
    /// The store holds no chunk under an entry's address.
    LookupFailure,
    /// The chunks, or the inline content, exceed their region.
    TooLarge,
}

/// Total length of the first `n` chunks of `cs`.
pub open spec fn sum_lens(cs: Seq<Seq<u8>>, n: int) -> int
    decreases n,
{
    if n <= 0 {
        0
    } else {
        sum_lens(cs, n - 1) + cs[n - 1].len()
    }
}

proof fn lemma_sum_lens_monotone(cs: Seq<Seq<u8>>, i: int, j: int)
    requires
        0 <= i <= j <= cs.len(),
    ensures
        0 <= sum_lens(cs, i) <= sum_lens(cs, j),
    decreases j,
{
    if j > 0 {
        if i < j {
            lemma_sum_lens_monotone(cs, i, j - 1);
        } else {
            lemma_sum_lens_monotone(cs, i - 1, j - 1);
        }
    }
}

/// Sizes that list the lengths of `cs` add up as the lengths do.
proof fn lemma_prefix_sum_of_lens(sizes: Seq<usize>, cs: Seq<Seq<u8>>, n: int)
    requires
        0 <= n <= cs.len(),
        n <= sizes.len(),
        forall|k: int| 0 <= k < n ==> #[trigger] sizes[k] == cs[k].len(),
    ensures
        prefix_sum(sizes, n) == sum_lens(cs, n),
    decreases n,
{
    if n > 0 {
        lemma_prefix_sum_of_lens(sizes, cs, n - 1);
    }
}

/// The chunk that `store` holds under `name`, or nothing.
pub open spec fn chunk_or_empty(store: RamBasedStorage, name: Seq<u8>) -> Seq<u8> {
    match store.lookup(name) {
        Some(c) => c,
        None => Seq::empty(),
    }
}

/// The chunks that `entries` name, in data map order.
pub open spec fn engine_chunks(store: RamBasedStorage, entries: Seq<ChunkRef>) -> Seq<Seq<u8>> {
    Seq::new(entries.len(), |k: int| chunk_or_empty(store, entries[k].hash@))
}

/// The outcome of laying `data_map` out, given the chunks in `store`.
pub open spec fn assemble_outcome(store: RamBasedStorage, data_map: DataMap) -> Result<(), AssembleError> {
    match data_map {
        DataMap::Chunks(es) => {
            let entries = es@;
            if entries.len() > MAX_CHUNKS {
                Err(AssembleError::TooManyChunks)
            } else if exists|k: int| 0 <= k < entries.len() && #[trigger] entries[k].chunk_num != k {
                Err(AssembleError::OutOfOrder)
            } else if exists|k: int| 0 <= k < entries.len() && (#[trigger] store.lookup(entries[k].hash@)) is None {
                Err(AssembleError::LookupFailure)
            } else if sum_lens(engine_chunks(store, entries), entries.len() as int) > IO_SIZE {
                Err(AssembleError::TooLarge)
            } else {
                Ok(())
            }
        },
        DataMap::Content(c) => if c@.len() > DATAMAP_CAPACITY {
            Err(AssembleError::TooLarge)
        } else {
            Ok(())
        },
        DataMap::Empty => Ok(()),
    }
}

/// First half of a self-encryption call: clears the exit code, refuses a length
/// beyond the input region (with `EXIT_LENGTH_EXCEEDED`, touching nothing else), and
/// otherwise returns the first `bytes_length` input bytes for the engine.
pub fn begin_self_encrypt(bridge: &mut Bridge, bytes_length: usize) -> (r: Option<Vec<u8>>)
    requires
        old(bridge).wf(),
    ensures
        bytes_length > IO_SIZE ==> r is None && *final(bridge) == (Bridge {
            exit_code: EXIT_LENGTH_EXCEEDED,
            ..*old(bridge)
        }),
        bytes_length <= IO_SIZE ==> r is Some && r->0@ == old(bridge).input@.subrange(
            0,
            bytes_length as int,
        ) && *final(bridge) == (Bridge { exit_code: EXIT_OK, ..*old(bridge) }),
{
    bridge.exit_code = EXIT_OK;
    if bytes_length > IO_SIZE {
        bridge.exit_code = EXIT_LENGTH_EXCEEDED;
        return None;
    }
    let mut input_bytes: Vec<u8> = Vec::new();
    let mut i: usize = 0;
    while i < bytes_length
        invariant
            bridge.wf(),
            i <= bytes_length <= IO_SIZE,
            input_bytes@ == bridge.input@.subrange(0, i as int),
        decreases bytes_length - i,
    {
        input_bytes.push(bridge.input[i]);
        i = i + 1;
        assert(input_bytes@ =~= bridge.input@.subrange(0, i as int));
    }
    Some(input_bytes)
}

/// Second half of a self-encryption call: lays the engine's data map out in the
/// bridge. For chunks, the addresses go to the data map region, 32 bytes per chunk
/// number, and the chunk bytes, fetched from `store`, go back to back to the chunk
/// region with their sizes and count published. Inline content goes to the data map
/// region. On failure only the exit code changes, to `EXIT_ASSEMBLY_FAILED`.
pub fn store_data_map(bridge: &mut Bridge, store: &RamBasedStorage, data_map: &DataMap) -> (r: Result<
    (),
    AssembleError,
>)
    requires
        old(bridge).wf(),
        store.wf(),
    ensures
        final(bridge).wf(),
        r == assemble_outcome(*store, *data_map),
        r is Err ==> *final(bridge) == (Bridge { exit_code: EXIT_ASSEMBLY_FAILED, ..*old(bridge) }),
        r is Ok ==> final(bridge).exit_code == old(bridge).exit_code
            && final(bridge).input@ == old(bridge).input@
            && final(bridge).xorname@ == old(bridge).xorname@
            && final(bridge).safeurl@ == old(bridge).safeurl@,
        r is Ok ==> match *data_map {
            DataMap::Chunks(es) => {
                &&& final(bridge).holds_chunks(engine_chunks(*store, es@))
                &&& final(bridge).datamap_size == store.datamap@.len()
                &&& forall|k: int|
                    0 <= k < es@.len() ==> #[trigger] final(bridge).datamap@.subrange(
                        NAME_SIZE * k,
                        NAME_SIZE * k + NAME_SIZE,
                    ) == es@[k].hash@
                &&& forall|i: int|
                    NAME_SIZE * es@.len() <= i < DATAMAP_CAPACITY ==> #[trigger] final(bridge).datamap@[i]
                        == old(bridge).datamap@[i]
            },
            DataMap::Content(c) => {
                &&& final(bridge).chunks_count == 0
                &&& final(bridge).datamap_size == c@.len()
                &&& final(bridge).datamap@ == c@ + old(bridge).datamap@.subrange(
                    c@.len() as int,
                    DATAMAP_CAPACITY as int,
                )
                &&& final(bridge).chunks@ == old(bridge).chunks@
            },
            DataMap::Empty => *final(bridge) == (Bridge {
                chunks_count: 0,
                datamap_size: 0,
                ..*old(bridge)
            }),
        },
{
    match data_map {
        DataMap::Chunks(entries) => store_chunks(bridge, store, entries),
        DataMap::Content(content) => {
            if content.len() > DATAMAP_CAPACITY {
                bridge.exit_code = EXIT_ASSEMBLY_FAILED;
                return Err(AssembleError::TooLarge);
            }
            let ghost d0 = bridge.datamap@;
            bridge.chunks_count = 0;
            bridge.datamap_size = content.len();
            let ghost b1 = *bridge;
            let mut i: usize = 0;
            while i < content.len()
                invariant
                    bridge.wf(),
                    *bridge == (Bridge { datamap: bridge.datamap, ..b1 }),
                    d0.len() == DATAMAP_CAPACITY,
                    i <= content@.len() <= DATAMAP_CAPACITY,
                    bridge.datamap@ == content@.subrange(0, i as int) + d0.subrange(
                        i as int,
                        DATAMAP_CAPACITY as int,
                    ),
                decreases content@.len() - i,
            {
                bridge.datamap[i] = content[i];
                i = i + 1;
                assert(bridge.datamap@ =~= content@.subrange(0, i as int) + d0.subrange(
                    i as int,
                    DATAMAP_CAPACITY as int,
                ));
            }
            assert(content@.subrange(0, i as int) =~= content@);
            Ok(())
        },
        DataMap::Empty => {
            bridge.chunks_count = 0;
            bridge.datamap_size = 0;
            Ok(())
        },
    }
}

fn fail(bridge: &mut Bridge, e: AssembleError) -> (r: Result<(), AssembleError>)
    ensures
        r == Err::<(), AssembleError>(e),
        *final(bridge) == (Bridge { exit_code: EXIT_ASSEMBLY_FAILED, ..*old(bridge) }),
        old(bridge).wf() ==> final(bridge).wf(),
{
    bridge.exit_code = EXIT_ASSEMBLY_FAILED;
    Err(e)
}

fn store_chunks(bridge: &mut Bridge, store: &RamBasedStorage, entries: &Vec<ChunkRef>) -> (r: Result<
    (),
    AssembleError,
>)
    requires
        old(bridge).wf(),
        store.wf(),
    ensures
        final(bridge).wf(),
        r == assemble_outcome(*store, DataMap::Chunks(*entries)),
        r is Err ==> *final(bridge) == (Bridge { exit_code: EXIT_ASSEMBLY_FAILED, ..*old(bridge) }),
        r is Ok ==> final(bridge).exit_code == old(bridge).exit_code
            && final(bridge).input@ == old(bridge).input@
            && final(bridge).xorname@ == old(bridge).xorname@
            && final(bridge).safeurl@ == old(bridge).safeurl@
            && final(bridge).holds_chunks(engine_chunks(*store, entries@))
            && final(bridge).datamap_size == store.datamap@.len()
            && (forall|k: int|
                0 <= k < entries@.len() ==> #[trigger] final(bridge).datamap@.subrange(
                    NAME_SIZE * k,
                    NAME_SIZE * k + NAME_SIZE,
                ) == entries@[k].hash@)
            && (forall|i: int|
                NAME_SIZE * entries@.len() <= i < DATAMAP_CAPACITY ==> #[trigger] final(bridge).datamap@[i]
                    == old(bridge).datamap@[i]),
{
    let ghost es = entries@;
    let n = entries.len();
    if n > MAX_CHUNKS {
        return fail(bridge, AssembleError::TooManyChunks);
    }
    let mut k: usize = 0;
    while k < n
        invariant
            es == entries@,
            *bridge == *old(bridge),
            bridge.wf(),
            n == es.len() <= MAX_CHUNKS,
            k <= n,
            forall|m: int| 0 <= m < k ==> #[trigger] es[m].chunk_num == m,
        decreases n - k,
    {
        if entries[k].chunk_num != k {
            assert(es[k as int].chunk_num != k);
            return fail(bridge, AssembleError::OutOfOrder);
        }
        k = k + 1;
    }
    let mut fetched: Vec<Vec<u8>> = Vec::new();
    let mut total: usize = 0;
    let mut too_large = false;
    k = 0;
    while k < n
        invariant
            es == entries@,
            *bridge == *old(bridge),
            bridge.wf(),
            store.wf(),
            n == es.len() <= MAX_CHUNKS,
            k <= n,
            forall|m: int| 0 <= m < n ==> #[trigger] es[m].chunk_num == m,
            fetched@.len() == k,
            forall|m: int|
                0 <= m < k ==> store.lookup(#[trigger] es[m].hash@) == Some(fetched@[m]@),
            forall|m: int| 0 <= m < k ==> (#[trigger] es[m].hash@).len() == NAME_SIZE,
            too_large <==> sum_lens(engine_chunks(*store, es), k as int) > IO_SIZE,
            !too_large ==> total == sum_lens(engine_chunks(*store, es), k as int),
        decreases n - k,
    {
        match store.get(entries[k].hash.as_slice()) {
            Ok(chunk) => {
                proof {
                    store.lemma_find_some(es[k as int].hash@, store.count());
                    let cs = engine_chunks(*store, es);
                    lemma_sum_lens_monotone(cs, k as int, k as int + 1);
                }
                if !too_large {
                    if chunk.len() > IO_SIZE - total {
                        too_large = true;
                    } else {
                        total = total + chunk.len();
                    }
                }
                fetched.push(chunk);
                k = k + 1;
            },
            Err(_) => {
                assert(store.lookup(es[k as int].hash@) is None);
                return fail(bridge, AssembleError::LookupFailure);
            },
        }
    }
    let ghost cs = engine_chunks(*store, es);
    assert forall|m: int| 0 <= m < n implies #[trigger] cs[m] == fetched@[m]@ by {}
    if too_large {
        return fail(bridge, AssembleError::TooLarge);
    }
    let ghost b0 = *bridge;
    bridge.datamap_size = store.datamap.len();
    let mut cursor: usize = 0;
    k = 0;
    while k < n
        invariant
            es == entries@,
            bridge.wf(),
            b0 == *old(bridge),
            n == es.len() == cs.len() <= MAX_CHUNKS,
            k <= n,
            fetched@.len() == n,
            forall|m: int| 0 <= m < n ==> #[trigger] cs[m] == fetched@[m]@,
            forall|m: int| 0 <= m < n ==> (#[trigger] es[m].hash@).len() == NAME_SIZE,
            sum_lens(cs, n as int) <= IO_SIZE,
            cursor == sum_lens(cs, k as int),
            bridge.exit_code == b0.exit_code,
            bridge.input@ == b0.input@,
            bridge.xorname@ == b0.xorname@,
            bridge.safeurl@ == b0.safeurl@,
            bridge.datamap_size == store.datamap@.len(),
            forall|m: int| 0 <= m < k ==> #[trigger] bridge.chunks_size@[m] == cs[m].len(),
            forall|m: int, j: int|
                0 <= m < k && 0 <= j < cs[m].len() ==> bridge.chunks@[sum_lens(cs, m) + j]
                    == #[trigger] cs[m][j],
            forall|m: int|
                0 <= m < k ==> #[trigger] bridge.datamap@.subrange(NAME_SIZE * m, NAME_SIZE * m + NAME_SIZE)
                    == es[m].hash@,
            forall|i: int|
                NAME_SIZE * k <= i < DATAMAP_CAPACITY ==> #[trigger] bridge.datamap@[i] == b0.datamap@[i],
        decreases n - k,
    {
        proof {
            lemma_sum_lens_monotone(cs, k as int + 1, n as int);
        }
        let name = &entries[k].hash;
        let name_start = NAME_SIZE * k;
        let ghost d0 = bridge.datamap@;
        let ghost b1 = *bridge;
        proof {
            assert(NAME_SIZE * k + NAME_SIZE <= DATAMAP_CAPACITY) by (nonlinear_arith)
                requires
                    k < MAX_CHUNKS,
            ;
        }
        let mut j: usize = 0;
        while j < NAME_SIZE
            invariant
                bridge.wf(),
                *bridge == (Bridge { datamap: bridge.datamap, ..b1 }),
                d0.len() == DATAMAP_CAPACITY,
                k < n <= MAX_CHUNKS,
                name_start == NAME_SIZE * k,
                name_start + NAME_SIZE <= DATAMAP_CAPACITY,
                name@ == es[k as int].hash@,
                name@.len() == NAME_SIZE,
                j <= NAME_SIZE,
                forall|i: int| 0 <= i < j ==> #[trigger] bridge.datamap@[name_start + i] == name@[i],
                forall|i: int|
                    0 <= i < DATAMAP_CAPACITY && !(name_start <= i < name_start + j) ==> #[trigger] bridge.datamap@[i]
                        == d0[i],
            decreases NAME_SIZE - j,
        {
            bridge.datamap[name_start + j] = name[j];
            j = j + 1;
        }
        proof {
            assert(j == NAME_SIZE);
            assert forall|i: int| 0 <= i < NAME_SIZE implies #[trigger] bridge.datamap@.subrange(
                name_start as int,
                name_start + NAME_SIZE,
            )[i] == es[k as int].hash@[i] by {
                assert(bridge.datamap@[name_start + i] == name@[i]);
            }
            assert(bridge.datamap@.subrange(name_start as int, name_start + NAME_SIZE) =~= es[k as int].hash@);
        }
        let chunk = &fetched[k];
        let ghost c0 = bridge.chunks@;
        let ghost b2 = *bridge;
        j = 0;
        while j < chunk.len()
            invariant
                bridge.wf(),
                *bridge == (Bridge { chunks: bridge.chunks, ..b2 }),
                c0.len() == IO_SIZE,
                chunk@ == cs[k as int],
                cursor + chunk@.len() <= IO_SIZE,
                j <= chunk@.len(),
                forall|i: int| 0 <= i < j ==> #[trigger] bridge.chunks@[cursor + i] == chunk@[i],
                forall|i: int|
                    0 <= i < IO_SIZE && !(cursor <= i < cursor + j) ==> #[trigger] bridge.chunks@[i] == c0[i],
            decreases chunk@.len() - j,
        {
            bridge.chunks[cursor + j] = chunk[j];
            j = j + 1;
        }
        bridge.chunks_size[k] = chunk.len();
        proof {
            assert(bridge.datamap@ == b2.datamap@);
            assert forall|m: int|
                0 <= m < k implies #[trigger] bridge.datamap@.subrange(NAME_SIZE * m, NAME_SIZE * m + NAME_SIZE)
                == es[m].hash@ by {
                assert(NAME_SIZE * m + NAME_SIZE <= NAME_SIZE * k) by (nonlinear_arith)
                    requires
                        m < k,
                ;
                assert(bridge.datamap@.subrange(NAME_SIZE * m, NAME_SIZE * m + NAME_SIZE) =~= d0.subrange(
                    NAME_SIZE * m,
                    NAME_SIZE * m + NAME_SIZE,
                ));
            }
            assert forall|m: int, jj: int|
                0 <= m < k && 0 <= jj < cs[m].len() implies bridge.chunks@[sum_lens(cs, m) + jj]
                == #[trigger] cs[m][jj] by {
                lemma_sum_lens_monotone(cs, m + 1, k as int);
                lemma_sum_lens_monotone(cs, m, m + 1);
                assert(bridge.chunks@[sum_lens(cs, m) + jj] == c0[sum_lens(cs, m) + jj]);
            }
            assert forall|jj: int|
                0 <= jj < cs[k as int].len() implies bridge.chunks@[sum_lens(cs, k as int) + jj]
                == #[trigger] cs[k as int][jj] by {
                assert(bridge.chunks@[cursor + jj] == chunk@[jj]);
            }
        }
        cursor = cursor + chunk.len();
        k = k + 1;
    }
    bridge.chunks_count = n;
    proof {
        lemma_prefix_sum_of_lens(bridge.chunks_size@, cs, n as int);
        assert forall|m: int| 0 <= m <= n implies #[trigger] bridge.chunk_start(m) == sum_lens(cs, m) by {
            lemma_prefix_sum_of_lens(bridge.chunks_size@, cs, m);
        }
    }
    Ok(())
}

/// Round trip: after a chunked data map has been laid out, reading chunk `i` back
/// byte by byte, for every published chunk and size, stays in range and yields the
/// chunk that the store holds under entry `i`'s address.
pub proof fn lemma_round_trip(after: Bridge, store: RamBasedStorage, entries: Vec<ChunkRef>)
    requires
        assemble_outcome(store, DataMap::Chunks(entries)) is Ok,
        after.holds_chunks(engine_chunks(store, entries@)),
    ensures
        after.chunks_count == entries@.len(),
        forall|i: int|
            0 <= i < after.chunks_count ==> (#[trigger] store.lookup(entries@[i].hash@)) is Some
                && after.chunks_size@[i] == store.lookup(entries@[i].hash@)->0.len(),
        forall|i: int|
            0 <= i < after.chunks_count ==> i <= MAX_CHUNKS && #[trigger] after.chunk_start(i)
                + after.chunks_size@[i] <= IO_SIZE,
        forall|i: int, j: int|
            0 <= i < after.chunks_count && 0 <= j < after.chunks_size@[i] ==> #[trigger] after.byte_for_chunk(i, j)
                == store.lookup(entries@[i].hash@)->0[j],
{
    let cs = engine_chunks(store, entries@);
    let n = entries@.len() as int;
    assert forall|i: int| 0 <= i < n implies (#[trigger] store.lookup(entries@[i].hash@)) is Some by {
        if store.lookup(entries@[i].hash@) is None {
            assert(exists|k: int| 0 <= k < n && (#[trigger] store.lookup(entries@[k].hash@)) is None);
        }
    }
    assert forall|i: int, j: int|
        0 <= i < after.chunks_count && 0 <= j < after.chunks_size@[i] implies (i <= MAX_CHUNKS
        && after.chunk_start(i) + j < IO_SIZE && #[trigger] after.byte_for_chunk(i, j)
        == store.lookup(entries@[i].hash@)->0[j]) by {
        lemma_prefix_sum_monotone(after.chunks_size@, i + 1, n);
        assert(after.chunks_size@[i] == cs[i].len());
        assert(after.chunks@[after.chunk_start(i) + j] == cs[i][j]);
        assert(store.lookup(entries@[i].hash@) is Some);
        assert(cs[i] == store.lookup(entries@[i].hash@)->0);
        assert(after.chunk_start(i) + j < IO_SIZE);
        assert(after.byte_for_chunk(i, j) == store.lookup(entries@[i].hash@)->0[j]);
    }
    assert forall|i: int|
        0 <= i < after.chunks_count implies i <= MAX_CHUNKS && #[trigger] after.chunk_start(i)
        + after.chunks_size@[i] <= IO_SIZE by {
        lemma_prefix_sum_monotone(after.chunks_size@, i + 1, n);
    }
}

} // verus!
