use vstd::prelude::*;

use roaring::RoaringBitmap;
use std::collections::BTreeMap;

use crate::block::{Block, BLOCK_SIZE};
use crate::classify::{kind_of, classify, BlockKind};
use crate::codec::{lemma_round_trip, pack_block, packed, unpack_block, unpacked, valid_packed};
use crate::interest::{bitmap_contains, bitmap_members};

verus! {

broadcast use vstd::std_specs::btree::group_btree_axioms;

/// Why an engine could not serve a request.
#[derive(Clone, Copy, Debug, PartialEq, Eq, Structural)]
pub enum EngineError {
    /// The block is not held in the cache, and this engine has no other way
    /// to read it.
    Unavailable,
    /// The cached bytes of the block could not be unpacked.
    Corrupt,
    /// The engine does not write.
    Unsupported,
}

/// Block `j` of a run of whole blocks.
pub open spec fn block_at(data: Seq<u8>, j: int) -> Seq<u8> {
    data.subrange(j * BLOCK_SIZE, (j + 1) * BLOCK_SIZE)
}

/// Whether block number `k`, with bytes `d`, is to be cached: it is in the
/// interest set and its kind is known.
pub open spec fn is_cached_block(interest: Set<u32>, k: int, d: Seq<u8>) -> bool {
    &&& 0 <= k <= u32::MAX
    &&& interest.contains(k as u32)
    &&& kind_of(d) != BlockKind::Unknown
}

/// Whether `z` is the packed form of a block of known kind.
pub open spec fn is_packed_block(z: Seq<u8>) -> bool {
    &&& valid_packed(z)
    &&& kind_of(unpacked(z)) != BlockKind::Unknown
    &&& z == packed(kind_of(unpacked(z)), unpacked(z))
}

/// Bytes taken by the packed forms of the first `j` blocks of `data`, the
/// first of which is block number `first`.
pub open spec fn packed_bytes(interest: Set<u32>, first: int, data: Seq<u8>, j: int) -> int
    decreases j,
{
    if j <= 0 {
        0
    } else {
        let d = block_at(data, j - 1);
        packed_bytes(interest, first, data, j - 1) + if is_cached_block(interest, first + j - 1, d) {
            packed(kind_of(d), d).len() as int
        } else {
            0
        }
    }
}

/// `a + b`, held at `u64::MAX`.
pub open spec fn sat_add(a: int, b: int) -> int {
    if a + b > u64::MAX {
        u64::MAX as int
    } else {
        a + b
    }
}

/// The sequential scan that fills a spindle engine's cache. Blocks are handed
/// over in device order, in runs of whole blocks; those in the interest set
/// whose kind is known are packed and kept.
pub struct SpindleScan {
    nr_blocks: u64,
    scanned: u64,
    total_packed: u64,
    interest: RoaringBitmap,
    compressed: BTreeMap<u64, Vec<u8>>,
}

impl SpindleScan {
    /// The block numbers worth caching.
    pub closed spec fn spec_interest(&self) -> Set<u32> {
        bitmap_members(self.interest)
    }

    /// The packed forms kept so far, by block number.
    pub closed spec fn packed_cache(&self) -> Map<u64, Seq<u8>> {
        Map::new(|k: u64| self.compressed@.contains_key(k), |k: u64| self.compressed@[k]@)
    }

    /// The number of blocks on the device.
    pub closed spec fn spec_nr_blocks(&self) -> u64 {
        self.nr_blocks
    }

    /// The number of blocks handed over so far.
    pub closed spec fn spec_scanned(&self) -> u64 {
        self.scanned
    }

    /// The bytes taken by the packed forms kept so far, held at `u64::MAX`.
    pub closed spec fn spec_total_packed(&self) -> u64 {
        self.total_packed
    }

    /// Only blocks already handed over are kept, each as the packed form of
    /// a block of known kind.
    pub closed spec fn wf(&self) -> bool {
        &&& self.scanned <= self.nr_blocks
        &&& forall|k: u64| #[trigger]
            self.compressed@.contains_key(k) ==> {
                &&& k < self.scanned
                &&& is_packed_block(self.compressed@[k]@)
                &&& is_cached_block(self.spec_interest(), k as int, unpacked(self.compressed@[k]@))
            }
    }

    /// A scan of a device of `nr_blocks` blocks that keeps the blocks whose
    /// numbers are in `interest`, with nothing handed over yet.
    pub fn new(nr_blocks: u64, interest: RoaringBitmap) -> (s: SpindleScan)
        ensures
            s.wf(),
            s.spec_interest() == bitmap_members(interest),
            s.spec_nr_blocks() == nr_blocks,
            s.spec_scanned() == 0,
            s.spec_total_packed() == 0,
            s.packed_cache() == Map::<u64, Seq<u8>>::empty(),
    {
        let s = SpindleScan {
            nr_blocks,
            scanned: 0,
            total_packed: 0,
            interest,
            compressed: BTreeMap::new(),
        };
        assert(s.packed_cache() =~= Map::<u64, Seq<u8>>::empty());
        s
    }

    /// The number of blocks on the device.
    pub fn get_nr_blocks(&self) -> (r: u64)
        ensures
            r == self.spec_nr_blocks(),
    {
        self.nr_blocks
    }

    /// The number of blocks handed over so far.
    pub fn get_scanned(&self) -> (r: u64)
        ensures
            r == self.spec_scanned(),
    {
        self.scanned
    }

    /// The bytes taken by the packed forms kept so far.
    pub fn get_total_packed(&self) -> (r: u64)
        ensures
            r == self.spec_total_packed(),
    {
        self.total_packed
    }

    /// Hands over the next blocks of the device, `data` holding whole blocks
    /// in order. Each one in the interest set whose kind is known is packed and
    /// kept under its block number; the others are dropped.
    pub fn scan_chunk(&mut self, data: &[u8])
        requires
            old(self).wf(),
            data@.len() % (BLOCK_SIZE as nat) == 0,
            old(self).spec_scanned() + data@.len() / (BLOCK_SIZE as nat) <= old(
                self,
            ).spec_nr_blocks(),
        ensures
            final(self).wf(),
            final(self).spec_nr_blocks() == old(self).spec_nr_blocks(),
            final(self).spec_interest() == old(self).spec_interest(),
            final(self).spec_scanned() == old(self).spec_scanned() + data@.len() / (BLOCK_SIZE as nat),
            final(self).spec_total_packed() == sat_add(
                old(self).spec_total_packed() as int,
                packed_bytes(old(self).spec_interest(), old(self).spec_scanned() as int, data@, (data@.len() / (BLOCK_SIZE as nat)) as int),
            ),
            forall|k: u64|
                !(old(self).spec_scanned() <= k < final(self).spec_scanned()) ==> {
                    &&& #[trigger] final(self).packed_cache().contains_key(k) == old(self).packed_cache().contains_key(k)
                    &&& old(self).packed_cache().contains_key(k) ==> final(self).packed_cache()[k] == old(self).packed_cache()[k]
                },
            forall|k: u64|
                old(self).spec_scanned() <= k < final(self).spec_scanned() ==> {
                    let d = block_at(data@, k - old(self).spec_scanned());
                    &&& #[trigger] final(self).packed_cache().contains_key(k) == is_cached_block(old(self).spec_interest(), k as int, d)
                    &&& final(self).packed_cache().contains_key(k) ==> final(self).packed_cache()[k] == packed(kind_of(d), d)
                    &&& final(self).cache().contains_key(k) ==> final(self).cache()[k] == d
                },
    {
        let ghost members = self.spec_interest();
        let ghost first = self.scanned as int;
        let ghost start = self.packed_cache();
        let ghost total0 = self.total_packed as int;
        let ghost nr0 = self.nr_blocks;
        let nb: usize = data.len() / BLOCK_SIZE;
        proof {
            assert(nb * BLOCK_SIZE == data@.len()) by (nonlinear_arith)
                requires
                    nb == data@.len() / (BLOCK_SIZE as nat),
                    data@.len() % (BLOCK_SIZE as nat) == 0,
            ;
        }
        let mut j: usize = 0;
        while j < nb
            invariant
                nb * BLOCK_SIZE == data@.len(),
                data@.len() <= usize::MAX,
                self.nr_blocks == nr0,
                self.wf(),
                nb == data@.len() / (BLOCK_SIZE as nat),
                data@.len() % (BLOCK_SIZE as nat) == 0,
                j <= nb,
                first + nb <= self.nr_blocks,
                self.scanned == first + j,
                self.total_packed == sat_add(
                    total0,
                    packed_bytes(members, first, data@, j as int),
                ),
                members == self.spec_interest(),
                forall|k: u64|
                    !(first <= k < first + j) ==> (#[trigger] self.packed_cache().contains_key(k)
                        == start.contains_key(k) && (start.contains_key(k) ==> self.packed_cache()[k] == start[k])),
                forall|k: u64|
                    first <= k < first + j ==> {
                        let d = block_at(data@, k - first);
                        &&& #[trigger] self.packed_cache().contains_key(k) == is_cached_block(
                            members,
                            k as int,
                            d,
                        )
                        &&& self.packed_cache().contains_key(k) ==> self.packed_cache()[k]
                            == packed(kind_of(d), d)
                    },
            decreases nb - j,
        {
            let k: u64 = self.scanned;
            proof {
                assert((j + 1) * BLOCK_SIZE <= nb * BLOCK_SIZE) by (nonlinear_arith)
                    requires
                        j + 1 <= nb,
                ;
                assert(j * BLOCK_SIZE + BLOCK_SIZE == (j + 1) * BLOCK_SIZE) by (nonlinear_arith);

            }
            assert(j * BLOCK_SIZE + BLOCK_SIZE <= data@.len());
            let lo: usize = j * BLOCK_SIZE;
            let hi: usize = lo + BLOCK_SIZE;
            let blk = vstd::slice::slice_subrange(data, lo, hi);
            let ghost d = block_at(data@, j as int);
            assert(blk@ == d);
            let ghost pc0 = self.packed_cache();
            let mut added: usize = 0;
            if k <= u32::MAX as u64 && bitmap_contains(&self.interest, k as u32) {
                let kind = classify(blk);
                if let BlockKind::Unknown = kind {
                } else {
                    let r = pack_block(kind, blk);
                    if let Ok(z) = r {
                        proof {
                            lemma_round_trip(kind, d);
                        }
                        added = z.len();
                        let ghost zv = z@;
                        self.compressed.insert(k, z);
                        assert(self.packed_cache() =~= pc0.insert(k, zv));
                    }
                }
            }
            proof {
                if added == 0 {
                    assert(self.packed_cache() =~= pc0);
                    assert(!is_cached_block(members, k as int, d));
                } else {
                    assert(is_cached_block(members, k as int, d));
                }
                assert(packed_bytes(members, first, data@, j + 1) == packed_bytes(
                    members,
                    first,
                    data@,
                    j as int,
                ) + added);
            }
            self.total_packed = self.total_packed.saturating_add(added as u64);
            self.scanned = k + 1;
            j += 1;
        }
        assert forall|k: u64|
            first <= k < self.scanned && #[trigger] self.cache().contains_key(k) implies self.cache()[k]
            == block_at(data@, k - first) by {
            let d = block_at(data@, k - first);
            assert(self.packed_cache().contains_key(k));
            assert(self.packed_cache()[k] == packed(kind_of(d), d));
            lemma_round_trip(kind_of(d), d);
        }
    }
}

/// A read-only engine that serves metadata blocks from a compressed in-memory
/// cache, filled by one sequential scan of the device.
pub struct SpindleIoEngine {
    nr_blocks: u64,
    compressed: BTreeMap<u64, Vec<u8>>,
}

/// Whether `r` is what reading block `loc` from an engine whose cache holds
/// `cache` gives: the cached bytes at `loc`, or `Unavailable` where the cache
/// has no entry for it.
pub open spec fn read_result(
    cache: Map<u64, Seq<u8>>,
    loc: u64,
    r: Result<Block, EngineError>,
) -> bool {
    match r {
        Ok(b) => cache.contains_key(loc) && b.loc == loc && b.data@ == cache[loc] && b.wf(),
        Err(e) => !cache.contains_key(loc) && e == EngineError::Unavailable,
    }
}

impl SpindleScan {
    /// The bytes of the blocks kept so far, by block number.
    pub closed spec fn cache(&self) -> Map<u64, Seq<u8>> {
        Map::new(|k: u64| self.compressed@.contains_key(k), |k: u64| unpacked(self.compressed@[k]@))
    }

    /// Ends the scan. The engine serves exactly the blocks kept, each as the
    /// bytes its packed form stands for; each is below the block count, in
    /// the interest set, and of known kind.
    pub fn finish(self) -> (e: SpindleIoEngine)
        requires
            self.wf(),
        ensures
            e.wf(),
            e.spec_nr_blocks() == self.spec_nr_blocks(),
            e.cache() == self.cache(),
            forall|k: u64| #[trigger]
                e.cache().contains_key(k) == self.packed_cache().contains_key(k),
            forall|k: u64| #[trigger]
                e.cache().contains_key(k) ==> e.cache()[k] == unpacked(self.packed_cache()[k]),
            forall|k: u64| #[trigger]
                e.cache().contains_key(k) ==> k < e.spec_nr_blocks() && is_cached_block(
                    self.spec_interest(),
                    k as int,
                    e.cache()[k],
                ),
    {
        let e = SpindleIoEngine { nr_blocks: self.nr_blocks, compressed: self.compressed };
        assert(e.cache() =~= self.cache());
        e
    }
}

impl SpindleIoEngine {
    /// The blocks that the engine serves, by block number.
    pub closed spec fn cache(&self) -> Map<u64, Seq<u8>> {
        Map::new(|k: u64| self.compressed@.contains_key(k), |k: u64| unpacked(self.compressed@[k]@))
    }

    /// The number of blocks on the device.
    pub closed spec fn spec_nr_blocks(&self) -> u64 {
        self.nr_blocks
    }

    /// Every entry is below the block count and is the packed form of a
    /// whole block of known kind.
    pub closed spec fn wf(&self) -> bool {
        forall|k: u64| #[trigger]
            self.compressed@.contains_key(k) ==> k < self.nr_blocks && is_packed_block(
                self.compressed@[k]@,
            )
    }

    /// Every block that the engine serves is below the block count,
    /// `BLOCK_SIZE` bytes long and of known kind.
    pub proof fn lemma_cached_blocks_known(&self)
        requires
            self.wf(),
        ensures
            forall|k: u64| #[trigger]
                self.cache().contains_key(k) ==> k < self.spec_nr_blocks() && self.cache()[k].len()
                    == BLOCK_SIZE && kind_of(self.cache()[k]) != BlockKind::Unknown,
    {
    }

    /// The number of blocks on the device.
    pub fn get_nr_blocks(&self) -> (r: u64)
        ensures
            r == self.spec_nr_blocks(),
    {
        self.nr_blocks
    }

    /// The number of blocks the engine prefers per batched call: one, since a
    /// cache lookup gains nothing from batching.
    pub fn get_batch_size(&self) -> (r: usize)
        ensures
            r == 1,
    {
        1
    }

    /// Reads block `loc` from the cache.
    pub fn read_(&self, loc: u64) -> (r: Result<Block, EngineError>)
        requires
            self.wf(),
        ensures
            read_result(self.cache(), loc, r),
            loc >= self.spec_nr_blocks() ==> r is Err,
    {
        match self.compressed.get(&loc) {
            Some(z) => {
                match unpack_block(z.as_slice(), loc) {
                    Ok(b) => Ok(b),
                    Err(_) => Err(EngineError::Corrupt),
                }
            },
            None => Err(EngineError::Unavailable),
        }
    }

    /// Reads block `loc`: its cached bytes, or `Unavailable` where it is not
    /// cached.
    pub fn read(&self, loc: u64) -> (r: Result<Block, EngineError>)
        requires
            self.wf(),
        ensures
            read_result(self.cache(), loc, r),
            loc >= self.spec_nr_blocks() ==> r is Err,
    {
        self.read_(loc)
    }

    /// Reads each of `locs`, one result per location, in the same order; one
    /// failing read does not stop the others.
    pub fn read_many(&self, locs: &[u64]) -> (r: Result<Vec<Result<Block, EngineError>>, EngineError>)
        requires
            self.wf(),
        ensures
            r matches Ok(v) && v@.len() == locs@.len() && forall|i: int|
                0 <= i < locs@.len() ==> read_result(self.cache(), locs@[i], #[trigger] v@[i]),
    {
        let mut bs: Vec<Result<Block, EngineError>> = Vec::new();
        let mut i: usize = 0;
        while i < locs.len()
            invariant
                self.wf(),
                i <= locs@.len(),
                bs@.len() == i,
                forall|j: int| 0 <= j < i ==> read_result(self.cache(), locs@[j], #[trigger] bs@[j]),
            decreases locs@.len() - i,
        {
            bs.push(self.read_(locs[i]));
            i += 1;
        }
        Ok(bs)
    }

    /// Writing is not supported: always `Unsupported`.
    pub fn write(&self, _b: &Block) -> (r: Result<(), EngineError>)
        ensures
            r == Err::<(), EngineError>(EngineError::Unsupported),
    {
        Err(EngineError::Unsupported)
    }

    /// Writing is not supported: always `Unsupported`.
    pub fn write_many(&self, _blocks: &[Block]) -> (r: Result<Vec<Result<(), EngineError>>, EngineError>)
        ensures
            r matches Err(e) && e == EngineError::Unsupported,
    {
        Err(EngineError::Unsupported)
    }
}

/// Reads are idempotent: two reads of the same location from one engine give
/// the same outcome, and when they succeed, the same location and bytes.
pub proof fn lemma_read_idempotent(
    e: &SpindleIoEngine,
    loc: u64,
    r1: Result<Block, EngineError>,
    r2: Result<Block, EngineError>,
)
    requires
        e.wf(),
        read_result(e.cache(), loc, r1),
        read_result(e.cache(), loc, r2),
    ensures
        r1 is Ok <==> r2 is Ok,
        r1 matches Ok(b1) ==> r2 matches Ok(b2) && b1.loc == b2.loc && b1.data@ == b2.data@,
        r1 matches Err(x1) ==> r2 matches Err(x2) && x1 == x2,
{
}

} // verus!
