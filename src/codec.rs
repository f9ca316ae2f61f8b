use vstd::prelude::*;

use crate::block::{Block, BLOCK_SIZE};
use crate::classify::BlockKind;

verus! {

/// The longest run of equal bytes that one pair of the packed form holds.
pub const MAX_RUN: usize = 255;

/// Why a block could not be packed or unpacked.
#[derive(Clone, Copy, Debug, PartialEq, Eq, Structural)]
pub enum CodecError {
    /// Packing was asked of a block of unknown kind.
    UnknownKind,
    /// The packed bytes do not describe a block.
    Malformed,
}

/// Added to the leading byte of a packed form that holds the block's bytes
/// as they are, where the runs would take more room.
pub const RAW_FLAG: u8 = 128;

/// The packer that blocks of kind `k` go to, named by the leading byte of
/// their packed form: one for the three superblock kinds, one for each other
/// known kind, and 0 for `Unknown`, which is never packed.
pub open spec fn kind_tag(k: BlockKind) -> u8 {
    match k {
        BlockKind::ThinSuperblock => 1,
        BlockKind::CacheSuperblock => 1,
        BlockKind::EraSuperblock => 1,
        BlockKind::Node => 2,
        BlockKind::Index => 3,
        BlockKind::Bitmap => 4,
        BlockKind::Array => 5,
        BlockKind::Unknown => 0,
    }
}

/// Whether `t` names a packer.
pub open spec fn known_tag(t: u8) -> bool {
    1 <= t <= 5
}

/// `n` copies of `v`.
pub open spec fn repeat(v: u8, n: nat) -> Seq<u8> {
    Seq::new(n, |_i: int| v)
}

/// The bytes that a sequence of (count, byte) pairs stands for.
pub open spec fn expand(z: Seq<u8>) -> Seq<u8>
    decreases z.len(),
{
    if z.len() < 2 {
        seq![]
    } else {
        repeat(z[1], z[0] as nat) + expand(z.subrange(2, z.len() as int))
    }
}

/// The end of the run of bytes equal to `v` that goes on from `j`, stopping
/// at `lim`.
pub open spec fn run_end(s: Seq<u8>, v: u8, j: int, lim: int) -> int
    decreases lim - j,
{
    if j < lim && j < s.len() && s[j] == v {
        run_end(s, v, j + 1, lim)
    } else {
        j
    }
}

/// The end of the run that starts at `i`: at most `MAX_RUN` equal bytes.
pub open spec fn run_stop(s: Seq<u8>, i: int) -> int {
    let lim = if s.len() < i + MAX_RUN { s.len() as int } else { i + MAX_RUN };
    run_end(s, s[i], i + 1, lim)
}

/// The (count, byte) pairs of `s` from position `i` on: each pair holds the
/// longest run of equal bytes there, up to `MAX_RUN`.
pub open spec fn runs_from(s: Seq<u8>, i: int) -> Seq<u8>
    decreases s.len() - i,
{
    if i < 0 || i >= s.len() {
        seq![]
    } else {
        let e = run_stop(s, i);
        if i < e <= s.len() {
            seq![(e - i) as u8, s[i]] + runs_from(s, e)
        } else {
            seq![]
        }
    }
}

/// The packed form of a block of kind `k` with bytes `data`: the packer's
/// byte, then the runs as (count, byte) pairs; or, where those pairs would
/// not be shorter than the block, the packer's byte plus `RAW_FLAG`, then the
/// bytes as they are.
pub open spec fn packed(k: BlockKind, data: Seq<u8>) -> Seq<u8> {
    if runs_from(data, 0).len() < data.len() {
        seq![kind_tag(k)] + runs_from(data, 0)
    } else {
        seq![(kind_tag(k) + RAW_FLAG) as u8] + data
    }
}

/// What follows the leading byte of a packed form.
pub open spec fn packed_body(z: Seq<u8>) -> Seq<u8> {
    z.subrange(1, z.len() as int)
}

/// Whether `z` is the packed form of some block: a leading byte that names a
/// packer, then either `BLOCK_SIZE` bytes as they are or whole pairs that
/// stand for exactly `BLOCK_SIZE` bytes.
pub open spec fn valid_packed(z: Seq<u8>) -> bool {
    &&& z.len() >= 1
    &&& if z[0] >= RAW_FLAG {
        &&& known_tag((z[0] - RAW_FLAG) as u8)
        &&& z.len() - 1 == BLOCK_SIZE
    } else {
        &&& known_tag(z[0])
        &&& (z.len() - 1) % 2 == 0
        &&& expand(packed_body(z)).len() == BLOCK_SIZE
    }
}

/// The block bytes that a packed form stands for.
pub open spec fn unpacked(z: Seq<u8>) -> Seq<u8> {
    if z[0] >= RAW_FLAG {
        packed_body(z)
    } else {
        expand(packed_body(z))
    }
}

proof fn lemma_run_end(s: Seq<u8>, v: u8, j: int, lim: int)
    requires
        lim <= s.len(),
    ensures
        j <= run_end(s, v, j, lim),
        j <= lim ==> run_end(s, v, j, lim) <= lim,
        forall|k: int| j <= k < run_end(s, v, j, lim) ==> s[k] == v,
    decreases lim - j,
{
    if j < lim && j < s.len() && s[j] == v {
        lemma_run_end(s, v, j + 1, lim);
    }
}

proof fn lemma_run_stop(s: Seq<u8>, i: int)
    requires
        0 <= i < s.len(),
    ensures
        i < run_stop(s, i) <= s.len(),
        run_stop(s, i) - i <= MAX_RUN,
        forall|k: int| i <= k < run_stop(s, i) ==> s[k] == s[i],
{
    let lim = if s.len() < i + MAX_RUN { s.len() as int } else { i + MAX_RUN };
    lemma_run_end(s, s[i], i + 1, lim);
}

/// Expanding the pairs of `s` from `i` on gives back the bytes of `s` from `i` on.
pub proof fn lemma_expand_runs(s: Seq<u8>, i: int)
    requires
        0 <= i <= s.len(),
    ensures
        expand(runs_from(s, i)) == s.subrange(i, s.len() as int),
        runs_from(s, i).len() % 2 == 0,
    decreases s.len() - i,
{
    if i < s.len() {
        let e = run_stop(s, i);
        lemma_run_stop(s, i);
        lemma_expand_runs(s, e);
        let r = runs_from(s, e);
        let z = seq![(e - i) as u8, s[i]] + r;
        assert(z.subrange(2, z.len() as int) =~= r);
        assert(repeat(s[i], (e - i) as nat) + s.subrange(e, s.len() as int) =~= s.subrange(
            i,
            s.len() as int,
        ));
    } else {
        assert(s.subrange(i, s.len() as int) =~= seq![]);
    }
}

/// Round trip: for every known kind and every block of `BLOCK_SIZE` bytes,
/// the packed form is valid and unpacks to exactly the bytes that were packed.
pub proof fn lemma_round_trip(k: BlockKind, data: Seq<u8>)
    requires
        k != BlockKind::Unknown,
        data.len() == BLOCK_SIZE,
    ensures
        valid_packed(packed(k, data)),
        unpacked(packed(k, data)) == data,
{
    lemma_expand_runs(data, 0);
    let z = packed(k, data);
    if runs_from(data, 0).len() < data.len() {
        assert(packed_body(z) =~= runs_from(data, 0));
    } else {
        assert(packed_body(z) =~= data);
    }
    assert(data.subrange(0, data.len() as int) =~= data);
}

/// The three superblock kinds go to one packer: a buffer packs to the same
/// bytes whichever of them it is given as.
pub proof fn lemma_superblocks_pack_alike(data: Seq<u8>)
    ensures
        packed(BlockKind::ThinSuperblock, data) == packed(BlockKind::CacheSuperblock, data),
        packed(BlockKind::ThinSuperblock, data) == packed(BlockKind::EraSuperblock, data),
{
}

/// The leading byte for kind `k`.
pub fn tag_for_kind(k: BlockKind) -> (r: u8)
    ensures
        r == kind_tag(k),
{
    match k {
        BlockKind::ThinSuperblock => 1,
        BlockKind::CacheSuperblock => 1,
        BlockKind::EraSuperblock => 1,
        BlockKind::Node => 2,
        BlockKind::Index => 3,
        BlockKind::Bitmap => 4,
        BlockKind::Array => 5,
        BlockKind::Unknown => 0,
    }
}

/// Packs the bytes of a block of kind `kind`: the leading byte of its
/// packer, then the runs of equal bytes as (count, byte) pairs, or the bytes
/// as they are where the pairs would not be shorter. The three superblock
/// kinds share one packer, so they pack alike. A block of unknown kind is
/// refused. The packed form is never more than one byte longer than `buf`.
pub fn pack_block(kind: BlockKind, buf: &[u8]) -> (r: Result<Vec<u8>, CodecError>)
    ensures
        r is Err <==> kind == BlockKind::Unknown,
        r matches Ok(z) ==> z@ == packed(kind, buf@),
        r matches Ok(z) ==> z@.len() <= buf@.len() + 1,
        r matches Err(e) ==> e == CodecError::UnknownKind,
{
    if let BlockKind::Unknown = kind {
        return Err(CodecError::UnknownKind);
    }
    let tag = tag_for_kind(kind);
    let n = buf.len();
    let mut out: Vec<u8> = Vec::new();
    out.push(tag);
    let mut i: usize = 0;
    while i < n
        invariant
            i <= n,
            n == buf@.len(),
            tag == kind_tag(kind),
            out@ + runs_from(buf@, i as int) == seq![kind_tag(kind)] + runs_from(buf@, 0),
        decreases n - i,
    {
        let v = buf[i];
        let lim: usize = if n - i < MAX_RUN {
            n
        } else {
            i + MAX_RUN
        };
        let mut j: usize = i + 1;
        while j < lim && buf[j] == v
            invariant
                i < j <= lim,
                lim <= n,
                n == buf@.len(),
                v == buf@[i as int],
                lim == (if buf@.len() < i + MAX_RUN {
                    buf@.len() as int
                } else {
                    i + MAX_RUN
                }),
                run_end(buf@, v, j as int, lim as int) == run_stop(buf@, i as int),
            decreases lim - j,
        {
            j += 1;
        }
        proof {
            lemma_run_stop(buf@, i as int);
        }
        let ghost before = out@;
        out.push((j - i) as u8);
        out.push(v);
        proof {
            assert(out@ + runs_from(buf@, j as int) =~= before + runs_from(buf@, i as int));
        }
        i = j;
    }
    assert(out@ + runs_from(buf@, n as int) =~= out@);
    if out.len() - 1 < n {
        return Ok(out);
    }
    let mut raw: Vec<u8> = Vec::new();
    raw.push(tag + RAW_FLAG);
    let mut p: usize = 0;
    while p < n
        invariant
            p <= n,
            n == buf@.len(),
            raw@ == seq![(kind_tag(kind) + RAW_FLAG) as u8] + buf@.subrange(0, p as int),
        decreases n - p,
    {
        raw.push(buf[p]);
        p += 1;
        assert(raw@ =~= seq![(kind_tag(kind) + RAW_FLAG) as u8] + buf@.subrange(0, p as int));
    }
    assert(buf@.subrange(0, n as int) =~= buf@);
    Ok(raw)
}

/// Rebuilds the block at `loc` from its packed form. Fails exactly when `z`
/// is not a valid packed form.
pub fn unpack_block(z: &[u8], loc: u64) -> (r: Result<Block, CodecError>)
    ensures
        r is Ok <==> valid_packed(z@),
        r matches Ok(b) ==> b.loc == loc && b.data@ == unpacked(z@),
        r matches Err(e) ==> e == CodecError::Malformed,
{
    let len = z.len();
    if len == 0 {
        return Err(CodecError::Malformed);
    }
    let t = z[0];
    let raw = t >= RAW_FLAG;
    let base: u8 = if raw {
        t - RAW_FLAG
    } else {
        t
    };
    if base < 1 || base > 5 {
        return Err(CodecError::Malformed);
    }
    if raw {
        if len - 1 != BLOCK_SIZE {
            return Err(CodecError::Malformed);
        }
        let mut bytes: Vec<u8> = Vec::new();
        let mut q: usize = 1;
        while q < len
            invariant
                1 <= q <= len,
                len == z@.len(),
                bytes@ == z@.subrange(1, q as int),
            decreases len - q,
        {
            bytes.push(z[q]);
            q += 1;
            assert(bytes@ =~= z@.subrange(1, q as int));
        }
        return Ok(Block { loc, data: bytes });
    }
    if (len - 1) % 2 != 0 {
        return Err(CodecError::Malformed);
    }
    let mut data: Vec<u8> = Vec::new();
    let mut p: usize = 1;
    while p < len
        invariant
            1 <= p <= len,
            len == z@.len(),
            (len - p) % 2 == 0,
            data@.len() <= BLOCK_SIZE,
            z@[0] < RAW_FLAG,
            data@ + expand(z@.subrange(p as int, len as int)) == expand(packed_body(z@)),
        decreases len - p,
    {
        let c = z[p];
        let v = z[p + 1];
        let ghost rest = z@.subrange(p as int, len as int);
        proof {
            assert(rest.subrange(2, rest.len() as int) =~= z@.subrange(p + 2, len as int));
        }
        if data.len() + (c as usize) > BLOCK_SIZE {
            return Err(CodecError::Malformed);
        }
        let ghost d0 = data@;
        let mut k: u8 = 0;
        while k < c
            invariant
                k <= c,
                data@ == d0 + repeat(v, k as nat),
            decreases c - k,
        {
            data.push(v);
            k += 1;
            assert(data@ =~= d0 + repeat(v, k as nat));
        }
        proof {
            assert(d0 + expand(rest) =~= data@ + expand(z@.subrange(p + 2, len as int)));
        }
        p += 2;
    }
    assert(z@.subrange(len as int, len as int) =~= seq![]);
    assert(data@ + seq![] =~= data@);
    if data.len() != BLOCK_SIZE {
        return Err(CodecError::Malformed);
    }
    Ok(Block { loc, data })
}

} // verus!
