use vstd::prelude::*;

use crate::block::BLOCK_SIZE;

verus! {

/// The structural kinds of metadata block.
#[derive(Clone, Copy, Debug, PartialEq, Eq, Structural)]
pub enum BlockKind {
    ThinSuperblock,
    CacheSuperblock,
    EraSuperblock,
    Node,
    Index,
    Bitmap,
    Array,
    Unknown,
}

/// Salt xored into the checksum of a thin-pool superblock.
pub const THIN_SUPERBLOCK_CSUM_XOR: u32 = 160774;
/// Salt xored into the checksum of a cache superblock.
pub const CACHE_SUPERBLOCK_CSUM_XOR: u32 = 9031977;
/// Salt xored into the checksum of an era superblock.
pub const ERA_SUPERBLOCK_CSUM_XOR: u32 = 146538381;
/// Salt xored into the checksum of a btree node.
pub const BTREE_CSUM_XOR: u32 = 121107;
/// Salt xored into the checksum of a space map bitmap.
pub const BITMAP_CSUM_XOR: u32 = 240779;
/// Salt xored into the checksum of a space map index.
pub const INDEX_CSUM_XOR: u32 = 160478;
/// Salt xored into the checksum of an array block.
pub const ARRAY_CSUM_XOR: u32 = 595846735;

/// The CRC-32C of a byte sequence.
pub uninterp spec fn crc32c_of(data: Seq<u8>) -> u32;

/// Relies on crc32c::crc32c: the CRC-32C (Castagnoli) of the bytes after the
/// four-byte checksum field.
#[verifier::external_body]
fn crc_after_header(data: &[u8]) -> (r: u32)
    requires
        data@.len() >= 4,
    ensures
        r == crc32c_of(data@.subrange(4, data@.len() as int)),
{
    crc32c::crc32c(&data[4..])
}

/// A little-endian `u32` from four bytes.
pub open spec fn le_u32(b0: u8, b1: u8, b2: u8, b3: u8) -> u32 {
    (b0 as int + 256 * (b1 as int) + 65536 * (b2 as int) + 16777216 * (b3 as int)) as u32
}

/// The kind that a block-type salt stands for.
pub open spec fn kind_of_salt(t: u32) -> BlockKind {
    if t == THIN_SUPERBLOCK_CSUM_XOR {
        BlockKind::ThinSuperblock
    } else if t == CACHE_SUPERBLOCK_CSUM_XOR {
        BlockKind::CacheSuperblock
    } else if t == ERA_SUPERBLOCK_CSUM_XOR {
        BlockKind::EraSuperblock
    } else if t == BTREE_CSUM_XOR {
        BlockKind::Node
    } else if t == BITMAP_CSUM_XOR {
        BlockKind::Bitmap
    } else if t == INDEX_CSUM_XOR {
        BlockKind::Index
    } else if t == ARRAY_CSUM_XOR {
        BlockKind::Array
    } else {
        BlockKind::Unknown
    }
}

/// The salt recovered from a block: the stored checksum xored with the
/// checksum computed over the rest of the block.
pub open spec fn block_salt(data: Seq<u8>) -> u32 {
    le_u32(data[0], data[1], data[2], data[3]) ^ (crc32c_of(data.subrange(4, data.len() as int))
        ^ 0xffff_ffffu32)
}

/// The kind of a block, as read from its bytes.
pub open spec fn kind_of(data: Seq<u8>) -> BlockKind {
    if data.len() != BLOCK_SIZE {
        BlockKind::Unknown
    } else {
        kind_of_salt(block_salt(data))
    }
}

/// The kind that a salt names.
pub fn kind_for_salt(t: u32) -> (r: BlockKind)
    ensures
        r == kind_of_salt(t),
{
    if t == THIN_SUPERBLOCK_CSUM_XOR {
        BlockKind::ThinSuperblock
    } else if t == CACHE_SUPERBLOCK_CSUM_XOR {
        BlockKind::CacheSuperblock
    } else if t == ERA_SUPERBLOCK_CSUM_XOR {
        BlockKind::EraSuperblock
    } else if t == BTREE_CSUM_XOR {
        BlockKind::Node
    } else if t == BITMAP_CSUM_XOR {
        BlockKind::Bitmap
    } else if t == INDEX_CSUM_XOR {
        BlockKind::Index
    } else if t == ARRAY_CSUM_XOR {
        BlockKind::Array
    } else {
        BlockKind::Unknown
    }
}

/// Determines the kind of a metadata block from its bytes. Any input is
/// accepted; one that is not `BLOCK_SIZE` long, or whose checksum matches no
/// known salt, is `Unknown`.
pub fn classify(data: &[u8]) -> (r: BlockKind)
    ensures
        r == kind_of(data@),
{
    if data.len() != BLOCK_SIZE {
        return BlockKind::Unknown;
    }
    let on_disk: u32 = data[0] as u32 + 256 * (data[1] as u32) + 65536 * (data[2] as u32)
        + 16777216 * (data[3] as u32);
    let csum: u32 = crc_after_header(data) ^ 0xffff_ffffu32;
    kind_for_salt(on_disk ^ csum)
}

/// The checksum field that makes `data` a block of the kind named by `salt`:
/// the CRC-32C of the bytes after the field, inverted, xored with the salt.
pub fn block_checksum(data: &[u8], salt: u32) -> (r: u32)
    requires
        data@.len() >= 4,
    ensures
        r == (crc32c_of(data@.subrange(4, data@.len() as int)) ^ 0xffff_ffffu32) ^ salt,
{
    (crc_after_header(data) ^ 0xffff_ffffu32) ^ salt
}

} // verus!
