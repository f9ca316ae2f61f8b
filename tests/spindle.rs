use roaring::RoaringBitmap;
use thinp_spindle::block::{Block, BLOCK_SIZE};
use thinp_spindle::classify::{
    block_checksum, classify, BlockKind, ARRAY_CSUM_XOR, BITMAP_CSUM_XOR, BTREE_CSUM_XOR,
    CACHE_SUPERBLOCK_CSUM_XOR, ERA_SUPERBLOCK_CSUM_XOR, INDEX_CSUM_XOR, THIN_SUPERBLOCK_CSUM_XOR,
};
use thinp_spindle::codec::{pack_block, unpack_block, CodecError};
use thinp_spindle::commands::{
    EraCheckCommand, EraRepairCommand, ThinMetadataSizeCommand, ThinRestoreCommand,
};
use thinp_spindle::spindle::{EngineError, SpindleIoEngine, SpindleScan};

fn noise(seed: u32, len: usize) -> Vec<u8> {
    let mut x = seed;
    let mut v = Vec::with_capacity(len);
    for _ in 0..len {
        x = x.wrapping_mul(1664525).wrapping_add(1013904223);
        v.push((x >> 24) as u8);
    }
    v
}

fn stamp(data: &mut Vec<u8>, salt: u32) {
    let c = block_checksum(data, salt);
    data[0..4].copy_from_slice(&c.to_le_bytes());
}

fn superblock() -> Vec<u8> {
    let mut d = vec![0u8; BLOCK_SIZE];
    for (i, b) in d.iter_mut().enumerate().take(200).skip(4) {
        *b = (i % 7) as u8;
    }
    stamp(&mut d, THIN_SUPERBLOCK_CSUM_XOR);
    d
}

fn btree_node() -> Vec<u8> {
    let mut d = vec![0u8; BLOCK_SIZE];
    for i in 32..BLOCK_SIZE {
        d[i] = if (i / 8) % 3 == 0 { (i / 8) as u8 } else { 0 };
    }
    stamp(&mut d, BTREE_CSUM_XOR);
    d
}

fn engine_of(blocks: &[Vec<u8>], interest: &[u32]) -> (SpindleIoEngine, u64) {
    let mut set = RoaringBitmap::new();
    for b in interest {
        set.insert(*b);
    }
    let mut scan = SpindleScan::new(blocks.len() as u64, set);
    let mut data = Vec::new();
    for b in blocks {
        data.extend_from_slice(b);
    }
    scan.scan_chunk(&data);
    let total = scan.get_total_packed();
    (scan.finish(), total)
}

#[test]
fn crc_known_value_gives_checksum() {
    let mut d = vec![0u8; 4];
    d.extend_from_slice(b"123456789");
    assert_eq!(block_checksum(&d, 0), 0xE306_9283u32 ^ 0xffff_ffff);
    assert_eq!(block_checksum(&d, 5), (0xE306_9283u32 ^ 0xffff_ffff) ^ 5);
}

#[test]
fn classify_all_zero_is_unknown() {
    assert_eq!(classify(&vec![0u8; BLOCK_SIZE]), BlockKind::Unknown);
}

#[test]
fn classify_noise_is_unknown() {
    for seed in 0..20 {
        assert_eq!(classify(&noise(seed, BLOCK_SIZE)), BlockKind::Unknown);
    }
}

#[test]
fn classify_wrong_length_is_unknown() {
    let mut d = superblock();
    d.push(0);
    assert_eq!(classify(&d), BlockKind::Unknown);
    assert_eq!(classify(&[]), BlockKind::Unknown);
    assert_eq!(classify(&[1, 2, 3]), BlockKind::Unknown);
}

#[test]
fn classify_each_known_kind() {
    let cases = [
        (THIN_SUPERBLOCK_CSUM_XOR, BlockKind::ThinSuperblock),
        (CACHE_SUPERBLOCK_CSUM_XOR, BlockKind::CacheSuperblock),
        (ERA_SUPERBLOCK_CSUM_XOR, BlockKind::EraSuperblock),
        (BTREE_CSUM_XOR, BlockKind::Node),
        (INDEX_CSUM_XOR, BlockKind::Index),
        (BITMAP_CSUM_XOR, BlockKind::Bitmap),
        (ARRAY_CSUM_XOR, BlockKind::Array),
    ];
    for (salt, kind) in cases {
        let mut d = noise(salt, BLOCK_SIZE);
        stamp(&mut d, salt);
        assert_eq!(classify(&d), kind);
        d[100] ^= 1;
        assert_eq!(classify(&d), BlockKind::Unknown);
    }
}

#[test]
fn round_trip_every_kind() {
    let kinds = [
        BlockKind::ThinSuperblock,
        BlockKind::CacheSuperblock,
        BlockKind::EraSuperblock,
        BlockKind::Node,
        BlockKind::Index,
        BlockKind::Bitmap,
        BlockKind::Array,
    ];
    let samples = vec![superblock(), btree_node(), noise(7, BLOCK_SIZE), vec![0u8; BLOCK_SIZE], vec![0xffu8; BLOCK_SIZE]];
    for kind in kinds {
        for s in &samples {
            let z = pack_block(kind, s).unwrap();
            for loc in [0u64, 1, 12345, u64::MAX] {
                let b = unpack_block(&z, loc).unwrap();
                assert_eq!(b.loc, loc);
                assert_eq!(&b.data, s);
            }
        }
    }
}

#[test]
fn pack_zero_block_exact() {
    let z = pack_block(BlockKind::Node, &vec![0u8; BLOCK_SIZE]).unwrap();
    let mut expected = vec![2u8];
    for _ in 0..16 {
        expected.push(255);
        expected.push(0);
    }
    expected.push(16);
    expected.push(0);
    assert_eq!(z, expected);
}

#[test]
fn pack_shrinks_structured_blocks() {
    let z = pack_block(BlockKind::Node, &btree_node()).unwrap();
    assert!(z.len() < BLOCK_SIZE);
    let z = pack_block(BlockKind::ThinSuperblock, &superblock()).unwrap();
    assert!(z.len() < BLOCK_SIZE / 4);
}

#[test]
fn pack_unknown_refused() {
    assert_eq!(pack_block(BlockKind::Unknown, &superblock()), Err(CodecError::UnknownKind));
}

#[test]
fn unpack_malformed_refused() {
    assert!(matches!(unpack_block(&[], 0), Err(CodecError::Malformed)));
    // unknown leading byte
    assert!(matches!(unpack_block(&[0, 16, 0], 0), Err(CodecError::Malformed)));
    assert!(matches!(unpack_block(&[9, 16, 0], 0), Err(CodecError::Malformed)));
    // a dangling count
    let mut z = pack_block(BlockKind::Array, &vec![0u8; BLOCK_SIZE]).unwrap();
    z.push(3);
    assert!(matches!(unpack_block(&z, 0), Err(CodecError::Malformed)));
    // too short
    let z = vec![5u8, 255, 1];
    assert!(matches!(unpack_block(&z, 0), Err(CodecError::Malformed)));
    // too long
    let mut z = pack_block(BlockKind::Array, &vec![0u8; BLOCK_SIZE]).unwrap();
    z.push(1);
    z.push(0);
    assert!(matches!(unpack_block(&z, 0), Err(CodecError::Malformed)));
}

#[test]
fn three_block_scenario() {
    let blocks = vec![superblock(), noise(99, BLOCK_SIZE), btree_node()];
    let (e, _) = engine_of(&blocks, &[0, 2]);
    assert_eq!(e.get_nr_blocks(), 3);
    let b0 = e.read(0).unwrap();
    assert_eq!(b0.loc, 0);
    assert_eq!(b0.data, blocks[0]);
    let b2 = e.read(2).unwrap();
    assert_eq!(b2.loc, 2);
    assert_eq!(b2.data, blocks[2]);
    assert!(matches!(e.read(1), Err(EngineError::Unavailable)));
}

#[test]
fn unknown_block_in_interest_not_cached() {
    let blocks = vec![superblock(), noise(3, BLOCK_SIZE), btree_node()];
    let (e, _) = engine_of(&blocks, &[0, 1, 2]);
    assert!(e.read(0).is_ok());
    assert!(matches!(e.read(1), Err(EngineError::Unavailable)));
    assert!(e.read(2).is_ok());
}

#[test]
fn blocks_outside_interest_not_cached() {
    let blocks = vec![superblock(), btree_node(), btree_node()];
    let (e, _) = engine_of(&blocks, &[1]);
    assert!(matches!(e.read(0), Err(EngineError::Unavailable)));
    assert_eq!(e.read(1).unwrap().data, blocks[1]);
    assert!(matches!(e.read(2), Err(EngineError::Unavailable)));
    assert!(matches!(e.read(3), Err(EngineError::Unavailable)));
    assert!(matches!(e.read(u64::MAX), Err(EngineError::Unavailable)));
}

#[test]
fn total_packed_counts_cached_blocks() {
    let blocks = vec![vec![0u8; BLOCK_SIZE], superblock()];
    let (_, total) = engine_of(&blocks, &[0, 1]);
    let z = pack_block(BlockKind::ThinSuperblock, &blocks[1]).unwrap();
    assert_eq!(total, z.len() as u64);
}

#[test]
fn scan_in_several_chunks() {
    let mut set = RoaringBitmap::new();
    set.insert(0);
    set.insert(3);
    let mut scan = SpindleScan::new(4, set);
    let mut first = superblock();
    first.extend_from_slice(&noise(1, BLOCK_SIZE));
    scan.scan_chunk(&first);
    assert_eq!(scan.get_scanned(), 2);
    let mut second = btree_node();
    second.extend_from_slice(&btree_node());
    scan.scan_chunk(&second);
    assert_eq!(scan.get_scanned(), 4);
    let e = scan.finish();
    assert_eq!(e.read(0).unwrap().data, superblock());
    assert!(e.read(2).is_err());
    assert_eq!(e.read(3).unwrap().data, btree_node());
}

#[test]
fn repeated_reads_identical() {
    let blocks = vec![superblock(), btree_node()];
    let (e, _) = engine_of(&blocks, &[0, 1]);
    let a = e.read(1).unwrap();
    let b = e.read(1).unwrap();
    assert_eq!(a.loc, b.loc);
    assert_eq!(a.data, b.data);
}

#[test]
fn read_many_alignment() {
    let blocks = vec![superblock(), noise(5, BLOCK_SIZE), btree_node()];
    let (e, _) = engine_of(&blocks, &[0, 2]);
    let rs = e.read_many(&[2, 1, 0, 7, 2]).unwrap();
    assert_eq!(rs.len(), 5);
    assert_eq!(rs[0].as_ref().unwrap().data, blocks[2]);
    assert!(matches!(rs[1], Err(EngineError::Unavailable)));
    assert_eq!(rs[2].as_ref().unwrap().data, blocks[0]);
    assert!(matches!(rs[3], Err(EngineError::Unavailable)));
    assert_eq!(rs[4].as_ref().unwrap().loc, 2);
    assert!(e.read_many(&[]).unwrap().is_empty());
}

#[test]
fn writes_rejected() {
    let blocks = vec![superblock()];
    let (e, _) = engine_of(&blocks, &[0]);
    let mut b = e.read(0).unwrap();
    b.data[10] ^= 0xff;
    assert!(matches!(e.write(&b), Err(EngineError::Unsupported)));
    assert!(matches!(e.write_many(&[b]), Err(EngineError::Unsupported)));
    assert_eq!(e.read(0).unwrap().data, blocks[0]);
    assert_eq!(e.get_batch_size(), 1);
}

#[test]
fn new_block_is_zeroed() {
    let b = Block::new(42);
    assert_eq!(b.get_location(), 42);
    assert_eq!(b.data, vec![0u8; BLOCK_SIZE]);
}

#[test]
fn command_names_and_data_blocks() {
    assert_eq!(EraCheckCommand.name(), "era_check");
    assert_eq!(EraRepairCommand.name(), "era_repair");
    assert_eq!(ThinRestoreCommand.name(), "thin_restore");
    let c = ThinMetadataSizeCommand;
    assert_eq!(c.name(), "thin_metadata_size");
    assert_eq!(c.nr_data_blocks(1024, 128), 8);
    assert_eq!(c.nr_data_blocks(1000, 128), 7);
}

#[test]
fn superblock_kinds_pack_alike() {
    for d in [superblock(), noise(11, BLOCK_SIZE)] {
        let a = pack_block(BlockKind::ThinSuperblock, &d).unwrap();
        let b = pack_block(BlockKind::CacheSuperblock, &d).unwrap();
        let c = pack_block(BlockKind::EraSuperblock, &d).unwrap();
        assert_eq!(a, b);
        assert_eq!(a, c);
        assert_ne!(a, pack_block(BlockKind::Node, &d).unwrap());
    }
}

#[test]
fn noise_packs_raw() {
    let d = noise(21, BLOCK_SIZE);
    let z = pack_block(BlockKind::Bitmap, &d).unwrap();
    assert_eq!(z.len(), BLOCK_SIZE + 1);
    assert_eq!(z[0], 4 + 128);
    assert_eq!(&z[1..], &d[..]);
    assert_eq!(unpack_block(&z, 9).unwrap().data, d);
    // a raw form of the wrong length
    let mut short = z.clone();
    short.pop();
    assert!(matches!(unpack_block(&short, 0), Err(CodecError::Malformed)));
    // a raw form with no packer named
    let mut bad = z.clone();
    bad[0] = 128;
    assert!(matches!(unpack_block(&bad, 0), Err(CodecError::Malformed)));
}

#[test]
fn read_past_end_fails() {
    let blocks = vec![superblock(), btree_node()];
    let (e, _) = engine_of(&blocks, &[0, 1, 2, 3]);
    assert!(matches!(e.read(2), Err(EngineError::Unavailable)));
    assert!(matches!(e.read(1 << 32), Err(EngineError::Unavailable)));
}
