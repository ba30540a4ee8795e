use btrfs_kit::address::{load_virt, load_virt_block, virtual_offset_to_physical, ChunkStripeIter};
use btrfs_kit::btrfs::{csum_data, csum_data_crc32, load_fs, load_sb, tree_root_offset, SysChunkIter};
use btrfs_kit::error::BtrfsError;
use btrfs_kit::structures::{
    btrfs_dev_item, btrfs_disk_key, btrfs_super_block, parse_extent_item, parse_root_backup,
    BTRFS_MAGIC, BTRFS_ROOT_ITEM_SIZE, ITEM_TYPE_CHUNK_ITEM, ITEM_TYPE_EXTENT_ITEM,
    ITEM_TYPE_ROOT_ITEM,
};
use btrfs_kit::btrfs_node::{btrfs_internal_node, btrfs_leaf_node};
use btrfs_kit::tree::NodeSearchOption;
use core::cmp::Ordering;

const SB_OFFSET: usize = 65536;
const HEADER_SIZE: usize = 101;

fn put(v: &mut Vec<u8>, off: usize, bytes: &[u8]) {
    v[off..off + bytes.len()].copy_from_slice(bytes);
}

fn put_u16(v: &mut Vec<u8>, off: usize, x: u16) {
    put(v, off, &x.to_le_bytes());
}

fn put_u32(v: &mut Vec<u8>, off: usize, x: u32) {
    put(v, off, &x.to_le_bytes());
}

fn put_u64(v: &mut Vec<u8>, off: usize, x: u64) {
    put(v, off, &x.to_le_bytes());
}

fn put_u128(v: &mut Vec<u8>, off: usize, x: u128) {
    put(v, off, &x.to_le_bytes());
}

/// Computes and stores the checksum of a record whose checksum field is its
/// first 32 bytes.
fn fix_csum(block: &mut Vec<u8>) {
    let c = csum_data_crc32(&block[32..]);
    block[..32].copy_from_slice(&c);
}

struct SbParams {
    generation: u64,
    root: u64,
    chunk_root: u64,
    nodesize: u32,
    num_devices: u64,
    fsid: u128,
    devid: u64,
    dev_uuid: u128,
    sys_chunks: Vec<u8>,
}

fn build_sb(p: &SbParams) -> Vec<u8> {
    let mut sb = vec![0u8; 4096];
    put_u128(&mut sb, 32, p.fsid);
    put_u64(&mut sb, 64, BTRFS_MAGIC);
    put_u64(&mut sb, 72, p.generation);
    put_u64(&mut sb, 80, p.root);
    put_u64(&mut sb, 88, p.chunk_root);
    put_u64(&mut sb, 112, 1 << 30); // total_bytes
    put_u64(&mut sb, 136, p.num_devices);
    put_u32(&mut sb, 144, 4096); // sectorsize
    put_u32(&mut sb, 148, p.nodesize);
    put_u32(&mut sb, 156, 4096); // stripesize
    put_u32(&mut sb, 160, p.sys_chunks.len() as u32);
    put_u16(&mut sb, 196, 0); // csum type CRC32C
    // embedded device item
    put_u64(&mut sb, 201, p.devid);
    put_u128(&mut sb, 201 + 66, p.dev_uuid);
    put_u128(&mut sb, 201 + 82, p.fsid);
    let chunks = p.sys_chunks.clone();
    put(&mut sb, 811, &chunks);
    fix_csum(&mut sb);
    sb
}

/// One record of the system chunk array: disk key, chunk header, stripes.
fn sys_chunk_record(virt_start: u64, length: u64, stripes: &[(u64, u64, u128)]) -> Vec<u8> {
    let mut r = Vec::new();
    r.extend_from_slice(&256u64.to_le_bytes());
    r.push(ITEM_TYPE_CHUNK_ITEM);
    r.extend_from_slice(&virt_start.to_le_bytes());
    // chunk header
    r.extend_from_slice(&length.to_le_bytes()); // length
    r.extend_from_slice(&2u64.to_le_bytes()); // owner
    r.extend_from_slice(&65536u64.to_le_bytes()); // stripe_len
    r.extend_from_slice(&2u64.to_le_bytes()); // type
    r.extend_from_slice(&4096u32.to_le_bytes()); // io_align
    r.extend_from_slice(&4096u32.to_le_bytes()); // io_width
    r.extend_from_slice(&4096u32.to_le_bytes()); // sector_size
    r.extend_from_slice(&(stripes.len() as u16).to_le_bytes()); // num_stripes
    r.extend_from_slice(&1u16.to_le_bytes()); // sub_stripes
    for &(devid, offset, uuid) in stripes {
        r.extend_from_slice(&devid.to_le_bytes());
        r.extend_from_slice(&offset.to_le_bytes());
        r.extend_from_slice(&uuid.to_le_bytes());
    }
    r
}

/// The data region of a chunk item in the chunk tree: chunk header plus
/// stripes (no key; the key stands in the leaf item).
fn chunk_item_data(length: u64, stripes: &[(u64, u64, u128)]) -> Vec<u8> {
    let rec = sys_chunk_record(0, length, stripes);
    rec[17..].to_vec()
}

/// Builds one tree block: a header followed by item records (leaves) or
/// key pointers (internal nodes), with leaf data packed from the tail.
fn build_leaf(
    nodesize: usize,
    bytenr: u64,
    fsid: u128,
    owner: u64,
    items: &[((u64, u8, u64), Vec<u8>)],
) -> Vec<u8> {
    let mut b = vec![0u8; nodesize];
    put_u128(&mut b, 32, fsid);
    put_u64(&mut b, 48, bytenr);
    put_u64(&mut b, 80, 1); // generation
    put_u64(&mut b, 88, owner);
    put_u32(&mut b, 96, items.len() as u32);
    b[100] = 0; // level
    let mut data_end = nodesize;
    for (i, ((oid, ty, off), data)) in items.iter().enumerate() {
        data_end -= data.len();
        put(&mut b, data_end, data);
        let rec = HEADER_SIZE + 25 * i;
        put_u64(&mut b, rec, *oid);
        b[rec + 8] = *ty;
        put_u64(&mut b, rec + 9, *off);
        put_u32(&mut b, rec + 17, (data_end - HEADER_SIZE) as u32);
        put_u32(&mut b, rec + 21, data.len() as u32);
    }
    fix_csum(&mut b);
    b
}

fn build_internal(
    nodesize: usize,
    bytenr: u64,
    fsid: u128,
    owner: u64,
    level: u8,
    entries: &[((u64, u8, u64), u64)],
) -> Vec<u8> {
    let mut b = vec![0u8; nodesize];
    put_u128(&mut b, 32, fsid);
    put_u64(&mut b, 48, bytenr);
    put_u64(&mut b, 80, 1);
    put_u64(&mut b, 88, owner);
    put_u32(&mut b, 96, entries.len() as u32);
    b[100] = level;
    for (i, ((oid, ty, off), blockptr)) in entries.iter().enumerate() {
        let rec = HEADER_SIZE + 33 * i;
        put_u64(&mut b, rec, *oid);
        b[rec + 8] = *ty;
        put_u64(&mut b, rec + 9, *off);
        put_u64(&mut b, rec + 17, *blockptr);
        put_u64(&mut b, rec + 25, 1);
    }
    fix_csum(&mut b);
    b
}

fn root_item_data(tree_bytenr: u64) -> Vec<u8> {
    let mut d = vec![0u8; BTRFS_ROOT_ITEM_SIZE];
    put_u64(&mut d, 176, tree_bytenr);
    d
}

fn key(oid: u64, ty: u8, off: u64) -> btrfs_disk_key {
    btrfs_disk_key { objectid: oid, item_type: ty, offset: off }
}

fn search(min: btrfs_disk_key, max: btrfs_disk_key) -> NodeSearchOption {
    NodeSearchOption { min_key: min, max_key: max, min_match: Ordering::Less, max_match: Ordering::Greater }
}

const FSID: u128 = 0x0102030405060708090a0b0c0d0e0f10;
const DEV1_UUID: u128 = 0x1111;
const DEV2_UUID: u128 = 0x2222;

/// A single-device filesystem with nodesize 4096: a bootstrap chunk hosts
/// the chunk tree, a second chunk (reachable only through the chunk tree)
/// hosts the root tree and a two-level extent tree.
fn build_small_fs() -> Vec<u8> {
    let nodesize = 4096usize;
    // bootstrap chunk: virt [1048576, 2097152) -> dev 1 phys 131072
    // chunk-tree chunk item: virt [2097152, 3145728) -> dev 1 phys 262144
    let boot = sys_chunk_record(1048576, 1048576, &[(1, 131072, DEV1_UUID)]);
    let sb = build_sb(&SbParams {
        generation: 7,
        root: 2097152,
        chunk_root: 1048576,
        nodesize: nodesize as u32,
        num_devices: 1,
        fsid: FSID,
        devid: 1,
        dev_uuid: DEV1_UUID,
        sys_chunks: boot,
    });
    let mut img = vec![0u8; 1 << 20];
    put(&mut img, SB_OFFSET, &sb);

    // chunk tree root: one leaf with the chunk item for [2097152, 3145728)
    let chunk_leaf = build_leaf(
        nodesize,
        1048576,
        FSID,
        3,
        &[((256, ITEM_TYPE_CHUNK_ITEM, 2097152), chunk_item_data(1048576, &[(1, 262144, DEV1_UUID)]))],
    );
    put(&mut img, 131072, &chunk_leaf);

    // root tree: one leaf with ROOT_ITEMs for the extent tree (2) and the
    // fs tree (5)
    let root_leaf = build_leaf(
        nodesize,
        2097152,
        FSID,
        1,
        &[
            ((2, ITEM_TYPE_ROOT_ITEM, 0), root_item_data(2105344)),
            ((5, ITEM_TYPE_ROOT_ITEM, 0), root_item_data(2097152)),
        ],
    );
    put(&mut img, 262144, &root_leaf); // virt 2097152

    // extent tree: an internal root over two leaves
    let ext_leaf_a = build_leaf(
        nodesize,
        2109440,
        FSID,
        2,
        &[
            ((1000, ITEM_TYPE_EXTENT_ITEM, 4096), vec![0u8; 24]),
            ((2000, ITEM_TYPE_EXTENT_ITEM, 4096), vec![1u8; 24]),
        ],
    );
    let ext_leaf_b = build_leaf(
        nodesize,
        2113536,
        FSID,
        2,
        &[
            ((3000, ITEM_TYPE_EXTENT_ITEM, 4096), vec![2u8; 24]),
            ((21866556112896, ITEM_TYPE_EXTENT_ITEM, 4503599627378688), vec![3u8; 24]),
        ],
    );
    let ext_root = build_internal(
        nodesize,
        2105344,
        FSID,
        2,
        1,
        &[
            ((1000, ITEM_TYPE_EXTENT_ITEM, 4096), 2109440),
            ((3000, ITEM_TYPE_EXTENT_ITEM, 4096), 2113536),
        ],
    );
    put(&mut img, 262144 + (2105344 - 2097152) as usize, &ext_root);
    put(&mut img, 262144 + (2109440 - 2097152) as usize, &ext_leaf_a);
    put(&mut img, 262144 + (2113536 - 2097152) as usize, &ext_leaf_b);
    img
}

// ---- checksum engine ----

#[test]
fn crc32() {
    let input: [u8; 9] = [0x01, 0x02, 0x03, 0x04, 0x05, 0x06, 0x07, 0x08, 0x09];
    // checksum is little-endian order
    let expected: [u8; 4] = [0xf9, 0xb9, 0x14, 0x5a];
    let result = csum_data_crc32(&input);
    println!("{result:x?}");
    assert_eq!(expected, result[0..4]);
}

#[test]
fn crc32_zero_padded() {
    let result = csum_data(&[0x01, 0x02, 0x03, 0x04, 0x05, 0x06, 0x07, 0x08, 0x09], 0).unwrap();
    assert_eq!(result.len(), 32);
    assert!(result[4..].iter().all(|&b| b == 0));
}

#[test]
fn csum_unsupported_algorithm() {
    assert_eq!(csum_data(&[1, 2, 3], 2), Err(BtrfsError::Unsupported));
}

// ---- superblock loading ----

fn plain_sb(generation: u64) -> Vec<u8> {
    build_sb(&SbParams {
        generation,
        root: 0,
        chunk_root: 0,
        nodesize: 4096,
        num_devices: 1,
        fsid: FSID,
        devid: 1,
        dev_uuid: DEV1_UUID,
        sys_chunks: Vec::new(),
    })
}

#[test]
fn superblock_selection() {
    // primary at 65536 with generation 100, first mirror at 67108864 with
    // generation 102; the mirror wins
    let mut img = vec![0u8; 67108864 + 4096];
    put(&mut img, SB_OFFSET, &plain_sb(100));
    put(&mut img, 67108864, &plain_sb(102));
    let sb = load_sb(&img).unwrap();
    assert_eq!(sb.generation, 102);
}

#[test]
fn superblock_selection_keeps_primary() {
    // a stale mirror must not replace a fresher primary
    let mut img = vec![0u8; 67108864 + 4096];
    put(&mut img, SB_OFFSET, &plain_sb(102));
    put(&mut img, 67108864, &plain_sb(101));
    let sb = load_sb(&img).unwrap();
    assert_eq!(sb.generation, 102);
}

#[test]
fn superblock_equal_generation_keeps_earlier_copy() {
    let mut img = vec![0u8; 67108864 + 4096];
    let mut primary = plain_sb(100);
    put_u64(&mut primary, 80, 111); // root
    fix_csum(&mut primary);
    let mut mirror = plain_sb(100);
    put_u64(&mut mirror, 80, 222); // root
    fix_csum(&mut mirror);
    put(&mut img, SB_OFFSET, &primary);
    put(&mut img, 67108864, &mirror);
    let sb = load_sb(&img).unwrap();
    assert_eq!(sb.root, 111);
}

#[test]
fn superblock_recovered_from_mirror() {
    // a torn primary with an intact, checksum-valid mirror still loads:
    // the freshest cleanly-loading copy wins
    let mut img = vec![0u8; 67108864 + 4096];
    let mut torn = plain_sb(100);
    torn[40] ^= 0xff; // damage the primary; its checksum no longer matches
    put(&mut img, SB_OFFSET, &torn);
    put(&mut img, 67108864, &plain_sb(99));
    let sb = load_sb(&img).unwrap();
    assert_eq!(sb.generation, 99);
}

#[test]
fn load_fs_recovers_via_mirror() {
    let mut img = vec![0u8; 67108864 + 4096];
    put(&mut img, SB_OFFSET, &vec![0u8; 4096]); // primary region zeroed
    put(&mut img, 67108864, &plain_sb(42));
    let fs = load_fs(vec![img]).unwrap();
    assert_eq!(fs.master_sb.generation, 42);
    assert_eq!(fs.fsid, FSID);
}

#[test]
fn superblock_bad_magic() {
    let mut img = vec![0u8; SB_OFFSET + 4096];
    let mut sb = plain_sb(1);
    put_u64(&mut sb, 64, 0xdeadbeef);
    fix_csum(&mut sb);
    put(&mut img, SB_OFFSET, &sb);
    assert!(matches!(load_sb(&img), Err(BtrfsError::SchemaViolation)));
}

#[test]
fn superblock_bad_csum() {
    let mut img = vec![0u8; SB_OFFSET + 4096];
    let mut sb = plain_sb(1);
    sb[0] ^= 0xff;
    put(&mut img, SB_OFFSET, &sb);
    assert!(matches!(load_sb(&img), Err(BtrfsError::SchemaViolation)));
}

#[test]
fn superblock_unsupported_csum_type() {
    let mut img = vec![0u8; SB_OFFSET + 4096];
    let mut sb = plain_sb(1);
    put_u16(&mut sb, 196, 2); // SHA256
    fix_csum(&mut sb);
    put(&mut img, SB_OFFSET, &sb);
    assert!(matches!(load_sb(&img), Err(BtrfsError::Unsupported)));
}

#[test]
fn superblock_short_device() {
    let img = vec![0u8; 1024];
    assert!(matches!(load_sb(&img), Err(BtrfsError::Bounds)));
}

#[test]
fn load_fs_fsid_mismatch() {
    let mut img1 = vec![0u8; SB_OFFSET + 4096];
    put(&mut img1, SB_OFFSET, &plain_sb(1));
    let mut img2 = vec![0u8; SB_OFFSET + 4096];
    let other = build_sb(&SbParams {
        generation: 1,
        root: 0,
        chunk_root: 0,
        nodesize: 4096,
        num_devices: 1,
        fsid: FSID + 1,
        devid: 2,
        dev_uuid: DEV2_UUID,
        sys_chunks: Vec::new(),
    });
    put(&mut img2, SB_OFFSET, &other);
    assert!(matches!(load_fs(vec![img1, img2]), Err(BtrfsError::SchemaViolation)));
}

#[test]
fn load_fs_empty_bootstrap() {
    // an empty system chunk array still loads; all lookups must then go
    // through the chunk tree, which no bootstrap chunk maps here
    let mut img = vec![0u8; SB_OFFSET + 4096];
    put(&mut img, SB_OFFSET, &plain_sb(3));
    let fs = load_fs(vec![img]).unwrap();
    assert_eq!(fs.bootstrap_chunks.len(), 0);
    assert_eq!(fs.fsid, FSID);
    assert_eq!(load_virt_block(&fs, 4096), Err(BtrfsError::NotMapped));
}

#[test]
fn sys_chunk_iter_reads_records() {
    let boot = sys_chunk_record(22020096, 17408, &[(1, 1048576, DEV1_UUID)]);
    let sb_bytes = build_sb(&SbParams {
        generation: 1,
        root: 0,
        chunk_root: 0,
        nodesize: 16384,
        num_devices: 1,
        fsid: FSID,
        devid: 1,
        dev_uuid: DEV1_UUID,
        sys_chunks: boot,
    });
    let mut img = vec![0u8; SB_OFFSET + 4096];
    put(&mut img, SB_OFFSET, &sb_bytes);
    let sb = load_sb(&img).unwrap();
    let mut it = SysChunkIter::new(&sb).unwrap();
    let ci = it.next().unwrap();
    assert_eq!(ci.0.objectid, 256);
    assert_eq!(ci.0.item_type, ITEM_TYPE_CHUNK_ITEM);
    assert_eq!(ci.0.offset, 22020096);
    assert_eq!(ci.1.length, 17408);
    assert_eq!(ci.2.len(), 1);
    assert_eq!(ci.2[0].devid, 1);
    assert_eq!(ci.2[0].offset, 1048576);
    assert!(it.next().is_none());
}

#[test]
fn sys_chunk_iter_rejects_truncated_array() {
    let mut boot = sys_chunk_record(22020096, 17408, &[(1, 1048576, DEV1_UUID)]);
    boot.truncate(boot.len() - 1);
    let sb_bytes = build_sb(&SbParams {
        generation: 1,
        root: 0,
        chunk_root: 0,
        nodesize: 16384,
        num_devices: 1,
        fsid: FSID,
        devid: 1,
        dev_uuid: DEV1_UUID,
        sys_chunks: boot,
    });
    let mut img = vec![0u8; SB_OFFSET + 4096];
    put(&mut img, SB_OFFSET, &sb_bytes);
    let sb = load_sb(&img).unwrap();
    assert!(SysChunkIter::new(&sb).is_err());
}

// ---- the chunk mapper ----

/// A device whose bootstrap chunk covers virtual [22020096, 22037504) at
/// physical 1048576, nodesize 16384.
fn build_bootstrap_device(devid: u64, dev_uuid: u128, stripes: &[(u64, u64, u128)]) -> Vec<u8> {
    let nodesize = 16384usize;
    let boot = sys_chunk_record(22020096, 17408, stripes);
    let sb = build_sb(&SbParams {
        generation: 5,
        root: 0,
        chunk_root: 22020096,
        nodesize: nodesize as u32,
        num_devices: stripes.len() as u64,
        fsid: FSID,
        devid,
        dev_uuid,
        sys_chunks: boot,
    });
    let mut img = vec![0u8; 2 << 20];
    put(&mut img, SB_OFFSET, &sb);
    let block = build_leaf(nodesize, 22020096, FSID, 3, &[]);
    put(&mut img, 1048576, &block);
    img
}

#[test]
fn bootstrap_mapper() {
    let img = build_bootstrap_device(1, DEV1_UUID, &[(1, 1048576, DEV1_UUID)]);
    let expected = img[1048576..1048576 + 16384].to_vec();
    let fs = load_fs(vec![img]).unwrap();
    let block = load_virt_block(&fs, 22020096).unwrap();
    assert_eq!(block, expected);
    let phys = virtual_offset_to_physical(&fs, 22020096).unwrap();
    assert_eq!(phys, vec![(1, 1048576)]);
}

#[test]
fn bootstrap_mapper_unaligned_physical() {
    // an address inside the chunk maps to stripe offset plus the distance
    // into the chunk
    let img = build_bootstrap_device(1, DEV1_UUID, &[(1, 1048576, DEV1_UUID)]);
    let fs = load_fs(vec![img]).unwrap();
    let phys = virtual_offset_to_physical(&fs, 22020096 + 100).unwrap();
    assert_eq!(phys, vec![(1, 1048576 + 100)]);
}

#[test]
fn dual_copy_enumeration() {
    let stripes = [(1u64, 1048576u64, DEV1_UUID), (2u64, 1310720u64, DEV2_UUID)];
    let img1 = build_bootstrap_device(1, DEV1_UUID, &stripes);
    let mut img2 = build_bootstrap_device(2, DEV2_UUID, &stripes);
    // place the second copy of the block at its stripe offset on device 2
    let block = img1[1048576..1048576 + 16384].to_vec();
    put(&mut img2, 1310720, &block);

    // only device 1 supplied: the read succeeds from device 1, and only its
    // tuple is enumerated
    let fs1 = load_fs(vec![img1.clone()]).unwrap();
    assert_eq!(load_virt_block(&fs1, 22020096).unwrap(), block);
    assert_eq!(virtual_offset_to_physical(&fs1, 22020096).unwrap(), vec![(1, 1048576)]);

    // both devices supplied: both tuples, in stripe order
    let fs2 = load_fs(vec![img1, img2]).unwrap();
    assert_eq!(load_virt_block(&fs2, 22020096).unwrap(), block);
    let pairs = virtual_offset_to_physical(&fs2, 22020096).unwrap();
    assert_eq!(pairs, vec![(1, 1048576), (2, 1310720)]);
    // reading any enumerated location for one node gives the loaded bytes
    for (devid, off) in pairs {
        let i = fs2.device_by_id(devid).unwrap();
        let data = &fs2.devices[i].data;
        assert_eq!(&data[off as usize..off as usize + 16384], &block[..]);
    }
}

#[test]
fn mapper_requires_alignment() {
    let img = build_bootstrap_device(1, DEV1_UUID, &[(1, 1048576, DEV1_UUID)]);
    let fs = load_fs(vec![img]).unwrap();
    assert_eq!(load_virt_block(&fs, 22020096 + 1), Err(BtrfsError::Bounds));
}

#[test]
fn mapper_unknown_address() {
    let img = build_bootstrap_device(1, DEV1_UUID, &[(1, 1048576, DEV1_UUID)]);
    let fs = load_fs(vec![img]).unwrap();
    // well past the end of the only chunk
    assert_eq!(virtual_offset_to_physical(&fs, 22052864), Err(BtrfsError::NotMapped));
}

#[test]
fn mapper_no_reachable_stripe() {
    // the chunk is known but its only stripe names an absent device
    let img = build_bootstrap_device(1, DEV1_UUID, &[(9, 1048576, 0x9999)]);
    let fs = load_fs(vec![img]).unwrap();
    assert_eq!(load_virt_block(&fs, 22020096), Err(BtrfsError::NotMapped));
    assert_eq!(virtual_offset_to_physical(&fs, 22020096), Err(BtrfsError::NotMapped));
}

#[test]
fn load_virt_sub_block() {
    let img = build_bootstrap_device(1, DEV1_UUID, &[(1, 1048576, DEV1_UUID)]);
    let expected = img[1048576 + 48..1048576 + 56].to_vec();
    let fs = load_fs(vec![img]).unwrap();
    // the bytenr field within the block header
    let bytes = load_virt(&fs, 22020096 + 48, 8).unwrap();
    assert_eq!(bytes, expected);
    assert_eq!(u64::from_le_bytes(bytes.try_into().unwrap()), 22020096);
}

#[test]
fn load_virt_rejects_cross_block_read() {
    let img = build_bootstrap_device(1, DEV1_UUID, &[(1, 1048576, DEV1_UUID)]);
    let fs = load_fs(vec![img]).unwrap();
    assert_eq!(load_virt(&fs, 22020096 + 16380, 8), Err(BtrfsError::Bounds));
}

#[test]
fn mapper_rejects_corrupt_block() {
    let mut img = build_bootstrap_device(1, DEV1_UUID, &[(1, 1048576, DEV1_UUID)]);
    img[1048576 + 200] ^= 0xff; // damage the block body; the checksum no longer matches
    let fs = load_fs(vec![img]).unwrap();
    assert_eq!(load_virt_block(&fs, 22020096), Err(BtrfsError::SchemaViolation));
}

// ---- tree search over the chunk tree, root tree and extent tree ----

#[test]
fn chunk_boundary_goes_to_next_chunk() {
    // virtual 2097152 is the exclusive end of the bootstrap chunk and the
    // start of the chunk mapped by the chunk tree: the request must go to
    // the chunk starting there
    let img = build_small_fs();
    let fs = load_fs(vec![img]).unwrap();
    let phys = virtual_offset_to_physical(&fs, 2097152).unwrap();
    assert_eq!(phys, vec![(1, 262144)]);
}

#[test]
fn chunk_tree_backed_read() {
    let img = build_small_fs();
    let expected = img[262144..262144 + 4096].to_vec();
    let fs = load_fs(vec![img]).unwrap();
    assert_eq!(load_virt_block(&fs, 2097152).unwrap(), expected);
}

#[test]
fn range_search_finds_extent_tree_root() {
    let img = build_small_fs();
    let fs = load_fs(vec![img]).unwrap();
    let opts = search(key(2, ITEM_TYPE_ROOT_ITEM, 0), key(2, ITEM_TYPE_ROOT_ITEM, u64::MAX));
    let mut it = fs.search_node(fs.master_sb.root, &opts);
    let (item, data, block_addr, _pos) = it.next().unwrap();
    assert_eq!(item.key.objectid, 2);
    assert_eq!(item.key.item_type, ITEM_TYPE_ROOT_ITEM);
    assert_eq!(data.len(), BTRFS_ROOT_ITEM_SIZE);
    assert_eq!(block_addr, 2097152);
    let bytenr = u64::from_le_bytes(data[176..184].try_into().unwrap());
    assert_eq!(bytenr, 2105344);
    assert!(it.next().is_none());
    // and the convenience lookup agrees
    assert_eq!(tree_root_offset(&fs, 2), Some(2105344));
}

#[test]
fn point_lookup_of_known_key() {
    let img = build_small_fs();
    let fs = load_fs(vec![img]).unwrap();
    let extent_root = tree_root_offset(&fs, 2).unwrap();
    let k = key(21866556112896, ITEM_TYPE_EXTENT_ITEM, 4503599627378688);
    let opts = search(k, k);
    let mut it = fs.search_node(extent_root, &opts);
    let (item, data, block_addr, _pos) = it.next().unwrap();
    assert_eq!(item.key, k);
    assert_eq!(item.size as usize, 24);
    assert_eq!(data.len(), 24);
    assert_eq!(block_addr, 2113536);
    // a point lookup yields at most one item
    assert!(it.next().is_none());
}

#[test]
fn point_lookup_of_absent_key() {
    let img = build_small_fs();
    let fs = load_fs(vec![img]).unwrap();
    let extent_root = tree_root_offset(&fs, 2).unwrap();
    let k = key(1500, ITEM_TYPE_EXTENT_ITEM, 4096);
    let mut it = fs.search_node(extent_root, &search(k, k));
    assert!(it.next().is_none());
}

#[test]
fn iteration_ascends_across_leaves() {
    let img = build_small_fs();
    let fs = load_fs(vec![img]).unwrap();
    let extent_root = tree_root_offset(&fs, 2).unwrap();
    let opts = search(key(0, 0, 0), key(u64::MAX, 0xff, u64::MAX));
    let mut it = fs.search_node(extent_root, &opts);
    let mut keys = Vec::new();
    while let Some((item, _data, _addr, _pos)) = it.next() {
        keys.push((item.key.objectid, item.key.item_type, item.key.offset));
    }
    assert_eq!(
        keys,
        vec![
            (1000, ITEM_TYPE_EXTENT_ITEM, 4096),
            (2000, ITEM_TYPE_EXTENT_ITEM, 4096),
            (3000, ITEM_TYPE_EXTENT_ITEM, 4096),
            (21866556112896, ITEM_TYPE_EXTENT_ITEM, 4503599627378688),
        ]
    );
    assert!(it.fault().is_none());
    // ascending order
    for w in keys.windows(2) {
        assert!(w[0] < w[1]);
    }
}

#[test]
fn range_search_respects_bounds() {
    let img = build_small_fs();
    let fs = load_fs(vec![img]).unwrap();
    let extent_root = tree_root_offset(&fs, 2).unwrap();
    // [min, max] spanning only the middle two items, across the leaf split
    let opts = search(key(2000, 0, 0), key(3000, 0xff, u64::MAX));
    let mut it = fs.search_node(extent_root, &opts);
    let a = it.next().unwrap();
    assert_eq!(a.0.key.objectid, 2000);
    let b = it.next().unwrap();
    assert_eq!(b.0.key.objectid, 3000);
    assert!(it.next().is_none());
}

// ---- schema structures ----

fn default_btrfs_dev_item() -> btrfs_dev_item {
    btrfs_dev_item {
        devid: 0,
        total_bytes: 0,
        bytes_used: 0,
        io_align: 0,
        io_width: 0,
        sector_size: 512,
        type_: 0,
        generation: 0,
        start_offset: 0,
        dev_group: 0,
        seek_speed: 0,
        bandwidth: 9,
        uuid: 0,
        fsid: 0,
    }
}

fn default_btrfs_superblock() -> btrfs_super_block {
    btrfs_super_block {
        fsid: 0,
        bytenr: 0,
        flags: 0,
        magic: 0,
        generation: 0,
        root: 0,
        chunk_root: 0,
        log_root: 0,
        total_bytes: 0,
        bytes_used: 0,
        root_dir_object_id: 0,
        num_devices: 0,
        sectorsize: 0,
        nodesize: 0,
        stripesize: 0,
        sys_chunk_array_size: 0,
        chunk_root_generation: 0,
        compat_flags: 0,
        compat_ro_flags: 0,
        incompat_flags: 0,
        csum_type: 0,
        root_level: 0,
        chunk_root_level: 0,
        log_root_level: 0,
        dev_item: default_btrfs_dev_item(),
        cache_generation: 0,
        uuid_tree_generation: 0,
        metadata_uuid: 0,
        nr_global_roots: 0,
        sys_chunk_array: vec![0; 2048],
    }
}

#[test]
fn zero_depth_tree() {
    let mut sb = default_btrfs_superblock();
    sb.num_devices = 1;
}

#[test]
fn chunk_stripe_iter_decodes_stripes() {
    let data = chunk_item_data(65536, &[(1, 4096, DEV1_UUID), (2, 8192, DEV2_UUID)]);
    let mut it = ChunkStripeIter::new(&data[48..], 2).unwrap();
    let s1 = it.next().unwrap();
    assert_eq!((s1.devid, s1.offset, s1.dev_uuid), (1, 4096, DEV1_UUID));
    let s2 = it.next().unwrap();
    assert_eq!((s2.devid, s2.offset, s2.dev_uuid), (2, 8192, DEV2_UUID));
    assert!(it.next().is_none());
}

#[test]
fn chunk_stripe_iter_rejects_short_buffer() {
    let data = chunk_item_data(65536, &[(1, 4096, DEV1_UUID)]);
    assert!(ChunkStripeIter::new(&data[48..], 2).is_err());
}

#[test]
fn node_cursors_walk_blocks() {
    let img = build_small_fs();
    let fs = load_fs(vec![img]).unwrap();
    // the root tree block is a leaf with two items
    let mut leaf = btrfs_leaf_node(&fs, 2097152).unwrap();
    let h = leaf.header();
    assert_eq!(h.bytenr, 2097152);
    assert_eq!(h.nritems, 2);
    assert_eq!(h.level, 0);
    let (item, data, addr, pos) = leaf.next().unwrap();
    assert_eq!(item.key.objectid, 2);
    assert_eq!(data.len(), BTRFS_ROOT_ITEM_SIZE);
    assert_eq!(addr, 2097152);
    assert_eq!(pos, 0);
    let (item2, _data2, _addr2, pos2) = leaf.next().unwrap();
    assert_eq!(item2.key.objectid, 5);
    assert_eq!(pos2, 1);
    assert!(leaf.next().is_none());
    // the extent tree root is an internal node with two key pointers
    let mut node = btrfs_internal_node(&fs, 2105344).unwrap();
    assert_eq!(node.header().level, 1);
    assert_eq!(node.peek().unwrap().blockptr, 2109440);
    assert_eq!(node.next().unwrap().blockptr, 2109440);
    assert_eq!(node.next().unwrap().blockptr, 2113536);
    assert!(node.next().is_none());
    // reinterpreting it as a leaf resets progress
    let leaf2 = node.as_leaf_node();
    assert_eq!(leaf2.header().bytenr, 2105344);
}

#[test]
fn device_lookup_by_id_and_uuid() {
    let img = build_bootstrap_device(1, DEV1_UUID, &[(1, 1048576, DEV1_UUID)]);
    let fs = load_fs(vec![img]).unwrap();
    assert_eq!(fs.device_by_id(1), Some(0));
    assert_eq!(fs.device_by_id(2), None);
    assert_eq!(fs.device_by_uuid(DEV1_UUID), Some(0));
    assert_eq!(fs.device_by_uuid(DEV2_UUID), None);
}

#[test]
fn schema_record_decoding() {
    let mut rec = vec![0u8; 24];
    put_u64(&mut rec, 0, 12); // refs
    put_u64(&mut rec, 8, 34); // generation
    put_u64(&mut rec, 16, 56); // flags
    let e = parse_extent_item(&rec, 0);
    assert_eq!((e.refs, e.generation, e.flags), (12, 34, 56));

    let mut backup = vec![0u8; 168];
    put_u64(&mut backup, 0, 77); // tree_root
    put_u64(&mut backup, 112, 3); // num_devices
    backup[152] = 2; // tree_root_level
    let b = parse_root_backup(&backup, 0);
    assert_eq!(b.tree_root, 77);
    assert_eq!(b.num_devices, 3);
    assert_eq!(b.tree_root_level, 2);
}

#[test]
fn iterate_single_leaf_chunk_tree() {
    // the chunk tree root here is a bootstrap-mapped single leaf: the full
    // range scan yields its one chunk item and then ends
    let img = build_small_fs();
    let fs = load_fs(vec![img]).unwrap();
    let opts = search(key(0, 0, 0), key(u64::MAX, 0xff, u64::MAX));
    let mut it = fs.search_node(fs.master_sb.chunk_root, &opts);
    let (item, data, addr, pos) = it.next().unwrap();
    assert_eq!(item.key, key(256, ITEM_TYPE_CHUNK_ITEM, 2097152));
    assert_eq!(addr, 1048576);
    assert_eq!(pos, 0);
    assert_eq!(data.len(), 48 + 32);
    assert!(it.next().is_none());
    assert!(it.fault().is_none());
}
