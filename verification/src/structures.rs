use vstd::prelude::*;
use crate::codec::{byte_at, le16, le32, le64, le128, spec_le16, spec_le32, spec_le64, spec_le128, sub_bytes};

verus! {

// Widths and well-known offsets of the on-disk format. All records are
// little-endian and byte-packed; decoders read field by field.
pub const BTRFS_CSUM_SIZE: usize = 32;
pub const BTRFS_FSID_SIZE: usize = 16;
pub const BTRFS_UUID_SIZE: usize = 16;
pub const BTRFS_SUPER_INFO_OFFSET: u64 = 65536;
pub const BTRFS_SUPER_INFO_SIZE: usize = 4096;
pub const BTRFS_SUPER_MIRROR_MAX: usize = 3;
pub const BTRFS_SUPER_MIRROR_SHIFT: usize = 12;
pub const BTRFS_SYSTEM_CHUNK_ARRAY_SIZE: usize = 2048;
pub const BTRFS_LABEL_SIZE: usize = 256;
pub const BTRFS_MAGIC: u64 = 0x4D5F53665248425F;
pub const BTRFS_NUM_BACKUP_ROOTS: usize = 4;

// Object ids of the trees themselves.
pub const BTRFS_ROOT_TREE_OBJECTID: u64 = 1;
pub const BTRFS_EXTENT_TREE_OBJECTID: u64 = 2;
pub const BTRFS_CHUNK_TREE_OBJECTID: u64 = 3;
pub const BTRFS_DEV_TREE_OBJECTID: u64 = 4;
pub const BTRFS_FS_TREE_OBJECTID: u64 = 5;
pub const BTRFS_ROOT_TREE_DIR_OBJECTID: u64 = 6;
pub const BTRFS_CSUM_TREE_OBJECTID: u64 = 7;
pub const BTRFS_QUOTA_TREE_OBJECTID: u64 = 8;
pub const BTRFS_UUID_TREE_OBJECTID: u64 = 9;
pub const BTRFS_FREE_SPACE_TREE_OBJECTID: u64 = 10;
pub const BTRFS_BLOCK_GROUP_TREE_OBJECTID: u64 = 11;
pub const BTRFS_FIRST_CHUNK_TREE_OBJECTID: u64 = 256;

// Item-type tags. Keys carry the tag as a plain byte so that unknown on-disk
// tags survive decoding and compare by their numeric value, as the tree
// ordering demands; 0x00 and 0xff are sentinels for range construction.
pub const ITEM_TYPE_MIN: u8 = 0x00;
pub const ITEM_TYPE_INODE_ITEM: u8 = 0x01;
pub const ITEM_TYPE_ROOT_ITEM: u8 = 0x84;
pub const ITEM_TYPE_ROOT_REF: u8 = 0x9c;
pub const ITEM_TYPE_EXTENT_ITEM: u8 = 0xa8;
pub const ITEM_TYPE_DEV_ITEM: u8 = 0xd8;
pub const ITEM_TYPE_CHUNK_ITEM: u8 = 0xe4;
pub const ITEM_TYPE_MAX: u8 = 0xff;

// Checksum-algorithm tags, a 16-bit field in the superblock.
pub const CSUM_TYPE_CRC32: u16 = 0;
pub const CSUM_TYPE_XXHASH: u16 = 1;
pub const CSUM_TYPE_SHA256: u16 = 2;
pub const CSUM_TYPE_BLAKE2: u16 = 3;

// Record sizes in bytes.
pub const BTRFS_DISK_KEY_SIZE: usize = 17;
pub const BTRFS_ITEM_SIZE: usize = 25;
pub const BTRFS_KEY_PTR_SIZE: usize = 33;
pub const BTRFS_HEADER_SIZE: usize = 101;
pub const BTRFS_STRIPE_SIZE: usize = 32;
pub const BTRFS_CHUNK_SIZE: usize = 48;
pub const BTRFS_DEV_ITEM_SIZE: usize = 98;
pub const BTRFS_TIMESPEC_SIZE: usize = 12;
pub const BTRFS_INODE_ITEM_SIZE: usize = 160;
pub const BTRFS_ROOT_ITEM_SIZE: usize = 439;
pub const BTRFS_ROOT_REF_SIZE: usize = 18;
pub const BTRFS_EXTENT_ITEM_SIZE: usize = 24;
pub const BTRFS_ROOT_BACKUP_SIZE: usize = 168;

// Offset of the system chunk array within the superblock record.
pub const BTRFS_SYS_CHUNK_ARRAY_OFFSET: usize = 811;

/// The (object id, item type, offset) triple that addresses every tree item.
#[allow(non_camel_case_types)]
#[derive(Clone, Copy, Debug, PartialEq, Eq, Structural)]
pub struct btrfs_disk_key {
    pub objectid: u64,
    pub item_type: u8,
    pub offset: u64,
}

/// Leaf-node item record: key plus the location of the item data, counted
/// from the end of the block header.
#[allow(non_camel_case_types)]
#[derive(Clone, Copy, Debug, PartialEq, Eq, Structural)]
pub struct btrfs_item {
    pub key: btrfs_disk_key,
    pub offset: u32,
    pub size: u32,
}

/// Internal-node record: key plus the virtual address of the child block.
#[allow(non_camel_case_types)]
#[derive(Clone, Copy, Debug, PartialEq, Eq, Structural)]
pub struct btrfs_key_ptr {
    pub key: btrfs_disk_key,
    pub blockptr: u64,
    pub generation: u64,
}

/// Tree-block header, stored at the start of every node. The leading 32-byte
/// checksum is not carried here; validation compares it against the raw block
/// bytes directly.
#[allow(non_camel_case_types)]
#[derive(Clone, Copy, Debug, PartialEq, Eq, Structural)]
pub struct btrfs_header {
    pub fsid: u128,
    pub bytenr: u64,
    pub flags: u64,
    pub chunk_tree_uuid: u128,
    pub generation: u64,
    pub owner: u64,
    pub nritems: u32,
    pub level: u8,
}

/// One device's contribution to a chunk.
#[allow(non_camel_case_types)]
#[derive(Clone, Copy, Debug, PartialEq, Eq, Structural)]
pub struct btrfs_stripe {
    pub devid: u64,
    pub offset: u64,
    pub dev_uuid: u128,
}

/// Chunk record header; the stripes follow it inline on disk.
#[allow(non_camel_case_types)]
#[derive(Clone, Copy, Debug, PartialEq, Eq, Structural)]
pub struct btrfs_chunk {
    pub length: u64,
    pub owner: u64,
    pub stripe_len: u64,
    pub type_: u64,
    pub io_align: u32,
    pub io_width: u32,
    pub sector_size: u32,
    pub num_stripes: u16,
    pub sub_stripes: u16,
}

/// The device item embedded in the superblock, describing one device.
#[allow(non_camel_case_types)]
#[derive(Clone, Copy, Debug, PartialEq, Eq, Structural)]
pub struct btrfs_dev_item {
    pub devid: u64,
    pub total_bytes: u64,
    pub bytes_used: u64,
    pub io_align: u32,
    pub io_width: u32,
    pub sector_size: u32,
    pub type_: u64,
    pub generation: u64,
    pub start_offset: u64,
    pub dev_group: u32,
    pub seek_speed: u8,
    pub bandwidth: u8,
    pub uuid: u128,
    pub fsid: u128,
}

#[allow(non_camel_case_types)]
#[derive(Clone, Copy, Debug, PartialEq, Eq, Structural)]
pub struct btrfs_timespec {
    pub sec: u64,
    pub nsec: u32,
}

#[allow(non_camel_case_types)]
#[derive(Clone, Copy, Debug, PartialEq, Eq, Structural)]
pub struct btrfs_inode_item {
    pub generation: u64,
    pub transid: u64,
    pub size: u64,
    pub nbytes: u64,
    pub block_group: u64,
    pub nlink: u32,
    pub uid: u32,
    pub gid: u32,
    pub mode: u32,
    pub rdev: u64,
    pub flags: u64,
    pub sequence: u64,
    pub atime: btrfs_timespec,
    pub ctime: btrfs_timespec,
    pub mtime: btrfs_timespec,
    pub otime: btrfs_timespec,
}

/// The payload of a ROOT_ITEM: describes one tree root, in particular the
/// virtual address `bytenr` of its root block.
#[allow(non_camel_case_types)]
#[derive(Clone, Copy, Debug, PartialEq, Eq, Structural)]
pub struct btrfs_root_item {
    pub inode: btrfs_inode_item,
    pub generation: u64,
    pub root_dirid: u64,
    pub bytenr: u64,
    pub byte_limit: u64,
    pub bytes_used: u64,
    pub last_snapshot: u64,
    pub flags: u64,
    pub refs: u32,
    pub drop_progress: btrfs_disk_key,
    pub drop_level: u8,
    pub level: u8,
    pub generation_v2: u64,
    pub uuid: u128,
    pub parent_uuid: u128,
    pub received_uuid: u128,
    pub ctransid: u64,
    pub otransid: u64,
    pub stransid: u64,
    pub rtransid: u64,
    pub ctime: btrfs_timespec,
    pub otime: btrfs_timespec,
    pub stime: btrfs_timespec,
    pub rtime: btrfs_timespec,
    pub global_tree_id: u64,
}

/// The fixed head of a ROOT_REF item; the subvolume name follows it on disk.
#[allow(non_camel_case_types)]
#[derive(Clone, Copy, Debug, PartialEq, Eq, Structural)]
pub struct btrfs_root_ref {
    pub dirid: u64,
    pub sequence: u64,
    pub name_len: u16,
}

#[allow(non_camel_case_types)]
#[derive(Clone, Copy, Debug, PartialEq, Eq, Structural)]
pub struct btrfs_extent_item {
    pub refs: u64,
    pub generation: u64,
    pub flags: u64,
}

/// One of the four backup root slots at the tail of the superblock.
#[allow(non_camel_case_types)]
#[derive(Clone, Copy, Debug, PartialEq, Eq, Structural)]
pub struct btrfs_root_backup {
    pub tree_root: u64,
    pub tree_root_gen: u64,
    pub chunk_root: u64,
    pub chunk_root_gen: u64,
    pub extent_root: u64,
    pub extent_root_gen: u64,
    pub fs_root: u64,
    pub fs_root_gen: u64,
    pub dev_root: u64,
    pub dev_root_gen: u64,
    pub csum_root: u64,
    pub csum_root_gen: u64,
    pub total_bytes: u64,
    pub bytes_used: u64,
    pub num_devices: u64,
    pub tree_root_level: u8,
    pub chunk_root_level: u8,
    pub extent_root_level: u8,
    pub fs_root_level: u8,
    pub dev_root_level: u8,
    pub csum_root_level: u8,
}

/// The superblock fields this library reads, plus the raw system chunk array
/// from which the bootstrap chunks are parsed. The leading checksum, the
/// label, the reserved areas and the padding are validated or skipped against
/// the raw bytes and not carried here.
#[allow(non_camel_case_types)]
#[derive(Debug)]
pub struct btrfs_super_block {
    pub fsid: u128,
    pub bytenr: u64,
    pub flags: u64,
    pub magic: u64,
    pub generation: u64,
    pub root: u64,
    pub chunk_root: u64,
    pub log_root: u64,
    pub total_bytes: u64,
    pub bytes_used: u64,
    pub root_dir_object_id: u64,
    pub num_devices: u64,
    pub sectorsize: u32,
    pub nodesize: u32,
    pub stripesize: u32,
    pub sys_chunk_array_size: u32,
    pub chunk_root_generation: u64,
    pub compat_flags: u64,
    pub compat_ro_flags: u64,
    pub incompat_flags: u64,
    pub csum_type: u16,
    pub root_level: u8,
    pub chunk_root_level: u8,
    pub log_root_level: u8,
    pub dev_item: btrfs_dev_item,
    pub cache_generation: u64,
    pub uuid_tree_generation: u64,
    pub metadata_uuid: u128,
    pub nr_global_roots: u64,
    pub sys_chunk_array: Vec<u8>,
}

/// Mathematical view of a superblock: the same fields with the raw system
/// chunk array as a byte sequence.
pub struct SuperBlockView {
    pub fsid: u128,
    pub bytenr: u64,
    pub flags: u64,
    pub magic: u64,
    pub generation: u64,
    pub root: u64,
    pub chunk_root: u64,
    pub log_root: u64,
    pub total_bytes: u64,
    pub bytes_used: u64,
    pub root_dir_object_id: u64,
    pub num_devices: u64,
    pub sectorsize: u32,
    pub nodesize: u32,
    pub stripesize: u32,
    pub sys_chunk_array_size: u32,
    pub chunk_root_generation: u64,
    pub compat_flags: u64,
    pub compat_ro_flags: u64,
    pub incompat_flags: u64,
    pub csum_type: u16,
    pub root_level: u8,
    pub chunk_root_level: u8,
    pub log_root_level: u8,
    pub dev_item: btrfs_dev_item,
    pub cache_generation: u64,
    pub uuid_tree_generation: u64,
    pub metadata_uuid: u128,
    pub nr_global_roots: u64,
    pub sys_chunk_array: Seq<u8>,
}

impl View for btrfs_super_block {
    type V = SuperBlockView;

    open spec fn view(&self) -> SuperBlockView {
        SuperBlockView {
            fsid: self.fsid,
            bytenr: self.bytenr,
            flags: self.flags,
            magic: self.magic,
            generation: self.generation,
            root: self.root,
            chunk_root: self.chunk_root,
            log_root: self.log_root,
            total_bytes: self.total_bytes,
            bytes_used: self.bytes_used,
            root_dir_object_id: self.root_dir_object_id,
            num_devices: self.num_devices,
            sectorsize: self.sectorsize,
            nodesize: self.nodesize,
            stripesize: self.stripesize,
            sys_chunk_array_size: self.sys_chunk_array_size,
            chunk_root_generation: self.chunk_root_generation,
            compat_flags: self.compat_flags,
            compat_ro_flags: self.compat_ro_flags,
            incompat_flags: self.incompat_flags,
            csum_type: self.csum_type,
            root_level: self.root_level,
            chunk_root_level: self.chunk_root_level,
            log_root_level: self.log_root_level,
            dev_item: self.dev_item,
            cache_generation: self.cache_generation,
            uuid_tree_generation: self.uuid_tree_generation,
            metadata_uuid: self.metadata_uuid,
            nr_global_roots: self.nr_global_roots,
            sys_chunk_array: self.sys_chunk_array@,
        }
    }
}

/// The key stored at offset `off` of `s`.
pub open spec fn spec_parse_disk_key(s: Seq<u8>, off: int) -> btrfs_disk_key {
    btrfs_disk_key {
        objectid: spec_le64(s, off),
        item_type: s[off + 8],
        offset: spec_le64(s, off + 9),
    }
}

/// The leaf item record stored at offset `off` of `s`.
pub open spec fn spec_parse_item(s: Seq<u8>, off: int) -> btrfs_item {
    btrfs_item {
        key: spec_parse_disk_key(s, off),
        offset: spec_le32(s, off + 17),
        size: spec_le32(s, off + 21),
    }
}

/// The key-pointer record stored at offset `off` of `s`.
pub open spec fn spec_parse_key_ptr(s: Seq<u8>, off: int) -> btrfs_key_ptr {
    btrfs_key_ptr {
        key: spec_parse_disk_key(s, off),
        blockptr: spec_le64(s, off + 17),
        generation: spec_le64(s, off + 25),
    }
}

/// The tree-block header stored at offset `off` of `s`.
pub open spec fn spec_parse_header(s: Seq<u8>, off: int) -> btrfs_header {
    btrfs_header {
        fsid: spec_le128(s, off + 32),
        bytenr: spec_le64(s, off + 48),
        flags: spec_le64(s, off + 56),
        chunk_tree_uuid: spec_le128(s, off + 64),
        generation: spec_le64(s, off + 80),
        owner: spec_le64(s, off + 88),
        nritems: spec_le32(s, off + 96),
        level: s[off + 100],
    }
}

/// The stripe record stored at offset `off` of `s`.
pub open spec fn spec_parse_stripe(s: Seq<u8>, off: int) -> btrfs_stripe {
    btrfs_stripe {
        devid: spec_le64(s, off),
        offset: spec_le64(s, off + 8),
        dev_uuid: spec_le128(s, off + 16),
    }
}

/// The chunk record header stored at offset `off` of `s`.
pub open spec fn spec_parse_chunk(s: Seq<u8>, off: int) -> btrfs_chunk {
    btrfs_chunk {
        length: spec_le64(s, off),
        owner: spec_le64(s, off + 8),
        stripe_len: spec_le64(s, off + 16),
        type_: spec_le64(s, off + 24),
        io_align: spec_le32(s, off + 32),
        io_width: spec_le32(s, off + 36),
        sector_size: spec_le32(s, off + 40),
        num_stripes: spec_le16(s, off + 44),
        sub_stripes: spec_le16(s, off + 46),
    }
}

/// The device item stored at offset `off` of `s`.
pub open spec fn spec_parse_dev_item(s: Seq<u8>, off: int) -> btrfs_dev_item {
    btrfs_dev_item {
        devid: spec_le64(s, off),
        total_bytes: spec_le64(s, off + 8),
        bytes_used: spec_le64(s, off + 16),
        io_align: spec_le32(s, off + 24),
        io_width: spec_le32(s, off + 28),
        sector_size: spec_le32(s, off + 32),
        type_: spec_le64(s, off + 36),
        generation: spec_le64(s, off + 44),
        start_offset: spec_le64(s, off + 52),
        dev_group: spec_le32(s, off + 60),
        seek_speed: s[off + 64],
        bandwidth: s[off + 65],
        uuid: spec_le128(s, off + 66),
        fsid: spec_le128(s, off + 82),
    }
}

pub open spec fn spec_parse_timespec(s: Seq<u8>, off: int) -> btrfs_timespec {
    btrfs_timespec { sec: spec_le64(s, off), nsec: spec_le32(s, off + 8) }
}

pub open spec fn spec_parse_inode_item(s: Seq<u8>, off: int) -> btrfs_inode_item {
    btrfs_inode_item {
        generation: spec_le64(s, off),
        transid: spec_le64(s, off + 8),
        size: spec_le64(s, off + 16),
        nbytes: spec_le64(s, off + 24),
        block_group: spec_le64(s, off + 32),
        nlink: spec_le32(s, off + 40),
        uid: spec_le32(s, off + 44),
        gid: spec_le32(s, off + 48),
        mode: spec_le32(s, off + 52),
        rdev: spec_le64(s, off + 56),
        flags: spec_le64(s, off + 64),
        sequence: spec_le64(s, off + 72),
        atime: spec_parse_timespec(s, off + 112),
        ctime: spec_parse_timespec(s, off + 124),
        mtime: spec_parse_timespec(s, off + 136),
        otime: spec_parse_timespec(s, off + 148),
    }
}

pub open spec fn spec_parse_root_item(s: Seq<u8>, off: int) -> btrfs_root_item {
    btrfs_root_item {
        inode: spec_parse_inode_item(s, off),
        generation: spec_le64(s, off + 160),
        root_dirid: spec_le64(s, off + 168),
        bytenr: spec_le64(s, off + 176),
        byte_limit: spec_le64(s, off + 184),
        bytes_used: spec_le64(s, off + 192),
        last_snapshot: spec_le64(s, off + 200),
        flags: spec_le64(s, off + 208),
        refs: spec_le32(s, off + 216),
        drop_progress: spec_parse_disk_key(s, off + 220),
        drop_level: s[off + 237],
        level: s[off + 238],
        generation_v2: spec_le64(s, off + 239),
        uuid: spec_le128(s, off + 247),
        parent_uuid: spec_le128(s, off + 263),
        received_uuid: spec_le128(s, off + 279),
        ctransid: spec_le64(s, off + 295),
        otransid: spec_le64(s, off + 303),
        stransid: spec_le64(s, off + 311),
        rtransid: spec_le64(s, off + 319),
        ctime: spec_parse_timespec(s, off + 327),
        otime: spec_parse_timespec(s, off + 339),
        stime: spec_parse_timespec(s, off + 351),
        rtime: spec_parse_timespec(s, off + 363),
        global_tree_id: spec_le64(s, off + 375),
    }
}

pub open spec fn spec_parse_root_ref(s: Seq<u8>, off: int) -> btrfs_root_ref {
    btrfs_root_ref {
        dirid: spec_le64(s, off),
        sequence: spec_le64(s, off + 8),
        name_len: spec_le16(s, off + 16),
    }
}

pub open spec fn spec_parse_extent_item(s: Seq<u8>, off: int) -> btrfs_extent_item {
    btrfs_extent_item {
        refs: spec_le64(s, off),
        generation: spec_le64(s, off + 8),
        flags: spec_le64(s, off + 16),
    }
}

pub open spec fn spec_parse_root_backup(s: Seq<u8>, off: int) -> btrfs_root_backup {
    btrfs_root_backup {
        tree_root: spec_le64(s, off),
        tree_root_gen: spec_le64(s, off + 8),
        chunk_root: spec_le64(s, off + 16),
        chunk_root_gen: spec_le64(s, off + 24),
        extent_root: spec_le64(s, off + 32),
        extent_root_gen: spec_le64(s, off + 40),
        fs_root: spec_le64(s, off + 48),
        fs_root_gen: spec_le64(s, off + 56),
        dev_root: spec_le64(s, off + 64),
        dev_root_gen: spec_le64(s, off + 72),
        csum_root: spec_le64(s, off + 80),
        csum_root_gen: spec_le64(s, off + 88),
        total_bytes: spec_le64(s, off + 96),
        bytes_used: spec_le64(s, off + 104),
        num_devices: spec_le64(s, off + 112),
        tree_root_level: s[off + 152],
        chunk_root_level: s[off + 153],
        extent_root_level: s[off + 154],
        fs_root_level: s[off + 155],
        dev_root_level: s[off + 156],
        csum_root_level: s[off + 157],
    }
}

/// The superblock record stored at offset `off` of `s`.
pub open spec fn spec_parse_super_block(s: Seq<u8>, off: int) -> SuperBlockView {
    SuperBlockView {
        fsid: spec_le128(s, off + 32),
        bytenr: spec_le64(s, off + 48),
        flags: spec_le64(s, off + 56),
        magic: spec_le64(s, off + 64),
        generation: spec_le64(s, off + 72),
        root: spec_le64(s, off + 80),
        chunk_root: spec_le64(s, off + 88),
        log_root: spec_le64(s, off + 96),
        total_bytes: spec_le64(s, off + 112),
        bytes_used: spec_le64(s, off + 120),
        root_dir_object_id: spec_le64(s, off + 128),
        num_devices: spec_le64(s, off + 136),
        sectorsize: spec_le32(s, off + 144),
        nodesize: spec_le32(s, off + 148),
        stripesize: spec_le32(s, off + 156),
        sys_chunk_array_size: spec_le32(s, off + 160),
        chunk_root_generation: spec_le64(s, off + 164),
        compat_flags: spec_le64(s, off + 172),
        compat_ro_flags: spec_le64(s, off + 180),
        incompat_flags: spec_le64(s, off + 188),
        csum_type: spec_le16(s, off + 196),
        root_level: s[off + 198],
        chunk_root_level: s[off + 199],
        log_root_level: s[off + 200],
        dev_item: spec_parse_dev_item(s, off + 201),
        cache_generation: spec_le64(s, off + 555),
        uuid_tree_generation: spec_le64(s, off + 563),
        metadata_uuid: spec_le128(s, off + 571),
        nr_global_roots: spec_le64(s, off + 587),
        sys_chunk_array: s.subrange(off + 811, off + 811 + 2048),
    }
}

/// Decodes the key at `off`.
pub fn parse_disk_key(b: &[u8], off: usize) -> (r: btrfs_disk_key)
    requires
        off + BTRFS_DISK_KEY_SIZE <= b@.len(),
    ensures
        r == spec_parse_disk_key(b@, off as int),
{
    let n: usize = b.len();
    assert(off + 17 <= n);
    btrfs_disk_key {
        objectid: le64(b, off),
        item_type: byte_at(b, off + 8),
        offset: le64(b, off + 9),
    }
}

/// Decodes the leaf item record at `off`.
pub fn parse_item(b: &[u8], off: usize) -> (r: btrfs_item)
    requires
        off + BTRFS_ITEM_SIZE <= b@.len(),
    ensures
        r == spec_parse_item(b@, off as int),
{
    let n: usize = b.len();
    assert(off + 25 <= n);
    btrfs_item {
        key: parse_disk_key(b, off),
        offset: le32(b, off + 17),
        size: le32(b, off + 21),
    }
}

/// Decodes the key-pointer record at `off`.
pub fn parse_key_ptr(b: &[u8], off: usize) -> (r: btrfs_key_ptr)
    requires
        off + BTRFS_KEY_PTR_SIZE <= b@.len(),
    ensures
        r == spec_parse_key_ptr(b@, off as int),
{
    let n: usize = b.len();
    assert(off + 33 <= n);
    btrfs_key_ptr {
        key: parse_disk_key(b, off),
        blockptr: le64(b, off + 17),
        generation: le64(b, off + 25),
    }
}

/// Decodes the tree-block header at `off`.
pub fn parse_header(b: &[u8], off: usize) -> (r: btrfs_header)
    requires
        off + BTRFS_HEADER_SIZE <= b@.len(),
    ensures
        r == spec_parse_header(b@, off as int),
{
    let n: usize = b.len();
    assert(off + 101 <= n);
    btrfs_header {
        fsid: le128(b, off + 32),
        bytenr: le64(b, off + 48),
        flags: le64(b, off + 56),
        chunk_tree_uuid: le128(b, off + 64),
        generation: le64(b, off + 80),
        owner: le64(b, off + 88),
        nritems: le32(b, off + 96),
        level: byte_at(b, off + 100),
    }
}

/// Decodes the stripe record at `off`.
pub fn parse_stripe(b: &[u8], off: usize) -> (r: btrfs_stripe)
    requires
        off + BTRFS_STRIPE_SIZE <= b@.len(),
    ensures
        r == spec_parse_stripe(b@, off as int),
{
    let n: usize = b.len();
    assert(off + 32 <= n);
    btrfs_stripe {
        devid: le64(b, off),
        offset: le64(b, off + 8),
        dev_uuid: le128(b, off + 16),
    }
}

/// Decodes the chunk record header at `off`.
pub fn parse_chunk(b: &[u8], off: usize) -> (r: btrfs_chunk)
    requires
        off + BTRFS_CHUNK_SIZE <= b@.len(),
    ensures
        r == spec_parse_chunk(b@, off as int),
{
    let n: usize = b.len();
    assert(off + 48 <= n);
    btrfs_chunk {
        length: le64(b, off),
        owner: le64(b, off + 8),
        stripe_len: le64(b, off + 16),
        type_: le64(b, off + 24),
        io_align: le32(b, off + 32),
        io_width: le32(b, off + 36),
        sector_size: le32(b, off + 40),
        num_stripes: le16(b, off + 44),
        sub_stripes: le16(b, off + 46),
    }
}

/// Decodes the device item at `off`.
pub fn parse_dev_item(b: &[u8], off: usize) -> (r: btrfs_dev_item)
    requires
        off + BTRFS_DEV_ITEM_SIZE <= b@.len(),
    ensures
        r == spec_parse_dev_item(b@, off as int),
{
    let n: usize = b.len();
    assert(off + 98 <= n);
    btrfs_dev_item {
        devid: le64(b, off),
        total_bytes: le64(b, off + 8),
        bytes_used: le64(b, off + 16),
        io_align: le32(b, off + 24),
        io_width: le32(b, off + 28),
        sector_size: le32(b, off + 32),
        type_: le64(b, off + 36),
        generation: le64(b, off + 44),
        start_offset: le64(b, off + 52),
        dev_group: le32(b, off + 60),
        seek_speed: byte_at(b, off + 64),
        bandwidth: byte_at(b, off + 65),
        uuid: le128(b, off + 66),
        fsid: le128(b, off + 82),
    }
}

/// Decodes the timespec at `off`.
pub fn parse_timespec(b: &[u8], off: usize) -> (r: btrfs_timespec)
    requires
        off + BTRFS_TIMESPEC_SIZE <= b@.len(),
    ensures
        r == spec_parse_timespec(b@, off as int),
{
    let n: usize = b.len();
    assert(off + 12 <= n);
    btrfs_timespec { sec: le64(b, off), nsec: le32(b, off + 8) }
}

/// Decodes the inode item at `off`.
pub fn parse_inode_item(b: &[u8], off: usize) -> (r: btrfs_inode_item)
    requires
        off + BTRFS_INODE_ITEM_SIZE <= b@.len(),
    ensures
        r == spec_parse_inode_item(b@, off as int),
{
    let n: usize = b.len();
    assert(off + 160 <= n);
    btrfs_inode_item {
        generation: le64(b, off),
        transid: le64(b, off + 8),
        size: le64(b, off + 16),
        nbytes: le64(b, off + 24),
        block_group: le64(b, off + 32),
        nlink: le32(b, off + 40),
        uid: le32(b, off + 44),
        gid: le32(b, off + 48),
        mode: le32(b, off + 52),
        rdev: le64(b, off + 56),
        flags: le64(b, off + 64),
        sequence: le64(b, off + 72),
        atime: parse_timespec(b, off + 112),
        ctime: parse_timespec(b, off + 124),
        mtime: parse_timespec(b, off + 136),
        otime: parse_timespec(b, off + 148),
    }
}

/// Decodes the root item at `off`.
pub fn parse_root_item(b: &[u8], off: usize) -> (r: btrfs_root_item)
    requires
        off + BTRFS_ROOT_ITEM_SIZE <= b@.len(),
    ensures
        r == spec_parse_root_item(b@, off as int),
{
    let n: usize = b.len();
    assert(off + 439 <= n);
    btrfs_root_item {
        inode: parse_inode_item(b, off),
        generation: le64(b, off + 160),
        root_dirid: le64(b, off + 168),
        bytenr: le64(b, off + 176),
        byte_limit: le64(b, off + 184),
        bytes_used: le64(b, off + 192),
        last_snapshot: le64(b, off + 200),
        flags: le64(b, off + 208),
        refs: le32(b, off + 216),
        drop_progress: parse_disk_key(b, off + 220),
        drop_level: byte_at(b, off + 237),
        level: byte_at(b, off + 238),
        generation_v2: le64(b, off + 239),
        uuid: le128(b, off + 247),
        parent_uuid: le128(b, off + 263),
        received_uuid: le128(b, off + 279),
        ctransid: le64(b, off + 295),
        otransid: le64(b, off + 303),
        stransid: le64(b, off + 311),
        rtransid: le64(b, off + 319),
        ctime: parse_timespec(b, off + 327),
        otime: parse_timespec(b, off + 339),
        stime: parse_timespec(b, off + 351),
        rtime: parse_timespec(b, off + 363),
        global_tree_id: le64(b, off + 375),
    }
}

/// Decodes the fixed head of a root ref at `off`.
pub fn parse_root_ref(b: &[u8], off: usize) -> (r: btrfs_root_ref)
    requires
        off + BTRFS_ROOT_REF_SIZE <= b@.len(),
    ensures
        r == spec_parse_root_ref(b@, off as int),
{
    let n: usize = b.len();
    assert(off + 18 <= n);
    btrfs_root_ref {
        dirid: le64(b, off),
        sequence: le64(b, off + 8),
        name_len: le16(b, off + 16),
    }
}

/// Decodes the extent item at `off`.
pub fn parse_extent_item(b: &[u8], off: usize) -> (r: btrfs_extent_item)
    requires
        off + BTRFS_EXTENT_ITEM_SIZE <= b@.len(),
    ensures
        r == spec_parse_extent_item(b@, off as int),
{
    let n: usize = b.len();
    assert(off + 24 <= n);
    btrfs_extent_item {
        refs: le64(b, off),
        generation: le64(b, off + 8),
        flags: le64(b, off + 16),
    }
}

/// Decodes the backup root slot at `off`.
pub fn parse_root_backup(b: &[u8], off: usize) -> (r: btrfs_root_backup)
    requires
        off + BTRFS_ROOT_BACKUP_SIZE <= b@.len(),
    ensures
        r == spec_parse_root_backup(b@, off as int),
{
    let n: usize = b.len();
    assert(off + 168 <= n);
    btrfs_root_backup {
        tree_root: le64(b, off),
        tree_root_gen: le64(b, off + 8),
        chunk_root: le64(b, off + 16),
        chunk_root_gen: le64(b, off + 24),
        extent_root: le64(b, off + 32),
        extent_root_gen: le64(b, off + 40),
        fs_root: le64(b, off + 48),
        fs_root_gen: le64(b, off + 56),
        dev_root: le64(b, off + 64),
        dev_root_gen: le64(b, off + 72),
        csum_root: le64(b, off + 80),
        csum_root_gen: le64(b, off + 88),
        total_bytes: le64(b, off + 96),
        bytes_used: le64(b, off + 104),
        num_devices: le64(b, off + 112),
        tree_root_level: byte_at(b, off + 152),
        chunk_root_level: byte_at(b, off + 153),
        extent_root_level: byte_at(b, off + 154),
        fs_root_level: byte_at(b, off + 155),
        dev_root_level: byte_at(b, off + 156),
        csum_root_level: byte_at(b, off + 157),
    }
}

/// Decodes the superblock record at `off`.
pub fn parse_super_block(b: &[u8], off: usize) -> (r: btrfs_super_block)
    requires
        off + BTRFS_SUPER_INFO_SIZE <= b@.len(),
    ensures
        r@ == spec_parse_super_block(b@, off as int),
{
    let n: usize = b.len();
    assert(off + 4096 <= n);
    btrfs_super_block {
        fsid: le128(b, off + 32),
        bytenr: le64(b, off + 48),
        flags: le64(b, off + 56),
        magic: le64(b, off + 64),
        generation: le64(b, off + 72),
        root: le64(b, off + 80),
        chunk_root: le64(b, off + 88),
        log_root: le64(b, off + 96),
        total_bytes: le64(b, off + 112),
        bytes_used: le64(b, off + 120),
        root_dir_object_id: le64(b, off + 128),
        num_devices: le64(b, off + 136),
        sectorsize: le32(b, off + 144),
        nodesize: le32(b, off + 148),
        stripesize: le32(b, off + 156),
        sys_chunk_array_size: le32(b, off + 160),
        chunk_root_generation: le64(b, off + 164),
        compat_flags: le64(b, off + 172),
        compat_ro_flags: le64(b, off + 180),
        incompat_flags: le64(b, off + 188),
        csum_type: le16(b, off + 196),
        root_level: byte_at(b, off + 198),
        chunk_root_level: byte_at(b, off + 199),
        log_root_level: byte_at(b, off + 200),
        dev_item: parse_dev_item(b, off + 201),
        cache_generation: le64(b, off + 555),
        uuid_tree_generation: le64(b, off + 563),
        metadata_uuid: le128(b, off + 571),
        nr_global_roots: le64(b, off + 587),
        sys_chunk_array: sub_bytes(b, off + 811, 2048),
    }
}

} // verus!
