use vstd::prelude::*;
use vstd::bytes::{spec_u32_to_le_bytes, u32_to_le_bytes};
use crate::codec::{bytes_eq, sub_bytes};
use crate::error::BtrfsError;
use crate::address::{spec_block_valid, spec_bootstrap_block};
use crate::btrfs_node::{spec_leaf_item, spec_leaf_item_data, spec_leaf_item_ok};
use crate::structures::{
    btrfs_disk_key, btrfs_chunk, btrfs_stripe, btrfs_super_block, SuperBlockView,
    parse_root_item, parse_super_block, parse_disk_key, parse_chunk, parse_stripe,
    spec_parse_root_item, spec_parse_super_block, spec_parse_disk_key, spec_parse_chunk,
    spec_parse_stripe, BTRFS_MAGIC, BTRFS_SUPER_INFO_OFFSET, BTRFS_SUPER_INFO_SIZE,
    BTRFS_CSUM_SIZE, BTRFS_DISK_KEY_SIZE, BTRFS_CHUNK_SIZE, BTRFS_ROOT_ITEM_SIZE,
    BTRFS_STRIPE_SIZE, BTRFS_FIRST_CHUNK_TREE_OBJECTID,
    CSUM_TYPE_CRC32, ITEM_TYPE_CHUNK_ITEM, ITEM_TYPE_ROOT_ITEM,
};
use crate::tree::{spec_key_le, BtrfsTreeIter, NodeSearchOption};

verus! {

/// The CRC-32C (Castagnoli) checksum of a byte sequence. The value is fixed
/// by the published algorithm and depends on the bytes alone; the library
/// does not restate the algorithm but checks it against a known vector in
/// its tests.
pub uninterp spec fn crc32c_of(data: Seq<u8>) -> u32;

/// Relies on `crc::Crc::<u32>::checksum` with the `CRC_32_ISCSI` parameters
/// from the crc crate: the CRC-32C checksum of the input, a pure function of
/// the input bytes.
#[verifier::external_body]
fn crc32c(data: &[u8]) -> (r: u32)
    ensures
        r == crc32c_of(data@),
{
    crc::Crc::<u32>::new(&crc::CRC_32_ISCSI).checksum(data)
}

/// The fixed-width 32-byte checksum buffer that encodes a CRC-32C value:
/// the four value bytes little-endian first, the remainder zero.
pub open spec fn spec_csum_bytes(c: u32) -> Seq<u8> {
    spec_u32_to_le_bytes(c) + Seq::new(28, |i: int| 0u8)
}

/// Computes the 32-byte CRC-32C checksum buffer of `buf`.
pub fn csum_data_crc32(buf: &[u8]) -> (r: Vec<u8>)
    ensures
        r@ == spec_csum_bytes(crc32c_of(buf@)),
{
    let c = crc32c(buf);
    let mut ret = u32_to_le_bytes(c);
    let mut i: usize = 0;
    while i < 28
        invariant
            0 <= i <= 28,
            ret@ == spec_u32_to_le_bytes(c) + Seq::new(i as nat, |j: int| 0u8),
        decreases 28 - i,
    {
        ret.push(0u8);
        i = i + 1;
        assert(ret@ =~= spec_u32_to_le_bytes(c) + Seq::new(i as nat, |j: int| 0u8));
    }
    ret
}

/// Computes the 32-byte checksum of `buf` under the named algorithm.
/// Only CRC-32C is implemented; any other algorithm tag is refused.
pub fn csum_data(buf: &[u8], csum_type: u16) -> (r: Result<Vec<u8>, BtrfsError>)
    ensures
        r is Ok <==> csum_type == CSUM_TYPE_CRC32,
        r matches Ok(c) ==> c@ == spec_csum_bytes(crc32c_of(buf@)),
        r matches Err(e) ==> e == BtrfsError::Unsupported,
{
    if csum_type == CSUM_TYPE_CRC32 {
        Ok(csum_data_crc32(buf))
    } else {
        Err(BtrfsError::Unsupported)
    }
}

/// Whether the 4096 bytes at `off` of `dev` form a valid superblock: the
/// record fits on the device, the magic matches, the algorithm tag names
/// CRC-32C, the stored checksum equals the checksum of bytes [32..4096) of
/// the record, and the size fields are nonzero.
pub open spec fn spec_sb_valid(dev: Seq<u8>, off: int) -> bool {
    let sb = spec_parse_super_block(dev, off);
    &&& 0 <= off
    &&& off + BTRFS_SUPER_INFO_SIZE <= dev.len()
    &&& sb.magic == BTRFS_MAGIC
    &&& sb.csum_type == CSUM_TYPE_CRC32
    &&& dev.subrange(off, off + BTRFS_CSUM_SIZE as int) == spec_csum_bytes(
        crc32c_of(dev.subrange(off + BTRFS_CSUM_SIZE as int, off + BTRFS_SUPER_INFO_SIZE as int)),
    )
    &&& sb.total_bytes != 0
    &&& sb.num_devices != 0
    &&& sb.sectorsize != 0
    &&& sb.nodesize != 0
    &&& sb.stripesize != 0
}

/// The error that loading the superblock at `off` reports, in the order the
/// checks are made, or `None` when it is valid.
pub open spec fn spec_sb_load_err(dev: Seq<u8>, off: int) -> Option<BtrfsError> {
    let sb = spec_parse_super_block(dev, off);
    if !(0 <= off && off + BTRFS_SUPER_INFO_SIZE <= dev.len()) {
        Some(BtrfsError::Bounds)
    } else if sb.magic != BTRFS_MAGIC {
        Some(BtrfsError::SchemaViolation)
    } else if sb.csum_type != CSUM_TYPE_CRC32 {
        Some(BtrfsError::Unsupported)
    } else if dev.subrange(off, off + BTRFS_CSUM_SIZE as int) != spec_csum_bytes(
        crc32c_of(dev.subrange(off + BTRFS_CSUM_SIZE as int, off + BTRFS_SUPER_INFO_SIZE as int)),
    ) {
        Some(BtrfsError::SchemaViolation)
    } else if sb.total_bytes == 0 || sb.num_devices == 0 || sb.sectorsize == 0 || sb.nodesize == 0
        || sb.stripesize == 0 {
        Some(BtrfsError::SchemaViolation)
    } else {
        None
    }
}

/// Loads and validates the superblock record at byte offset `offset` of the
/// device image.
pub fn load_sb_at(data: &[u8], offset: u64) -> (r: Result<btrfs_super_block, BtrfsError>)
    ensures
        r is Ok <==> spec_sb_valid(data@, offset as int),
        r matches Ok(sb) ==> sb@ == spec_parse_super_block(data@, offset as int),
        r matches Err(e) ==> Some(e) == spec_sb_load_err(data@, offset as int),
{
    let n: usize = data.len();
    if offset > u64::MAX - BTRFS_SUPER_INFO_SIZE as u64 || offset + BTRFS_SUPER_INFO_SIZE as u64
        > n as u64 {
        return Err(BtrfsError::Bounds);
    }
    let off = offset as usize;
    assert(off + BTRFS_SUPER_INFO_SIZE <= n);
    let sb = parse_super_block(data, off);
    if sb.magic != BTRFS_MAGIC {
        return Err(BtrfsError::SchemaViolation);
    }
    if sb.csum_type != CSUM_TYPE_CRC32 {
        return Err(BtrfsError::Unsupported);
    }
    let stored = sub_bytes(data, off, BTRFS_CSUM_SIZE);
    let body = sub_bytes(data, off + BTRFS_CSUM_SIZE, BTRFS_SUPER_INFO_SIZE - BTRFS_CSUM_SIZE);
    let computed = csum_data_crc32(body.as_slice());
    if !bytes_eq(stored.as_slice(), computed.as_slice()) {
        return Err(BtrfsError::SchemaViolation);
    }
    if sb.total_bytes == 0 {
        return Err(BtrfsError::SchemaViolation);
    }
    if sb.num_devices == 0 {
        return Err(BtrfsError::SchemaViolation);
    }
    if sb.sectorsize == 0 {
        return Err(BtrfsError::SchemaViolation);
    }
    if sb.nodesize == 0 {
        return Err(BtrfsError::SchemaViolation);
    }
    if sb.stripesize == 0 {
        return Err(BtrfsError::SchemaViolation);
    }
    Ok(sb)
}

/// The device offset of superblock copy `k`: the primary at 65536, then the
/// mirrors at `0x4000 << (12 * k)`.
pub open spec fn spec_sb_mirror_offset(k: int) -> int {
    if k == 0 {
        65536
    } else if k == 1 {
        0x4000000
    } else {
        0x4000000000
    }
}

/// Whether superblock copy `k` fits on the device and validates.
pub open spec fn spec_mirror_usable(dev: Seq<u8>, k: int) -> bool {
    spec_sb_valid(dev, spec_sb_mirror_offset(k))
}

/// Whether any superblock copy of the device fits and validates.
pub open spec fn spec_sb_usable_any(dev: Seq<u8>) -> bool {
    spec_mirror_usable(dev, 0) || spec_mirror_usable(dev, 1) || spec_mirror_usable(dev, 2)
}

/// Folds one superblock copy into the running choice: copy `k` replaces the
/// current choice when it validates and no choice exists yet or it carries a
/// strictly higher generation. On equal generations the earlier copy wins.
pub open spec fn spec_better_sb(dev: Seq<u8>, cur: Option<SuperBlockView>, k: int) -> Option<
    SuperBlockView,
> {
    if spec_mirror_usable(dev, k) && (match cur {
        Option::Some(b) => spec_parse_super_block(dev, spec_sb_mirror_offset(k)).generation
            > b.generation,
        Option::None => true,
    }) {
        Some(spec_parse_super_block(dev, spec_sb_mirror_offset(k)))
    } else {
        cur
    }
}

/// The superblock copy that the loader chooses: of the copies that fit and
/// validate, the one with the highest generation, the earliest copy winning
/// ties. `None` when no copy validates.
pub open spec fn spec_best_sb(dev: Seq<u8>) -> Option<SuperBlockView> {
    spec_better_sb(dev, spec_better_sb(dev, spec_better_sb(dev, None, 0), 1), 2)
}

/// The chosen superblock of a device on which some copy validates; on other
/// devices, the parse of the primary region (no contract speaks of it
/// there).
pub open spec fn spec_chosen_sb(dev: Seq<u8>) -> SuperBlockView {
    match spec_best_sb(dev) {
        Option::Some(b) => b,
        Option::None => spec_parse_super_block(dev, spec_sb_mirror_offset(0)),
    }
}

/// Reads every superblock copy of one device image and returns the
/// freshest: of the copies that fit on the device and validate, the one
/// with the highest generation is chosen. Mirrors are only updated one at a
/// time on flash devices, so a torn primary with an intact mirror is still
/// loadable. When no copy validates, the primary's load error is reported.
pub fn load_sb(data: &[u8]) -> (r: Result<btrfs_super_block, BtrfsError>)
    ensures
        r is Ok <==> spec_sb_usable_any(data@),
        r matches Ok(sb) ==> Some(sb@) == spec_best_sb(data@),
        r matches Err(e) ==> Some(e) == spec_sb_load_err(data@, spec_sb_mirror_offset(0)),
{
    let mut best: Option<btrfs_super_block> = None;
    let mut primary_err = BtrfsError::SchemaViolation;
    match load_sb_at(data, BTRFS_SUPER_INFO_OFFSET) {
        Ok(sb) => {
            best = Some(sb);
        },
        Err(e) => {
            primary_err = e;
        },
    }
    proof {
        assert((match best {
            Option::Some(sb) => Some(sb@),
            Option::None => None::<SuperBlockView>,
        }) == spec_better_sb(data@, None, 0));
    }
    let mirror1: u64 = 0x4000000;
    match load_sb_at(data, mirror1) {
        Ok(sb) => {
            let better = match &best {
                Some(cur) => sb.generation > cur.generation,
                None => true,
            };
            if better {
                best = Some(sb);
            }
        },
        Err(_) => {},
    }
    proof {
        assert((match best {
            Option::Some(sb) => Some(sb@),
            Option::None => None::<SuperBlockView>,
        }) == spec_better_sb(data@, spec_better_sb(data@, None, 0), 1));
    }
    let mirror2: u64 = 0x4000000000;
    match load_sb_at(data, mirror2) {
        Ok(sb) => {
            let better = match &best {
                Some(cur) => sb.generation > cur.generation,
                None => true,
            };
            if better {
                best = Some(sb);
            }
        },
        Err(_) => {},
    }
    proof {
        assert((match best {
            Option::Some(sb) => Some(sb@),
            Option::None => None::<SuperBlockView>,
        }) == spec_best_sb(data@));
    }
    match best {
        Some(sb) => Ok(sb),
        None => Err(primary_err),
    }
}

/// Among the superblock copies of a device that validate, the loader's
/// choice exists, carries the maximum generation, and is itself one of the
/// valid copies.
pub proof fn lemma_best_sb_max_generation(dev: Seq<u8>)
    requires
        spec_sb_usable_any(dev),
    ensures
        spec_best_sb(dev) is Some,
        forall|k: int|
            0 <= k < 3 && spec_mirror_usable(dev, k) ==> spec_chosen_sb(dev).generation
                >= spec_parse_super_block(dev, spec_sb_mirror_offset(k)).generation,
        exists|k: int|
            0 <= k < 3 && spec_mirror_usable(dev, k) && spec_chosen_sb(dev)
                == spec_parse_super_block(dev, spec_sb_mirror_offset(k)),
{
    let b0 = spec_better_sb(dev, None, 0);
    let b1 = spec_better_sb(dev, b0, 1);
    let b2 = spec_better_sb(dev, b1, 2);
    assert(b2 is Some);
    let best = spec_chosen_sb(dev);
    assert forall|k: int| 0 <= k < 3 && spec_mirror_usable(dev, k) implies best.generation
        >= spec_parse_super_block(dev, spec_sb_mirror_offset(k)).generation by {
        if k == 0 {
            assert(b0 == Some(spec_parse_super_block(dev, spec_sb_mirror_offset(0))));
        } else if k == 1 {
            assert((match b1 {
                Option::Some(b) => b.generation >= spec_parse_super_block(
                    dev,
                    spec_sb_mirror_offset(1),
                ).generation,
                Option::None => false,
            }));
        }
    }
    if b2 == b1 {
        if b1 == b0 {
            assert(spec_mirror_usable(dev, 0) && best == spec_parse_super_block(
                dev,
                spec_sb_mirror_offset(0),
            ));
        } else {
            assert(spec_mirror_usable(dev, 1) && best == spec_parse_super_block(
                dev,
                spec_sb_mirror_offset(1),
            ));
        }
    } else {
        assert(spec_mirror_usable(dev, 2) && best == spec_parse_super_block(
            dev,
            spec_sb_mirror_offset(2),
        ));
    }
}

/// A device that belongs to the filesystem: its id and UUID as the chosen
/// superblock's device item gives them, and the raw image bytes.
pub struct DeviceInfo {
    pub devid: u64,
    pub dev_uuid: u128,
    pub data: Vec<u8>,
}

/// Mathematical view of a device: the same identifiers over the image as a
/// byte sequence.
pub struct DeviceInfoView {
    pub devid: u64,
    pub dev_uuid: u128,
    pub data: Seq<u8>,
}

impl View for DeviceInfo {
    type V = DeviceInfoView;

    open spec fn view(&self) -> DeviceInfoView {
        DeviceInfoView { devid: self.devid, dev_uuid: self.dev_uuid, data: self.data@ }
    }
}

/// One chunk record: its disk key (whose offset field is the chunk's virtual
/// start address), the chunk header, and the stripe vector.
pub struct ChunkInfo(pub btrfs_disk_key, pub btrfs_chunk, pub Vec<btrfs_stripe>);

/// Mathematical view of a chunk record.
pub struct ChunkInfoView {
    pub key: btrfs_disk_key,
    pub chunk: btrfs_chunk,
    pub stripes: Seq<btrfs_stripe>,
}

impl View for ChunkInfo {
    type V = ChunkInfoView;

    open spec fn view(&self) -> ChunkInfoView {
        ChunkInfoView { key: self.0, chunk: self.1, stripes: self.2@ }
    }
}

/// Copies a chunk record.
pub fn clone_chunk_info(c: &ChunkInfo) -> (r: ChunkInfo)
    ensures
        r@ == c@,
{
    let mut stripes: Vec<btrfs_stripe> = Vec::new();
    let n: usize = c.2.len();
    let mut i: usize = 0;
    while i < n
        invariant
            0 <= i <= n,
            n == c.2@.len(),
            stripes@ == c.2@.subrange(0, i as int),
        decreases n - i,
    {
        stripes.push(c.2[i]);
        i = i + 1;
        assert(stripes@ =~= c.2@.subrange(0, i as int));
    }
    assert(stripes@ =~= c.2@);
    ChunkInfo(c.0, c.1, stripes)
}

/// The stripe records laid out back to back at `pos`.
pub open spec fn spec_parse_stripes(s: Seq<u8>, pos: int, n: int) -> Seq<btrfs_stripe> {
    Seq::new(n as nat, |i: int| spec_parse_stripe(s, pos + BTRFS_STRIPE_SIZE * i))
}

/// The bootstrap chunk records packed in `s` between `pos` and `end`:
/// each is a disk key, a chunk header and `num_stripes` stripes. `None` when
/// the array is reached mid-record, a key is not a chunk-tree chunk item, or
/// a chunk has no stripes.
pub open spec fn spec_parse_sys_chunks(s: Seq<u8>, pos: int, end: int) -> Option<
    Seq<ChunkInfoView>,
>
    decreases end - pos,
{
    if pos == end {
        Some(Seq::empty())
    } else if !(0 <= pos < end && end <= s.len()) {
        None
    } else if pos + BTRFS_DISK_KEY_SIZE + BTRFS_CHUNK_SIZE > end {
        None
    } else {
        let key = spec_parse_disk_key(s, pos);
        let chunk = spec_parse_chunk(s, pos + BTRFS_DISK_KEY_SIZE);
        if key.objectid != BTRFS_FIRST_CHUNK_TREE_OBJECTID || key.item_type
            != ITEM_TYPE_CHUNK_ITEM {
            None
        } else if chunk.num_stripes == 0 {
            None
        } else if pos + BTRFS_DISK_KEY_SIZE + BTRFS_CHUNK_SIZE + BTRFS_STRIPE_SIZE
            * chunk.num_stripes > end {
            None
        } else {
            let head = ChunkInfoView {
                key,
                chunk,
                stripes: spec_parse_stripes(
                    s,
                    pos + BTRFS_DISK_KEY_SIZE + BTRFS_CHUNK_SIZE,
                    chunk.num_stripes as int,
                ),
            };
            match spec_parse_sys_chunks(
                s,
                pos + BTRFS_DISK_KEY_SIZE + BTRFS_CHUNK_SIZE + BTRFS_STRIPE_SIZE
                    * chunk.num_stripes,
                end,
            ) {
                Option::None => None,
                Option::Some(rest) => Some(Seq::empty().push(head) + rest),
            }
        }
    }
}

/// Parses the system chunk array: `size` bytes of densely packed chunk
/// records. It is an error for `size` to be reached mid-record, for a record
/// key not to be a chunk item of the chunk tree, or for a chunk to carry no
/// stripes.
pub fn parse_sys_chunk_array(array: &[u8], size: u32) -> (r: Result<Vec<ChunkInfo>, BtrfsError>)
    ensures
        r is Ok <==> spec_parse_sys_chunks(array@, 0, size as int) is Some,
        r matches Ok(v) ==> Some(v@.map_values(|c: ChunkInfo| c@)) == spec_parse_sys_chunks(
            array@,
            0,
            size as int,
        ),
        r matches Err(e) ==> e == BtrfsError::SchemaViolation,
{
    let n: usize = array.len();
    let end: u64 = size as u64;
    if end > n as u64 {
        return Err(BtrfsError::SchemaViolation);
    }
    let mut pos: usize = 0;
    let mut out: Vec<ChunkInfo> = Vec::new();
    proof {
        assert(out@.map_values(|c: ChunkInfo| c@) =~= Seq::<ChunkInfoView>::empty());
        match spec_parse_sys_chunks(array@, 0, size as int) {
            Option::Some(rest) => {
                assert(Seq::<ChunkInfoView>::empty() + rest =~= rest);
            },
            Option::None => {},
        }
    }
    while pos < size as usize
        invariant
            0 <= pos <= size,
            size <= n as u64,
            n == array@.len(),
            (match spec_parse_sys_chunks(array@, pos as int, size as int) {
                Option::Some(rest) => spec_parse_sys_chunks(array@, 0, size as int) == Some(
                    out@.map_values(|c: ChunkInfo| c@) + rest,
                ),
                Option::None => spec_parse_sys_chunks(array@, 0, size as int) is None,
            }),
        decreases size as int - pos as int,
    {
        let endu: usize = size as usize;
        if endu - pos < BTRFS_DISK_KEY_SIZE + BTRFS_CHUNK_SIZE {
            return Err(BtrfsError::SchemaViolation);
        }
        let key = parse_disk_key(array, pos);
        let chunk = parse_chunk(array, pos + BTRFS_DISK_KEY_SIZE);
        if key.objectid != BTRFS_FIRST_CHUNK_TREE_OBJECTID || key.item_type
            != ITEM_TYPE_CHUNK_ITEM {
            return Err(BtrfsError::SchemaViolation);
        }
        if chunk.num_stripes == 0 {
            return Err(BtrfsError::SchemaViolation);
        }
        let ns: usize = chunk.num_stripes as usize;
        let stripes_off: usize = pos + BTRFS_DISK_KEY_SIZE + BTRFS_CHUNK_SIZE;
        let avail: usize = endu - stripes_off;
        if (avail as u64) < (BTRFS_STRIPE_SIZE as u64) * (ns as u64) {
            return Err(BtrfsError::SchemaViolation);
        }
        assert(BTRFS_STRIPE_SIZE * ns <= avail);
        let rec_end: usize = stripes_off + BTRFS_STRIPE_SIZE * ns;
        let mut stripes: Vec<btrfs_stripe> = Vec::new();
        let mut j: usize = 0;
        while j < ns
            invariant
                0 <= j <= ns,
                n == array@.len(),
                stripes_off + BTRFS_STRIPE_SIZE * ns <= n,
                stripes@ == spec_parse_stripes(array@, stripes_off as int, ns as int).subrange(
                    0,
                    j as int,
                ),
            decreases ns - j,
        {
            assert(stripes_off + BTRFS_STRIPE_SIZE * j + BTRFS_STRIPE_SIZE <= n) by {
                assert(BTRFS_STRIPE_SIZE * (j + 1) <= BTRFS_STRIPE_SIZE * ns) by (nonlinear_arith)
                    requires j + 1 <= ns;
            };
            stripes.push(parse_stripe(array, stripes_off + BTRFS_STRIPE_SIZE * j));
            j = j + 1;
            assert(stripes@ =~= spec_parse_stripes(array@, stripes_off as int, ns as int)
                .subrange(0, j as int));
        }
        assert(stripes@ =~= spec_parse_stripes(array@, stripes_off as int, ns as int));
        let ghost prev_out = out@;
        let ghost prev_pos = pos as int;
        out.push(ChunkInfo(key, chunk, stripes));
        pos = rec_end;
        proof {
            let s = array@;
            let endi = size as int;
            let head = ChunkInfoView {
                key,
                chunk,
                stripes: spec_parse_stripes(s, prev_pos + 65, chunk.num_stripes as int),
            };
            assert(out@.map_values(|c: ChunkInfo| c@) =~= prev_out.map_values(
                |c: ChunkInfo| c@,
            ).push(head));
            match spec_parse_sys_chunks(s, pos as int, endi) {
                Option::Some(rest) => {
                    assert(spec_parse_sys_chunks(s, prev_pos, endi) == Some(
                        Seq::empty().push(head) + rest,
                    ));
                    assert(prev_out.map_values(|c: ChunkInfo| c@) + (Seq::empty().push(head)
                        + rest) =~= out@.map_values(|c: ChunkInfo| c@) + rest);
                },
                Option::None => {
                    assert(spec_parse_sys_chunks(s, prev_pos, endi) is None);
                },
            }
        }
    }
    proof {
        assert(spec_parse_sys_chunks(array@, pos as int, size as int) == Some(
            Seq::<ChunkInfoView>::empty(),
        ));
        assert(out@.map_values(|c: ChunkInfo| c@) + Seq::<ChunkInfoView>::empty() =~= out@
            .map_values(|c: ChunkInfo| c@));
    }
    Ok(out)
}

/// A cursor over the bootstrap chunk records embedded in a superblock's
/// system chunk array. The array is parsed whole on construction; the
/// records then come out one at a time, in array order.
pub struct SysChunkIter {
    chunks: Vec<ChunkInfo>,
    index: usize,
}

impl SysChunkIter {
    /// The parsed records.
    pub closed spec fn spec_chunks(self) -> Seq<ChunkInfoView> {
        self.chunks@.map_values(|c: ChunkInfo| c@)
    }

    /// How many records have already been handed out.
    pub closed spec fn spec_index(self) -> int {
        self.index as int
    }

    /// Parses the superblock's system chunk array into a cursor.
    pub fn new(sb: &btrfs_super_block) -> (r: Result<SysChunkIter, BtrfsError>)
        ensures
            r is Ok <==> spec_parse_sys_chunks(
                sb@.sys_chunk_array,
                0,
                sb@.sys_chunk_array_size as int,
            ) is Some,
            r matches Ok(it) ==> Some(it.spec_chunks()) == spec_parse_sys_chunks(
                sb@.sys_chunk_array,
                0,
                sb@.sys_chunk_array_size as int,
            ) && it.spec_index() == 0,
            r matches Err(e) ==> e == BtrfsError::SchemaViolation,
    {
        match parse_sys_chunk_array(sb.sys_chunk_array.as_slice(), sb.sys_chunk_array_size) {
            Ok(chunks) => Ok(SysChunkIter { chunks, index: 0 }),
            Err(e) => Err(e),
        }
    }

    /// Hands out the next record, or `None` when the array is exhausted.
    pub fn next(&mut self) -> (r: Option<ChunkInfo>)
        ensures
            final(self).spec_chunks() == old(self).spec_chunks(),
            old(self).spec_index() < old(self).spec_chunks().len() ==> {
                &&& final(self).spec_index() == old(self).spec_index() + 1
                &&& r matches Some(c) && c@ == old(self).spec_chunks()[old(self).spec_index()]
            },
            old(self).spec_index() >= old(self).spec_chunks().len() ==> r is None && final(self)
                .spec_index() == old(self).spec_index(),
    {
        if self.index < self.chunks.len() {
            let c = clone_chunk_info(&self.chunks[self.index]);
            self.index = self.index + 1;
            Some(c)
        } else {
            None
        }
    }
}

/// Everything the library knows about one loaded filesystem: its id, the
/// devices keyed by id and UUID, the chosen master superblock, and the
/// bootstrap chunks parsed from it.
pub struct FsInfo {
    pub fsid: u128,
    pub devices: Vec<DeviceInfo>,
    pub master_sb: btrfs_super_block,
    pub bootstrap_chunks: Vec<ChunkInfo>,
}

/// Mathematical view of a filesystem handle.
pub struct FsInfoView {
    pub fsid: u128,
    pub devices: Seq<DeviceInfoView>,
    pub master_sb: SuperBlockView,
    pub bootstrap_chunks: Seq<ChunkInfoView>,
}

impl View for FsInfo {
    type V = FsInfoView;

    open spec fn view(&self) -> FsInfoView {
        FsInfoView {
            fsid: self.fsid,
            devices: self.devices@.map_values(|d: DeviceInfo| d@),
            master_sb: self.master_sb@,
            bootstrap_chunks: self.bootstrap_chunks@.map_values(|c: ChunkInfo| c@),
        }
    }
}

impl FsInfo {
    /// Looks up the position of the device with the given id; the first
    /// match wins.
    pub fn device_by_id(&self, devid: u64) -> (r: Option<usize>)
        ensures
            r matches Some(i) ==> 0 <= i < self@.devices.len() && self@.devices[i as int].devid
                == devid && (forall|j: int| 0 <= j < i ==> self@.devices[j].devid != devid),
            r is None ==> forall|j: int|
                0 <= j < self@.devices.len() ==> self@.devices[j].devid != devid,
    {
        let n: usize = self.devices.len();
        let mut i: usize = 0;
        while i < n
            invariant
                0 <= i <= n,
                n == self@.devices.len(),
                forall|j: int| 0 <= j < i ==> self@.devices[j].devid != devid,
            decreases n - i,
        {
            if self.devices[i].devid == devid {
                return Some(i);
            }
            i = i + 1;
        }
        None
    }

    /// Looks up the position of the device with the given UUID; the first
    /// match wins.
    pub fn device_by_uuid(&self, dev_uuid: u128) -> (r: Option<usize>)
        ensures
            r matches Some(i) ==> 0 <= i < self@.devices.len() && self@.devices[i as int].dev_uuid
                == dev_uuid && (forall|j: int| 0 <= j < i ==> self@.devices[j].dev_uuid
                != dev_uuid),
            r is None ==> forall|j: int|
                0 <= j < self@.devices.len() ==> self@.devices[j].dev_uuid != dev_uuid,
    {
        let n: usize = self.devices.len();
        let mut i: usize = 0;
        while i < n
            invariant
                0 <= i <= n,
                n == self@.devices.len(),
                forall|j: int| 0 <= j < i ==> self@.devices[j].dev_uuid != dev_uuid,
            decreases n - i,
        {
            if self.devices[i].dev_uuid == dev_uuid {
                return Some(i);
            }
            i = i + 1;
        }
        None
    }
}

/// The views of a list of device images.
pub open spec fn spec_image_views(images: Seq<Vec<u8>>) -> Seq<Seq<u8>> {
    images.map_values(|v: Vec<u8>| v@)
}

/// Whether a list of device images loads into a filesystem handle: at least
/// one device, some superblock copy of every device validates, every chosen
/// superblock agrees with the first on the filesystem id and the device
/// count, every embedded device item carries that filesystem id, and the
/// first device's system chunk array parses.
pub open spec fn spec_load_fs_ok(devs: Seq<Seq<u8>>) -> bool {
    &&& devs.len() > 0
    &&& (forall|i: int|
        0 <= i < devs.len() ==> spec_sb_usable_any(#[trigger] devs[i]))
    &&& (forall|i: int|
        0 <= i < devs.len() ==> spec_chosen_sb(#[trigger] devs[i]).fsid == spec_chosen_sb(
            devs[0],
        ).fsid)
    &&& (forall|i: int|
        0 <= i < devs.len() ==> spec_chosen_sb(#[trigger] devs[i]).dev_item.fsid == spec_chosen_sb(
            devs[0],
        ).fsid)
    &&& (forall|i: int|
        0 <= i < devs.len() ==> spec_chosen_sb(#[trigger] devs[i]).num_devices == spec_chosen_sb(
            devs[0],
        ).num_devices)
    &&& spec_parse_sys_chunks(
        spec_chosen_sb(devs[0]).sys_chunk_array,
        0,
        spec_chosen_sb(devs[0]).sys_chunk_array_size as int,
    ) is Some
}

/// Builds the filesystem handle from raw device images: maps every device,
/// loads its freshest superblock, checks that all devices belong to the same
/// filesystem, and parses the bootstrap chunks once from the first device's
/// superblock. Every device's filesystem id — including the one embedded in
/// its device item — must equal the handle's.
#[verifier::loop_isolation(false)]
pub fn load_fs(images: Vec<Vec<u8>>) -> (r: Result<FsInfo, BtrfsError>)
    ensures
        r is Ok <==> spec_load_fs_ok(spec_image_views(images@)),
        r matches Ok(fs) ==> {
            let devs = spec_image_views(images@);
            &&& fs@.fsid == spec_chosen_sb(devs[0]).fsid
            &&& fs@.devices.len() == devs.len()
            &&& (forall|i: int|
                0 <= i < devs.len() ==> (#[trigger] fs@.devices[i]).data == devs[i])
            &&& (forall|i: int|
                0 <= i < devs.len() ==> (#[trigger] fs@.devices[i]).devid == spec_chosen_sb(
                    devs[i],
                ).dev_item.devid)
            &&& (forall|i: int|
                0 <= i < devs.len() ==> (#[trigger] fs@.devices[i]).dev_uuid == spec_chosen_sb(
                    devs[i],
                ).dev_item.uuid)
            &&& (forall|i: int|
                0 <= i < devs.len() ==> spec_chosen_sb(#[trigger] devs[i]).fsid == fs@.fsid
                    && spec_chosen_sb(devs[i]).dev_item.fsid == fs@.fsid)
            &&& fs@.master_sb == spec_chosen_sb(devs[devs.len() - 1])
            &&& Some(fs@.bootstrap_chunks) == spec_parse_sys_chunks(
                spec_chosen_sb(devs[0]).sys_chunk_array,
                0,
                spec_chosen_sb(devs[0]).sys_chunk_array_size as int,
            )
        },
{
    let ghost devs = spec_image_views(images@);
    let n: usize = images.len();
    if n == 0 {
        return Err(BtrfsError::SchemaViolation);
    }
    let mut rest = images;
    let mut out_devs: Vec<DeviceInfo> = Vec::new();
    let mut fsid: u128 = 0;
    let mut num_devices: u64 = 0;
    let mut bootstrap: Vec<ChunkInfo> = Vec::new();
    let mut master_sb_opt: Option<btrfs_super_block> = None;
    let mut idx: usize = 0;
    proof {
        assert(rest@.map_values(|v: Vec<u8>| v@) =~= devs.subrange(0, n as int));
    }
    while idx < n
        invariant
            0 <= idx <= n,
            n == devs.len(),
            rest@.map_values(|v: Vec<u8>| v@) == devs.subrange(idx as int, n as int),
            out_devs@.len() == idx,
            forall|i: int|
                0 <= i < idx ==> spec_sb_usable_any(#[trigger] devs[i]),
            forall|i: int|
                0 <= i < idx ==> (#[trigger] out_devs@[i])@.data == devs[i] && out_devs@[i]@.devid
                    == spec_chosen_sb(devs[i]).dev_item.devid && out_devs@[i]@.dev_uuid
                    == spec_chosen_sb(devs[i]).dev_item.uuid,
            idx > 0 ==> fsid == spec_chosen_sb(devs[0]).fsid,
            idx > 0 ==> num_devices == spec_chosen_sb(devs[0]).num_devices,
            forall|i: int|
                0 <= i < idx ==> spec_chosen_sb(#[trigger] devs[i]).fsid == spec_chosen_sb(
                    devs[0],
                ).fsid && spec_chosen_sb(devs[i]).dev_item.fsid == spec_chosen_sb(devs[0]).fsid
                    && spec_chosen_sb(devs[i]).num_devices == spec_chosen_sb(devs[0]).num_devices,
            idx > 0 ==> Some(bootstrap@.map_values(|c: ChunkInfo| c@)) == spec_parse_sys_chunks(
                spec_chosen_sb(devs[0]).sys_chunk_array,
                0,
                spec_chosen_sb(devs[0]).sys_chunk_array_size as int,
            ),
            idx > 0 ==> (master_sb_opt matches Some(sb) && sb@ == spec_chosen_sb(
                devs[idx - 1],
            )),
        decreases n - idx,
    {
        let ghost prev_rest = rest@;
        proof {
            assert(prev_rest.map_values(|v: Vec<u8>| v@).len() == prev_rest.len());
        }
        let img = rest.remove(0);
        proof {
            assert(prev_rest.map_values(|v: Vec<u8>| v@)[0] == img@);
            assert(img@ == devs[idx as int]);
            let mapped = rest@.map_values(|v: Vec<u8>| v@);
            assert forall|k: int| 0 <= k < mapped.len() implies mapped[k] == devs.subrange(
                idx + 1,
                n as int,
            )[k] by {
                assert(rest@[k] == prev_rest[k + 1]);
                assert(prev_rest.map_values(|v: Vec<u8>| v@)[k + 1] == devs.subrange(
                    idx as int,
                    n as int,
                )[k + 1]);
            }
            assert(rest@.map_values(|v: Vec<u8>| v@) =~= devs.subrange(idx + 1, n as int));
        }
        let sb = match load_sb(img.as_slice()) {
            Ok(s) => s,
            Err(e) => {
                proof {
                    assert(!spec_sb_usable_any(devs[idx as int]));
                    assert(!spec_load_fs_ok(devs));
                }
                return Err(e);
            },
        };
        if idx == 0 {
            fsid = sb.fsid;
            num_devices = sb.num_devices;
        } else {
            if sb.fsid != fsid {
                return Err(BtrfsError::SchemaViolation);
            }
            if sb.num_devices != num_devices {
                return Err(BtrfsError::SchemaViolation);
            }
        }
        if sb.dev_item.fsid != fsid {
            return Err(BtrfsError::SchemaViolation);
        }
        if idx == 0 {
            bootstrap = match parse_sys_chunk_array(
                sb.sys_chunk_array.as_slice(),
                sb.sys_chunk_array_size,
            ) {
                Ok(v) => v,
                Err(e) => {
                    return Err(e);
                },
            };
        }
        out_devs.push(
            DeviceInfo { devid: sb.dev_item.devid, dev_uuid: sb.dev_item.uuid, data: img },
        );
        master_sb_opt = Some(sb);
        idx = idx + 1;
    }
    let master_sb = match master_sb_opt {
        Some(sb) => sb,
        None => {
            proof {
                assert(false);
            }
            return Err(BtrfsError::SchemaViolation);
        },
    };
    Ok(FsInfo { fsid, devices: out_devs, master_sb, bootstrap_chunks: bootstrap })
}
impl FsInfo {
    /// Builds a range-search iterator over the tree rooted at `tree_root`.
    pub fn search_node<'b>(&'b self, tree_root: u64, options: &NodeSearchOption) -> (r:
        BtrfsTreeIter<'b>)
        requires
            spec_key_le(options.min_key, options.max_key),
        ensures
            r.inv(),
            r.spec_yielded() == Seq::<btrfs_disk_key>::empty(),
            r.spec_min_key() == options.min_key,
            r.spec_max_key() == options.max_key,
            r.spec_fs() == self@,
            r.spec_root() == tree_root,
            r.spec_fault() is None,
    {
        BtrfsTreeIter::new(self, tree_root, *options)
    }
}

/// Searches the root tree for the ROOT_ITEM of `tree_id` and returns the
/// virtual address of that tree's root block, read from the embedded root
/// item record.
pub fn tree_root_offset(fs: &FsInfo, tree_id: u64) -> (r: Option<u64>)
    ensures
        r matches Some(v) ==> exists|block: Seq<u8>, addr: u64, i: int|
            #![trigger spec_block_valid(fs@, addr, block), spec_leaf_item_ok(block, i)]
            {
                &&& spec_block_valid(fs@, addr, block)
                &&& spec_leaf_item_ok(block, i)
                &&& spec_leaf_item(block, i).key.objectid == tree_id
                &&& spec_leaf_item(block, i).key.item_type == ITEM_TYPE_ROOT_ITEM
                &&& spec_leaf_item(block, i).size == BTRFS_ROOT_ITEM_SIZE
                &&& v == spec_parse_root_item(spec_leaf_item_data(block, i), 0).bytenr
            },
        (fs@.master_sb.nodesize > 0 && fs@.master_sb.root as int % fs@.master_sb.nodesize as int
            == 0) ==> (spec_bootstrap_block(fs@, fs@.master_sb.root) matches Some(b0) ==> (
        crate::structures::spec_parse_header(b0, 0).level == 0 ==> (
        match crate::tree::spec_leaf_first_in_range(
            b0,
            btrfs_disk_key { objectid: tree_id, item_type: ITEM_TYPE_ROOT_ITEM, offset: 0 },
            btrfs_disk_key {
                objectid: tree_id,
                item_type: ITEM_TYPE_ROOT_ITEM,
                offset: u64::MAX,
            },
            0,
        ) {
            Option::Some(i) => r == (if spec_leaf_item(b0, i).size == BTRFS_ROOT_ITEM_SIZE {
                Some(spec_parse_root_item(spec_leaf_item_data(b0, i), 0).bytenr)
            } else {
                None::<u64>
            }),
            Option::None => r is None,
        }))),
{
    let root = fs.master_sb.root;
    let min_key = btrfs_disk_key {
        objectid: tree_id,
        item_type: ITEM_TYPE_ROOT_ITEM,
        offset: 0,
    };
    let max_key = btrfs_disk_key {
        objectid: tree_id,
        item_type: ITEM_TYPE_ROOT_ITEM,
        offset: u64::MAX,
    };
    let search = NodeSearchOption {
        min_key,
        max_key,
        min_match: core::cmp::Ordering::Less,
        max_match: core::cmp::Ordering::Greater,
    };
    let mut iter = BtrfsTreeIter::new(fs, root, search);
    match iter.next() {
        Some(t) => {
            assert(t.0.key.objectid == tree_id && t.0.key.item_type == ITEM_TYPE_ROOT_ITEM);
            if t.1.len() != BTRFS_ROOT_ITEM_SIZE {
                return None;
            }
            let root_item = parse_root_item(t.1.as_slice(), 0);
            proof {
                let block = choose|block: Seq<u8>|
                    {
                        &&& #[trigger] spec_block_valid(fs@, t.2, block)
                        &&& spec_leaf_item_ok(block, t.3 as int)
                        &&& t.0 == spec_leaf_item(block, t.3 as int)
                        &&& t.1@ == spec_leaf_item_data(block, t.3 as int)
                    };
                assert(spec_block_valid(fs@, t.2, block) && spec_leaf_item_ok(
                    block,
                    t.3 as int,
                ));
                assert(spec_leaf_item(block, t.3 as int).size == BTRFS_ROOT_ITEM_SIZE);
                assert(root_item.bytenr == spec_parse_root_item(
                    spec_leaf_item_data(block, t.3 as int),
                    0,
                ).bytenr);
            }
            Some(root_item.bytenr)
        },
        None => None,
    }
}

} // verus!
