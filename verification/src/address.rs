use vstd::prelude::*;
use crate::btrfs::{
    crc32c_of, csum_data, spec_csum_bytes, ChunkInfo, ChunkInfoView, DeviceInfoView, FsInfo,
    FsInfoView, spec_parse_stripes,
};
use crate::btrfs_node::{
    block_as_internal_node, block_as_leaf_node, spec_leaf_item, spec_leaf_item_data,
    spec_leaf_item_ok,
};
use crate::codec::{bytes_eq, sub_bytes};
use crate::error::BtrfsError;
use crate::structures::{
    btrfs_disk_key, btrfs_item, btrfs_key_ptr, btrfs_stripe, parse_chunk, parse_header,
    parse_stripe, spec_parse_header, BTRFS_CHUNK_SIZE, BTRFS_CSUM_SIZE,
    BTRFS_FIRST_CHUNK_TREE_OBJECTID, BTRFS_HEADER_SIZE, BTRFS_STRIPE_SIZE, CSUM_TYPE_CRC32,
    ITEM_TYPE_CHUNK_ITEM,
};
use crate::tree::{key_le, spec_key_le};

verus! {

/// Whether the chunk covers virtual address `virt`: the disk key's offset
/// field is the chunk's virtual start, and the chunk spans `length` bytes.
pub open spec fn spec_chunk_covers(ci: ChunkInfoView, virt: u64) -> bool {
    ci.key.offset <= virt < ci.key.offset + ci.chunk.length
}

/// The first chunk of the list that covers `virt`, if any; the bootstrap
/// list is scanned in order.
pub open spec fn spec_first_covering(chunks: Seq<ChunkInfoView>, virt: u64) -> Option<
    ChunkInfoView,
>
    decreases chunks.len(),
{
    if chunks.len() == 0 {
        None
    } else if spec_chunk_covers(chunks[0], virt) {
        Some(chunks[0])
    } else {
        spec_first_covering(chunks.drop_first(), virt)
    }
}

/// Whether some supplied device carries this id.
pub open spec fn spec_has_device(devs: Seq<DeviceInfoView>, devid: u64) -> bool {
    exists|j: int| 0 <= j < devs.len() && devs[j].devid == devid
}

/// The physical offset of `virt` on stripe `s` of a chunk starting at
/// `start`: the stripe offset plus the distance into the chunk.
pub open spec fn spec_stripe_phys(s: btrfs_stripe, start: u64, virt: u64) -> int {
    virt - start + s.offset
}

/// Whether a stripe can serve `virt`: its device was supplied and the
/// physical offset does not run off the end of the address space.
pub open spec fn spec_stripe_usable(
    devs: Seq<DeviceInfoView>,
    s: btrfs_stripe,
    start: u64,
    virt: u64,
) -> bool {
    spec_has_device(devs, s.devid) && spec_stripe_phys(s, start, virt) <= u64::MAX
}

/// Whether stripe `si` is the first usable stripe of the vector.
pub open spec fn spec_is_first_usable(
    devs: Seq<DeviceInfoView>,
    stripes: Seq<btrfs_stripe>,
    start: u64,
    virt: u64,
    si: int,
) -> bool {
    &&& 0 <= si < stripes.len()
    &&& spec_stripe_usable(devs, stripes[si], start, virt)
    &&& forall|k: int| 0 <= k < si ==> !spec_stripe_usable(devs, stripes[k], start, virt)
}

/// The (device id, physical offset) pairs of every usable stripe, in stripe
/// order.
pub open spec fn spec_reachable_pairs(
    devs: Seq<DeviceInfoView>,
    stripes: Seq<btrfs_stripe>,
    start: u64,
    virt: u64,
) -> Seq<(u64, u64)>
    decreases stripes.len(),
{
    if stripes.len() == 0 {
        Seq::empty()
    } else {
        let rest = spec_reachable_pairs(devs, stripes.drop_first(), start, virt);
        if spec_stripe_usable(devs, stripes[0], start, virt) {
            Seq::empty().push(
                (stripes[0].devid, spec_stripe_phys(stripes[0], start, virt) as u64),
            ) + rest
        } else {
            rest
        }
    }
}

/// Whether `bytes` is what the first supplied device with id `devid` holds
/// at `phys`.
pub open spec fn spec_bytes_from_device(
    devs: Seq<DeviceInfoView>,
    devid: u64,
    phys: int,
    bytes: Seq<u8>,
) -> bool {
    exists|j: int|
        {
            &&& 0 <= j < devs.len()
            &&& devs[j].devid == devid
            &&& (forall|k: int| 0 <= k < j ==> devs[k].devid != devid)
            &&& 0 <= phys
            &&& phys + bytes.len() <= devs[j].data.len()
            &&& bytes == devs[j].data.subrange(phys, phys + bytes.len())
        }
}

/// Whether reading `virt` from stripe `s` of a chunk starting at `start`
/// succeeds: the first supplied device with the stripe's id holds, at the
/// stripe's physical offset, one node of bytes that validate for `virt`,
/// and the checksum algorithm is CRC-32C.
pub open spec fn spec_stripe_read_ok(fs: FsInfoView, start: u64, s: btrfs_stripe, virt: u64) -> bool {
    exists|j: int|
        {
            &&& 0 <= j < fs.devices.len()
            &&& fs.devices[j].devid == s.devid
            &&& (forall|k: int| 0 <= k < j ==> fs.devices[k].devid != s.devid)
            &&& spec_stripe_phys(s, start, virt) + fs.master_sb.nodesize <= fs.devices[j].data.len()
            &&& fs.master_sb.csum_type == CSUM_TYPE_CRC32
            &&& spec_block_valid(
                fs,
                virt,
                fs.devices[j].data.subrange(
                    spec_stripe_phys(s, start, virt),
                    spec_stripe_phys(s, start, virt) + fs.master_sb.nodesize,
                ),
            )
        }
}

/// Whether `block` is a validated tree block of the filesystem for virtual
/// address `virt`: one node in size, its own address and the filesystem id
/// in its header, and the stored checksum equal to the checksum over bytes
/// [32..nodesize).
pub open spec fn spec_block_valid(fs: FsInfoView, virt: u64, block: Seq<u8>) -> bool {
    &&& block.len() == fs.master_sb.nodesize
    &&& block.len() > BTRFS_HEADER_SIZE
    &&& spec_parse_header(block, 0).bytenr == virt
    &&& spec_parse_header(block, 0).fsid == fs.fsid
    &&& block.subrange(0, BTRFS_CSUM_SIZE as int) == spec_csum_bytes(
        crc32c_of(block.subrange(BTRFS_CSUM_SIZE as int, block.len() as int)),
    )
}

/// The start of the node-sized block containing `virt`.
pub open spec fn spec_block_start(fs: FsInfoView, virt: u64) -> int {
    virt - (virt as int % fs.master_sb.nodesize as int)
}

/// Whether the chunk record was decoded from a leaf item of some validated
/// tree block of the filesystem: the item's key is the chunk's key and the
/// item data decodes to its header and stripes.
pub open spec fn spec_chunk_from_tree_block(fs: FsInfoView, ci: ChunkInfoView) -> bool {
    exists|block: Seq<u8>, addr: u64, i: int|
        #![trigger spec_block_valid(fs, addr, block), spec_leaf_item_ok(block, i)]
        {
            &&& spec_block_valid(fs, addr, block)
            &&& spec_leaf_item_ok(block, i)
            &&& spec_leaf_item(block, i).key == ci.key
            &&& ci.chunk == crate::structures::spec_parse_chunk(spec_leaf_item_data(block, i), 0)
            &&& ci.stripes == spec_parse_stripes(
                spec_leaf_item_data(block, i),
                BTRFS_CHUNK_SIZE as int,
                ci.chunk.num_stripes as int,
            )
        }
}

/// A usable stripe exists exactly when the physical enumeration is
/// non-empty: whatever a block load can read, a repair path can write.
pub proof fn lemma_reachable_implies_physical(
    devs: Seq<DeviceInfoView>,
    stripes: Seq<btrfs_stripe>,
    start: u64,
    virt: u64,
)
    ensures
        (exists|si: int|
            0 <= si < stripes.len() && spec_stripe_usable(devs, stripes[si], start, virt))
            <==> spec_reachable_pairs(devs, stripes, start, virt).len() > 0,
    decreases stripes.len(),
{
    if stripes.len() == 0 {
    } else {
        lemma_reachable_implies_physical(devs, stripes.drop_first(), start, virt);
        if spec_stripe_usable(devs, stripes[0], start, virt) {
            assert(0 <= 0 < stripes.len() && spec_stripe_usable(devs, stripes[0], start, virt));
        } else {
            assert forall|si: int|
                0 <= si < stripes.len() && spec_stripe_usable(
                    devs,
                    stripes[si],
                    start,
                    virt,
                ) implies spec_reachable_pairs(devs, stripes, start, virt).len() > 0 by {
                assert(si != 0);
                assert(stripes.drop_first()[si - 1] == stripes[si]);
            }
            if spec_reachable_pairs(devs, stripes, start, virt).len() > 0 {
                let si = choose|si: int|
                    0 <= si < stripes.drop_first().len() && spec_stripe_usable(
                        devs,
                        stripes.drop_first()[si],
                        start,
                        virt,
                    );
                assert(stripes[si + 1] == stripes.drop_first()[si]);
            }
        }
    }
}

/// The first enumerated physical location is the stripe that a block load
/// reads: when stripe `si` is the first usable one, the enumeration starts
/// with its (device id, physical offset) pair. Whether the remaining
/// replicas hold the same bytes depends on the devices themselves.
pub proof fn lemma_first_pair_is_read_stripe(
    devs: Seq<DeviceInfoView>,
    stripes: Seq<btrfs_stripe>,
    start: u64,
    virt: u64,
    si: int,
)
    requires
        spec_is_first_usable(devs, stripes, start, virt, si),
    ensures
        spec_reachable_pairs(devs, stripes, start, virt).len() > 0,
        spec_reachable_pairs(devs, stripes, start, virt)[0] == (
            stripes[si].devid,
            spec_stripe_phys(stripes[si], start, virt) as u64,
        ),
    decreases stripes.len(),
{
    if si == 0 {
    } else {
        assert(!spec_stripe_usable(devs, stripes[0], start, virt));
        assert(stripes.drop_first()[si - 1] == stripes[si]);
        assert forall|k: int| 0 <= k < si - 1 implies !spec_stripe_usable(
            devs,
            stripes.drop_first()[k],
            start,
            virt,
        ) by {
            assert(stripes.drop_first()[k] == stripes[k + 1]);
        }
        lemma_first_pair_is_read_stripe(devs, stripes.drop_first(), start, virt, si - 1);
    }
}

/// Every usable stripe contributes its pair to the physical enumeration:
/// for any stripe with a supplied device, the enumeration contains
/// (device id, virt − chunk start + stripe offset).
pub proof fn lemma_reachable_pairs_complete(
    devs: Seq<DeviceInfoView>,
    stripes: Seq<btrfs_stripe>,
    start: u64,
    virt: u64,
    i: int,
)
    requires
        0 <= i < stripes.len(),
        spec_stripe_usable(devs, stripes[i], start, virt),
    ensures
        spec_reachable_pairs(devs, stripes, start, virt).contains(
            (stripes[i].devid, spec_stripe_phys(stripes[i], start, virt) as u64),
        ),
    decreases stripes.len(),
{
    let pairs = spec_reachable_pairs(devs, stripes, start, virt);
    let rest = spec_reachable_pairs(devs, stripes.drop_first(), start, virt);
    if i == 0 {
        assert(pairs[0] == (stripes[0].devid, spec_stripe_phys(stripes[0], start, virt) as u64));
    } else {
        assert(stripes.drop_first()[i - 1] == stripes[i]);
        lemma_reachable_pairs_complete(devs, stripes.drop_first(), start, virt, i - 1);
        let p = (stripes[i].devid, spec_stripe_phys(stripes[i], start, virt) as u64);
        let k = choose|k: int| 0 <= k < rest.len() && rest[k] == p;
        if spec_stripe_usable(devs, stripes[0], start, virt) {
            assert(pairs[k + 1] == p);
        } else {
            assert(pairs[k] == p);
        }
    }
}

/// Whether the chunk covers `virt`.
pub fn chunk_covers(ci: &ChunkInfo, virt: u64) -> (r: bool)
    ensures
        r == spec_chunk_covers(ci@, virt),
{
    ci.0.offset <= virt && virt - ci.0.offset < ci.1.length
}

/// Finds the position of the first bootstrap chunk covering `virt`.
fn first_covering_bootstrap(fs: &FsInfo, virt: u64) -> (r: Option<usize>)
    ensures
        r matches Some(i) ==> 0 <= i < fs@.bootstrap_chunks.len() && Some(
            fs@.bootstrap_chunks[i as int],
        ) == spec_first_covering(fs@.bootstrap_chunks, virt) && spec_chunk_covers(
            fs@.bootstrap_chunks[i as int],
            virt,
        ),
        r is None ==> spec_first_covering(fs@.bootstrap_chunks, virt) is None,
{
    let n: usize = fs.bootstrap_chunks.len();
    let mut i: usize = 0;
    while i < n
        invariant
            0 <= i <= n,
            n == fs@.bootstrap_chunks.len(),
            forall|j: int| 0 <= j < i ==> !spec_chunk_covers(fs@.bootstrap_chunks[j], virt),
        decreases n - i,
    {
        if chunk_covers(&fs.bootstrap_chunks[i], virt) {
            proof {
                lemma_first_covering_at(fs@.bootstrap_chunks, virt, i as int);
            }
            return Some(i);
        }
        i = i + 1;
    }
    proof {
        lemma_first_covering_none(fs@.bootstrap_chunks, virt);
    }
    None
}

/// When chunk `i` covers `virt` and no earlier chunk does, the first
/// covering chunk is chunk `i`.
proof fn lemma_first_covering_at(chunks: Seq<ChunkInfoView>, virt: u64, i: int)
    requires
        0 <= i < chunks.len(),
        spec_chunk_covers(chunks[i], virt),
        forall|j: int| 0 <= j < i ==> !spec_chunk_covers(chunks[j], virt),
    ensures
        spec_first_covering(chunks, virt) == Some(chunks[i]),
    decreases chunks.len(),
{
    if i > 0 {
        assert forall|j: int| 0 <= j < i - 1 implies !spec_chunk_covers(
            chunks.drop_first()[j],
            virt,
        ) by {
            assert(chunks.drop_first()[j] == chunks[j + 1]);
        }
        assert(chunks.drop_first()[i - 1] == chunks[i]);
        lemma_first_covering_at(chunks.drop_first(), virt, i - 1);
    }
}

/// When no chunk covers `virt`, there is no first covering chunk.
proof fn lemma_first_covering_none(chunks: Seq<ChunkInfoView>, virt: u64)
    requires
        forall|j: int| 0 <= j < chunks.len() ==> !spec_chunk_covers(chunks[j], virt),
    ensures
        spec_first_covering(chunks, virt) is None,
    decreases chunks.len(),
{
    if chunks.len() > 0 {
        assert forall|j: int| 0 <= j < chunks.drop_first().len() implies !spec_chunk_covers(
            chunks.drop_first()[j],
            virt,
        ) by {
            assert(chunks.drop_first()[j] == chunks[j + 1]);
        }
        lemma_first_covering_none(chunks.drop_first(), virt);
    }
}


/// The position of the first supplied device carrying `devid`.
pub open spec fn spec_device_first_index(devs: Seq<DeviceInfoView>, devid: u64) -> Option<int>
    decreases devs.len(),
{
    if devs.len() == 0 {
        None
    } else if devs[0].devid == devid {
        Some(0)
    } else {
        match spec_device_first_index(devs.drop_first(), devid) {
            Option::None => None,
            Option::Some(i) => Some(i + 1),
        }
    }
}

/// The position of the first usable stripe.
pub open spec fn spec_first_usable_index(
    devs: Seq<DeviceInfoView>,
    stripes: Seq<btrfs_stripe>,
    start: u64,
    virt: u64,
) -> Option<int>
    decreases stripes.len(),
{
    if stripes.len() == 0 {
        None
    } else if spec_stripe_usable(devs, stripes[0], start, virt) {
        Some(0)
    } else {
        match spec_first_usable_index(devs, stripes.drop_first(), start, virt) {
            Option::None => None,
            Option::Some(i) => Some(i + 1),
        }
    }
}

/// The `len` bytes at `phys` of the first supplied device carrying `devid`,
/// or `None` when no such device exists or the range runs off its end.
pub open spec fn spec_device_read(
    devs: Seq<DeviceInfoView>,
    devid: u64,
    phys: int,
    len: int,
) -> Option<Seq<u8>> {
    match spec_device_first_index(devs, devid) {
        Option::None => None,
        Option::Some(j) => if 0 <= phys && phys + len <= devs[j].data.len() {
            Some(devs[j].data.subrange(phys, phys + len))
        } else {
            None
        },
    }
}

/// The validated node that a stripe read for `virt` yields: the bytes of
/// the first usable stripe's device at the stripe's physical offset, when
/// they fit, the algorithm is CRC-32C and the block validates; `None`
/// otherwise.
pub open spec fn spec_stripe_block(
    fs: FsInfoView,
    start: u64,
    stripes: Seq<btrfs_stripe>,
    virt: u64,
) -> Option<Seq<u8>> {
    match spec_first_usable_index(fs.devices, stripes, start, virt) {
        Option::None => None,
        Option::Some(si) => match spec_device_read(
            fs.devices,
            stripes[si].devid,
            spec_stripe_phys(stripes[si], start, virt),
            fs.master_sb.nodesize as int,
        ) {
            Option::None => None,
            Option::Some(b) => if fs.master_sb.csum_type == CSUM_TYPE_CRC32 && spec_block_valid(
                fs,
                virt,
                b,
            ) {
                Some(b)
            } else {
                None
            },
        },
    }
}

/// The block that a bootstrap-only load of `virt` yields: the stripe read
/// of the first covering bootstrap chunk, or `None` when no bootstrap chunk
/// covers `virt` or the read fails.
pub open spec fn spec_bootstrap_block(fs: FsInfoView, virt: u64) -> Option<Seq<u8>> {
    match spec_first_covering(fs.bootstrap_chunks, virt) {
        Option::None => None,
        Option::Some(ci) => spec_stripe_block(fs, ci.key.offset, ci.stripes, virt),
    }
}

/// When device `j` carries `devid` and no earlier device does, `j` is the
/// first index.
proof fn lemma_device_first_index_at(devs: Seq<DeviceInfoView>, devid: u64, j: int)
    requires
        0 <= j < devs.len(),
        devs[j].devid == devid,
        forall|k: int| 0 <= k < j ==> devs[k].devid != devid,
    ensures
        spec_device_first_index(devs, devid) == Some(j),
    decreases devs.len(),
{
    if j > 0 {
        assert forall|k: int| 0 <= k < j - 1 implies devs.drop_first()[k].devid != devid by {
            assert(devs.drop_first()[k] == devs[k + 1]);
        }
        assert(devs.drop_first()[j - 1] == devs[j]);
        lemma_device_first_index_at(devs.drop_first(), devid, j - 1);
    }
}

/// When no device carries `devid`, there is no first index.
proof fn lemma_device_first_index_none(devs: Seq<DeviceInfoView>, devid: u64)
    requires
        forall|k: int| 0 <= k < devs.len() ==> devs[k].devid != devid,
    ensures
        spec_device_first_index(devs, devid) is None,
    decreases devs.len(),
{
    if devs.len() > 0 {
        assert forall|k: int| 0 <= k < devs.drop_first().len() implies devs.drop_first()[k].devid
            != devid by {
            assert(devs.drop_first()[k] == devs[k + 1]);
        }
        lemma_device_first_index_none(devs.drop_first(), devid);
    }
}

/// When stripe `si` is the first usable one, `si` is the first index.
proof fn lemma_first_usable_index_at(
    devs: Seq<DeviceInfoView>,
    stripes: Seq<btrfs_stripe>,
    start: u64,
    virt: u64,
    si: int,
)
    requires
        spec_is_first_usable(devs, stripes, start, virt, si),
    ensures
        spec_first_usable_index(devs, stripes, start, virt) == Some(si),
    decreases stripes.len(),
{
    if si > 0 {
        assert(!spec_stripe_usable(devs, stripes[0], start, virt));
        assert forall|k: int| 0 <= k < si - 1 implies !spec_stripe_usable(
            devs,
            stripes.drop_first()[k],
            start,
            virt,
        ) by {
            assert(stripes.drop_first()[k] == stripes[k + 1]);
        }
        assert(stripes.drop_first()[si - 1] == stripes[si]);
        lemma_first_usable_index_at(devs, stripes.drop_first(), start, virt, si - 1);
    }
}

/// When no stripe is usable, there is no first index.
proof fn lemma_first_usable_index_none(
    devs: Seq<DeviceInfoView>,
    stripes: Seq<btrfs_stripe>,
    start: u64,
    virt: u64,
)
    requires
        forall|k: int| 0 <= k < stripes.len() ==> !spec_stripe_usable(devs, stripes[k], start, virt),
    ensures
        spec_first_usable_index(devs, stripes, start, virt) is None,
    decreases stripes.len(),
{
    if stripes.len() > 0 {
        assert forall|k: int| 0 <= k < stripes.drop_first().len() implies !spec_stripe_usable(
            devs,
            stripes.drop_first()[k],
            start,
            virt,
        ) by {
            assert(stripes.drop_first()[k] == stripes[k + 1]);
        }
        lemma_first_usable_index_none(devs, stripes.drop_first(), start, virt);
    }
}

/// At most one stripe position is the first usable one.
proof fn lemma_first_usable_unique(
    devs: Seq<DeviceInfoView>,
    stripes: Seq<btrfs_stripe>,
    start: u64,
    virt: u64,
    i: int,
)
    requires
        0 <= i < stripes.len(),
        spec_stripe_usable(devs, stripes[i], start, virt),
        forall|k: int| 0 <= k < i ==> !spec_stripe_usable(devs, stripes[k], start, virt),
    ensures
        forall|si: int| spec_is_first_usable(devs, stripes, start, virt, si) ==> si == i,
{
    assert forall|si: int| spec_is_first_usable(devs, stripes, start, virt, si) implies si
        == i by {
        if si < i {
            assert(spec_stripe_usable(devs, stripes[si], start, virt));
        } else if si > i {
            assert(!spec_stripe_usable(devs, stripes[i], start, virt));
        }
    }
}

/// Relative to the first supplied device carrying the stripe's id, a stripe
/// read succeeds exactly when the physical range fits on that device, the
/// algorithm is CRC-32C, and the bytes there validate for `virt`.
proof fn lemma_stripe_read_ok_at(
    fs: FsInfoView,
    start: u64,
    s: btrfs_stripe,
    virt: u64,
    di: int,
)
    requires
        0 <= di < fs.devices.len(),
        fs.devices[di].devid == s.devid,
        forall|k: int| 0 <= k < di ==> fs.devices[k].devid != s.devid,
    ensures
        spec_stripe_read_ok(fs, start, s, virt) <==> {
            &&& spec_stripe_phys(s, start, virt) + fs.master_sb.nodesize <= fs.devices[di].data.len()
            &&& fs.master_sb.csum_type == CSUM_TYPE_CRC32
            &&& spec_block_valid(
                fs,
                virt,
                fs.devices[di].data.subrange(
                    spec_stripe_phys(s, start, virt),
                    spec_stripe_phys(s, start, virt) + fs.master_sb.nodesize,
                ),
            )
        },
{
    if spec_stripe_read_ok(fs, start, s, virt) {
        let j = choose|j: int|
            {
                &&& 0 <= j < fs.devices.len()
                &&& fs.devices[j].devid == s.devid
                &&& (forall|k: int| 0 <= k < j ==> fs.devices[k].devid != s.devid)
                &&& spec_stripe_phys(s, start, virt) + fs.master_sb.nodesize <= fs.devices[j].data.len()
                &&& fs.master_sb.csum_type == CSUM_TYPE_CRC32
                &&& spec_block_valid(
                    fs,
                    virt,
                    fs.devices[j].data.subrange(
                        spec_stripe_phys(s, start, virt),
                        spec_stripe_phys(s, start, virt) + fs.master_sb.nodesize,
                    ),
                )
            };
        if j < di {
            assert(fs.devices[j].devid != s.devid);
        } else if j > di {
            assert(fs.devices[di].devid != s.devid);
        }
        assert(j == di);
    }
}

/// Reads one node-sized block for `virt` from the first usable stripe of a
/// chunk starting at `start`, and validates it: the header must carry the
/// requested address and the filesystem id, and the stored checksum must
/// match the computed one. The read succeeds exactly when some stripe is
/// usable and the first usable one holds a valid block.
fn read_stripe_block(fs: &FsInfo, start: u64, stripes: &Vec<btrfs_stripe>, virt: u64) -> (r:
    Result<Vec<u8>, BtrfsError>)
    requires
        start <= virt,
    ensures
        r matches Ok(b) ==> {
            &&& fs@.master_sb.csum_type == CSUM_TYPE_CRC32
            &&& spec_block_valid(fs@, virt, b@)
            &&& exists|si: int|
                spec_is_first_usable(fs@.devices, stripes@, start, virt, si)
                    && spec_bytes_from_device(
                    fs@.devices,
                    stripes@[si].devid,
                    spec_stripe_phys(stripes@[si], start, virt),
                    b@,
                )
        },
        r is Ok <==> exists|si: int|
            spec_is_first_usable(fs@.devices, stripes@, start, virt, si) && spec_stripe_read_ok(
                fs@,
                start,
                stripes@[si],
                virt,
            ),
        r is Ok <==> spec_stripe_block(fs@, start, stripes@, virt) is Some,
        r matches Ok(b) ==> Some(b@) == spec_stripe_block(fs@, start, stripes@, virt),
        (forall|k: int|
            0 <= k < stripes@.len() ==> !spec_stripe_usable(fs@.devices, stripes@[k], start, virt))
            ==> r == Err::<Vec<u8>, BtrfsError>(BtrfsError::NotMapped),
{
    let nodesize: u64 = fs.master_sb.nodesize as u64;
    let n: usize = stripes.len();
    let mut i: usize = 0;
    while i < n
        invariant
            0 <= i <= n,
            n == stripes@.len(),
            start <= virt,
            nodesize == fs@.master_sb.nodesize,
            forall|k: int| 0 <= k < i ==> !spec_stripe_usable(fs@.devices, stripes@[k], start, virt),
        decreases n - i,
    {
        let s = stripes[i];
        match fs.device_by_id(s.devid) {
            None => {
                proof {
                    assert(!spec_has_device(fs@.devices, s.devid));
                }
            },
            Some(di) => {
                if s.offset <= u64::MAX - (virt - start) {
                    let phys: u64 = virt - start + s.offset;
                    assert(spec_stripe_usable(fs@.devices, stripes@[i as int], start, virt));
                    proof {
                        lemma_first_usable_unique(fs@.devices, stripes@, start, virt, i as int);
                        lemma_stripe_read_ok_at(fs@, start, stripes@[i as int], virt, di as int);
                        lemma_first_usable_index_at(fs@.devices, stripes@, start, virt, i as int);
                        lemma_device_first_index_at(fs@.devices, s.devid, di as int);
                    }
                    let dev_len: usize = fs.devices[di].data.len();
                    if nodesize as usize <= BTRFS_HEADER_SIZE {
                        return Err(BtrfsError::SchemaViolation);
                    }
                    if phys > u64::MAX - nodesize || phys + nodesize > dev_len as u64 {
                        return Err(BtrfsError::Bounds);
                    }
                    let b = sub_bytes(
                        fs.devices[di].data.as_slice(),
                        phys as usize,
                        nodesize as usize,
                    );
                    let h = parse_header(b.as_slice(), 0);
                    if h.bytenr != virt {
                        return Err(BtrfsError::SchemaViolation);
                    }
                    if h.fsid != fs.fsid {
                        return Err(BtrfsError::SchemaViolation);
                    }
                    let body = sub_bytes(b.as_slice(), BTRFS_CSUM_SIZE, b.len() - BTRFS_CSUM_SIZE);
                    let computed = match csum_data(body.as_slice(), fs.master_sb.csum_type) {
                        Ok(c) => c,
                        Err(e) => {
                            return Err(e);
                        },
                    };
                    let stored = sub_bytes(b.as_slice(), 0, BTRFS_CSUM_SIZE);
                    if !bytes_eq(stored.as_slice(), computed.as_slice()) {
                        return Err(BtrfsError::SchemaViolation);
                    }
                    proof {
                        assert(spec_is_first_usable(fs@.devices, stripes@, start, virt, i as int));
                        assert(b@ == fs@.devices[di as int].data.subrange(
                            phys as int,
                            phys as int + nodesize as int,
                        ));
                        assert(spec_stripe_read_ok(fs@, start, stripes@[i as int], virt));
                    }
                    return Ok(b);
                } else {
                    proof {
                        assert(!spec_stripe_usable(fs@.devices, stripes@[i as int], start, virt));
                    }
                }
            },
        }
        i = i + 1;
    }
    proof {
        lemma_first_usable_index_none(fs@.devices, stripes@, start, virt);
    }
    Err(BtrfsError::NotMapped)
}

/// Loads the block for `virt` through the bootstrap chunks alone. The chunk
/// tree's own blocks must be reachable this way; reads of other trees fall
/// back to the chunk tree via `load_virt_block`.
fn load_block_bootstrap(fs: &FsInfo, virt: u64) -> (r: Result<Vec<u8>, BtrfsError>)
    ensures
        r matches Ok(b) ==> fs@.master_sb.csum_type == CSUM_TYPE_CRC32 && spec_block_valid(
            fs@,
            virt,
            b@,
        ),
        r is Ok <==> (spec_first_covering(fs@.bootstrap_chunks, virt) matches Some(ci)
            && exists|si: int|
            spec_is_first_usable(fs@.devices, ci.stripes, ci.key.offset, virt, si)
                && spec_stripe_read_ok(fs@, ci.key.offset, ci.stripes[si], virt)),
        r is Ok <==> spec_bootstrap_block(fs@, virt) is Some,
        r matches Ok(b) ==> Some(b@) == spec_bootstrap_block(fs@, virt),
        spec_first_covering(fs@.bootstrap_chunks, virt) is None ==> r == Err::<
            Vec<u8>,
            BtrfsError,
        >(BtrfsError::NotMapped),
{
    match first_covering_bootstrap(fs, virt) {
        Some(i) => {
            let ci = &fs.bootstrap_chunks[i];
            assert(spec_chunk_covers(ci@, virt));
            let r = read_stripe_block(fs, ci.0.offset, &ci.2, virt);
            proof {
                let bc = spec_first_covering(fs@.bootstrap_chunks, virt).unwrap();
                assert(bc == ci@);
                assert(bc.stripes == ci.2@ && bc.key.offset == ci.0.offset);
            }
            r
        },
        None => Err(BtrfsError::NotMapped),
    }
}

/// Decodes `n` stripe records laid out back to back at `off`.
pub fn parse_stripe_vec(b: &[u8], off: usize, n: usize) -> (r: Vec<btrfs_stripe>)
    requires
        off + BTRFS_STRIPE_SIZE * n <= b@.len(),
    ensures
        r@ == spec_parse_stripes(b@, off as int, n as int),
{
    let blen: usize = b.len();
    let mut out: Vec<btrfs_stripe> = Vec::new();
    let mut j: usize = 0;
    while j < n
        invariant
            0 <= j <= n,
            blen == b@.len(),
            off + BTRFS_STRIPE_SIZE * n <= blen,
            out@ == spec_parse_stripes(b@, off as int, n as int).subrange(0, j as int),
        decreases n - j,
    {
        assert(off + BTRFS_STRIPE_SIZE * j + BTRFS_STRIPE_SIZE <= blen) by {
            assert(BTRFS_STRIPE_SIZE * (j + 1) <= BTRFS_STRIPE_SIZE * n) by (nonlinear_arith)
                requires
                    j + 1 <= n,
            ;
        };
        out.push(parse_stripe(b, off + BTRFS_STRIPE_SIZE * j));
        j = j + 1;
        assert(out@ =~= spec_parse_stripes(b@, off as int, n as int).subrange(0, j as int));
    }
    assert(out@ =~= spec_parse_stripes(b@, off as int, n as int));
    out
}

/// Cursor over the stripe records packed in a chunk item's data region.
pub struct ChunkStripeIter {
    stripes: Vec<btrfs_stripe>,
    index: usize,
}

impl ChunkStripeIter {
    /// The decoded stripes.
    pub closed spec fn spec_stripes(self) -> Seq<btrfs_stripe> {
        self.stripes@
    }

    /// How many stripes have already been handed out.
    pub closed spec fn spec_index(self) -> int {
        self.index as int
    }

    /// Decodes `num_stripes` stripe records from the front of `buffer`.
    pub fn new(buffer: &[u8], num_stripes: usize) -> (r: Result<ChunkStripeIter, BtrfsError>)
        ensures
            r is Ok <==> BTRFS_STRIPE_SIZE * num_stripes <= buffer@.len(),
            r matches Ok(it) ==> it.spec_stripes() == spec_parse_stripes(
                buffer@,
                0,
                num_stripes as int,
            ) && it.spec_index() == 0,
            r matches Err(e) ==> e == BtrfsError::SchemaViolation,
    {
        let blen: usize = buffer.len();
        if num_stripes > blen / BTRFS_STRIPE_SIZE {
            proof {
                assert(BTRFS_STRIPE_SIZE * num_stripes > blen) by (nonlinear_arith)
                    requires
                        num_stripes > blen / 32,
                ;
            }
            return Err(BtrfsError::SchemaViolation);
        }
        assert(BTRFS_STRIPE_SIZE * num_stripes <= blen) by (nonlinear_arith)
            requires
                num_stripes <= blen / 32,
        ;
        Ok(ChunkStripeIter { stripes: parse_stripe_vec(buffer, 0, num_stripes), index: 0 })
    }

    /// Hands out the next stripe, or `None` when they are exhausted.
    pub fn next(&mut self) -> (r: Option<btrfs_stripe>)
        ensures
            final(self).spec_stripes() == old(self).spec_stripes(),
            old(self).spec_index() < old(self).spec_stripes().len() ==> {
                &&& final(self).spec_index() == old(self).spec_index() + 1
                &&& r matches Some(s) && s == old(self).spec_stripes()[old(self).spec_index()]
            },
            old(self).spec_index() >= old(self).spec_stripes().len() ==> r is None && final(self)
                .spec_index() == old(self).spec_index(),
    {
        if self.index < self.stripes.len() {
            let s = self.stripes[self.index];
            self.index = self.index + 1;
            Some(s)
        } else {
            None
        }
    }
}


/// The position of the last leaf item of `block`, within the in-bounds
/// prefix starting at `i`, whose key is at most `target`.
pub open spec fn spec_leaf_floor_from(block: Seq<u8>, target: btrfs_disk_key, i: int) -> Option<
    int,
>
    decreases crate::structures::spec_parse_header(block, 0).nritems - i,
{
    if !spec_leaf_item_ok(block, i) {
        None
    } else {
        match spec_leaf_floor_from(block, target, i + 1) {
            Option::Some(j) => Some(j),
            Option::None => if spec_key_le(spec_leaf_item(block, i).key, target) {
                Some(i)
            } else {
                None
            },
        }
    }
}

/// The chunk record that a floor search over one leaf yields for
/// `block_start`: the last item with key at most (FIRST_CHUNK_TREE,
/// CHUNK_ITEM, block_start), provided it is a chunk item whose data decodes
/// to a chunk of at least one stripe covering `block_start`.
pub open spec fn spec_chunk_leaf_lookup(block: Seq<u8>, block_start: u64) -> Option<
    ChunkInfoView,
> {
    let target = btrfs_disk_key {
        objectid: BTRFS_FIRST_CHUNK_TREE_OBJECTID,
        item_type: ITEM_TYPE_CHUNK_ITEM,
        offset: block_start,
    };
    match spec_leaf_floor_from(block, target, 0) {
        Option::None => None,
        Option::Some(i) => {
            let it = spec_leaf_item(block, i);
            let data = spec_leaf_item_data(block, i);
            if it.key.objectid != BTRFS_FIRST_CHUNK_TREE_OBJECTID || it.key.item_type
                != ITEM_TYPE_CHUNK_ITEM {
                None
            } else if data.len() < BTRFS_CHUNK_SIZE {
                None
            } else {
                let chunk = crate::structures::spec_parse_chunk(data, 0);
                if chunk.num_stripes == 0 {
                    None
                } else if data.len() != BTRFS_CHUNK_SIZE + BTRFS_STRIPE_SIZE * chunk.num_stripes {
                    None
                } else {
                    let ci = ChunkInfoView {
                        key: it.key,
                        chunk,
                        stripes: spec_parse_stripes(
                            data,
                            BTRFS_CHUNK_SIZE as int,
                            chunk.num_stripes as int,
                        ),
                    };
                    if spec_chunk_covers(ci, block_start) {
                        Some(ci)
                    } else {
                        None
                    }
                }
            }
        },
    }
}

/// Searches the chunk tree for the chunk record covering `block_start`:
/// the item with the greatest key at most (FIRST_CHUNK_TREE, CHUNK_ITEM,
/// block_start). Every block of the chunk tree itself is read through the
/// bootstrap chunks.
#[verifier::loop_isolation(false)]
pub fn chunk_tree_lookup(fs: &FsInfo, block_start: u64) -> (r: Result<ChunkInfo, BtrfsError>)
    ensures
        r matches Ok(ci) ==> {
            &&& ci@.key.objectid == BTRFS_FIRST_CHUNK_TREE_OBJECTID
            &&& ci@.key.item_type == ITEM_TYPE_CHUNK_ITEM
            &&& spec_chunk_covers(ci@, block_start)
            &&& ci@.stripes.len() == ci@.chunk.num_stripes
            &&& spec_chunk_from_tree_block(fs@, ci@)
        },
        spec_bootstrap_block(fs@, fs@.master_sb.chunk_root) matches Some(broot) ==> (
        spec_parse_header(broot, 0).level == 0 ==> {
            &&& (r is Ok <==> spec_chunk_leaf_lookup(broot, block_start) is Some)
            &&& (r matches Ok(ci) ==> Some(ci@) == spec_chunk_leaf_lookup(broot, block_start))
        }),
{
    let target = btrfs_disk_key {
        objectid: BTRFS_FIRST_CHUNK_TREE_OBJECTID,
        item_type: ITEM_TYPE_CHUNK_ITEM,
        offset: block_start,
    };
    let mut cur_addr: u64 = fs.master_sb.chunk_root;
    let mut block = match load_block_bootstrap(fs, cur_addr) {
        Ok(b) => b,
        Err(e) => {
            return Err(e);
        },
    };
    let ghost broot = block@;
    let mut level: u8 = parse_header(block.as_slice(), 0).level;
    let root_level: u8 = level;
    while level > 0
        invariant
            spec_block_valid(fs@, cur_addr, block@),
            level == spec_parse_header(block@, 0).level,
            root_level == 0 ==> level == 0,
            root_level == 0 ==> block@ == broot,
        decreases level,
    {
        let mut node = block_as_internal_node(block, cur_addr);
        let mut chosen: Option<btrfs_key_ptr> = None;
        loop
            invariant
                node@.block.len() > BTRFS_HEADER_SIZE,
            decreases
                    spec_parse_header(node@.block, 0).nritems - node@.cur_item,
        {
            match node.next() {
                None => {
                    break ;
                },
                Some(kp) => {
                    if key_le(&kp.key, &target) {
                        chosen = Some(kp);
                    }
                },
            }
        }
        match chosen {
            None => {
                return Err(BtrfsError::NotMapped);
            },
            Some(kp) => {
                let child = match load_block_bootstrap(fs, kp.blockptr) {
                    Ok(b) => b,
                    Err(e) => {
                        return Err(e);
                    },
                };
                let h = parse_header(child.as_slice(), 0);
                if h.level >= level {
                    return Err(BtrfsError::SchemaViolation);
                }
                cur_addr = kp.blockptr;
                block = child;
                level = h.level;
            },
        }
    }
    let mut leaf = block_as_leaf_node(block, cur_addr);
    let mut best: Option<(btrfs_item, Vec<u8>)> = None;
    let ghost mut best_index: int = 0;
    while leaf.peek().is_some()
        invariant
            spec_block_valid(fs@, leaf@.block_offset, leaf@.block),
            (match best {
                Option::Some(b) => {
                    &&& spec_leaf_item_ok(leaf@.block, best_index)
                    &&& b.0 == spec_leaf_item(leaf@.block, best_index)
                    &&& b.1@ == spec_leaf_item_data(leaf@.block, best_index)
                },
                Option::None => true,
            }),
            root_level == 0 ==> leaf@.block == broot,
            root_level == 0 ==> spec_leaf_floor_from(broot, target, 0) == (
            match spec_leaf_floor_from(broot, target, leaf@.cur_item as int) {
                Option::Some(j) => Some(j),
                Option::None => match best {
                    Option::Some(_) => Some(best_index),
                    Option::None => None::<int>,
                },
            }),
        decreases
                spec_parse_header(leaf@.block, 0).nritems - leaf@.cur_item,
    {
        let ghost c = leaf@.cur_item as int;
        let t = match leaf.next() {
            Some(t) => t,
            None => {
                proof {
                    assert(false);
                }
                return Err(BtrfsError::SchemaViolation);
            },
        };
        proof {
            if root_level == 0 {
                assert(spec_leaf_item_ok(broot, c));
                assert(t.0 == spec_leaf_item(broot, c));
                assert(spec_leaf_floor_from(broot, target, c) == (
                match spec_leaf_floor_from(broot, target, c + 1) {
                    Option::Some(j) => Some(j),
                    Option::None => if spec_key_le(spec_leaf_item(broot, c).key, target) {
                        Some(c)
                    } else {
                        None::<int>
                    },
                }));
            }
        }
        if key_le(&t.0.key, &target) {
            proof {
                best_index = t.3 as int;
            }
            best = Some((t.0, t.1));
        }
    }
    proof {
        if root_level == 0 {
            assert(spec_leaf_floor_from(broot, target, leaf@.cur_item as int) is None);
            assert(spec_leaf_floor_from(broot, target, 0) == (match best {
                Option::Some(_) => Some(best_index),
                Option::None => None::<int>,
            }));
        }
    }
    match best {
        None => Err(BtrfsError::NotMapped),
        Some((it, data)) => {
            proof {
                assert(spec_block_valid(fs@, leaf@.block_offset, leaf@.block));
                assert(spec_leaf_item_ok(leaf@.block, best_index));
            }
            proof {
                if root_level == 0 {
                    assert(it == spec_leaf_item(broot, best_index));
                    assert(data@ == spec_leaf_item_data(broot, best_index));
                }
            }
            if it.key.objectid != BTRFS_FIRST_CHUNK_TREE_OBJECTID || it.key.item_type
                != ITEM_TYPE_CHUNK_ITEM {
                return Err(BtrfsError::NotMapped);
            }
            let dlen: usize = data.len();
            if dlen < BTRFS_CHUNK_SIZE {
                return Err(BtrfsError::SchemaViolation);
            }
            let chunk = parse_chunk(data.as_slice(), 0);
            if chunk.num_stripes == 0 {
                return Err(BtrfsError::SchemaViolation);
            }
            let ns: usize = chunk.num_stripes as usize;
            if (dlen as u64) != (BTRFS_CHUNK_SIZE as u64) + (BTRFS_STRIPE_SIZE as u64) * (ns
                as u64) {
                return Err(BtrfsError::SchemaViolation);
            }
            assert(BTRFS_CHUNK_SIZE + BTRFS_STRIPE_SIZE * ns <= dlen);
            let stripes = parse_stripe_vec(data.as_slice(), BTRFS_CHUNK_SIZE, ns);
            let ci = ChunkInfo(it.key, chunk, stripes);
            if !chunk_covers(&ci, block_start) {
                return Err(BtrfsError::NotMapped);
            }
            proof {
                assert(spec_chunk_from_tree_block(fs@, ci@));
                if root_level == 0 {
                    assert(Some(ci@) == spec_chunk_leaf_lookup(broot, block_start));
                }
            }
            Ok(ci)
        },
    }
}

/// Finds the chunk that covers `block_start`: first among the bootstrap
/// chunks from the superblock, else by searching the chunk tree.
pub fn resolve_chunk(fs: &FsInfo, block_start: u64) -> (r: Result<ChunkInfo, BtrfsError>)
    ensures
        r matches Ok(ci) ==> spec_chunk_covers(ci@, block_start),
        r matches Ok(ci) ==> Some(ci@) == spec_first_covering(fs@.bootstrap_chunks, block_start)
            || spec_chunk_from_tree_block(fs@, ci@),
        spec_first_covering(fs@.bootstrap_chunks, block_start) matches Some(bc) ==> (r matches
            Ok(ci) ==> ci@ == bc),
        spec_first_covering(fs@.bootstrap_chunks, block_start) matches Some(bc) ==> r is Ok,
        spec_first_covering(fs@.bootstrap_chunks, block_start) is None ==> (spec_bootstrap_block(
            fs@,
            fs@.master_sb.chunk_root,
        ) matches Some(broot) ==> (spec_parse_header(broot, 0).level == 0 ==> {
            &&& (r is Ok <==> spec_chunk_leaf_lookup(broot, block_start) is Some)
            &&& (r matches Ok(ci) ==> Some(ci@) == spec_chunk_leaf_lookup(broot, block_start))
        })),
{
    match first_covering_bootstrap(fs, block_start) {
        Some(i) => {
            let ci = crate::btrfs::clone_chunk_info(&fs.bootstrap_chunks[i]);
            proof {
                assert(spec_chunk_covers(ci@, block_start));
            }
            Ok(ci)
        },
        None => chunk_tree_lookup(fs, block_start),
    }
}

/// Translates an aligned virtual address into the bytes of one tree block:
/// resolves the covering chunk (bootstrap first, else the chunk tree), reads
/// the first usable stripe, and validates the block. Every block this
/// function returns carries the requested address, the filesystem id and a
/// correct checksum.
pub fn load_virt_block(fs: &FsInfo, virt_offset: u64) -> (r: Result<Vec<u8>, BtrfsError>)
    ensures
        r matches Ok(b) ==> {
            &&& fs@.master_sb.nodesize > 0
            &&& virt_offset as int % fs@.master_sb.nodesize as int == 0
            &&& fs@.master_sb.csum_type == CSUM_TYPE_CRC32
            &&& spec_block_valid(fs@, virt_offset, b@)
            &&& exists|devid: u64, phys: int|
                spec_bytes_from_device(fs@.devices, devid, phys, b@)
        },
        fs@.master_sb.nodesize == 0 ==> r == Err::<Vec<u8>, BtrfsError>(
            BtrfsError::SchemaViolation,
        ),
        (fs@.master_sb.nodesize > 0 && virt_offset as int % fs@.master_sb.nodesize as int != 0)
            ==> r == Err::<Vec<u8>, BtrfsError>(BtrfsError::Bounds),
        (fs@.master_sb.nodesize > 0 && virt_offset as int % fs@.master_sb.nodesize as int == 0
            && spec_first_covering(fs@.bootstrap_chunks, virt_offset) is None) ==> (
        spec_bootstrap_block(fs@, fs@.master_sb.chunk_root) matches Some(broot) ==> (
        spec_parse_header(broot, 0).level == 0 ==> {
            &&& (spec_chunk_leaf_lookup(broot, virt_offset) is None ==> r is Err)
            &&& (spec_chunk_leaf_lookup(broot, virt_offset) matches Some(tci) ==> {
                &&& (r is Ok <==> spec_stripe_block(
                    fs@,
                    tci.key.offset,
                    tci.stripes,
                    virt_offset,
                ) is Some)
                &&& (r matches Ok(b) ==> Some(b@) == spec_stripe_block(
                    fs@,
                    tci.key.offset,
                    tci.stripes,
                    virt_offset,
                ))
            })
        })),
        (fs@.master_sb.nodesize > 0 && virt_offset as int % fs@.master_sb.nodesize as int == 0)
            ==> (spec_first_covering(fs@.bootstrap_chunks, virt_offset) matches Some(ci) ==> {
            &&& (r is Ok <==> exists|si: int|
                spec_is_first_usable(fs@.devices, ci.stripes, ci.key.offset, virt_offset, si)
                    && spec_stripe_read_ok(fs@, ci.key.offset, ci.stripes[si], virt_offset))
            &&& (r is Ok <==> spec_stripe_block(fs@, ci.key.offset, ci.stripes, virt_offset)
                is Some)
            &&& (r matches Ok(b) ==> Some(b@) == spec_stripe_block(
                fs@,
                ci.key.offset,
                ci.stripes,
                virt_offset,
            ))
            &&& (r matches Ok(b) ==> exists|si: int|
                spec_is_first_usable(fs@.devices, ci.stripes, ci.key.offset, virt_offset, si)
                    && spec_bytes_from_device(
                    fs@.devices,
                    ci.stripes[si].devid,
                    spec_stripe_phys(ci.stripes[si], ci.key.offset, virt_offset),
                    b@,
                ))
        }),
{
    let node_length: u64 = fs.master_sb.nodesize as u64;
    if node_length == 0 {
        return Err(BtrfsError::SchemaViolation);
    }
    if virt_offset % node_length != 0 {
        return Err(BtrfsError::Bounds);
    }
    let ci = match resolve_chunk(fs, virt_offset) {
        Ok(c) => c,
        Err(e) => {
            proof {
                if spec_first_covering(fs@.bootstrap_chunks, virt_offset) is Some {
                    assert(false);
                }
            }
            return Err(e);
        },
    };
    let start = ci.0.offset;
    proof {
        match spec_first_covering(fs@.bootstrap_chunks, virt_offset) {
            Option::Some(bc) => {
                assert(bc == ci@);
                assert(bc.stripes == ci.2@ && bc.key.offset == start);
            },
            Option::None => {},
        }
    }
    match read_stripe_block(fs, start, &ci.2, virt_offset) {
        Ok(b) => {
            proof {
                let si = choose|si: int|
                    spec_is_first_usable(fs@.devices, ci.2@, start, virt_offset, si)
                        && spec_bytes_from_device(
                        fs@.devices,
                        ci.2@[si].devid,
                        spec_stripe_phys(ci.2@[si], start, virt_offset),
                        b@,
                    );
                assert(spec_bytes_from_device(
                    fs@.devices,
                    ci.2@[si].devid,
                    spec_stripe_phys(ci.2@[si], start, virt_offset),
                    b@,
                ));
            }
            Ok(b)
        },
        Err(e) => Err(e),
    }
}

/// Reads `length` bytes at an arbitrary virtual offset: the read must lie
/// entirely within one tree block, which is loaded and validated first.
pub fn load_virt(fs: &FsInfo, virt_offset: u64, length: usize) -> (r: Result<Vec<u8>, BtrfsError>)
    ensures
        (fs@.master_sb.nodesize > 0 && (virt_offset as int % fs@.master_sb.nodesize as int)
            + length <= fs@.master_sb.nodesize) ==> (spec_first_covering(
            fs@.bootstrap_chunks,
            (spec_block_start(fs@, virt_offset)) as u64,
        ) matches Some(ci) ==> (r is Ok <==> exists|si: int|
            spec_is_first_usable(
                fs@.devices,
                ci.stripes,
                ci.key.offset,
                (spec_block_start(fs@, virt_offset)) as u64,
                si,
            ) && spec_stripe_read_ok(
                fs@,
                ci.key.offset,
                ci.stripes[si],
                (spec_block_start(fs@, virt_offset)) as u64,
            ))),
        r matches Ok(b) ==> {
            &&& fs@.master_sb.nodesize > 0
            &&& b@.len() == length
            &&& exists|block: Seq<u8>|
                {
                    &&& #[trigger] spec_block_valid(
                        fs@,
                        (spec_block_start(fs@, virt_offset)) as u64,
                        block,
                    )
                    &&& b@ == block.subrange(
                        virt_offset - spec_block_start(fs@, virt_offset),
                        virt_offset - spec_block_start(fs@, virt_offset) + length,
                    )
                }
        },
{
    let node_length: u64 = fs.master_sb.nodesize as u64;
    if node_length == 0 {
        return Err(BtrfsError::SchemaViolation);
    }
    assert(virt_offset % node_length <= virt_offset) by (nonlinear_arith)
        requires
            node_length > 0,
    ;
    let block_offset: u64 = virt_offset % node_length;
    let block_start: u64 = virt_offset - block_offset;
    assert(block_start as int == spec_block_start(fs@, virt_offset));
    assert(block_start as int % node_length as int == 0) by (nonlinear_arith)
        requires
            node_length > 0,
            block_offset == virt_offset as int % node_length as int,
            block_start == virt_offset - block_offset,
    ;
    if length as u64 > node_length || block_offset > node_length - length as u64 {
        return Err(BtrfsError::Bounds);
    }
    let block = match load_virt_block(fs, block_start) {
        Ok(b) => b,
        Err(e) => {
            return Err(e);
        },
    };
    assert(block@.len() == fs@.master_sb.nodesize);
    let b = sub_bytes(block.as_slice(), block_offset as usize, length);
    proof {
        assert(spec_block_valid(fs@, block_start, block@));
    }
    Ok(b)
}

/// Translates a virtual offset into the physical (device id, offset)
/// locations of every usable stripe of the covering chunk, in stripe order.
/// Repair paths use this to write all replicas. For stripe S of chunk C the
/// physical offset of `virt_offset` is `virt_offset − C.start + S.offset`.
pub fn virtual_offset_to_physical(fs: &FsInfo, virt_offset: u64) -> (r: Result<
    Vec<(u64, u64)>,
    BtrfsError,
>)
    ensures
        r matches Ok(v) ==> v@.len() > 0,
        r matches Ok(v) ==> exists|ci: ChunkInfoView|
            #![trigger spec_chunk_covers(ci, (spec_block_start(fs@, virt_offset)) as u64)]
            {
                &&& spec_chunk_covers(ci, (spec_block_start(fs@, virt_offset)) as u64)
                &&& (Some(ci) == spec_first_covering(
                    fs@.bootstrap_chunks,
                    (spec_block_start(fs@, virt_offset)) as u64,
                ) || spec_chunk_from_tree_block(fs@, ci))
                &&& v@ == spec_reachable_pairs(fs@.devices, ci.stripes, ci.key.offset, virt_offset)
            },
        (fs@.master_sb.nodesize > 0 && spec_first_covering(
            fs@.bootstrap_chunks,
            (spec_block_start(fs@, virt_offset)) as u64,
        ) is None) ==> (spec_bootstrap_block(fs@, fs@.master_sb.chunk_root) matches Some(broot)
            ==> (spec_parse_header(broot, 0).level == 0 ==> {
            &&& (spec_chunk_leaf_lookup(broot, (spec_block_start(fs@, virt_offset)) as u64)
                is None ==> r is Err)
            &&& (spec_chunk_leaf_lookup(
                broot,
                (spec_block_start(fs@, virt_offset)) as u64,
            ) matches Some(tci) ==> {
                &&& (r is Ok <==> spec_reachable_pairs(
                    fs@.devices,
                    tci.stripes,
                    tci.key.offset,
                    virt_offset,
                ).len() > 0)
                &&& (r matches Ok(v) ==> v@ == spec_reachable_pairs(
                    fs@.devices,
                    tci.stripes,
                    tci.key.offset,
                    virt_offset,
                ))
            })
        })),
        fs@.master_sb.nodesize > 0 ==> (spec_first_covering(
            fs@.bootstrap_chunks,
            (spec_block_start(fs@, virt_offset)) as u64,
        ) matches Some(bc) ==> {
            &&& (r is Ok <==> spec_reachable_pairs(
                fs@.devices,
                bc.stripes,
                bc.key.offset,
                virt_offset,
            ).len() > 0)
            &&& (r matches Ok(v) ==> v@ == spec_reachable_pairs(
                fs@.devices,
                bc.stripes,
                bc.key.offset,
                virt_offset,
            ))
        }),
{
    let node_length: u64 = fs.master_sb.nodesize as u64;
    if node_length == 0 {
        return Err(BtrfsError::SchemaViolation);
    }
    assert(virt_offset % node_length <= virt_offset) by (nonlinear_arith)
        requires
            node_length > 0,
    ;
    let block_offset: u64 = virt_offset % node_length;
    let block_start: u64 = virt_offset - block_offset;
    assert(block_start as int == spec_block_start(fs@, virt_offset));
    let ci = match resolve_chunk(fs, block_start) {
        Ok(c) => c,
        Err(e) => {
            proof {
                if spec_first_covering(fs@.bootstrap_chunks, block_start) is Some {
                    assert(false);
                }
            }
            return Err(e);
        },
    };
    let start = ci.0.offset;
    assert(start <= block_start <= virt_offset);
    let results = collect_reachable_pairs(fs, start, &ci.2, virt_offset);
    if results.len() > 0 {
        proof {
            assert(spec_chunk_covers(ci@, block_start) && results@ == spec_reachable_pairs(
                fs@.devices,
                ci@.stripes,
                ci@.key.offset,
                virt_offset,
            ));
            assert(Some(ci@) == spec_first_covering(fs@.bootstrap_chunks, block_start)
                || spec_chunk_from_tree_block(fs@, ci@));
            assert(spec_chunk_covers(ci@, (spec_block_start(fs@, virt_offset)) as u64));
        }
        Ok(results)
    } else {
        proof {
            lemma_reachable_implies_physical(fs@.devices, ci.2@, start, virt_offset);
        }
        Err(BtrfsError::NotMapped)
    }
}

/// Collects the (device id, physical offset) pair of every usable stripe,
/// in stripe order.
fn collect_reachable_pairs(fs: &FsInfo, start: u64, stripes: &Vec<btrfs_stripe>, virt: u64) -> (r:
    Vec<(u64, u64)>)
    requires
        start <= virt,
    ensures
        r@ == spec_reachable_pairs(fs@.devices, stripes@, start, virt),
{
    let n: usize = stripes.len();
    let mut out: Vec<(u64, u64)> = Vec::new();
    let mut i: usize = 0;
    proof {
        assert(stripes@.skip(0) =~= stripes@);
    }
    while i < n
        invariant
            0 <= i <= n,
            n == stripes@.len(),
            start <= virt,
            spec_reachable_pairs(fs@.devices, stripes@, start, virt) == out@
                + spec_reachable_pairs(fs@.devices, stripes@.skip(i as int), start, virt),
        decreases n - i,
    {
        let ghost pre = out@;
        let ghost suffix = stripes@.skip(i as int);
        let s = stripes[i];
        proof {
            assert(suffix[0] == stripes@[i as int]);
            assert(suffix.drop_first() =~= stripes@.skip(i as int + 1));
        }
        match fs.device_by_id(s.devid) {
            None => {
                proof {
                    assert(!spec_has_device(fs@.devices, s.devid));
                    assert(!spec_stripe_usable(fs@.devices, suffix[0], start, virt));
                }
            },
            Some(_di) => {
                if s.offset <= u64::MAX - (virt - start) {
                    let phys: u64 = virt - start + s.offset;
                    assert(spec_stripe_usable(fs@.devices, suffix[0], start, virt));
                    out.push((s.devid, phys));
                    proof {
                        assert(out@ =~= pre + Seq::empty().push(
                            (s.devid, spec_stripe_phys(s, start, virt) as u64),
                        ));
                        assert(pre + spec_reachable_pairs(fs@.devices, suffix, start, virt) =~= out@
                            + spec_reachable_pairs(
                            fs@.devices,
                            stripes@.skip(i as int + 1),
                            start,
                            virt,
                        ));
                    }
                } else {
                    proof {
                        assert(!spec_stripe_usable(fs@.devices, suffix[0], start, virt));
                    }
                }
            },
        }
        i = i + 1;
    }
    proof {
        assert(stripes@.skip(n as int) =~= Seq::<btrfs_stripe>::empty());
        assert(out@ + Seq::<(u64, u64)>::empty() =~= out@);
    }
    out
}

} // verus!
