use vstd::prelude::*;
use core::cmp::Ordering;
use crate::address::{
    load_virt_block, spec_block_valid, spec_bootstrap_block, spec_bytes_from_device,
    spec_first_covering, spec_stripe_block,
};
use crate::btrfs::FsInfo;
use crate::error::BtrfsError;
use crate::btrfs_node::{
    block_as_internal_node, block_as_leaf_node, spec_leaf_item, spec_leaf_item_data,
    spec_leaf_item_ok, BtrfsInternalNodeIter, BtrfsLeafNodeIter,
};
use crate::structures::{btrfs_disk_key, btrfs_item, parse_header, BTRFS_HEADER_SIZE};

verus! {

/// Strict lexicographic order on keys: object id first, then the item-type
/// tag by its numeric value, then the offset. This is the sole ordering used
/// by all trees.
pub open spec fn spec_key_lt(a: btrfs_disk_key, b: btrfs_disk_key) -> bool {
    ||| a.objectid < b.objectid
    ||| (a.objectid == b.objectid && a.item_type < b.item_type)
    ||| (a.objectid == b.objectid && a.item_type == b.item_type && a.offset < b.offset)
}

/// Non-strict key order.
pub open spec fn spec_key_le(a: btrfs_disk_key, b: btrfs_disk_key) -> bool {
    spec_key_lt(a, b) || a == b
}

/// The key order is total: of two keys, exactly one of `<`, `==`, `>` holds.
pub proof fn lemma_key_order_total(a: btrfs_disk_key, b: btrfs_disk_key)
    ensures
        spec_key_lt(a, b) || a == b || spec_key_lt(b, a),
        spec_key_lt(a, b) ==> !(a == b) && !spec_key_lt(b, a),
        a == b ==> !spec_key_lt(a, b) && !spec_key_lt(b, a),
{
}

/// The key order is transitive.
pub proof fn lemma_key_order_transitive(a: btrfs_disk_key, b: btrfs_disk_key, c: btrfs_disk_key)
    requires
        spec_key_lt(a, b),
        spec_key_lt(b, c),
    ensures
        spec_key_lt(a, c),
{
}

/// Compares two keys in the tree order.
pub fn cmp_key(left: &btrfs_disk_key, right: &btrfs_disk_key) -> (r: Ordering)
    ensures
        r == Ordering::Less <==> spec_key_lt(*left, *right),
        r == Ordering::Greater <==> spec_key_lt(*right, *left),
        r == Ordering::Equal <==> *left == *right,
{
    if left.objectid < right.objectid {
        Ordering::Less
    } else if left.objectid > right.objectid {
        Ordering::Greater
    } else if left.item_type < right.item_type {
        Ordering::Less
    } else if left.item_type > right.item_type {
        Ordering::Greater
    } else if left.offset < right.offset {
        Ordering::Less
    } else if left.offset > right.offset {
        Ordering::Greater
    } else {
        Ordering::Equal
    }
}

/// Whether `left <= right` in the tree order.
pub fn key_le(left: &btrfs_disk_key, right: &btrfs_disk_key) -> (r: bool)
    ensures
        r == spec_key_le(*left, *right),
{
    match cmp_key(left, right) {
        Ordering::Greater => false,
        _ => true,
    }
}

/// A search range over a tree: the closed key interval [min_key, max_key].
///
/// The match-policy fields describe behavior at range endpoints when no
/// exact match exists; this library takes the documented simplification of
/// ignoring them and yielding exactly the leaf items whose keys lie in the
/// closed range.
#[derive(Clone, Copy)]
pub struct NodeSearchOption {
    pub min_key: btrfs_disk_key,
    pub max_key: btrfs_disk_key,
    pub min_match: Ordering,
    pub max_match: Ordering,
}

/// Whether `k` lies in the closed range [lo, hi].
pub open spec fn spec_key_in_range(k: btrfs_disk_key, lo: btrfs_disk_key, hi: btrfs_disk_key) -> bool {
    spec_key_le(lo, k) && spec_key_le(k, hi)
}

/// Whether the keys of `s` are strictly ascending.
pub open spec fn spec_keys_ascending(s: Seq<btrfs_disk_key>) -> bool {
    forall|i: int, j: int| 0 <= i < j < s.len() ==> spec_key_lt(s[i], s[j])
}

/// Appending a key above the last one keeps a sequence strictly ascending.
pub proof fn lemma_ascending_push(s: Seq<btrfs_disk_key>, k: btrfs_disk_key)
    requires
        spec_keys_ascending(s),
        s.len() > 0 ==> spec_key_lt(s.last(), k),
    ensures
        spec_keys_ascending(s.push(k)),
{
    let t = s.push(k);
    assert forall|i: int, j: int| 0 <= i < j < t.len() implies spec_key_lt(t[i], t[j]) by {
        if j == s.len() {
            if i < s.len() - 1 {
                assert(spec_key_lt(s[i], s[s.len() - 1]));
                lemma_key_order_transitive(s[i], s[s.len() - 1], k);
            }
        }
    }
}

/// No key is yielded twice: a strictly ascending key sequence has no
/// repeated element.
pub proof fn lemma_ascending_distinct(s: Seq<btrfs_disk_key>, i: int, j: int)
    requires
        spec_keys_ascending(s),
        0 <= i < s.len(),
        0 <= j < s.len(),
        i != j,
    ensures
        s[i] != s[j],
{
    if i < j {
        assert(spec_key_lt(s[i], s[j]));
    } else {
        assert(spec_key_lt(s[j], s[i]));
    }
}

/// A point lookup yields at most one item: a strictly ascending key
/// sequence confined to the single-key range [k, k] has at most one
/// element.
pub proof fn lemma_point_lookup_at_most_one(s: Seq<btrfs_disk_key>, k: btrfs_disk_key)
    requires
        spec_keys_ascending(s),
        forall|i: int| 0 <= i < s.len() ==> spec_key_in_range(#[trigger] s[i], k, k),
    ensures
        s.len() <= 1,
{
    if s.len() >= 2 {
        assert(spec_key_in_range(s[0], k, k));
        assert(spec_key_in_range(s[1], k, k));
        lemma_key_order_total(k, s[0]);
        lemma_key_order_total(k, s[1]);
        assert(s[0] == k && s[1] == k);
        assert(spec_key_lt(s[0], s[1]));
        assert(false);
    }
}

/// The position of the first leaf item of `block`, scanning from `i`, whose
/// key lies in [min, max]: items below `min` are passed over; the scan ends
/// without a hit at the first item beyond `max` or out of bounds.
pub open spec fn spec_leaf_first_in_range(
    block: Seq<u8>,
    min: btrfs_disk_key,
    max: btrfs_disk_key,
    i: int,
) -> Option<int>
    decreases crate::structures::spec_parse_header(block, 0).nritems - i,
{
    if !spec_leaf_item_ok(block, i) {
        None
    } else if !spec_key_le(min, spec_leaf_item(block, i).key) {
        spec_leaf_first_in_range(block, min, max, i + 1)
    } else if !spec_key_le(spec_leaf_item(block, i).key, max) {
        None
    } else {
        Some(i)
    }
}

/// When every item before `c` is in bounds and below `min`, and item `c` is
/// in bounds and in range, the scan's first hit is `c`.
proof fn lemma_first_in_range_at(
    block: Seq<u8>,
    min: btrfs_disk_key,
    max: btrfs_disk_key,
    c: int,
    i: int,
)
    requires
        0 <= i <= c,
        forall|j: int| 0 <= j < c ==> spec_leaf_item_ok(block, j),
        forall|j: int|
            0 <= j < c ==> !spec_key_le(min, #[trigger] spec_leaf_item(block, j).key),
        spec_leaf_item_ok(block, c),
        spec_key_le(min, spec_leaf_item(block, c).key),
        spec_key_le(spec_leaf_item(block, c).key, max),
    ensures
        spec_leaf_first_in_range(block, min, max, i) == Some(c),
    decreases c - i,
{
    if i < c {
        lemma_first_in_range_at(block, min, max, c, i + 1);
    }
}

/// When every item before `c` is in bounds and below `min`, and item `c` is
/// out of bounds or beyond `max`, the scan has no hit.
proof fn lemma_first_in_range_none(
    block: Seq<u8>,
    min: btrfs_disk_key,
    max: btrfs_disk_key,
    c: int,
    i: int,
)
    requires
        0 <= i <= c,
        forall|j: int| 0 <= j < c ==> spec_leaf_item_ok(block, j),
        forall|j: int|
            0 <= j < c ==> !spec_key_le(min, #[trigger] spec_leaf_item(block, j).key),
        !spec_leaf_item_ok(block, c) || (spec_key_le(min, spec_leaf_item(block, c).key)
            && !spec_key_le(spec_leaf_item(block, c).key, max)),
    ensures
        spec_leaf_first_in_range(block, min, max, i) is None,
    decreases c - i,
{
    if i < c {
        lemma_first_in_range_none(block, min, max, c, i + 1);
    }
}

/// The budget of block loads an iterator may spend; a sound tree never
/// comes near it, and a corrupt one cannot make iteration diverge.
pub const TREE_ITER_FUEL: u64 = 0xffff_ffff_ffff_ffff;

/// Descends leftmost from `addr` down to a leaf, pushing each internal node
/// (positioned past its first child) onto `stack`. Consumes one unit of
/// `fuel` per block load; every block is validated by the chunk mapper.
fn descend_leftmost(fs: &FsInfo, addr: u64, stack: Vec<BtrfsInternalNodeIter>, fuel: u64) -> (r:
    Result<(Vec<BtrfsInternalNodeIter>, BtrfsLeafNodeIter, u64), BtrfsError>)
    ensures
        r matches Ok(t) ==> {
            &&& spec_block_valid(fs@, t.1@.block_offset, t.1@.block)
            &&& t.1@.cur_item == 0
            &&& t.2 < fuel
            &&& exists|devid: u64, phys: int|
                spec_bytes_from_device(fs@.devices, devid, phys, t.1@.block)
        },
{
    let mut stack = stack;
    let mut cur_addr = addr;
    let mut fuel_left = fuel;
    if fuel_left == 0 {
        return Err(BtrfsError::SchemaViolation);
    }
    let mut block = match load_virt_block(fs, cur_addr) {
        Ok(b) => b,
        Err(e) => {
            return Err(e);
        },
    };
    fuel_left = fuel_left - 1;
    let mut level: u8 = parse_header(block.as_slice(), 0).level;
    while level > 0
        invariant
            spec_block_valid(fs@, cur_addr, block@),
            exists|devid: u64, phys: int|
                spec_bytes_from_device(fs@.devices, devid, phys, block@),
            fuel_left < fuel,
        decreases level,
    {
        let mut node = block_as_internal_node(block, cur_addr);
        match node.next() {
            None => {
                return Err(BtrfsError::SchemaViolation);
            },
            Some(kp) => {
                stack.push(node);
                cur_addr = kp.blockptr;
                if fuel_left == 0 {
                    return Err(BtrfsError::SchemaViolation);
                }
                block = match load_virt_block(fs, cur_addr) {
                    Ok(b) => b,
                    Err(e) => {
                        return Err(e);
                    },
                };
                fuel_left = fuel_left - 1;
                let h = parse_header(block.as_slice(), 0);
                if h.level >= level {
                    return Err(BtrfsError::SchemaViolation);
                }
                level = h.level;
            },
        }
    }
    Ok((stack, block_as_leaf_node(block, cur_addr), fuel_left))
}

/// Descends from the root toward `min_key`: in each internal node it takes
/// the last child whose key is at most `min_key`, or the first child when
/// every key exceeds `min_key`, leaving each node's cursor just past the
/// chosen child so that iteration can later resume with the next one.
#[verifier::loop_isolation(false)]
fn descend_seek(fs: &FsInfo, root_addr: u64, min_key: &btrfs_disk_key, fuel: u64) -> (r: Result<
    (Vec<BtrfsInternalNodeIter>, BtrfsLeafNodeIter, u64),
    BtrfsError,
>)
    ensures
        r matches Ok(t) ==> {
            &&& spec_block_valid(fs@, t.1@.block_offset, t.1@.block)
            &&& t.1@.cur_item == 0
            &&& t.2 < fuel
            &&& exists|devid: u64, phys: int|
                spec_bytes_from_device(fs@.devices, devid, phys, t.1@.block)
        },
        (fs@.master_sb.nodesize > 0 && root_addr as int % fs@.master_sb.nodesize as int == 0
            && fuel > 0) ==> (spec_bootstrap_block(fs@, root_addr) matches Some(b0) ==> (
        crate::structures::spec_parse_header(b0, 0).level == 0 ==> (r matches Ok(t) && {
            &&& t.0@.len() == 0
            &&& t.1@.block == b0
            &&& t.1@.cur_item == 0
            &&& t.1@.block_offset == root_addr
        }))),
{
    let mut stack: Vec<BtrfsInternalNodeIter> = Vec::new();
    let mut cur_addr = root_addr;
    let mut fuel_left = fuel;
    if fuel_left == 0 {
        return Err(BtrfsError::SchemaViolation);
    }
    let mut block = match load_virt_block(fs, cur_addr) {
        Ok(b) => b,
        Err(e) => {
            return Err(e);
        },
    };
    let ghost broot = block@;
    proof {
        if fs@.master_sb.nodesize > 0 && root_addr as int % fs@.master_sb.nodesize as int == 0 {
            match spec_first_covering(fs@.bootstrap_chunks, root_addr) {
                Option::Some(ci) => {
                    assert(Some(block@) == spec_stripe_block(
                        fs@,
                        ci.key.offset,
                        ci.stripes,
                        root_addr,
                    ));
                    assert(spec_bootstrap_block(fs@, root_addr) == Some(broot));
                },
                Option::None => {
                    assert(spec_bootstrap_block(fs@, root_addr) is None);
                },
            }
        }
    }
    fuel_left = fuel_left - 1;
    let mut level: u8 = parse_header(block.as_slice(), 0).level;
    let root_level: u8 = level;
    while level > 0
        invariant
            spec_block_valid(fs@, cur_addr, block@),
            exists|devid: u64, phys: int|
                spec_bytes_from_device(fs@.devices, devid, phys, block@),
            fuel_left < fuel,
            root_level == 0 ==> level == 0,
            root_level == 0 ==> block@ == broot,
            root_level == 0 ==> cur_addr == root_addr,
            stack@.len() == 0 || root_level > 0,
        decreases level,
    {
        let mut node = block_as_internal_node(block, cur_addr);
        let mut chosen = match node.next() {
            None => {
                return Err(BtrfsError::SchemaViolation);
            },
            Some(kp) => kp,
        };
        loop
            invariant
                node@.block.len() > BTRFS_HEADER_SIZE,
            decreases
                    spec_node_remaining(node@),
        {
            match node.peek() {
                Some(kp) => {
                    if key_le(&kp.key, min_key) {
                        let ghost prev = node@.cur_item;
                        let stepped = node.next();
                        proof {
                            assert(stepped is Some);
                            assert(node@.cur_item == prev + 1);
                        }
                        chosen = kp;
                    } else {
                        break;
                    }
                },
                None => {
                    break;
                },
            }
        }
        stack.push(node);
        cur_addr = chosen.blockptr;
        if fuel_left == 0 {
            return Err(BtrfsError::SchemaViolation);
        }
        block = match load_virt_block(fs, cur_addr) {
            Ok(b) => b,
            Err(e) => {
                return Err(e);
            },
        };
        fuel_left = fuel_left - 1;
        let h = parse_header(block.as_slice(), 0);
        if h.level >= level {
            return Err(BtrfsError::SchemaViolation);
        }
        level = h.level;
    }
    Ok((stack, block_as_leaf_node(block, cur_addr), fuel_left))
}

/// How many records of the node are still ahead of the cursor.
pub open spec fn spec_node_remaining(v: crate::btrfs_node::NodeCursorView) -> int {
    if v.block.len() >= BTRFS_HEADER_SIZE && crate::structures::spec_parse_header(v.block, 0).nritems
        > v.cur_item {
        crate::structures::spec_parse_header(v.block, 0).nritems - v.cur_item
    } else {
        0
    }
}

/// Pops exhausted internal nodes off the stack; at the first node with an
/// unconsumed child, consumes that child and descends leftmost through its
/// subtree to the next leaf. `Ok(None)` means the whole tree is exhausted.
fn advance_through_stack(fs: &FsInfo, stack: Vec<BtrfsInternalNodeIter>, fuel: u64) -> (r: Result<
    Option<(Vec<BtrfsInternalNodeIter>, BtrfsLeafNodeIter, u64)>,
    BtrfsError,
>)
    ensures
        r matches Ok(o) ==> (o matches Some(t) ==> {
            &&& spec_block_valid(fs@, t.1@.block_offset, t.1@.block)
            &&& t.1@.cur_item == 0
            &&& t.2 < fuel
            &&& exists|devid: u64, phys: int|
                spec_bytes_from_device(fs@.devices, devid, phys, t.1@.block)
        }),
        stack@.len() == 0 ==> (r matches Ok(o) && o is None),
{
    let input_len: usize = stack.len();
    let mut st = stack;
    if input_len == 0 {
        return Ok(None);
    }
    loop
        invariant
            input_len > 0,
            input_len == stack@.len(),
        decreases st.len(),
    {
        if st.len() == 0 {
            return Ok(None);
        }
        let mut top = match st.pop() {
            Some(t) => t,
            None => {
                return Ok(None);
            },
        };
        match top.next() {
            Some(kp) => {
                st.push(top);
                return match descend_leftmost(fs, kp.blockptr, st, fuel) {
                    Ok(t) => Ok(Some(t)),
                    Err(e) => Err(e),
                };
            },
            None => {},
        }
    }
}

/// Range search and ordered iteration over a B-tree rooted at a virtual
/// address. The iterator owns copies of the blocks along its current path
/// and yields, in strictly ascending key order, leaf items whose keys lie
/// in the closed range [min_key, max_key]; each yielded element carries the
/// item record, its data bytes, the containing block's virtual address and
/// the item's position in its leaf. Iteration ends early — with the cause
/// recorded in `fault` — when a block cannot be mapped or validated or the
/// on-disk ordering is violated.
pub struct BtrfsTreeIter<'a> {
    fs: &'a FsInfo,
    root: u64,
    options: NodeSearchOption,
    cur_leaf_node: BtrfsLeafNodeIter,
    internal_node_stack: Vec<BtrfsInternalNodeIter>,
    started: bool,
    done: bool,
    have_leaf: bool,
    fuel: u64,
    last_key: Option<btrfs_disk_key>,
    fault: Option<BtrfsError>,
    yielded: Ghost<Seq<btrfs_disk_key>>,
}

impl<'a> BtrfsTreeIter<'a> {
    /// The keys yielded so far, in order.
    pub closed spec fn spec_yielded(self) -> Seq<btrfs_disk_key> {
        self.yielded@
    }

    /// The lower bound of the search range.
    pub closed spec fn spec_min_key(self) -> btrfs_disk_key {
        self.options.min_key
    }

    /// The upper bound of the search range.
    pub closed spec fn spec_max_key(self) -> btrfs_disk_key {
        self.options.max_key
    }

    /// The filesystem the iterator reads.
    pub closed spec fn spec_fs(self) -> crate::btrfs::FsInfoView {
        self.fs@
    }

    /// The virtual address of the root block the iterator was built over.
    pub closed spec fn spec_root(self) -> u64 {
        self.root
    }

    /// Whether the first call to `next` has already happened.
    pub closed spec fn spec_started(self) -> bool {
        self.started
    }

    /// Why iteration stopped early, if it did.
    pub closed spec fn spec_fault(self) -> Option<BtrfsError> {
        self.fault
    }

    /// The iterator's invariant: the yielded keys are strictly ascending
    /// and lie in the search range, and the current leaf is a validated
    /// block of the filesystem.
    pub closed spec fn inv(self) -> bool {
        &&& spec_keys_ascending(self.yielded@)
        &&& (forall|i: int|
            0 <= i < self.yielded@.len() ==> spec_key_in_range(
                #[trigger] self.yielded@[i],
                self.options.min_key,
                self.options.max_key,
            ))
        &&& (match self.last_key {
            Some(k) => self.yielded@.len() > 0 && k == self.yielded@.last(),
            None => self.yielded@.len() == 0,
        })
        &&& (self.have_leaf ==> spec_block_valid(
            self.fs@,
            self.cur_leaf_node@.block_offset,
            self.cur_leaf_node@.block,
        ))
        &&& (self.have_leaf ==> exists|devid: u64, phys: int|
            spec_bytes_from_device(self.fs@.devices, devid, phys, self.cur_leaf_node@.block))
        &&& (self.fault is Some ==> self.done)
        &&& (!self.started ==> self.yielded@.len() == 0 && self.fuel == TREE_ITER_FUEL
            && !self.done)
    }

    /// Builds an iterator over the tree rooted at `root` for the closed key
    /// range of `options`. Construction performs no reads; the descent
    /// happens on the first call to `next`.
    pub fn new(fs: &'a FsInfo, root: u64, options: NodeSearchOption) -> (r: BtrfsTreeIter<'a>)
        requires
            spec_key_le(options.min_key, options.max_key),
        ensures
            r.inv(),
            r.spec_yielded() == Seq::<btrfs_disk_key>::empty(),
            r.spec_min_key() == options.min_key,
            r.spec_max_key() == options.max_key,
            r.spec_fs() == fs@,
            r.spec_root() == root,
            r.spec_fault() is None,
            !r.spec_started(),
    {
        BtrfsTreeIter {
            fs,
            root,
            options,
            cur_leaf_node: block_as_leaf_node(Vec::new(), 0),
            internal_node_stack: Vec::new(),
            started: false,
            done: false,
            have_leaf: false,
            fuel: TREE_ITER_FUEL,
            last_key: None,
            fault: None,
            yielded: Ghost(Seq::empty()),
        }
    }

    /// Why iteration stopped early, if it did: an unmapped or invalid block
    /// or an ordering violation, rather than the end of the range.
    pub fn fault(&self) -> (r: Option<BtrfsError>)
        ensures
            r == self.spec_fault(),
    {
        self.fault
    }

    /// Yields the next leaf item of the range in ascending key order: the
    /// item record, its data, the containing block's virtual address, and
    /// the item's position within its leaf. On the first call over a
    /// single-leaf tree whose root is mapped by a bootstrap chunk, the
    /// result is pinned exactly: the first in-range item of that leaf, or
    /// `None` when the scan finds none.
    #[verifier::loop_isolation(false)]
    pub fn next(&mut self) -> (r: Option<(btrfs_item, Vec<u8>, u64, u32)>)
        requires
            old(self).inv(),
        ensures
            final(self).inv(),
            final(self).spec_min_key() == old(self).spec_min_key(),
            final(self).spec_max_key() == old(self).spec_max_key(),
            final(self).spec_fs() == old(self).spec_fs(),
            final(self).spec_root() == old(self).spec_root(),
            r matches Some(t) ==> final(self).spec_fault() is None,
            r matches Some(t) ==> {
                &&& final(self).spec_yielded() == old(self).spec_yielded().push(t.0.key)
                &&& spec_key_in_range(t.0.key, old(self).spec_min_key(), old(self).spec_max_key())
                &&& (old(self).spec_yielded().len() > 0 ==> spec_key_lt(
                    old(self).spec_yielded().last(),
                    t.0.key,
                ))
                &&& exists|block: Seq<u8>|
                    {
                        &&& #[trigger] spec_block_valid(old(self).spec_fs(), t.2, block)
                        &&& spec_leaf_item_ok(block, t.3 as int)
                        &&& t.0 == spec_leaf_item(block, t.3 as int)
                        &&& t.1@ == spec_leaf_item_data(block, t.3 as int)
                        &&& exists|devid: u64, phys: int|
                            spec_bytes_from_device(
                                old(self).spec_fs().devices,
                                devid,
                                phys,
                                block,
                            )
                    }
            },
            r is None ==> final(self).spec_yielded() == old(self).spec_yielded(),
            ({
                &&& !old(self).spec_started()
                &&& old(self).spec_fs().master_sb.nodesize > 0
                &&& old(self).spec_root() as int % old(self).spec_fs().master_sb.nodesize as int
                    == 0
            }) ==> (spec_bootstrap_block(old(self).spec_fs(), old(self).spec_root()) matches
                Some(b0) ==> (crate::structures::spec_parse_header(b0, 0).level == 0 ==> (
            match spec_leaf_first_in_range(
                b0,
                old(self).spec_min_key(),
                old(self).spec_max_key(),
                0,
            ) {
                Option::Some(i) => r matches Some(t) && t.0 == spec_leaf_item(b0, i) && t.1@
                    == spec_leaf_item_data(b0, i) && t.2 == old(self).spec_root() && t.3 == i,
                Option::None => r is None,
            }))),
    {
        let ghost b0opt = spec_bootstrap_block(old(self).spec_fs(), old(self).spec_root());
        let ghost b0 = (match b0opt {
            Option::Some(b) => b,
            Option::None => Seq::<u8>::empty(),
        });
        let ghost single: bool = {
            &&& !old(self).started
            &&& old(self).fs@.master_sb.nodesize > 0
            &&& old(self).root as int % old(self).fs@.master_sb.nodesize as int == 0
            &&& b0opt is Some
            &&& crate::structures::spec_parse_header(b0, 0).level == 0
        };
        if self.done {
            return None;
        }
        if !self.started {
            self.started = true;
            match descend_seek(self.fs, self.root, &self.options.min_key, self.fuel) {
                Ok((stack, leaf, fuel_left)) => {
                    self.internal_node_stack = stack;
                    self.cur_leaf_node = leaf;
                    self.fuel = fuel_left;
                    self.have_leaf = true;
                },
                Err(e) => {
                    proof {
                        if single {
                            assert(false);
                        }
                    }
                    self.fault = Some(e);
                    self.done = true;
                    return None;
                },
            }
        }
        if !self.have_leaf {
            proof {
                if single {
                    assert(false);
                }
            }
            self.done = true;
            return None;
        }
        loop
            invariant
                self.inv(),
                self.started,
                !self.done,
                self.have_leaf,
                self.yielded@ == old(self).spec_yielded(),
                self.last_key == old(self).last_key,
                self.options == old(self).options,
                self.root == old(self).root,
                self.fs == old(self).fs,
                self.fault == old(self).fault,
                single ==> self.cur_leaf_node@.block == b0,
                single ==> self.cur_leaf_node@.block_offset == old(self).root,
                single ==> self.internal_node_stack@.len() == 0,
                single ==> self.last_key is None,
                single ==> (forall|j: int|
                    0 <= j < self.cur_leaf_node@.cur_item ==> spec_leaf_item_ok(b0, j)),
                single ==> (forall|j: int|
                    0 <= j < self.cur_leaf_node@.cur_item ==> !spec_key_le(
                        old(self).options.min_key,
                        #[trigger] spec_leaf_item(b0, j).key,
                    )),
            decreases self.fuel, spec_node_remaining(self.cur_leaf_node@),
        {
            let ghost pre_leaf = self.cur_leaf_node@;
            match self.cur_leaf_node.next() {
                Some(t) => {
                    if !key_le(&self.options.min_key, &t.0.key) {
                        // before the range: skip
                        proof {
                            assert(spec_node_remaining(self.cur_leaf_node@) < spec_node_remaining(
                                pre_leaf,
                            ));
                            if single {
                                assert(spec_leaf_item_ok(b0, t.3 as int));
                                assert(!spec_key_le(
                                    old(self).options.min_key,
                                    spec_leaf_item(b0, t.3 as int).key,
                                ));
                            }
                        }
                    } else if !key_le(&t.0.key, &self.options.max_key) {
                        // past the range: the scan is complete
                        proof {
                            if single {
                                lemma_first_in_range_none(
                                    b0,
                                    old(self).options.min_key,
                                    old(self).options.max_key,
                                    t.3 as int,
                                    0,
                                );
                            }
                        }
                        self.done = true;
                        return None;
                    } else {
                        match self.last_key {
                            Some(lk) => {
                                if !key_lt(&lk, &t.0.key) {
                                    // ordering violation: stop rather than
                                    // yield out of order
                                    proof {
                                        if single {
                                            assert(false);
                                        }
                                    }
                                    self.fault = Some(BtrfsError::SchemaViolation);
                                    self.done = true;
                                    return None;
                                }
                            },
                            None => {},
                        }
                        proof {
                            lemma_ascending_push(self.yielded@, t.0.key);
                            assert(spec_block_valid(old(self).spec_fs(), t.2, pre_leaf.block));
                            assert(spec_leaf_item_ok(pre_leaf.block, t.3 as int));
                            if single {
                                lemma_first_in_range_at(
                                    b0,
                                    old(self).options.min_key,
                                    old(self).options.max_key,
                                    t.3 as int,
                                    0,
                                );
                            }
                        }
                        self.last_key = Some(t.0.key);
                        self.yielded = Ghost(self.yielded@.push(t.0.key));
                        return Some(t);
                    }
                },
                None => {
                    let mut stack: Vec<BtrfsInternalNodeIter> = Vec::new();
                    core::mem::swap(&mut stack, &mut self.internal_node_stack);
                    match advance_through_stack(self.fs, stack, self.fuel) {
                        Ok(Some((stack2, leaf, fuel_left))) => {
                            proof {
                                if single {
                                    assert(false);
                                }
                            }
                            self.internal_node_stack = stack2;
                            self.cur_leaf_node = leaf;
                            self.fuel = fuel_left;
                        },
                        Ok(None) => {
                            proof {
                                if single {
                                    lemma_first_in_range_none(
                                        b0,
                                        old(self).options.min_key,
                                        old(self).options.max_key,
                                        pre_leaf.cur_item as int,
                                        0,
                                    );
                                }
                            }
                            self.done = true;
                            return None;
                        },
                        Err(e) => {
                            proof {
                                if single {
                                    assert(false);
                                }
                            }
                            self.fault = Some(e);
                            self.done = true;
                            return None;
                        },
                    }
                },
            }
        }
    }
}

/// Whether `left < right` in the tree order.
pub fn key_lt(left: &btrfs_disk_key, right: &btrfs_disk_key) -> (r: bool)
    ensures
        r == spec_key_lt(*left, *right),
{
    match cmp_key(left, right) {
        Ordering::Less => true,
        _ => false,
    }
}

} // verus!
