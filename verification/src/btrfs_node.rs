use vstd::prelude::*;
use crate::address::{
    load_virt_block, spec_block_valid, spec_first_covering, spec_is_first_usable,
    spec_stripe_read_ok,
};
use crate::btrfs::FsInfo;
use crate::codec::sub_bytes;
use crate::error::BtrfsError;
use crate::structures::{
    btrfs_header, btrfs_item, btrfs_key_ptr, parse_header, parse_item, parse_key_ptr,
    spec_parse_header, spec_parse_item, spec_parse_key_ptr, BTRFS_HEADER_SIZE, BTRFS_ITEM_SIZE,
    BTRFS_KEY_PTR_SIZE,
};

verus! {

/// Mathematical view of a node cursor: the block bytes, the position, and
/// the block's virtual address.
pub struct NodeCursorView {
    pub block: Seq<u8>,
    pub cur_item: u32,
    pub block_offset: u64,
}

/// Whether leaf item `i` of `block` is fully in bounds: the block holds a
/// header, the item record sits inside the block, and so does the data
/// region the record points at.
pub open spec fn spec_leaf_item_ok(block: Seq<u8>, i: int) -> bool {
    &&& block.len() >= BTRFS_HEADER_SIZE
    &&& 0 <= i < spec_parse_header(block, 0).nritems
    &&& BTRFS_HEADER_SIZE + BTRFS_ITEM_SIZE * (i + 1) <= block.len()
    &&& {
        let it = spec_parse_item(block, BTRFS_HEADER_SIZE + BTRFS_ITEM_SIZE * i);
        BTRFS_HEADER_SIZE + it.offset + it.size <= block.len()
    }
}

/// The leaf item record at position `i` of `block`.
pub open spec fn spec_leaf_item(block: Seq<u8>, i: int) -> btrfs_item {
    spec_parse_item(block, BTRFS_HEADER_SIZE + BTRFS_ITEM_SIZE * i)
}

/// The data region of leaf item `i` of `block`, counted from the end of the
/// header.
pub open spec fn spec_leaf_item_data(block: Seq<u8>, i: int) -> Seq<u8> {
    let it = spec_leaf_item(block, i);
    block.subrange(
        BTRFS_HEADER_SIZE + it.offset,
        BTRFS_HEADER_SIZE + it.offset + it.size,
    )
}

/// Whether key-pointer `i` of `block` is fully in bounds.
pub open spec fn spec_key_ptr_ok(block: Seq<u8>, i: int) -> bool {
    &&& block.len() >= BTRFS_HEADER_SIZE
    &&& 0 <= i < spec_parse_header(block, 0).nritems
    &&& BTRFS_HEADER_SIZE + BTRFS_KEY_PTR_SIZE * (i + 1) <= block.len()
}

/// The key-pointer record at position `i` of `block`.
pub open spec fn spec_key_ptr(block: Seq<u8>, i: int) -> btrfs_key_ptr {
    spec_parse_key_ptr(block, BTRFS_HEADER_SIZE + BTRFS_KEY_PTR_SIZE * i)
}

/// Forward-peekable cursor over the item records of a leaf node (level 0).
/// It owns a copy of the block bytes; `block_offset` is the block's virtual
/// address.
pub struct BtrfsLeafNodeIter {
    block: Vec<u8>,
    cur_item: u32,
    pub block_offset: u64,
}

impl View for BtrfsLeafNodeIter {
    type V = NodeCursorView;

    closed spec fn view(&self) -> NodeCursorView {
        NodeCursorView {
            block: self.block@,
            cur_item: self.cur_item,
            block_offset: self.block_offset,
        }
    }
}

/// Wraps a block as a leaf-node cursor positioned at the first item.
pub fn block_as_leaf_node(block: Vec<u8>, block_offset: u64) -> (r: BtrfsLeafNodeIter)
    ensures
        r@.block == block@,
        r@.cur_item == 0,
        r@.block_offset == block_offset,
{
    BtrfsLeafNodeIter { block, cur_item: 0, block_offset }
}

impl BtrfsLeafNodeIter {
    /// The block's header.
    pub fn header(&self) -> (h: btrfs_header)
        requires
            self@.block.len() >= BTRFS_HEADER_SIZE,
        ensures
            h == spec_parse_header(self@.block, 0),
    {
        parse_header(self.block.as_slice(), 0)
    }

    /// The current item, its data, the block's virtual address and the item
    /// position, without advancing; `None` at the end of the node or when
    /// the record or its data region runs outside the block.
    pub fn peek(&self) -> (r: Option<(btrfs_item, Vec<u8>, u64, u32)>)
        ensures
            r is Some <==> spec_leaf_item_ok(self@.block, self@.cur_item as int),
            r matches Some(t) ==> {
                &&& t.0 == spec_leaf_item(self@.block, self@.cur_item as int)
                &&& t.1@ == spec_leaf_item_data(self@.block, self@.cur_item as int)
                &&& t.2 == self@.block_offset
                &&& t.3 == self@.cur_item
            },
    {
        let blen: usize = self.block.len();
        if blen < BTRFS_HEADER_SIZE {
            return None;
        }
        let h = self.header();
        if self.cur_item >= h.nritems {
            return None;
        }
        let idx = self.cur_item as usize;
        if (BTRFS_HEADER_SIZE as u64) + (BTRFS_ITEM_SIZE as u64) * (idx as u64 + 1) > blen
            as u64 {
            return None;
        }
        let off: usize = BTRFS_HEADER_SIZE + BTRFS_ITEM_SIZE * idx;
        let it = parse_item(self.block.as_slice(), off);
        if (BTRFS_HEADER_SIZE as u64) + (it.offset as u64) + (it.size as u64) > blen as u64 {
            return None;
        }
        let data = sub_bytes(
            self.block.as_slice(),
            BTRFS_HEADER_SIZE + it.offset as usize,
            it.size as usize,
        );
        Some((it, data, self.block_offset, self.cur_item))
    }

    /// As `peek`, and advances past the returned item.
    pub fn next(&mut self) -> (r: Option<(btrfs_item, Vec<u8>, u64, u32)>)
        ensures
            final(self)@.block == old(self)@.block,
            final(self)@.block_offset == old(self)@.block_offset,
            r is Some <==> spec_leaf_item_ok(old(self)@.block, old(self)@.cur_item as int),
            r matches Some(t) ==> {
                &&& t.0 == spec_leaf_item(old(self)@.block, old(self)@.cur_item as int)
                &&& t.1@ == spec_leaf_item_data(old(self)@.block, old(self)@.cur_item as int)
                &&& t.2 == old(self)@.block_offset
                &&& t.3 == old(self)@.cur_item
                &&& final(self)@.cur_item == old(self)@.cur_item + 1
            },
            r is None ==> final(self)@.cur_item == old(self)@.cur_item,
    {
        match self.peek() {
            None => None,
            Some(s) => {
                self.cur_item = self.cur_item + 1;
                Some(s)
            },
        }
    }
}

/// Forward-peekable cursor over the key-pointer records of an internal node
/// (level above 0).
pub struct BtrfsInternalNodeIter {
    block: Vec<u8>,
    cur_item: u32,
    pub block_offset: u64,
}

impl View for BtrfsInternalNodeIter {
    type V = NodeCursorView;

    closed spec fn view(&self) -> NodeCursorView {
        NodeCursorView {
            block: self.block@,
            cur_item: self.cur_item,
            block_offset: self.block_offset,
        }
    }
}

/// Wraps a block as an internal-node cursor positioned at the first record.
pub fn block_as_internal_node(block: Vec<u8>, block_offset: u64) -> (r: BtrfsInternalNodeIter)
    ensures
        r@.block == block@,
        r@.cur_item == 0,
        r@.block_offset == block_offset,
{
    BtrfsInternalNodeIter { block, cur_item: 0, block_offset }
}

impl BtrfsInternalNodeIter {
    /// Reinterprets this internal node as a leaf node over the same block;
    /// any iteration progress is reset.
    pub fn as_leaf_node(&self) -> (r: BtrfsLeafNodeIter)
        ensures
            r@.block == self@.block,
            r@.cur_item == 0,
            r@.block_offset == self@.block_offset,
    {
        let n: usize = self.block.len();
        let copy = sub_bytes(self.block.as_slice(), 0, n);
        assert(copy@ =~= self@.block);
        block_as_leaf_node(copy, self.block_offset)
    }

    /// The block's header.
    pub fn header(&self) -> (h: btrfs_header)
        requires
            self@.block.len() >= BTRFS_HEADER_SIZE,
        ensures
            h == spec_parse_header(self@.block, 0),
    {
        parse_header(self.block.as_slice(), 0)
    }

    /// The current key-pointer record, without advancing; `None` at the end
    /// of the node or when the record runs outside the block.
    pub fn peek(&self) -> (r: Option<btrfs_key_ptr>)
        ensures
            r is Some <==> spec_key_ptr_ok(self@.block, self@.cur_item as int),
            r matches Some(p) ==> p == spec_key_ptr(self@.block, self@.cur_item as int),
    {
        let blen: usize = self.block.len();
        if blen < BTRFS_HEADER_SIZE {
            return None;
        }
        let h = self.header();
        if self.cur_item >= h.nritems {
            return None;
        }
        let idx = self.cur_item as usize;
        if (BTRFS_HEADER_SIZE as u64) + (BTRFS_KEY_PTR_SIZE as u64) * (idx as u64 + 1) > blen
            as u64 {
            return None;
        }
        let off: usize = BTRFS_HEADER_SIZE + BTRFS_KEY_PTR_SIZE * idx;
        Some(parse_key_ptr(self.block.as_slice(), off))
    }

    /// As `peek`, and advances past the returned record.
    pub fn next(&mut self) -> (r: Option<btrfs_key_ptr>)
        ensures
            final(self)@.block == old(self)@.block,
            final(self)@.block_offset == old(self)@.block_offset,
            r is Some <==> spec_key_ptr_ok(old(self)@.block, old(self)@.cur_item as int),
            r matches Some(p) ==> p == spec_key_ptr(old(self)@.block, old(self)@.cur_item as int)
                && final(self)@.cur_item == old(self)@.cur_item + 1,
            r is None ==> final(self)@.cur_item == old(self)@.cur_item,
    {
        match self.peek() {
            None => None,
            Some(s) => {
                self.cur_item = self.cur_item + 1;
                Some(s)
            },
        }
    }
}


/// Loads and validates the block at virtual address `block_offset` and
/// wraps it as a leaf-node cursor.
pub fn btrfs_leaf_node(fs: &FsInfo, block_offset: u64) -> (r: Result<BtrfsLeafNodeIter, BtrfsError>)
    ensures
        r matches Ok(it) ==> spec_block_valid(fs@, block_offset, it@.block) && it@.cur_item == 0
            && it@.block_offset == block_offset,
        (fs@.master_sb.nodesize > 0 && block_offset as int % fs@.master_sb.nodesize as int == 0)
            ==> (spec_first_covering(fs@.bootstrap_chunks, block_offset) matches Some(ci) ==> (r
            is Ok <==> exists|si: int|
            spec_is_first_usable(fs@.devices, ci.stripes, ci.key.offset, block_offset, si)
                && spec_stripe_read_ok(fs@, ci.key.offset, ci.stripes[si], block_offset))),
{
    match load_virt_block(fs, block_offset) {
        Ok(b) => Ok(block_as_leaf_node(b, block_offset)),
        Err(e) => Err(e),
    }
}

/// Loads and validates the block at virtual address `block_offset` and
/// wraps it as an internal-node cursor.
pub fn btrfs_internal_node(fs: &FsInfo, block_offset: u64) -> (r: Result<
    BtrfsInternalNodeIter,
    BtrfsError,
>)
    ensures
        r matches Ok(it) ==> spec_block_valid(fs@, block_offset, it@.block) && it@.cur_item == 0
            && it@.block_offset == block_offset,
        (fs@.master_sb.nodesize > 0 && block_offset as int % fs@.master_sb.nodesize as int == 0)
            ==> (spec_first_covering(fs@.bootstrap_chunks, block_offset) matches Some(ci) ==> (r
            is Ok <==> exists|si: int|
            spec_is_first_usable(fs@.devices, ci.stripes, ci.key.offset, block_offset, si)
                && spec_stripe_read_ok(fs@, ci.key.offset, ci.stripes[si], block_offset))),
{
    match load_virt_block(fs, block_offset) {
        Ok(b) => Ok(block_as_internal_node(b, block_offset)),
        Err(e) => Err(e),
    }
}

} // verus!
