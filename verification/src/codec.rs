use vstd::prelude::*;
use vstd::bytes::{
    spec_u16_from_le_bytes, spec_u32_from_le_bytes, spec_u64_from_le_bytes,
    spec_u128_from_le_bytes, u16_from_le_bytes, u32_from_le_bytes, u64_from_le_bytes,
    u128_from_le_bytes,
};
use vstd::slice::{slice_subrange, slice_to_vec};

verus! {

/// The little-endian 16-bit value stored at `off` in `s`.
pub open spec fn spec_le16(s: Seq<u8>, off: int) -> u16 {
    spec_u16_from_le_bytes(s.subrange(off, off + 2))
}

/// The little-endian 32-bit value stored at `off` in `s`.
pub open spec fn spec_le32(s: Seq<u8>, off: int) -> u32 {
    spec_u32_from_le_bytes(s.subrange(off, off + 4))
}

/// The little-endian 64-bit value stored at `off` in `s`.
pub open spec fn spec_le64(s: Seq<u8>, off: int) -> u64 {
    spec_u64_from_le_bytes(s.subrange(off, off + 8))
}

/// The little-endian 128-bit value stored at `off` in `s`; used for the
/// 16-byte filesystem and device UUIDs.
pub open spec fn spec_le128(s: Seq<u8>, off: int) -> u128 {
    spec_u128_from_le_bytes(s.subrange(off, off + 16))
}

/// Reads the byte at `off`.
pub fn byte_at(b: &[u8], off: usize) -> (r: u8)
    requires
        off < b@.len(),
    ensures
        r == b@[off as int],
{
    *vstd::slice::slice_index_get(b, off)
}

/// Reads the little-endian 16-bit value at `off`.
pub fn le16(b: &[u8], off: usize) -> (r: u16)
    requires
        off + 2 <= b@.len(),
    ensures
        r == spec_le16(b@, off as int),
{
    let n: usize = b.len();
    assert(off + 2 <= n);
    u16_from_le_bytes(slice_subrange(b, off, off + 2))
}

/// Reads the little-endian 32-bit value at `off`.
pub fn le32(b: &[u8], off: usize) -> (r: u32)
    requires
        off + 4 <= b@.len(),
    ensures
        r == spec_le32(b@, off as int),
{
    let n: usize = b.len();
    assert(off + 4 <= n);
    u32_from_le_bytes(slice_subrange(b, off, off + 4))
}

/// Reads the little-endian 64-bit value at `off`.
pub fn le64(b: &[u8], off: usize) -> (r: u64)
    requires
        off + 8 <= b@.len(),
    ensures
        r == spec_le64(b@, off as int),
{
    let n: usize = b.len();
    assert(off + 8 <= n);
    u64_from_le_bytes(slice_subrange(b, off, off + 8))
}

/// Reads the little-endian 128-bit value at `off`.
pub fn le128(b: &[u8], off: usize) -> (r: u128)
    requires
        off + 16 <= b@.len(),
    ensures
        r == spec_le128(b@, off as int),
{
    let n: usize = b.len();
    assert(off + 16 <= n);
    u128_from_le_bytes(slice_subrange(b, off, off + 16))
}

/// Copies `len` bytes starting at `off` into an owned vector.
pub fn sub_bytes(b: &[u8], off: usize, len: usize) -> (r: Vec<u8>)
    requires
        off + len <= b@.len(),
    ensures
        r@ == b@.subrange(off as int, off as int + len as int),
{
    let n: usize = b.len();
    assert(off + len <= n);
    slice_to_vec(slice_subrange(b, off, off + len))
}

/// Compares two byte strings for equality.
pub fn bytes_eq(a: &[u8], b: &[u8]) -> (r: bool)
    ensures
        r == (a@ == b@),
{
    if a.len() != b.len() {
        assert(a@.len() != b@.len());
        return false;
    }
    let n: usize = a.len();
    let mut i: usize = 0;
    while i < n
        invariant
            n == a@.len() && n == b@.len(),
            0 <= i <= n,
            forall|j: int| 0 <= j < i ==> a@[j] == b@[j],
        decreases n - i,
    {
        if *vstd::slice::slice_index_get(a, i) != *vstd::slice::slice_index_get(b, i) {
            assert(a@[i as int] != b@[i as int]);
            return false;
        }
        i = i + 1;
    }
    assert(a@ =~= b@);
    true
}

} // verus!
