//! Little-endian readers over byte buffers, and zero-filled buffers.
//!
//! The container headers and the encoded frame store their integer fields
//! in little-endian order; these helpers read such a field at a given
//! offset of a larger buffer and are specified with vstd's byte
//! conversion functions.

use vstd::prelude::*;
use vstd::bytes::{
    spec_u16_from_le_bytes, spec_u32_from_le_bytes, spec_u64_from_le_bytes, u16_from_le_bytes,
    u32_from_le_bytes, u64_from_le_bytes,
};
use vstd::slice::slice_subrange;

verus! {

/// The 16-bit little-endian integer stored at `off`.
pub open spec fn le16_at(b: Seq<u8>, off: int) -> u16 {
    spec_u16_from_le_bytes(b.subrange(off, off + 2))
}

/// The 32-bit little-endian integer stored at `off`.
pub open spec fn le32_at(b: Seq<u8>, off: int) -> u32 {
    spec_u32_from_le_bytes(b.subrange(off, off + 4))
}

/// The 64-bit little-endian integer stored at `off`.
pub open spec fn le64_at(b: Seq<u8>, off: int) -> u64 {
    spec_u64_from_le_bytes(b.subrange(off, off + 8))
}

/// Read the 16-bit little-endian field at `off`.
pub fn read_u16_le(b: &[u8], off: usize) -> (r: u16)
    requires
        off + 2 <= b@.len(),
    ensures
        r == le16_at(b@, off as int),
{
    // Binding the length keeps the buffer's usize bound in scope.
    let n: usize = b.len();
    u16_from_le_bytes(slice_subrange(b, off, off + 2))
}

/// Read the 32-bit little-endian field at `off`.
pub fn read_u32_le(b: &[u8], off: usize) -> (r: u32)
    requires
        off + 4 <= b@.len(),
    ensures
        r == le32_at(b@, off as int),
{
    // Binding the length keeps the buffer's usize bound in scope.
    let n: usize = b.len();
    u32_from_le_bytes(slice_subrange(b, off, off + 4))
}

/// Read the 64-bit little-endian field at `off`.
pub fn read_u64_le(b: &[u8], off: usize) -> (r: u64)
    requires
        off + 8 <= b@.len(),
    ensures
        r == le64_at(b@, off as int),
{
    // Binding the length keeps the buffer's usize bound in scope.
    let n: usize = b.len();
    u64_from_le_bytes(slice_subrange(b, off, off + 8))
}

/// A buffer of `n` zero bytes.
pub fn zero_vec(n: usize) -> (r: Vec<u8>)
    ensures
        r@.len() == n,
        forall|i: int| 0 <= i < n ==> r@[i] == 0u8,
{
    let mut v: Vec<u8> = Vec::new();
    let mut i: usize = 0;
    while i < n
        invariant
            i <= n,
            v@.len() == i,
            forall|j: int| 0 <= j < i ==> v@[j] == 0u8,
        decreases n - i,
    {
        v.push(0u8);
        i = i + 1;
    }
    v
}

} // verus!
