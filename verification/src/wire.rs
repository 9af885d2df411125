//! Little-endian integers and fixed-size byte fields on the wire.

use vstd::prelude::*;
use vstd::bytes::{
    spec_u16_from_le_bytes, spec_u16_to_le_bytes, spec_u32_from_le_bytes, spec_u32_to_le_bytes,
    spec_u64_from_le_bytes, spec_u64_to_le_bytes, u16_from_le_bytes, u16_to_le_bytes,
    u32_from_le_bytes, u32_to_le_bytes, u64_from_le_bytes, u64_to_le_bytes,
};
use vstd::slice::slice_subrange;

verus! {

/// The 16-bit little-endian integer that starts at `pos`.
pub open spec fn u16_at(bytes: Seq<u8>, pos: int) -> u16 {
    spec_u16_from_le_bytes(bytes.subrange(pos, pos + 2))
}

/// The 32-bit little-endian integer that starts at `pos`.
pub open spec fn u32_at(bytes: Seq<u8>, pos: int) -> u32 {
    spec_u32_from_le_bytes(bytes.subrange(pos, pos + 4))
}

/// The 64-bit little-endian integer that starts at `pos`.
pub open spec fn u64_at(bytes: Seq<u8>, pos: int) -> u64 {
    spec_u64_from_le_bytes(bytes.subrange(pos, pos + 8))
}

pub(crate) fn get_u16(bytes: &[u8], pos: usize) -> (value: u16)
    requires
        pos + 2 <= bytes.len(),
    ensures
        value == u16_at(bytes@, pos as int),
{
    u16_from_le_bytes(slice_subrange(bytes, pos, pos + 2))
}

pub(crate) fn get_u32(bytes: &[u8], pos: usize) -> (value: u32)
    requires
        pos + 4 <= bytes.len(),
    ensures
        value == u32_at(bytes@, pos as int),
{
    u32_from_le_bytes(slice_subrange(bytes, pos, pos + 4))
}

pub(crate) fn get_u64(bytes: &[u8], pos: usize) -> (value: u64)
    requires
        pos + 8 <= bytes.len(),
    ensures
        value == u64_at(bytes@, pos as int),
{
    u64_from_le_bytes(slice_subrange(bytes, pos, pos + 8))
}

pub(crate) fn put_u16(out: &mut Vec<u8>, value: u16)
    ensures
        final(out)@ == old(out)@ + spec_u16_to_le_bytes(value),
{
    let bytes = u16_to_le_bytes(value);
    out.extend_from_slice(bytes.as_slice());
}

pub(crate) fn put_u32(out: &mut Vec<u8>, value: u32)
    ensures
        final(out)@ == old(out)@ + spec_u32_to_le_bytes(value),
{
    let bytes = u32_to_le_bytes(value);
    out.extend_from_slice(bytes.as_slice());
}

pub(crate) fn put_u64(out: &mut Vec<u8>, value: u64)
    ensures
        final(out)@ == old(out)@ + spec_u64_to_le_bytes(value),
{
    let bytes = u64_to_le_bytes(value);
    out.extend_from_slice(bytes.as_slice());
}

/// Copies the `N` bytes that start at `pos` into an array.
pub(crate) fn get_array<const N: usize>(bytes: &[u8], pos: usize) -> (field: [u8; N])
    requires
        pos + N <= bytes.len(),
    ensures
        field@ == bytes@.subrange(pos as int, pos + N),
{
    let mut field = [0u8;N];
    let mut i: usize = 0;
    while i < N
        invariant
            i <= N,
            pos + N <= bytes.len(),
            forall|j: int| 0 <= j < i ==> field@[j] == bytes@[pos + j],
        decreases N - i,
    {
        field[i] = bytes[pos + i];
        i += 1;
    }
    assert(field@ =~= bytes@.subrange(pos as int, pos + N));
    field
}

} // verus!
