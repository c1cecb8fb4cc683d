//! The bytes that this payload format gives a meaning to: the NAL unit
//! header, the FU header, and the prefixes under which a rebuilt NAL unit is
//! handed on.

use crate::buf::{be32, buffered, put, put_u32};
use bytes::BytesMut;
use vstd::prelude::*;

verus! {

/// NAL unit type of a STAP-A payload, which aggregates several NAL units.
pub const STAPA_NALU_TYPE: u8 = 24;

/// NAL unit type of an FU-A payload, which carries a fragment of a NAL unit.
pub const FUA_NALU_TYPE: u8 = 28;

/// NAL unit type of an FU-B payload.
pub const FUB_NALU_TYPE: u8 = 29;

/// Length of the FU indicator and the FU header together.
pub const FUA_HEADER_SIZE: usize = 2;

/// Length of the STAP-A indicator.
pub const STAPA_HEADER_SIZE: usize = 1;

/// Length of the size field before each NAL unit of a STAP-A payload.
pub const STAPA_NALU_LENGTH_SIZE: usize = 2;

/// The bits of a NAL unit header that hold the type.
pub const NALU_TYPE_BITMASK: u8 = 0x1F;

/// The bits of a NAL unit header that hold `nal_ref_idc`.
pub const NALU_REF_IDC_BITMASK: u8 = 0x60;

/// The bit of an FU header that marks the first fragment.
pub const FU_START_BITMASK: u8 = 0x80;

/// The bit of an FU header that marks the last fragment.
pub const FU_END_BITMASK: u8 = 0x40;

/// The Annex-B start code put before a rebuilt NAL unit.
pub const ANNEXB_NALUSTART_CODE: [u8; 4] = [0x00, 0x00, 0x00, 0x01];

/// The type field of a NAL unit header or of an FU header.
pub open spec fn nalu_type(header: u8) -> u8 {
    header & NALU_TYPE_BITMASK
}

/// The `nal_ref_idc` field of a NAL unit header, left in its place.
pub open spec fn nalu_ref_idc(header: u8) -> u8 {
    header & NALU_REF_IDC_BITMASK
}

/// The low 32 bits of a length.
pub open spec fn low32(n: int) -> u32 {
    (n % 0x1_0000_0000) as u32
}

/// What goes before a rebuilt NAL unit of `len` bytes: in AVC mode its length
/// as four bytes, most significant first (the low 32 bits of it, where the
/// length needs more), else the Annex-B start code.
pub open spec fn prefix(is_avc: bool, len: int) -> Seq<u8> {
    prefix_bytes(is_avc, low32(len))
}

/// The prefix for a NAL unit whose length has `n` as its low 32 bits.
pub open spec fn prefix_bytes(is_avc: bool, n: u32) -> Seq<u8> {
    if is_avc {
        be32(n)
    } else {
        seq![0x00u8, 0x00u8, 0x00u8, 0x01u8]
    }
}

/// A NAL unit behind its prefix.
pub open spec fn framed(is_avc: bool, nalu: Seq<u8>) -> Seq<u8> {
    prefix(is_avc, nalu.len() as int) + nalu
}

/// The low 32 bits of a length.
pub(crate) fn low32_of(len: usize) -> (n: u32)
    ensures
        n == low32(len as int),
{
    let n = #[verifier::truncate] (len as u32);
    assert(len as u32 == (len as u64 % 0x1_0000_0000) as u32) by (bit_vector);
    n
}

/// The low 32 bits of a length that is one more than `len`.
pub(crate) fn low32_of_next(len: usize) -> (n: u32)
    ensures
        n == low32(len + 1),
{
    low32_of(len).wrapping_add(1)
}

/// Appends the prefix for a NAL unit whose length has `n` as its low 32 bits.
pub(crate) fn put_prefix(out: &mut BytesMut, is_avc: bool, n: u32)
    ensures
        buffered(final(out)) == buffered(old(out)) + prefix_bytes(is_avc, n),
{
    if is_avc {
        put_u32(out, n);
    } else {
        let code = ANNEXB_NALUSTART_CODE;
        assert(code@ =~= seq![0x00u8, 0x00u8, 0x00u8, 0x01u8]);
        put(out, &code);
    }
}

} // verus!
