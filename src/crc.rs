//! CRC-32C (Castagnoli) in the form that ext4 stores it.
use vstd::prelude::*;

verus! {

/// What `crc::crc32::update` computes over the Castagnoli table, from the
/// running value `value` over `data`.
pub uninterp spec fn castagnoli_update(value: u32, data: Seq<u8>) -> u32;

/// Relies on `crc::crc32::update` with `crc::crc32::CASTAGNOLI_TABLE`: a
/// table-driven CRC-32C step whose result depends on its arguments alone.
#[verifier::external_body]
fn crc32c_update(value: u32, data: &[u8]) -> (r: u32)
    ensures
        r == castagnoli_update(value, data@),
{
    crc::crc32::update(value, &crc::crc32::CASTAGNOLI_TABLE, data)
}

/// The checksum ext4 records for `buf`, continuing from `seed`.
pub open spec fn ext4_crc32c(seed: u32, buf: Seq<u8>) -> u32 {
    castagnoli_update(seed ^ 0xFFFF_FFFFu32, buf) ^ 0xFFFF_FFFFu32
}

/// CRC-32C as the ext4 kernel code chains it: the seed is the previous
/// checksum, not its complement.
pub fn ext4_style_crc32c_le(seed: u32, buf: &[u8]) -> (r: u32)
    ensures
        r == ext4_crc32c(seed, buf@),
{
    crc32c_update(seed ^ 0xFFFF_FFFFu32, buf) ^ 0xFFFF_FFFFu32
}

} // verus!
