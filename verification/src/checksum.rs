//! The checksum by which equal payloads are recognised.

use vstd::prelude::*;

verus! {

/// The CRC-32 (IEEE) checksum of a byte sequence, as the `crc` crate
/// computes it.
pub uninterp spec fn crc32_ieee(bytes: Seq<u8>) -> u32;

/// `crc::crc32::checksum_ieee`: a table-driven CRC-32 that reads
/// nothing but the bytes it is given.
#[verifier::external_body]
pub(crate) fn checksum_ieee(bytes: &[u8]) -> (sum: u32)
    ensures
        sum == crc32_ieee(bytes@),
{
    crc::crc32::checksum_ieee(bytes)
}

} // verus!
