//! The 32-bit integrity checksum that seals every chunk, computed over
//! the four tag bytes followed by the payload bytes.

use vstd::prelude::*;

verus! {

/// The CRC-32 checksum, ISO-HDLC parameterization, of a byte sequence.
/// The value depends on the bytes alone; it is named here and computed
/// only by the crc crate.
pub uninterp spec fn spec_crc32(bytes: Seq<u8>) -> u32;

/// Relies on crc::Crc::<u32>::checksum with the CRC_32_ISO_HDLC
/// algorithm: a pure function of the input bytes, the same on every call
/// and every machine.
#[verifier::external_body]
pub(crate) fn crc32(bytes: &[u8]) -> (r: u32)
    ensures
        r == spec_crc32(bytes@),
{
    crc::Crc::<u32>::new(&crc::CRC_32_ISO_HDLC).checksum(bytes)
}

} // verus!
