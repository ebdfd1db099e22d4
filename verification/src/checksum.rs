//! The CRC-32 checksum that guards every chunk.

use crc::Crc;
use vstd::prelude::*;

verus! {

/// The CRC-32/ISO-HDLC checksum of `bytes`: the variant used by PNG and zip.
///
/// Its value is whatever the `crc` crate computes. The proofs of this crate
/// use only that it depends on the bytes alone.
pub uninterp spec fn crc32_iso_hdlc(bytes: Seq<u8>) -> u32;

/// Calls `Crc::<u32>::checksum` of the `crc` crate, on an instance built by
/// `Crc::<u32>::new` for the catalogue's `CRC_32_ISO_HDLC` parameters.
///
/// Trusted: the call reads nothing but `bytes` and those constant
/// parameters, so its result is the named checksum of `bytes`. It walks the
/// slice once through a lookup table and cannot fail.
#[verifier::external_body]
pub(crate) fn checksum(bytes: &[u8]) -> (sum: u32)
    ensures
        sum == crc32_iso_hdlc(bytes@),
{
    let crc = Crc::<u32>::new(&crc::CRC_32_ISO_HDLC);
    crc.checksum(bytes)
}

} // verus!
