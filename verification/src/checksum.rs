//! Per-page checksums.
//!
//! Host and device agree on the 16-bit CRC-XMODEM variant; the host computes
//! it over whole (zero-padded) pages and compares against the device's
//! reported table. The checksum itself comes from the `crc-any` crate; the
//! library only names its result.

use vstd::prelude::*;

verus! {

/// The CRC-XMODEM checksum of a byte sequence. The algorithm is fixed by the
/// device protocol; the library treats it as an opaque function of the bytes.
pub uninterp spec fn crc16_xmodem_of(data: Seq<u8>) -> u16;

/// Relies on `crc_any::CRCu16` (`crc16xmodem`, `digest`, `get_crc`): the
/// CRC-XMODEM checksum of a byte slice, a function of the bytes alone.
#[verifier::external_body]
pub(crate) fn crc16_xmodem(data: &[u8]) -> (r: u16)
    ensures
        r == crc16_xmodem_of(data@),
{
    let mut digest = crc_any::CRCu16::crc16xmodem();
    digest.digest(data);
    digest.get_crc()
}

} // verus!
