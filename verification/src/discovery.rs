//! Device discovery: the table of known vendor/product identifier pairs
//! that select a candidate device when none is named explicitly.

use vstd::prelude::*;

verus! {

/// The known identifier pairs of devices that speak this flashing protocol.
pub open spec fn spec_known_device(vid: u16, pid: u16) -> bool {
    ||| vid == 0x1D50 && (pid == 0x6110 || pid == 0x6112)
    ||| vid == 0x239A && (pid == 0x0035 || pid == 0x002D || pid == 0x0015 || pid == 0x001B || pid
        == 0xB000 || pid == 0x0024 || pid == 0x000F || pid == 0x0013 || pid == 0x0021 || pid
        == 0x0022 || pid == 0x0031 || pid == 0x002B || pid == 0x0037 || pid == 0x002F || pid
        == 0x0033 || pid == 0x0034 || pid == 0x003D || pid == 0x0018 || pid == 0x001C || pid
        == 0x001E || pid == 0x0027)
    ||| vid == 0x04D8 && (pid == 0xEDB3 || pid == 0xEDBE || pid == 0xEF66)
    ||| vid == 0x2341 && (pid == 0x024E || pid == 0x8053 || pid == 0x024D)
    ||| vid == 0x16D0 && pid == 0x0CDA
    ||| vid == 0x03EB && pid == 0x2402
    ||| vid == 0x2886 && pid == 0x000D
    ||| vid == 0x1B4F && (pid == 0x0D23 || pid == 0x0D22)
    ||| vid == 0x1209 && (pid == 0x4D44 || pid == 0x2017)
}

/// Whether a visible device's identifier pair is in the known-good table.
pub fn is_known_device(vid: u16, pid: u16) -> (r: bool)
    ensures
        r == spec_known_device(vid, pid),
{
    match vid {
        0x1D50 => pid == 0x6110 || pid == 0x6112,
        0x239A => pid == 0x0035 || pid == 0x002D || pid == 0x0015 || pid == 0x001B || pid == 0xB000
            || pid == 0x0024 || pid == 0x000F || pid == 0x0013 || pid == 0x0021 || pid == 0x0022
            || pid == 0x0031 || pid == 0x002B || pid == 0x0037 || pid == 0x002F || pid == 0x0033
            || pid == 0x0034 || pid == 0x003D || pid == 0x0018 || pid == 0x001C || pid == 0x001E
            || pid == 0x0027,
        0x04D8 => pid == 0xEDB3 || pid == 0xEDBE || pid == 0xEF66,
        0x2341 => pid == 0x024E || pid == 0x8053 || pid == 0x024D,
        0x16D0 => pid == 0x0CDA,
        0x03EB => pid == 0x2402,
        0x2886 => pid == 0x000D,
        0x1B4F => pid == 0x0D23 || pid == 0x0D22,
        0x1209 => pid == 0x4D44 || pid == 0x2017,
        _ => false,
    }
}

} // verus!
