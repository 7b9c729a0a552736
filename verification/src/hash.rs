//! The message identity hash: CRC-16/X-25 over the raw message name.
//!
//! The hash is the sole on-wire discriminant of a message's type, so
//! the library never computes it itself: it calls the `crc16` crate and
//! names the digest, which is a pure function of the input bytes.

use vstd::prelude::*;

verus! {

/// The CRC-16/X-25 digest of a byte string.
pub uninterp spec fn crc16_x25_of(data: Seq<u8>) -> u16;

/// Relies on crc16::State::<X_25>::calculate: a table-driven digest
/// computed from the input bytes alone.
#[verifier::external_body]
fn crc16_x25(data: &[u8]) -> (r: u16)
    ensures
        r == crc16_x25_of(data@),
{
    crc16::State::<crc16::X_25>::calculate(data)
}

/// The message identity hash: the CRC-16/X-25 digest of the raw name
/// without the digest's final complement.  This exact value is what
/// the protocol has always put on the wire (the identity of
/// `vehicle_gps_position` is 38928), and its stability across builds
/// is what dispatch depends on, so the complement is pinned here.
pub open spec fn hash16_of(data: Seq<u8>) -> u16 {
    !crc16_x25_of(data)
}

pub(crate) fn hash16(data: &[u8]) -> (r: u16)
    ensures
        r == hash16_of(data@),
{
    !crc16_x25(data)
}

} // verus!
