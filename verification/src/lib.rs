//! Schema-driven binary codec for fixed-layout telemetry messages.
//!
//! A compact text description language declares named, strongly typed
//! records (fields, fixed-size arrays, named constants).  The library
//! parses those descriptions into typed message descriptors, derives a
//! canonical little-endian layout with a fixed encoded length and a
//! stable 16-bit identity hash per message, and frames encoded records
//! behind a resynchronizing length-prefixed header so that incoming
//! bytes can be dispatched to the right message purely from that hash.

use vstd::prelude::*;

mod endian;
pub mod codec;
pub mod framing;
pub mod hash;
pub mod message;
pub mod parser;
pub mod registry;
pub mod text;
pub mod types;

verus! {

/// Compatible protocol version number, used for framing messages on the wire
pub const UORB_MAGIC_V1: u8 = 0xAA;

} // verus!
