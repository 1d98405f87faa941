//! HDR10+ (SMPTE ST 2094-40) dynamic metadata: bitstream parsing, validation,
//! encoding for HEVC SEI and AV1 OBU carriage, and the JSON scene model.
use vstd::prelude::*;

pub mod bits;
pub mod error;
pub mod metadata;
pub mod json;
pub mod roundtrip;
pub mod av1;
pub mod inject;
pub mod hevc;
pub mod extract;
pub mod llc;
pub mod truncating;
pub mod sei;
pub mod editor;
pub mod commands;

verus! {

} // verus!
