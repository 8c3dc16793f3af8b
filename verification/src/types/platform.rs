//! Platform identifiers stored in texture headers.

use vstd::prelude::*;

verus! {

pub const OGL: u32 = 2;
pub const PS2: u32 = 4;
pub const XBOX: u32 = 5;
pub const D3D8: u32 = 8;
pub const D3D9: u32 = 9;
/// The bytes `PS2\0` read as a little-endian `u32`.
pub const PS2_FOURCC: u32 = 0x0032_5350;

} // verus!
