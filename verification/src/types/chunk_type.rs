//! RenderWare chunk type identifiers.

use vstd::prelude::*;

verus! {

pub const STRUCT: u32 = 0x01;
pub const STRING: u32 = 0x02;
pub const EXTENSION: u32 = 0x03;
pub const TEXTURE_NATIVE: u32 = 0x15;
pub const TEX_DICTIONARY: u32 = 0x16;
pub const SKY_MIPMAP: u32 = 0x110;

} // verus!
