//! Raster format values and flags.

use vstd::prelude::*;

verus! {

pub const DEFAULT: u32 = 0x0000;
pub const A1R5G5B5: u32 = 0x0100;
pub const R5G6B5: u32 = 0x0200;
pub const R4G4B4A4: u32 = 0x0300;
pub const LUM8: u32 = 0x0400;
pub const B8G8R8A8: u32 = 0x0500;
pub const B8G8R8: u32 = 0x0600;
pub const R5G5B5: u32 = 0x0A00;

pub const AUTOMIPMAP: u32 = 0x1000;
pub const PAL8: u32 = 0x2000;
pub const PAL4: u32 = 0x4000;
pub const MIPMAP: u32 = 0x8000;

/// Selects the pixel layout out of a raster format value.
pub const MASK: u32 = 0x0F00;

} // verus!
