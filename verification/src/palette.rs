//! Indexed-colour (palette) textures.

use crate::bytes::{push_bytes, zeros};
use crate::error::TxdError;
use crate::image::{lemma_pixels_push, pixel_at, pixels_are, rgba_len, ImageView, RgbaImage};
use vstd::prelude::*;

verus! {

/// Pixel `i` of an indexed image: the palette entry its index names (index 0 when the index is
/// not below `palette_size`), or transparent black where the index or the entry is missing.
pub open spec fn spec_palette_pixel(indexed: Seq<u8>, palette: Seq<u8>, palette_size: u32, i: int) -> Seq<u8> {
    if i < indexed.len() {
        let k: int = if (indexed[i] as u32) < palette_size {
            indexed[i] as int
        } else {
            0
        };
        if 4 * k + 4 <= palette.len() {
            palette.subrange(4 * k, 4 * k + 4)
        } else {
            seq![0u8, 0u8, 0u8, 0u8]
        }
    } else {
        seq![0u8, 0u8, 0u8, 0u8]
    }
}

/// The pixels of an indexed image, by position.
pub open spec fn palette_pixels(indexed: Seq<u8>, palette: Seq<u8>, palette_size: u32) -> spec_fn(
    int,
) -> Seq<u8> {
    |i: int| spec_palette_pixel(indexed, palette, palette_size, i)
}

/// Expands an indexed image through its RGBA palette.
pub fn convert_palette_to_rgba(
    indexed_data: &[u8],
    palette: &[u8],
    palette_size: u32,
    width: u32,
    height: u32,
) -> (r: Result<RgbaImage, TxdError>)
    requires
        indexed_data@.len() > 0 && palette@.len() > 0 && width > 0 && height > 0 ==> rgba_len(
            width,
            height,
        ) <= usize::MAX,
    ensures
        indexed_data@.len() == 0 || palette@.len() == 0 || width == 0 || height == 0 ==> r == Err::<
            RgbaImage,
            TxdError,
        >(TxdError::InvalidDimensions { width, height }),
        indexed_data@.len() > 0 && palette@.len() > 0 && width > 0 && height > 0 ==> (r matches Ok(
            img,
        ) && img@.width == width && img@.height == height && pixels_are(
            img@.data,
            width * height,
            palette_pixels(indexed_data@, palette@, palette_size),
        )),
{
    if indexed_data.len() == 0 || palette.len() == 0 || width == 0 || height == 0 {
        return Err(TxdError::InvalidDimensions { width, height });
    }
    let ghost f = palette_pixels(indexed_data@, palette@, palette_size);
    let n: usize = (width as usize) * (height as usize);
    let mut out: Vec<u8> = Vec::new();
    let mut i: usize = 0;
    while i < n
        invariant
            i <= n,
            n == width * height,
            n * 4 <= usize::MAX,
            f == palette_pixels(indexed_data@, palette@, palette_size),
            pixels_are(out@, i as int, f),
        decreases n - i,
    {
        let ghost before = out@;
        let px: [u8; 4] = if i < indexed_data.len() {
            let raw = indexed_data[i];
            let index: usize = if (raw as u32) < palette_size {
                raw as usize
            } else {
                0
            };
            if index * 4 + 4 <= palette.len() {
                let e = [palette[index * 4], palette[index * 4 + 1], palette[index * 4 + 2], palette[
                    index * 4 + 3]];
                assert(e@ =~= palette@.subrange(4 * index, 4 * index + 4));
                e
            } else {
                [0u8, 0u8, 0u8, 0u8]
            }
        } else {
            [0u8, 0u8, 0u8, 0u8]
        };
        assert(px@ =~= spec_palette_pixel(indexed_data@, palette@, palette_size, i as int));
        assert(f(i as int) == spec_palette_pixel(indexed_data@, palette@, palette_size, i as int));
        push_bytes(&mut out, &px);
        proof {
            lemma_pixels_push(before, i as int, f, px@);
        }
        i = i + 1;
    }
    match RgbaImage::from_raw(width, height, out) {
        Some(img) => Ok(img),
        None => Err(TxdError::InvalidDimensions { width, height }),
    }
}

/// Checks a request for a palette of `palette_size` entries for a `width` x `height` image:
/// only 16- and 256-entry palettes of non-empty images can be made.
pub fn check_palette_request(palette_size: u32, width: u32, height: u32) -> (r: Result<(), TxdError>)
    ensures
        palette_size != 16 && palette_size != 256 ==> r matches Err(TxdError::InvalidPalette),
        (palette_size == 16 || palette_size == 256) && (width == 0 || height == 0) ==> r == Err::<
            (),
            TxdError,
        >(TxdError::InvalidDimensions { width, height }),
        (palette_size == 16 || palette_size == 256) && width > 0 && height > 0 ==> r is Ok,
{
    if palette_size != 16 && palette_size != 256 {
        return Err(TxdError::InvalidPalette);
    }
    if width == 0 || height == 0 {
        return Err(TxdError::InvalidDimensions { width, height });
    }
    Ok(())
}

/// The palette bytes of `palette_size` entries: the quantizer's RGBA entries `entries`, cut to
/// that many or padded with zeros.
pub fn pad_palette(entries: &[u8], palette_size: u32) -> (r: Vec<u8>)
    requires
        palette_size * 4 <= usize::MAX,
    ensures
        r@ == (if entries@.len() >= palette_size * 4 {
            entries@.take(palette_size * 4)
        } else {
            entries@ + zeros((palette_size * 4 - entries@.len()) as nat)
        }),
{
    let n: usize = (palette_size as usize) * 4;
    let mut out: Vec<u8> = Vec::new();
    let mut i: usize = 0;
    while i < n
        invariant
            i <= n,
            n == palette_size * 4,
            out@ == (if entries@.len() >= n {
                entries@.take(n as int)
            } else {
                entries@ + zeros((n - entries@.len()) as nat)
            }).take(i as int),
        decreases n - i,
    {
        let b = if i < entries.len() {
            entries[i]
        } else {
            0u8
        };
        out.push(b);
        i = i + 1;
        assert(out@ =~= (if entries@.len() >= n {
            entries@.take(n as int)
        } else {
            entries@ + zeros((n - entries@.len()) as nat)
        }).take(i as int));
    }
    assert(out@ =~= (if entries@.len() >= n {
        entries@.take(n as int)
    } else {
        entries@ + zeros((n - entries@.len()) as nat)
    }));
    out
}

} // verus!
