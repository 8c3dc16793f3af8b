//! Building textures from RGBA images: the mipmap chain and the per-level encoding.

use crate::bytes::push_bytes;
use crate::error::TxdError;
use crate::texture::{MipmapLevel, MipmapView};
use crate::image::{pixel_at, rgba_len, ImageView, RgbaImage};
use crate::types::platform;
use crate::types::raster_format;
use crate::types::{
    codec_fits, dxt_encoded, max_u32, spec_block_format, spec_compressed_size, BlockFormat,
    Compression, DxtAlgorithm,
};
use vstd::prelude::*;

verus! {

/// How a new texture stores its pixels.
#[derive(Debug, Clone, Copy, PartialEq, Eq, Structural)]
pub enum TextureFormat {
    /// Uncompressed 32-bit BGRA.
    Rgba32,
    /// DXT1 blocks, encoded with the given algorithm.
    Dxt1 { algorithm: DxtAlgorithm },
    /// DXT3 blocks, encoded with the given algorithm.
    Dxt3 { algorithm: DxtAlgorithm },
}

/// The resampling filter that builds each smaller mipmap level.
#[derive(Debug, Clone, Copy, PartialEq, Eq, Structural)]
pub enum FilterType {
    Nearest,
    Triangle,
    CatmullRom,
    Gaussian,
    Lanczos3,
}

/// How `Texture::from_rgba` builds a texture.
#[derive(Debug, Clone, Copy, PartialEq, Eq, Structural)]
pub struct TextureCreateOptions {
    pub platform: u32,
    pub filter_flags: u32,
    pub format: TextureFormat,
    pub mipmaps: bool,
    pub mip_filter: FilterType,
}

impl Default for TextureCreateOptions {
    fn default() -> (r: TextureCreateOptions)
        ensures
            r == (TextureCreateOptions {
                platform: platform::D3D9,
                filter_flags: 0x1106,
                format: TextureFormat::Rgba32,
                mipmaps: true,
                mip_filter: FilterType::Triangle,
            }),
    {
        TextureCreateOptions {
            platform: platform::D3D9,
            filter_flags: 0x1106,
            format: TextureFormat::Rgba32,
            mipmaps: true,
            mip_filter: FilterType::Triangle,
        }
    }
}

/// The resampling filters whose arithmetic gives the same pixels on every machine: nearest
/// neighbour and triangle only add, multiply and divide; the others call `sin`, `exp` or
/// `powi`, whose precision the standard library leaves open.
pub open spec fn filter_is_exact(filter: FilterType) -> bool {
    filter is Nearest || filter is Triangle
}

/// The RGBA pixels that the image crate's resampler makes of a `width` x `height` image with
/// an exact filter (see `filter_is_exact`).
pub uninterp spec fn resized_rgba(
    data: Seq<u8>,
    width: u32,
    height: u32,
    new_width: u32,
    new_height: u32,
    filter: FilterType,
) -> Seq<u8>;

/// `image::imageops::resize` on the image `image::RgbaImage::from_raw(width, height, data)`
/// builds: no image (and no resize) when `data` is shorter than `width * height * 4` bytes or
/// that product overflows (`from_raw` multiplies `4 * width` first, then by `height`, each step
/// checked); otherwise the resampled pixels, `new_width * new_height * 4` bytes of
/// them. Which pixels the resampler computes is not stated; for the exact filters it is named
/// (`resized_rgba`), for the others it may differ between machines and is left open.
#[verifier::external_body]
fn resize_pixels(
    data: Vec<u8>,
    width: u32,
    height: u32,
    new_width: u32,
    new_height: u32,
    filter: FilterType,
) -> (r: Option<Vec<u8>>)
    requires
        new_width * 4 <= usize::MAX,
        rgba_len(new_width, new_height) <= usize::MAX,
        width * new_height * 4 <= usize::MAX,
    ensures
        (r is Some) == (width * 4 <= usize::MAX && rgba_len(width, height) <= usize::MAX
            && rgba_len(width, height) <= data@.len()),
        r matches Some(v) ==> v@.len() == rgba_len(new_width, new_height),
        r matches Some(v) ==> (filter_is_exact(filter) ==> v@ == resized_rgba(
            data@,
            width,
            height,
            new_width,
            new_height,
            filter,
        )),
{
    let f = match filter {
        FilterType::Nearest => image::imageops::FilterType::Nearest,
        FilterType::Triangle => image::imageops::FilterType::Triangle,
        FilterType::CatmullRom => image::imageops::FilterType::CatmullRom,
        FilterType::Gaussian => image::imageops::FilterType::Gaussian,
        FilterType::Lanczos3 => image::imageops::FilterType::Lanczos3,
    };
    let source = image::RgbaImage::from_raw(width, height, data)?;
    Some(image::imageops::resize(&source, new_width, new_height, f).into_raw())
}

/// Half of a mipmap dimension, but at least 1.
pub open spec fn half_dim(v: u32) -> u32 {
    max_u32(v / 2, 1)
}

/// `next` is the level resampling `v` gives: half its size (at least 1), a full buffer of
/// pixels, and for an exact filter the resampled pixels themselves.
pub open spec fn is_next_level(v: ImageView, next: ImageView, filter: FilterType) -> bool {
    &&& next.width == half_dim(v.width)
    &&& next.height == half_dim(v.height)
    &&& next.data.len() == rgba_len(next.width, next.height)
    &&& filter_is_exact(filter) ==> next.data == resized_rgba(
        v.data,
        v.width,
        v.height,
        next.width,
        next.height,
        filter,
    )
}

/// `levels` is a mipmap chain of `v`: `v` first; with mipmaps on, each level the next level of
/// the one before, down to the first 1 x 1 level; with mipmaps off, `v` alone.
pub open spec fn is_mipmap_chain(levels: Seq<ImageView>, v: ImageView, enabled: bool, filter: FilterType) -> bool {
    &&& levels.len() >= 1
    &&& levels[0] == v
    &&& !enabled ==> levels.len() == 1
    &&& enabled ==> {
        &&& forall|i: int|
            #![trigger levels[i]]
            0 < i < levels.len() ==> is_next_level(levels[i - 1], levels[i], filter)
        &&& forall|i: int|
            0 <= i < levels.len() - 1 ==> !((#[trigger] levels[i]).width == 1 && levels[i].height
                == 1)
        &&& levels.last().width == 1 && levels.last().height == 1
    }
}

/// A dimension as the chain's termination measure counts it (0 counts as 2).
pub open spec fn dim_measure(v: u32) -> int {
    if v == 0 {
        2
    } else {
        v as int
    }
}

/// The views of a sequence of images.
pub open spec fn image_views(images: Seq<RgbaImage>) -> Seq<ImageView> {
    images.map_values(|m: RgbaImage| m@)
}

/// Every level of a chain that starts within `w` x `h` stays within it.
pub open spec fn chain_bounds(width: u32, height: u32) -> (u32, u32) {
    (max_u32(width, 1), max_u32(height, 1))
}

proof fn lemma_mul_mono(a: int, b: int, c: int, d: int)
    requires
        0 <= a <= c,
        0 <= b <= d,
    ensures
        a * b * 4 <= c * d * 4,
{
    assert(a * b <= c * d) by (nonlinear_arith)
        requires
            0 <= a <= c,
            0 <= b <= d,
    ;
}

/// Builds the mipmap chain of `image`: the image, then each level half the size of the one
/// before (at least 1), resampled with `filter`, down to 1 x 1; only the image when `enabled`
/// is false.
pub fn image_mipmaps(image: RgbaImage, enabled: bool, filter: FilterType) -> (r: Vec<RgbaImage>)
    requires
        rgba_len(chain_bounds(image@.width, image@.height).0, chain_bounds(image@.width, image@.height).1)
            <= usize::MAX,
    ensures
        is_mipmap_chain(image_views(r@), image@, enabled, filter),
{
    let ghost v0 = image@;
    let ghost (bw, bh) = chain_bounds(image@.width, image@.height);
    let mut mipmaps: Vec<RgbaImage> = Vec::new();
    mipmaps.push(image);
    assert(image_views(mipmaps@) =~= seq![v0]);
    if !enabled {
        return mipmaps;
    }
    let mut done = false;
    while !done
        invariant
            mipmaps@.len() >= 1,
            image_views(mipmaps@)[0] == v0,
            (bw, bh) == chain_bounds(v0.width, v0.height),
            rgba_len(bw, bh) <= usize::MAX,
            mipmaps@.last()@.width <= bw,
            mipmaps@.last()@.height <= bh,
            forall|i: int|
                #![trigger image_views(mipmaps@)[i]]
                0 < i < mipmaps@.len() ==> is_next_level(
                    image_views(mipmaps@)[i - 1],
                    image_views(mipmaps@)[i],
                    filter,
                ),
            forall|i: int|
                0 <= i < mipmaps@.len() - 1 ==> !((#[trigger] image_views(mipmaps@)[i]).width == 1
                    && image_views(mipmaps@)[i].height == 1),
            done ==> mipmaps@.last()@.width == 1 && mipmaps@.last()@.height == 1,
        decreases (if done {
            0
        } else {
            dim_measure(mipmaps@.last()@.width) + dim_measure(mipmaps@.last()@.height) + 1
        }),
    {
        let last = &mipmaps[mipmaps.len() - 1];
        let (width, height) = last.dimensions();
        if width == 1 && height == 1 {
            done = true;
        } else {
            let ghost lv = last@;
            let nw: u32 = if width / 2 > 1 {
                width / 2
            } else {
                1
            };
            let nh: u32 = if height / 2 > 1 {
                height / 2
            } else {
                1
            };
            let mut pixels: Vec<u8> = Vec::new();
            push_bytes(&mut pixels, last.as_raw().as_slice());
            proof {
                lemma_mul_mono(nw as int, nh as int, bw as int, bh as int);
                lemma_mul_mono(nw as int, 1, bw as int, bh as int);
                lemma_mul_mono(width as int, 1, bw as int, bh as int);
                lemma_mul_mono(width as int, nh as int, bw as int, bh as int);
                lemma_mul_mono(width as int, height as int, bw as int, bh as int);
            }
            let resized = resize_pixels(pixels, width, height, nw, nh, filter);
            let next = match resized {
                Some(data) => RgbaImage::from_raw(nw, nh, data),
                None => None,
            };
            match next {
                Some(img) => {
                    let ghost before = image_views(mipmaps@);
                    assert(is_next_level(lv, img@, filter));
                    mipmaps.push(img);
                    proof {
                        let after = image_views(mipmaps@);
                        assert(after =~= before.push(img@));
                        assert(before.last() == lv);
                        assert forall|i: int|
                            #![trigger after[i]]
                            0 < i < after.len() implies is_next_level(
                                after[i - 1],
                                after[i],
                                filter,
                            ) by {
                            if i < after.len() - 1 {
                                assert(after[i] == before[i]);
                                assert(after[i - 1] == before[i - 1]);
                            }
                        }
                        assert forall|i: int|
                            0 <= i < after.len() - 1 implies !((#[trigger] after[i]).width == 1
                                && after[i].height == 1) by {
                            assert(after[i] == before[i]);
                        }
                    }
                },
                None => {
                    done = true;
                },
            }
        }
    }
    mipmaps
}

/// `data` with the red and blue byte of every pixel swapped.
pub open spec fn spec_swap_red_blue(data: Seq<u8>) -> Seq<u8> {
    Seq::new(
        data.len(),
        |j: int|
            if j % 4 == 0 && j + 2 < data.len() {
                data[j + 2]
            } else if j % 4 == 2 {
                data[j - 2]
            } else {
                data[j]
            },
    )
}

/// The RGBA bytes of an image in BGRA order.
fn into_raw_bgra(image: &RgbaImage) -> (r: Vec<u8>)
    ensures
        r@ == spec_swap_red_blue(image@.data),
{
    let data = image.as_raw();
    let n = data.len();
    let mut out: Vec<u8> = Vec::new();
    let mut i: usize = 0;
    while i < n
        invariant
            n == data@.len(),
            n % 4 == 0,
            i % 4 == 0,
            i <= n,
            out@ == spec_swap_red_blue(data@).take(i as int),
        decreases n - i,
    {
        out.push(data[i + 2]);
        out.push(data[i + 1]);
        out.push(data[i]);
        out.push(data[i + 3]);
        i = i + 4;
        assert(out@ =~= spec_swap_red_blue(data@).take(i as int));
    }
    assert(spec_swap_red_blue(data@).take(i as int) =~= spec_swap_red_blue(data@));
    out
}

/// Every level of a mipmap chain of a non-empty image is at least 1 x 1 and no larger than the
/// image.
pub proof fn lemma_chain_dims(levels: Seq<ImageView>, v: ImageView, enabled: bool, filter: FilterType)
    requires
        is_mipmap_chain(levels, v, enabled, filter),
        v.width >= 1,
        v.height >= 1,
    ensures
        forall|i: int|
            0 <= i < levels.len() ==> 1 <= (#[trigger] levels[i]).width <= v.width && 1
                <= levels[i].height <= v.height,
{
    lemma_chain_prefix_dims(levels, v, enabled, filter, levels.len() as int);
}

proof fn lemma_chain_prefix_dims(
    levels: Seq<ImageView>,
    v: ImageView,
    enabled: bool,
    filter: FilterType,
    n: int,
)
    requires
        is_mipmap_chain(levels, v, enabled, filter),
        v.width >= 1,
        v.height >= 1,
        0 <= n <= levels.len(),
    ensures
        forall|i: int|
            0 <= i < n ==> 1 <= (#[trigger] levels[i]).width <= v.width && 1 <= levels[i].height
                <= v.height,
    decreases n,
{
    if n > 1 {
        lemma_chain_prefix_dims(levels, v, enabled, filter, n - 1);
        let k = n - 1;
        assert(enabled);
        assert(is_next_level(levels[k - 1], levels[k], filter));
        assert(1 <= levels[k - 1].width <= v.width);
    }
}

/// The DXT codec's limits hold for every smaller image.
pub proof fn lemma_codec_fits_smaller(format: BlockFormat, w: u32, h: u32, w2: u32, h2: u32)
    requires
        codec_fits(format, w, h),
        w2 <= w,
        h2 <= h,
    ensures
        codec_fits(format, w2, h2),
{
    let a = (w2 + 3) / 4;
    let b = (h2 + 3) / 4;
    let c = (w + 3) / 4;
    let d = (h + 3) / 4;
    assert(a <= c && b <= d);
    assert(a * b <= c * d) by (nonlinear_arith)
        requires
            0 <= a <= c,
            0 <= b <= d,
    ;
}

impl TextureFormat {
    /// The compression kind of this format.
    pub open spec fn spec_compression(self) -> Compression {
        match self {
            TextureFormat::Rgba32 => Compression::Uncompressed,
            TextureFormat::Dxt1 { .. } => Compression::Dxt1,
            TextureFormat::Dxt3 { .. } => Compression::Dxt3,
        }
    }

    pub(crate) fn compression(self) -> (r: Compression)
        ensures
            r == self.spec_compression(),
    {
        match self {
            TextureFormat::Rgba32 => Compression::Uncompressed,
            TextureFormat::Dxt1 { .. } => Compression::Dxt1,
            TextureFormat::Dxt3 { .. } => Compression::Dxt3,
        }
    }

    /// The raster format a texture of this format states: B8G8R8A8, with the MIPMAP flag when
    /// it has more than one level.
    pub open spec fn spec_raster_format(self, mipmap_count: int) -> u32 {
        if mipmap_count > 1 {
            raster_format::B8G8R8A8 | raster_format::MIPMAP
        } else {
            raster_format::B8G8R8A8
        }
    }

    pub(crate) fn raster_format(self, mipmap_count: usize) -> (r: u32)
        ensures
            r == self.spec_raster_format(mipmap_count as int),
    {
        let format = match self {
            TextureFormat::Rgba32 | TextureFormat::Dxt1 { .. } | TextureFormat::Dxt3 { .. } => {
                raster_format::B8G8R8A8
            },
        };
        if mipmap_count > 1 {
            format | raster_format::MIPMAP
        } else {
            format
        }
    }

    /// Bits per pixel a texture of this format states: 32.
    pub(crate) fn depth(self) -> (r: u8)
        ensures
            r == 32,
    {
        match self {
            TextureFormat::Rgba32 | TextureFormat::Dxt1 { .. } | TextureFormat::Dxt3 { .. } => 32,
        }
    }

    /// The stored level of an image: its BGRA bytes, or its DXT blocks.
    pub open spec fn spec_encode_level(self, v: ImageView) -> MipmapView {
        MipmapView {
            width: v.width,
            height: v.height,
            data: match self {
                TextureFormat::Rgba32 => spec_swap_red_blue(v.data),
                TextureFormat::Dxt1 { algorithm } => dxt_encoded(
                    BlockFormat::Bc1,
                    v.data,
                    v.width as usize,
                    v.height as usize,
                    algorithm,
                ),
                TextureFormat::Dxt3 { algorithm } => dxt_encoded(
                    BlockFormat::Bc2,
                    v.data,
                    v.width as usize,
                    v.height as usize,
                    algorithm,
                ),
            },
        }
    }

    pub(crate) fn encode_mipmap(self, image: &RgbaImage) -> (r: Result<MipmapLevel, TxdError>)
        requires
            !(self is Rgba32) ==> codec_fits(
                spec_block_format(self.spec_compression()),
                image@.width,
                image@.height,
            ),
        ensures
            (self is Rgba32 || (image@.width > 0 && image@.height > 0)) ==> (r matches Ok(m) && m@
                == self.spec_encode_level(image@)),
            !(self is Rgba32) && (image@.width == 0 || image@.height == 0) ==> r == Err::<
                MipmapLevel,
                TxdError,
            >(TxdError::InvalidDimensions { width: image@.width, height: image@.height }),
    {
        let (width, height) = image.dimensions();
        let data = match self {
            TextureFormat::Rgba32 => into_raw_bgra(image),
            TextureFormat::Dxt1 { algorithm } => Compression::Dxt1.compress_to_dxt(image, algorithm)?,
            TextureFormat::Dxt3 { algorithm } => Compression::Dxt3.compress_to_dxt(image, algorithm)?,
        };
        Ok(MipmapLevel { width, height, data })
    }
}

} // verus!
