//! Shared wire types: compression kinds, game versions, chunk framing, and the DXT block codec.

pub mod chunk_type;
pub mod platform;
pub mod raster_format;

use crate::bytes::{has_bytes, push_bytes, push_u32_le, read_u32_le, spec_u32_at, spec_u32_le};
use crate::error::{truncated_record, TxdError};
use crate::image::{rgba_len, ImageView, RgbaImage};
use vstd::prelude::*;

verus! {

/// How the pixels of a texture are stored.
#[derive(Debug, Clone, Copy, PartialEq, Eq, Structural)]
pub enum Compression {
    Uncompressed,
    Dxt1,
    Dxt3,
}

impl Default for Compression {
    fn default() -> (r: Compression)
        ensures
            r == Compression::Uncompressed,
    {
        Compression::Uncompressed
    }
}

/// The block formats of the DXT codec.
#[derive(Debug, Clone, Copy, PartialEq, Eq, Structural)]
pub enum BlockFormat {
    /// DXT1: colour with optional 1-bit alpha, 8 bytes per 4x4 block.
    Bc1,
    /// DXT3: explicit 4-bit alpha and colour, 16 bytes per 4x4 block.
    Bc2,
}

/// How hard the DXT encoder searches for block endpoints.
#[derive(Debug, Clone, Copy, PartialEq, Eq, Structural)]
pub enum DxtAlgorithm {
    /// Fast, lower quality.
    RangeFit,
    /// Slower, higher quality.
    ClusterFit,
}

/// Bytes per 4x4 block of `format`.
pub open spec fn block_bytes(format: BlockFormat) -> int {
    match format {
        BlockFormat::Bc1 => 8,
        BlockFormat::Bc2 => 16,
    }
}

/// Bytes of a `width` x `height` image in `format`, the image padded to whole 4x4 blocks.
pub open spec fn spec_compressed_size(format: BlockFormat, width: int, height: int) -> int {
    ((width + 3) / 4) * ((height + 3) / 4) * block_bytes(format)
}

/// The pixels that the DXT decoder produces from `data` for a `width` x `height` image.
pub uninterp spec fn dxt_decoded(format: BlockFormat, data: Seq<u8>, width: usize, height: usize) -> Seq<u8>;

/// The blocks that the DXT encoder produces from the RGBA pixels `rgba`.
pub uninterp spec fn dxt_encoded(
    format: BlockFormat,
    rgba: Seq<u8>,
    width: usize,
    height: usize,
    algorithm: DxtAlgorithm,
) -> Seq<u8>;

/// `texpresso::Format::compressed_size`: the number of blocks in each direction, rounded up,
/// times the block size of the format.
#[verifier::external_body]
fn codec_compressed_size(format: BlockFormat, width: usize, height: usize) -> (r: usize)
    requires
        width + 3 <= usize::MAX,
        height + 3 <= usize::MAX,
        spec_compressed_size(format, width as int, height as int) <= usize::MAX,
    ensures
        r == spec_compressed_size(format, width as int, height as int),
{
    let f = match format {
        BlockFormat::Bc1 => texpresso::Format::Bc1,
        BlockFormat::Bc2 => texpresso::Format::Bc2,
    };
    f.compressed_size(width, height)
}

/// `texpresso::Format::decompress`: decodes every block of `data` into the zeroed RGBA buffer
/// `output`; every pixel of the image is written, so the result does not depend on what
/// `output` held. Which pixels it produces is not stated (`dxt_decoded` names them).
#[verifier::external_body]
fn codec_decompress(
    format: BlockFormat,
    data: &[u8],
    width: usize,
    height: usize,
    output: &mut Vec<u8>,
)
    requires
        width > 0,
        width * 16 <= usize::MAX,
        width + 3 <= usize::MAX,
        height + 3 <= usize::MAX,
        spec_compressed_size(format, width as int, height as int) <= data@.len(),
        old(output)@ == Seq::new((width * height * 4) as nat, |i: int| 0u8),
    ensures
        final(output)@ == dxt_decoded(format, data@, width, height),
        final(output)@.len() == width * height * 4,
{
    let f = match format {
        BlockFormat::Bc1 => texpresso::Format::Bc1,
        BlockFormat::Bc2 => texpresso::Format::Bc2,
    };
    f.decompress(data, width, height, output.as_mut_slice())
}

/// `texpresso::Format::compress` with the default parameters but for the algorithm: encodes
/// every 4x4 block of `rgba` into the zeroed buffer `output` of exactly the compressed size.
/// Which blocks it produces is not stated (`dxt_encoded` names them).
#[verifier::external_body]
fn codec_compress(
    format: BlockFormat,
    rgba: &[u8],
    width: usize,
    height: usize,
    algorithm: DxtAlgorithm,
    output: &mut Vec<u8>,
)
    requires
        width > 0,
        height > 0,
        width + 3 <= usize::MAX,
        height + 3 <= usize::MAX,
        rgba@.len() == width * height * 4,
        spec_compressed_size(format, width as int, height as int) <= usize::MAX,
        old(output)@ == Seq::new(
            spec_compressed_size(format, width as int, height as int) as nat,
            |i: int| 0u8,
        ),
    ensures
        final(output)@ == dxt_encoded(format, rgba@, width, height, algorithm),
        final(output)@.len() == spec_compressed_size(format, width as int, height as int),
{
    let f = match format {
        BlockFormat::Bc1 => texpresso::Format::Bc1,
        BlockFormat::Bc2 => texpresso::Format::Bc2,
    };
    let a = match algorithm {
        DxtAlgorithm::RangeFit => texpresso::Algorithm::RangeFit,
        DxtAlgorithm::ClusterFit => texpresso::Algorithm::ClusterFit,
    };
    let params = texpresso::Params { algorithm: a, ..Default::default() };
    f.compress(rgba, width, height, params, output.as_mut_slice())
}

/// `n` zero bytes in a new vector.
fn zeroed(n: usize) -> (r: Vec<u8>)
    ensures
        r@ == Seq::new(n as nat, |i: int| 0u8),
{
    let mut v: Vec<u8> = Vec::new();
    let mut i: usize = 0;
    while i < n
        invariant
            i <= n,
            v@ == Seq::new(i as nat, |j: int| 0u8),
        decreases n - i,
    {
        v.push(0u8);
        i = i + 1;
        assert(v@ =~= Seq::new(i as nat, |j: int| 0u8));
    }
    v
}

/// The block format of a compressed kind.
pub open spec fn spec_block_format(c: Compression) -> BlockFormat {
    match c {
        Compression::Dxt3 => BlockFormat::Bc2,
        _ => BlockFormat::Bc1,
    }
}

/// The inputs on which the DXT codec can run for a `width` x `height` image in `format`.
pub open spec fn codec_fits(format: BlockFormat, width: u32, height: u32) -> bool {
    &&& width + 3 <= usize::MAX
    &&& height + 3 <= usize::MAX
    &&& spec_compressed_size(format, width as int, height as int) <= usize::MAX
}

/// The largest of `a` and `b`.
pub open spec fn max_u32(a: u32, b: u32) -> u32 {
    if a >= b {
        a
    } else {
        b
    }
}

impl Compression {
    /// The byte that D3D8 headers store for this compression kind.
    pub open spec fn spec_code(self) -> u8 {
        match self {
            Compression::Uncompressed => 0,
            Compression::Dxt1 => 1,
            Compression::Dxt3 => 3,
        }
    }

    pub(crate) fn code(self) -> (r: u8)
        ensures
            r == self.spec_code(),
    {
        match self {
            Compression::Uncompressed => 0,
            Compression::Dxt1 => 1,
            Compression::Dxt3 => 3,
        }
    }

    /// Half of `value`, but at least 1, and at least 4 (one block) for compressed textures.
    pub open spec fn spec_next_mipmap_dimension(self, value: u32) -> u32 {
        match self {
            Compression::Uncompressed => max_u32(value / 2, 1),
            _ => max_u32(value / 2, 4),
        }
    }

    pub(crate) fn next_mipmap_dimension(self, value: u32) -> (r: u32)
        ensures
            r == self.spec_next_mipmap_dimension(value),
    {
        let next = if value / 2 > 1 {
            value / 2
        } else {
            1
        };
        if self != Compression::Uncompressed && next < 4 && next != 0 {
            4
        } else {
            next
        }
    }

    /// The compression kind a D3D9 header states: DXT1 or DXT3 when bit 3 of `flags` is set and
    /// the four-character code is `DXT1` or `DXT3`, none otherwise.
    pub open spec fn spec_from_d3d9(fourcc: Seq<u8>, flags: u8) -> Compression {
        if flags & 8 == 0 || fourcc[0] != 0x44 || fourcc[1] != 0x58 || fourcc[2] != 0x54 {
            Compression::Uncompressed
        } else if fourcc[3] == 0x31 {
            Compression::Dxt1
        } else if fourcc[3] == 0x33 {
            Compression::Dxt3
        } else {
            Compression::Uncompressed
        }
    }

    pub(crate) fn from_d3d9(fourcc: [u8; 4], flags: u8) -> (r: Compression)
        ensures
            r == Self::spec_from_d3d9(fourcc@, flags),
    {
        if flags & 8 == 0 || fourcc[0] != 0x44 || fourcc[1] != 0x58 || fourcc[2] != 0x54 {
            return Compression::Uncompressed;
        }
        if fourcc[3] == 0x31 {
            Compression::Dxt1
        } else if fourcc[3] == 0x33 {
            Compression::Dxt3
        } else {
            Compression::Uncompressed
        }
    }

    fn dxt_format(self) -> (r: Result<BlockFormat, TxdError>)
        ensures
            self is Uncompressed ==> r matches Err(TxdError::UnsupportedCompression),
            !(self is Uncompressed) ==> r == Ok::<BlockFormat, TxdError>(spec_block_format(self)),
    {
        match self {
            Compression::Dxt1 => Ok(BlockFormat::Bc1),
            Compression::Dxt3 => Ok(BlockFormat::Bc2),
            Compression::Uncompressed => Err(TxdError::UnsupportedCompression),
        }
    }

    /// Bytes of a `width` x `height` image in this compressed format.
    pub fn compressed_size(self, width: u32, height: u32) -> (r: Result<usize, TxdError>)
        requires
            !(self is Uncompressed) ==> codec_fits(spec_block_format(self), width, height),
        ensures
            self is Uncompressed ==> r matches Err(TxdError::UnsupportedCompression),
            !(self is Uncompressed) ==> r == Ok::<usize, TxdError>(
                spec_compressed_size(spec_block_format(self), width as int, height as int) as usize,
            ),
    {
        let format = self.dxt_format()?;
        Ok(codec_compressed_size(format, width as usize, height as usize))
    }

    /// Decodes a DXT mipmap into an RGBA image.
    pub fn decompress_dxt(self, compressed_data: &[u8], width: u32, height: u32) -> (r: Result<
        RgbaImage,
        TxdError,
    >)
        requires
            compressed_data@.len() > 0 && width > 0 && height > 0 && !(self is Uncompressed) ==> {
                &&& codec_fits(spec_block_format(self), width, height)
                &&& rgba_len(width, height) <= usize::MAX
                &&& width * 16 <= usize::MAX
                &&& spec_compressed_size(spec_block_format(self), width as int, height as int)
                    <= compressed_data@.len()
            },
        ensures
            compressed_data@.len() == 0 || width == 0 || height == 0 ==> r == Err::<
                RgbaImage,
                TxdError,
            >(TxdError::InvalidDimensions { width, height }),
            compressed_data@.len() > 0 && width > 0 && height > 0 && self is Uncompressed ==> r matches Err(
                TxdError::UnsupportedCompression,
            ),
            compressed_data@.len() > 0 && width > 0 && height > 0 && !(self is Uncompressed) ==> (r matches Ok(
                img,
            ) && img@ == (ImageView {
                width,
                height,
                data: dxt_decoded(
                    spec_block_format(self),
                    compressed_data@,
                    width as usize,
                    height as usize,
                ),
            })),
    {
        if compressed_data.len() == 0 || width == 0 || height == 0 {
            return Err(TxdError::InvalidDimensions { width, height });
        }
        let format = self.dxt_format()?;
        let w = width as usize;
        let h = height as usize;
        let mut output = zeroed(w * h * 4);
        codec_decompress(format, compressed_data, w, h, &mut output);
        match RgbaImage::from_raw(width, height, output) {
            Some(img) => Ok(img),
            None => Err(TxdError::InvalidDimensions { width, height }),
        }
    }

    /// Encodes an RGBA image as DXT blocks.
    pub fn compress_to_dxt(self, rgba: &RgbaImage, algorithm: DxtAlgorithm) -> (r: Result<
        Vec<u8>,
        TxdError,
    >)
        requires
            !(self is Uncompressed) ==> codec_fits(spec_block_format(self), rgba@.width, rgba@.height),
        ensures
            self is Uncompressed ==> r matches Err(TxdError::UnsupportedCompression),
            !(self is Uncompressed) && (rgba@.width == 0 || rgba@.height == 0) ==> r == Err::<
                Vec<u8>,
                TxdError,
            >(TxdError::InvalidDimensions { width: rgba@.width, height: rgba@.height }),
            !(self is Uncompressed) && rgba@.width > 0 && rgba@.height > 0 ==> (r matches Ok(v) && v@
                == dxt_encoded(
                spec_block_format(self),
                rgba@.data,
                rgba@.width as usize,
                rgba@.height as usize,
                algorithm,
            ) && v@.len() == spec_compressed_size(
                spec_block_format(self),
                rgba@.width as int,
                rgba@.height as int,
            )),
    {
        let format = self.dxt_format()?;
        let (width, height) = rgba.dimensions();
        if width == 0 || height == 0 {
            return Err(TxdError::InvalidDimensions { width, height });
        }
        let w = width as usize;
        let h = height as usize;
        let pixels = rgba.as_raw();
        let mut output = zeroed(codec_compressed_size(format, w, h));
        codec_compress(format, pixels.as_slice(), w, h, algorithm, &mut output);
        Ok(output)
    }
}

/// The game a dictionary's version identifies.
#[derive(Debug, Clone, Copy, PartialEq, Eq, Structural)]
pub enum GameVersion {
    Gta3V1,
    Gta3V2,
    Gta3V3,
    Gta3V4,
    VcPs2,
    VcPc,
    Sa,
    Unknown,
}

impl GameVersion {
    /// The RenderWare library version that stands for this game.
    pub open spec fn spec_value(self) -> u32 {
        match self {
            GameVersion::Gta3V1 => 0x0000_0302,
            GameVersion::Gta3V2 => 0x0000_0304,
            GameVersion::Gta3V3 => 0x0000_0310,
            GameVersion::Gta3V4 => 0x0800_FFFF,
            GameVersion::VcPs2 => 0x0C02_FFFF,
            GameVersion::VcPc => 0x1003_FFFF,
            GameVersion::Sa => 0x1803_FFFF,
            GameVersion::Unknown => 0,
        }
    }

    /// The RenderWare library version that stands for this game.
    pub fn value(self) -> (r: u32)
        ensures
            r == self.spec_value(),
    {
        match self {
            GameVersion::Gta3V1 => 0x0000_0302,
            GameVersion::Gta3V2 => 0x0000_0304,
            GameVersion::Gta3V3 => 0x0000_0310,
            GameVersion::Gta3V4 => 0x0800_FFFF,
            GameVersion::VcPs2 => 0x0C02_FFFF,
            GameVersion::VcPc => 0x1003_FFFF,
            GameVersion::Sa => 0x1803_FFFF,
            GameVersion::Unknown => 0,
        }
    }
}

/// The 12-byte header in front of every RenderWare chunk.
#[derive(Debug, Clone, Copy, PartialEq, Eq, Default, Structural)]
pub struct ChunkHeader {
    pub chunk_type: u32,
    pub length: u32,
    pub version: u32,
}

/// The header stored at `p` in `s`, if twelve bytes are there.
pub open spec fn spec_header_at(s: Seq<u8>, p: int) -> Option<ChunkHeader> {
    if has_bytes(s, p, 12) {
        Some(
            ChunkHeader {
                chunk_type: spec_u32_at(s, p),
                length: spec_u32_at(s, p + 4),
                version: spec_u32_at(s, p + 8),
            },
        )
    } else {
        None
    }
}

/// The bytes of a header: type, length and version, little-endian.
pub open spec fn spec_header_bytes(h: ChunkHeader) -> Seq<u8> {
    spec_u32_le(h.chunk_type) + spec_u32_le(h.length) + spec_u32_le(h.version)
}

/// A chunk: a header whose length is that of `body` (kept to 32 bits), then `body`.
pub open spec fn spec_chunk(chunk_type: u32, version: u32, body: Seq<u8>) -> Seq<u8> {
    spec_header_bytes(ChunkHeader { chunk_type, length: body.len() as u32, version }) + body
}

/// The header of a chunk.
pub proof fn lemma_header_at(s: Seq<u8>, p: int, h: ChunkHeader)
    requires
        has_bytes(s, p, 12),
        s.subrange(p, p + 12) == spec_header_bytes(h),
    ensures
        spec_header_at(s, p) == Some(h),
{
    let b = spec_header_bytes(h);
    crate::bytes::lemma_u32_le_decode(h.chunk_type);
    crate::bytes::lemma_u32_le_decode(h.length);
    crate::bytes::lemma_u32_le_decode(h.version);
    assert(b.subrange(0, 4) =~= spec_u32_le(h.chunk_type));
    assert(b.subrange(4, 8) =~= spec_u32_le(h.length));
    assert(b.subrange(8, 12) =~= spec_u32_le(h.version));
    assert(s.subrange(p, p + 4) =~= b.subrange(0, 4));
    assert(s.subrange(p + 4, p + 8) =~= b.subrange(4, 8));
    assert(s.subrange(p + 8, p + 12) =~= b.subrange(8, 12));
    assert(spec_u32_le(h.chunk_type).subrange(0, 4) =~= spec_u32_le(h.chunk_type));
    assert(spec_u32_le(h.length).subrange(0, 4) =~= spec_u32_le(h.length));
    assert(spec_u32_le(h.version).subrange(0, 4) =~= spec_u32_le(h.version));
    crate::bytes::lemma_u32_at_window(s, p, spec_u32_le(h.chunk_type), 0);
    crate::bytes::lemma_u32_at_window(s, p + 4, spec_u32_le(h.length), 0);
    crate::bytes::lemma_u32_at_window(s, p + 8, spec_u32_le(h.version), 0);
}

pub(crate) fn read_header(data: &[u8], p: u128) -> (r: Option<ChunkHeader>)
    ensures
        r == spec_header_at(data@, p as int),
{
    if !crate::bytes::available(data, p, 12) {
        return None;
    }
    let n = data.len();
    let t = read_u32_le(data, p);
    let l = read_u32_le(data, p + 4);
    let v = read_u32_le(data, p + 8);
    match (t, l, v) {
        (Some(chunk_type), Some(length), Some(version)) => Some(
            ChunkHeader { chunk_type, length, version },
        ),
        _ => None,
    }
}

impl ChunkHeader {
    /// The header at byte offset `pos` of `data`.
    pub fn read(data: &[u8], pos: u64) -> (r: Result<ChunkHeader, TxdError>)
        ensures
            spec_header_at(data@, pos as int) matches Some(h) ==> r == Ok::<
                ChunkHeader,
                TxdError,
            >(h),
            spec_header_at(data@, pos as int) is None ==> r matches Err(TxdError::Binary(_)),
    {
        match read_header(data, pos as u128) {
            Some(h) => Ok(h),
            None => Err(truncated_record()),
        }
    }

    /// Appends the twelve bytes of this header.
    pub fn write(&self, out: &mut Vec<u8>)
        ensures
            final(out)@ == old(out)@ + spec_header_bytes(*self),
    {
        push_u32_le(out, self.chunk_type);
        push_u32_le(out, self.length);
        push_u32_le(out, self.version);
        assert(final(out)@ =~= old(out)@ + spec_header_bytes(*self));
    }
}

/// Appends a chunk of the given type and version around `body`; returns the number of bytes
/// appended, kept to 32 bits.
pub(crate) fn write_chunk(out: &mut Vec<u8>, chunk_type: u32, version: u32, body: &[u8]) -> (r: u32)
    ensures
        final(out)@ == old(out)@ + spec_chunk(chunk_type, version, body@),
        r == (12 + body@.len()) as u32,
{
    let n = body.len();
    let length = n as u32;
    ChunkHeader { chunk_type, length, version }.write(out);
    push_bytes(out, body);
    assert(final(out)@ =~= old(out)@ + spec_chunk(chunk_type, version, body@));
    (12 + n as u128) as u32
}

} // verus!
