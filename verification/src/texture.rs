//! The texture model and the D3D8/D3D9 native texture chunk: reading, writing, RGBA conversion.

use crate::bytes::{
    available, has_bytes, push_bytes, push_u16_le, push_u32_le, read_bytes, read_u16_le,
    read_u32_le, spec_u16_at, spec_u16_le, spec_u32_at, spec_u32_le, zeros,
};
use crate::error::{truncated_payload, truncated_record, ReadFault, TxdError};
use crate::types::chunk_type;
use crate::types::platform;
use crate::types::raster_format;
use crate::encode::{
    spec_swap_red_blue, image_mipmaps, image_views, is_mipmap_chain, lemma_chain_dims,
    lemma_codec_fits_smaller, TextureCreateOptions, TextureFormat,
};
use crate::palette::{convert_palette_to_rgba, palette_pixels};
use crate::types::{codec_fits, dxt_decoded, spec_block_format, spec_compressed_size};
use crate::image::{is_filled, lemma_pixels_push, pixel_at, pixels_are, rgba_len, ImageView, RgbaImage};
use crate::types::{read_header, spec_chunk, spec_header_at, write_chunk, ChunkHeader, Compression};
use vstd::prelude::*;
use vstd::utf8::{decode_utf8, encode_utf8, valid_utf8};

verus! {

/// One level of a mipmap chain: its size and its stored bytes.
#[derive(Debug, Clone, Default, PartialEq)]
pub struct MipmapLevel {
    pub width: u32,
    pub height: u32,
    pub data: Vec<u8>,
}

/// What a [`MipmapLevel`] holds.
pub struct MipmapView {
    pub width: u32,
    pub height: u32,
    pub data: Seq<u8>,
}

impl View for MipmapLevel {
    type V = MipmapView;

    open spec fn view(&self) -> MipmapView {
        MipmapView { width: self.width, height: self.height, data: self.data@ }
    }
}

/// A texture of a dictionary.
#[derive(Debug, Clone, PartialEq)]
pub struct Texture {
    pub platform: u32,
    pub name: String,
    pub mask_name: String,
    pub filter_flags: u32,
    pub raster_format: u32,
    pub depth: u8,
    pub has_alpha: bool,
    pub compression: Compression,
    pub mipmaps: Vec<MipmapLevel>,
    pub palette: Vec<u8>,
    pub palette_size: u32,
}

/// What a [`Texture`] holds.
pub struct TextureView {
    pub platform: u32,
    pub name: Seq<char>,
    pub mask_name: Seq<char>,
    pub filter_flags: u32,
    pub raster_format: u32,
    pub depth: u8,
    pub has_alpha: bool,
    pub compression: Compression,
    pub mipmaps: Seq<MipmapView>,
    pub palette: Seq<u8>,
    pub palette_size: u32,
}

/// The views of a sequence of mipmap levels.
pub open spec fn mipmap_views(ms: Seq<MipmapLevel>) -> Seq<MipmapView> {
    ms.map_values(|m: MipmapLevel| m@)
}

impl View for Texture {
    type V = TextureView;

    open spec fn view(&self) -> TextureView {
        TextureView {
            platform: self.platform,
            name: self.name@,
            mask_name: self.mask_name@,
            filter_flags: self.filter_flags,
            raster_format: self.raster_format,
            depth: self.depth,
            has_alpha: self.has_alpha,
            compression: self.compression,
            mipmaps: mipmap_views(self.mipmaps@),
            palette: self.palette@,
            palette_size: self.palette_size,
        }
    }
}

impl Default for Texture {
    fn default() -> (r: Texture)
        ensures
            r@ == (TextureView {
                platform: platform::D3D8,
                name: Seq::empty(),
                mask_name: Seq::empty(),
                filter_flags: 0,
                raster_format: raster_format::DEFAULT,
                depth: 32,
                has_alpha: false,
                compression: Compression::Uncompressed,
                mipmaps: Seq::empty(),
                palette: Seq::empty(),
                palette_size: 0,
            }),
    {
        let r = Texture {
            platform: platform::D3D8,
            name: String::new(),
            mask_name: String::new(),
            filter_flags: 0,
            raster_format: raster_format::DEFAULT,
            depth: 32,
            has_alpha: false,
            compression: Compression::Uncompressed,
            mipmaps: Vec::new(),
            palette: Vec::new(),
            palette_size: 0,
        };
        assert(mipmap_views(r.mipmaps@) =~= Seq::empty());
        r
    }
}

// ---------------------------------------------------------------------------------------------
// Names: 32-byte, zero-padded fields.

/// The characters that `String::from_utf8_lossy` makes of bytes that are not valid UTF-8.
pub uninterp spec fn utf8_lossy_decoded(bytes: Seq<u8>) -> Seq<char>;

/// The characters of `bytes` read as UTF-8, with invalid sequences replaced.
pub open spec fn spec_lossy_utf8(bytes: Seq<u8>) -> Seq<char> {
    if valid_utf8(bytes) {
        decode_utf8(bytes)
    } else {
        utf8_lossy_decoded(bytes)
    }
}

/// `String::from_utf8_lossy`: valid UTF-8 is decoded as it stands; what it makes of invalid
/// sequences (replacement characters) is not stated, only named.
#[verifier::external_body]
fn utf8_lossy(bytes: &[u8]) -> (r: String)
    ensures
        r@ == (if valid_utf8(bytes@) {
            decode_utf8(bytes@)
        } else {
            utf8_lossy_decoded(bytes@)
        }),
{
    String::from_utf8_lossy(bytes).into_owned()
}

/// The number of bytes before the first zero byte (all of them if there is none).
pub open spec fn spec_name_len(b: Seq<u8>) -> nat
    decreases b.len(),
{
    if b.len() == 0 {
        0
    } else if b[0] == 0 {
        0
    } else {
        1 + spec_name_len(b.drop_first())
    }
}

/// The name stored in a fixed field: the bytes before the first zero, read as UTF-8.
pub open spec fn spec_name_from_field(b: Seq<u8>) -> Seq<char> {
    spec_lossy_utf8(b.take(spec_name_len(b) as int))
}

/// The 32-byte field that stores `name`: its UTF-8 bytes, cut to 31, then zeros.
pub open spec fn spec_name_field(name: Seq<char>) -> Seq<u8> {
    let b = encode_utf8(name);
    let n = if b.len() <= 31 {
        b.len()
    } else {
        31
    };
    b.take(n as int) + zeros((32 - n) as nat)
}

/// `n` is the number of bytes before the first zero byte of `b`.
pub proof fn lemma_name_len(b: Seq<u8>, n: int)
    requires
        0 <= n <= b.len(),
        forall|j: int| 0 <= j < n ==> b[j] != 0,
        n == b.len() || b[n] == 0,
    ensures
        spec_name_len(b) == n,
    decreases b.len(),
{
    if b.len() > 0 && n > 0 {
        assert(b[0] != 0);
        let t = b.drop_first();
        assert forall|j: int| 0 <= j < n - 1 implies t[j] != 0 by {
            assert(t[j] == b[j + 1]);
        }
        if n < b.len() {
            assert(t[n - 1] == b[n]);
        }
        lemma_name_len(t, n - 1);
    }
}

/// Reads the name stored in a fixed field.
fn fixed_name_to_string(bytes: &[u8]) -> (r: String)
    ensures
        r@ == spec_name_from_field(bytes@),
{
    let mut n: usize = 0;
    while n < bytes.len() && bytes[n] != 0
        invariant
            n <= bytes@.len(),
            forall|j: int| 0 <= j < n ==> bytes@[j] != 0,
        decreases bytes@.len() - n,
    {
        n = n + 1;
    }
    proof {
        lemma_name_len(bytes@, n as int);
    }
    let head = &bytes[0..n];
    assert(head@ =~= bytes@.take(n as int));
    utf8_lossy(head)
}

/// The 32-byte field that stores `value`.
fn fixed_name_bytes(value: &str) -> (r: Vec<u8>)
    ensures
        r@ == spec_name_field(value@),
{
    let bytes = value.as_bytes();
    let n: usize = if bytes.len() <= 31 {
        bytes.len()
    } else {
        31
    };
    let mut buf: Vec<u8> = Vec::new();
    push_bytes(&mut buf, &bytes[0..n]);
    let mut i: usize = n;
    while i < 32
        invariant
            n <= i <= 32,
            buf@ == bytes@.take(n as int) + zeros((i - n) as nat),
        decreases 32 - i,
    {
        buf.push(0u8);
        i = i + 1;
        assert(buf@ =~= bytes@.take(n as int) + zeros((i - n) as nat));
    }
    assert(bytes@ == encode_utf8(value@));
    buf
}

// ---------------------------------------------------------------------------------------------
// Reading.

/// The palette entries that a raster format calls for: 256 for PAL8, 16 for PAL4, else none.
pub open spec fn spec_palette_size(raster: u32) -> u32 {
    if raster & raster_format::PAL8 != 0 {
        256
    } else if raster & raster_format::PAL4 != 0 {
        16
    } else {
        0
    }
}

fn palette_size_for(raster: u32) -> (r: u32)
    ensures
        r == spec_palette_size(raster),
{
    if raster & raster_format::PAL8 != 0 {
        256
    } else if raster & raster_format::PAL4 != 0 {
        16
    } else {
        0
    }
}

/// The compression kind a D3D8 header byte states.
pub open spec fn spec_d3d8_compression(code: u8) -> Compression {
    if code == 1 {
        Compression::Dxt1
    } else if code == 3 {
        Compression::Dxt3
    } else {
        Compression::Uncompressed
    }
}

/// `acc` followed by what `rest` read, or the fault that stopped `rest`.
pub open spec fn prepend_read<A>(acc: Seq<A>, rest: Result<Seq<A>, ReadFault>) -> Result<
    Seq<A>,
    ReadFault,
> {
    match rest {
        Ok(r) => Ok(acc + r),
        Err(f) => Err(f),
    }
}

/// The mipmap levels `level..count` stored from position `p`, the previous level being
/// `width` x `height`: each a little-endian size, then that many bytes. A level's size is half
/// the previous one's (see `spec_next_mipmap_dimension`), and 0 x 0 when it stores no bytes.
pub open spec fn spec_read_mipmaps(
    s: Seq<u8>,
    p: int,
    width: u32,
    height: u32,
    count: nat,
    level: nat,
    c: Compression,
) -> Result<Seq<MipmapView>, ReadFault>
    decreases count - level,
{
    if level >= count {
        Ok(Seq::empty())
    } else if !has_bytes(s, p, 4) {
        Err(ReadFault::Binary)
    } else {
        let size = spec_u32_at(s, p);
        let w1 = if level > 0 {
            c.spec_next_mipmap_dimension(width)
        } else {
            width
        };
        let h1 = if level > 0 {
            c.spec_next_mipmap_dimension(height)
        } else {
            height
        };
        let w2: u32 = if size == 0 {
            0
        } else {
            w1
        };
        let h2: u32 = if size == 0 {
            0
        } else {
            h1
        };
        if !has_bytes(s, p + 4, size as int) {
            Err(ReadFault::Io)
        } else {
            let m = MipmapView { width: w2, height: h2, data: s.subrange(p + 4, p + 4 + size) };
            prepend_read(
                seq![m],
                spec_read_mipmaps(s, p + 4 + size, w2, h2, count, level + 1, c),
            )
        }
    }
}

/// The texture whose 76-byte prefix (platform, filter flags, name, mask name, raster format)
/// starts at `r`, for a D3D8 or D3D9 platform.
pub open spec fn spec_read_texture_fields(s: Seq<u8>, r: int) -> Result<Option<TextureView>, ReadFault> {
    let platform = spec_u32_at(s, r);
    let a = r + 76;
    let t = a + 4;
    if !has_bytes(s, a, 4) {
        if platform == platform::D3D9 {
            Err(ReadFault::Io)
        } else {
            Err(ReadFault::Binary)
        }
    } else if !has_bytes(s, t, 8) {
        Err(ReadFault::Binary)
    } else {
        let coa = s[t + 7];
        let has_alpha = if platform == platform::D3D9 {
            coa & 1 != 0
        } else {
            spec_u32_at(s, a) == 1
        };
        let compression = if platform == platform::D3D9 {
            Compression::spec_from_d3d9(s.subrange(a, a + 4), coa)
        } else {
            spec_d3d8_compression(coa)
        };
        let raster = spec_u32_at(s, r + 72);
        let psize = spec_palette_size(raster);
        let pstart = t + 8;
        let mstart = pstart + psize * 4;
        if !has_bytes(s, pstart, psize * 4) {
            Err(ReadFault::Io)
        } else {
            match spec_read_mipmaps(
                s,
                mstart,
                spec_u16_at(s, t) as u32,
                spec_u16_at(s, t + 2) as u32,
                s[t + 5] as nat,
                0,
                compression,
            ) {
                Err(f) => Err(f),
                Ok(ms) => Ok(
                    Some(
                        TextureView {
                            platform,
                            name: spec_name_from_field(s.subrange(r + 8, r + 40)),
                            mask_name: spec_name_from_field(s.subrange(r + 40, r + 72)),
                            filter_flags: spec_u32_at(s, r + 4),
                            raster_format: raster,
                            depth: s[t + 4],
                            has_alpha,
                            compression,
                            mipmaps: ms,
                            palette: s.subrange(pstart, mstart),
                            palette_size: psize,
                        },
                    ),
                ),
            }
        }
    }
}

/// The texture of the STRUCT chunk at `q`: nothing if it is another chunk or the platform is
/// neither D3D8 nor D3D9.
pub open spec fn spec_read_texture_struct(s: Seq<u8>, q: int) -> Result<Option<TextureView>, ReadFault> {
    match spec_header_at(s, q) {
        None => Err(ReadFault::Binary),
        Some(h) => if h.chunk_type != chunk_type::STRUCT {
            Ok(None)
        } else if !has_bytes(s, q + 12, 76) {
            Err(ReadFault::Binary)
        } else {
            let platform = spec_u32_at(s, q + 12);
            if platform != platform::D3D8 && platform != platform::D3D9 {
                Ok(None)
            } else {
                spec_read_texture_fields(s, q + 12)
            }
        },
    }
}

/// The texture of the TEXTURE_NATIVE chunk at `p`: nothing if it is another chunk.
pub open spec fn spec_read_texture(s: Seq<u8>, p: int) -> Result<Option<TextureView>, ReadFault> {
    match spec_header_at(s, p) {
        None => Err(ReadFault::Binary),
        Some(h) => if h.chunk_type != chunk_type::TEXTURE_NATIVE {
            Ok(None)
        } else {
            spec_read_texture_struct(s, p + 12)
        },
    }
}

/// Where the native texture chunk at `p` ends: after its header and the length it states.
pub open spec fn spec_texture_end(s: Seq<u8>, p: int) -> int {
    match spec_header_at(s, p) {
        Some(h) => p + 12 + h.length,
        None => p,
    }
}

/// `r` is what `spec` describes: the same texture, no texture, or the error of the same fault.
pub open spec fn texture_read_matches(
    r: Result<Option<Texture>, TxdError>,
    spec: Result<Option<TextureView>, ReadFault>,
) -> bool {
    match r {
        Ok(Some(t)) => spec == Ok::<Option<TextureView>, ReadFault>(Some(t@)),
        Ok(None) => spec == Ok::<Option<TextureView>, ReadFault>(None),
        Err(e) => spec matches Err(f) && e.reports(f),
    }
}

fn read_mipmaps(
    data: &[u8],
    start: u128,
    width0: u32,
    height0: u32,
    count: u8,
    c: Compression,
) -> (r: Result<Vec<MipmapLevel>, TxdError>)
    requires
        start <= data@.len(),
    ensures
        match (r, spec_read_mipmaps(data@, start as int, width0, height0, count as nat, 0, c)) {
            (Ok(ms), Ok(v)) => mipmap_views(ms@) == v,
            (Err(e), Err(f)) => e.reports(f),
            _ => false,
        },
{
    let n = data.len();
    let mut mips: Vec<MipmapLevel> = Vec::new();
    let mut width = width0;
    let mut height = height0;
    let mut level: u8 = 0;
    let mut p: u128 = start;
    while level < count
        invariant
            p <= n,
            n == data@.len(),
            level <= count,
            spec_read_mipmaps(data@, start as int, width0, height0, count as nat, 0, c)
                == prepend_read(
                mipmap_views(mips@),
                spec_read_mipmaps(data@, p as int, width, height, count as nat, level as nat, c),
            ),
        decreases count - level,
    {
        let ghost before = mips@;
        let ghost (pw, ph, pp) = (width, height, p);
        if level > 0 {
            width = c.next_mipmap_dimension(width);
            height = c.next_mipmap_dimension(height);
        }
        let size = match read_u32_le(data, p) {
            Some(v) => v,
            None => {
                return Err(truncated_record());
            },
        };
        if size == 0 {
            width = 0;
            height = 0;
        }
        let bytes = match read_bytes(data, p + 4, size as u128) {
            Some(b) => b,
            None => {
                return Err(truncated_payload());
            },
        };
        let m = MipmapLevel { width, height, data: bytes };
        mips.push(m);
        p = p + 4 + size as u128;
        level = level + 1;
        proof {
            let mv = MipmapView { width, height, data: data@.subrange(pp + 4, p as int) };
            assert(m@ == mv);
            assert(mipmap_views(mips@) =~= mipmap_views(before) + seq![mv]);
            let rest = spec_read_mipmaps(data@, p as int, width, height, count as nat, level as nat, c);
            match rest {
                Ok(rv) => {
                    assert(mipmap_views(before) + (seq![mv] + rv) =~= mipmap_views(mips@) + rv);
                },
                Err(f) => {},
            }
        }
    }
    assert(mipmap_views(mips@) + Seq::<MipmapView>::empty() =~= mipmap_views(mips@));
    Ok(mips)
}

/// The texture fields whose prefix starts at `r` (see `spec_read_texture_fields`).
fn read_d3d_fields(data: &[u8], r: u128) -> (res: Result<Option<Texture>, TxdError>)
    requires
        has_bytes(data@, r as int, 76),
        spec_u32_at(data@, r as int) == platform::D3D8 || spec_u32_at(data@, r as int)
            == platform::D3D9,
    ensures
        texture_read_matches(res, spec_read_texture_fields(data@, r as int)),
{
    let n = data.len();
    let platform = read_u32_le(data, r).unwrap();
    let filter_flags = read_u32_le(data, r + 4).unwrap();
    let raster = read_u32_le(data, r + 72).unwrap();
    let a = r + 76;
    let t = a + 4;
    let mut fourcc: [u8; 4] = [0, 0, 0, 0];
    let mut has_alpha = false;
    if platform == platform::D3D9 {
        match read_bytes(data, a, 4) {
            Some(b) => {
                fourcc = [b[0], b[1], b[2], b[3]];
                assert(fourcc@ =~= data@.subrange(a as int, a + 4));
            },
            None => {
                return Err(truncated_payload());
            },
        }
    } else {
        match read_u32_le(data, a) {
            Some(v) => {
                has_alpha = v == 1;
            },
            None => {
                return Err(truncated_record());
            },
        }
    }
    if !available(data, t, 8) {
        return Err(truncated_record());
    }
    let width = read_u16_le(data, t).unwrap();
    let height = read_u16_le(data, t + 2).unwrap();
    let tu = t as usize;
    let depth = data[tu + 4];
    let mipmap_count = data[tu + 5];
    let coa = data[tu + 7];
    let compression = if platform == platform::D3D9 {
        has_alpha = coa & 1 != 0;
        Compression::from_d3d9(fourcc, coa)
    } else {
        match coa {
            1 => Compression::Dxt1,
            3 => Compression::Dxt3,
            _ => Compression::Uncompressed,
        }
    };
    let palette_size = palette_size_for(raster);
    let pstart = t + 8;
    let palette = if palette_size == 0 {
        assert(data@.subrange(pstart as int, pstart as int) =~= Seq::<u8>::empty());
        Vec::new()
    } else {
        match read_bytes(data, pstart, (palette_size * 4) as u128) {
            Some(b) => b,
            None => {
                return Err(truncated_payload());
            },
        }
    };
    let mstart = pstart + (palette_size * 4) as u128;
    let mipmaps = read_mipmaps(data, mstart, width as u32, height as u32, mipmap_count, compression)?;
    let ru = r as usize;
    let name = fixed_name_to_string(&data[ru + 8..ru + 40]);
    let mask_name = fixed_name_to_string(&data[ru + 40..ru + 72]);
    let tex = Texture {
        platform,
        name,
        mask_name,
        filter_flags,
        raster_format: raster,
        depth,
        has_alpha,
        compression,
        mipmaps,
        palette,
        palette_size,
    };
    Ok(Some(tex))
}

fn read_d3d_struct(data: &[u8], q: u128) -> (res: Result<Option<Texture>, TxdError>)
    requires
        q <= 0x1_0000_0000_0000_0000_0000,
    ensures
        texture_read_matches(res, spec_read_texture_struct(data@, q as int)),
{
    let header = match read_header(data, q) {
        Some(h) => h,
        None => {
            return Err(truncated_record());
        },
    };
    if header.chunk_type != chunk_type::STRUCT {
        return Ok(None);
    }
    let r = q + 12;
    if !available(data, r, 76) {
        return Err(truncated_record());
    }
    let platform = read_u32_le(data, r).unwrap();
    if platform != platform::D3D8 && platform != platform::D3D9 {
        return Ok(None);
    }
    read_d3d_fields(data, r)
}

fn read_d3d_texture(data: &[u8], p: u128) -> (res: Result<Option<Texture>, TxdError>)
    requires
        p <= 0x1_0000_0000_0000_0000,
    ensures
        texture_read_matches(res, spec_read_texture(data@, p as int)),
{
    let header = match read_header(data, p) {
        Some(h) => h,
        None => {
            return Err(truncated_record());
        },
    };
    if header.chunk_type != chunk_type::TEXTURE_NATIVE {
        return Ok(None);
    }
    read_d3d_struct(data, p + 12)
}

/// Reads the native texture chunk at position `p` of `data`.
pub(crate) fn read_texture_at(data: &[u8], p: u128) -> (res: Result<Option<Texture>, TxdError>)
    requires
        p <= 0x1_0000_0000_0000_0000,
    ensures
        texture_read_matches(res, spec_read_texture(data@, p as int)),
{
    read_d3d_texture(data, p)
}

impl Texture {
    /// Reads the native texture chunk at byte offset `pos` of `data`: no texture when the chunk
    /// there is not a TEXTURE_NATIVE chunk, its first child is not a STRUCT chunk, or its
    /// platform is neither D3D8 nor D3D9.
    /// With a texture it also returns where its chunk ends: after the chunk's header and the
    /// length that header states, past any trailing children of the chunk.
    pub fn from_d3d_reader(data: &[u8], pos: u64) -> (r: Result<Option<(Texture, u64)>, TxdError>)
        requires
            spec_header_at(data@, pos as int) matches Some(h) ==> (h.chunk_type
                == chunk_type::TEXTURE_NATIVE ==> pos + 12 + h.length <= u64::MAX),
        ensures
            match r {
                Ok(Some((t, end))) => spec_read_texture(data@, pos as int) == Ok::<
                    Option<TextureView>,
                    ReadFault,
                >(Some(t@)) && end == spec_texture_end(data@, pos as int),
                Ok(None) => spec_read_texture(data@, pos as int) == Ok::<
                    Option<TextureView>,
                    ReadFault,
                >(None),
                Err(e) => spec_read_texture(data@, pos as int) matches Err(f) && e.reports(f),
            },
    {
        match read_d3d_texture(data, pos as u128)? {
            Some(t) => match read_header(data, pos as u128) {
                Some(h) => Ok(Some((t, pos + 12 + h.length as u64))),
                None => Ok(None),
            },
            None => Ok(None),
        }
    }
}

// ---------------------------------------------------------------------------------------------
// Writing.

/// The four-character code of a compressed kind in D3D9 headers: `DXT1` or `DXT3`.
pub open spec fn spec_fourcc(c: Compression) -> Seq<u8> {
    match c {
        Compression::Dxt3 => seq![0x44u8, 0x58u8, 0x54u8, 0x33u8],
        _ => seq![0x44u8, 0x58u8, 0x54u8, 0x31u8],
    }
}

/// The four bytes after the prefix: the alpha flag for D3D8; for D3D9 the four-character code
/// of a compressed texture, else 0x15 (with alpha) or 0x16 (without).
pub open spec fn spec_alpha_field(t: TextureView) -> Seq<u8> {
    if t.platform == platform::D3D8 {
        spec_u32_le(if t.has_alpha { 1u32 } else { 0u32 })
    } else if t.compression is Uncompressed {
        spec_u32_le(if t.has_alpha { 0x15u32 } else { 0x16u32 })
    } else {
        spec_fourcc(t.compression)
    }
}

/// The last header byte: the compression code for D3D8; for D3D9 bit 3 for "compressed" and
/// bit 0 for "has alpha".
pub open spec fn spec_compression_or_alpha(t: TextureView) -> u8 {
    if t.platform == platform::D3D8 {
        t.compression.spec_code()
    } else {
        (if t.compression is Uncompressed { 0u8 } else { 8u8 }) | (if t.has_alpha { 1u8 } else { 0u8 })
    }
}

/// The size of the first mipmap level (0 x 0 without levels).
pub open spec fn spec_base_size(t: TextureView) -> (u32, u32) {
    if t.mipmaps.len() > 0 {
        (t.mipmaps[0].width, t.mipmaps[0].height)
    } else {
        (0, 0)
    }
}

/// Width, height (16 bits each), depth, mipmap count, raster type 4, compression-or-alpha byte.
pub open spec fn spec_tail(t: TextureView) -> Seq<u8> {
    spec_u16_le(spec_base_size(t).0 as u16) + spec_u16_le(spec_base_size(t).1 as u16) + seq![
        t.depth,
        t.mipmaps.len() as u8,
        4u8,
        spec_compression_or_alpha(t),
    ]
}

/// The palette bytes, written when the texture has both a palette size and palette bytes.
pub open spec fn spec_palette_field(t: TextureView) -> Seq<u8> {
    if t.palette_size > 0 && t.palette.len() > 0 {
        t.palette
    } else {
        Seq::empty()
    }
}

/// Each level as a little-endian byte count (kept to 32 bits) followed by its bytes.
pub open spec fn spec_mipmaps_bytes(ms: Seq<MipmapView>) -> Seq<u8>
    decreases ms.len(),
{
    if ms.len() == 0 {
        Seq::empty()
    } else {
        spec_mipmaps_bytes(ms.drop_last()) + spec_u32_le(ms.last().data.len() as u32)
            + ms.last().data
    }
}

/// The 76-byte prefix: platform, filter flags, name, mask name, raster format.
pub open spec fn spec_prefix(t: TextureView) -> Seq<u8> {
    spec_u32_le(t.platform) + spec_u32_le(t.filter_flags) + spec_name_field(t.name)
        + spec_name_field(t.mask_name) + spec_u32_le(t.raster_format)
}

/// The body of the STRUCT chunk of a native texture.
pub open spec fn spec_struct_body(t: TextureView) -> Seq<u8> {
    spec_prefix(t) + spec_alpha_field(t) + spec_tail(t) + spec_palette_field(t) + spec_mipmaps_bytes(
        t.mipmaps,
    )
}

/// A TEXTURE_NATIVE chunk: the STRUCT chunk of the texture, then an empty EXTENSION chunk.
#[verifier::opaque]
pub open spec fn spec_texture_native(t: TextureView, version: u32) -> Seq<u8> {
    spec_chunk(
        chunk_type::TEXTURE_NATIVE,
        version,
        spec_chunk(chunk_type::STRUCT, version, spec_struct_body(t)) + spec_chunk(
            chunk_type::EXTENSION,
            version,
            Seq::empty(),
        ),
    )
}

impl Texture {
    fn compression_or_alpha_byte(&self) -> (r: u8)
        ensures
            r == spec_compression_or_alpha(self@),
    {
        if self.platform == platform::D3D8 {
            self.compression.code()
        } else {
            (if self.compression != Compression::Uncompressed {
                8u8
            } else {
                0u8
            }) | (if self.has_alpha {
                1u8
            } else {
                0u8
            })
        }
    }

    fn d3d9_fourcc(&self) -> (r: Option<[u8; 4]>)
        ensures
            self.compression is Uncompressed ==> r is None,
            !(self.compression is Uncompressed) ==> (r matches Some(f) && f@ == spec_fourcc(
                self.compression,
            )),
    {
        match self.compression {
            Compression::Dxt1 => {
                let f: [u8; 4] = [0x44, 0x58, 0x54, 0x31];
                assert(f@ =~= spec_fourcc(self.compression));
                Some(f)
            },
            Compression::Dxt3 => {
                let f: [u8; 4] = [0x44, 0x58, 0x54, 0x33];
                assert(f@ =~= spec_fourcc(self.compression));
                Some(f)
            },
            Compression::Uncompressed => None,
        }
    }

    fn write_mipmaps(&self, out: &mut Vec<u8>)
        ensures
            final(out)@ == old(out)@ + spec_mipmaps_bytes(self@.mipmaps),
    {
        let mut i: usize = 0;
        while i < self.mipmaps.len()
            invariant
                i <= self.mipmaps@.len(),
                out@ == old(out)@ + spec_mipmaps_bytes(mipmap_views(self.mipmaps@).take(i as int)),
            decreases self.mipmaps@.len() - i,
        {
            let ghost before = out@;
            let m = &self.mipmaps[i];
            push_u32_le(out, m.data.len() as u32);
            push_bytes(out, m.data.as_slice());
            proof {
                let views = mipmap_views(self.mipmaps@);
                assert(views.take(i + 1).drop_last() =~= views.take(i as int));
                assert(views.take(i + 1).last() == m@);
            }
            i = i + 1;
            assert(out@ =~= old(out)@ + spec_mipmaps_bytes(mipmap_views(self.mipmaps@).take(i as int)));
        }
        assert(mipmap_views(self.mipmaps@).take(i as int) =~= mipmap_views(self.mipmaps@));
    }

    /// Appends the STRUCT chunk of this texture; returns the bytes appended, kept to 32 bits.
    #[verifier::rlimit(30)]
    fn write_d3d_struct(&self, out: &mut Vec<u8>, version: u32) -> (r: u32)
        ensures
            final(out)@ == old(out)@ + spec_chunk(chunk_type::STRUCT, version, spec_struct_body(self@)),
            r == (12 + spec_struct_body(self@).len()) as u32,
    {
        let mut body: Vec<u8> = Vec::new();
        push_u32_le(&mut body, self.platform);
        push_u32_le(&mut body, self.filter_flags);
        let name = fixed_name_bytes(self.name.as_str());
        push_bytes(&mut body, name.as_slice());
        let mask_name = fixed_name_bytes(self.mask_name.as_str());
        push_bytes(&mut body, mask_name.as_slice());
        push_u32_le(&mut body, self.raster_format);
        assert(body@ =~= spec_prefix(self@));
        if self.platform == platform::D3D8 {
            push_u32_le(&mut body, if self.has_alpha { 1u32 } else { 0u32 });
        } else {
            match self.d3d9_fourcc() {
                Some(fourcc) => {
                    push_bytes(&mut body, &fourcc);
                },
                None => {
                    push_u32_le(&mut body, if self.has_alpha { 0x15u32 } else { 0x16u32 });
                },
            }
        }
        assert(body@ =~= spec_prefix(self@) + spec_alpha_field(self@));
        let (width, height) = if self.mipmaps.len() > 0 {
            (self.mipmaps[0].width, self.mipmaps[0].height)
        } else {
            (0u32, 0u32)
        };
        assert((width, height) == spec_base_size(self@));
        push_u16_le(&mut body, width as u16);
        push_u16_le(&mut body, height as u16);
        body.push(self.depth);
        body.push(self.mipmaps.len() as u8);
        body.push(4u8);
        body.push(self.compression_or_alpha_byte());
        assert(body@ =~= spec_prefix(self@) + spec_alpha_field(self@) + spec_tail(self@));
        if self.palette_size > 0 && self.palette.len() > 0 {
            push_bytes(&mut body, self.palette.as_slice());
        }
        assert(body@ =~= spec_prefix(self@) + spec_alpha_field(self@) + spec_tail(self@)
            + spec_palette_field(self@));
        self.write_mipmaps(&mut body);
        assert(body@ =~= spec_struct_body(self@));
        write_chunk(out, chunk_type::STRUCT, version, body.as_slice())
    }

    /// Appends the native texture chunk of this texture, every chunk stamped with `version`;
    /// returns the number of bytes appended, kept to 32 bits.
    pub fn write_d3d(&self, out: &mut Vec<u8>, version: u32) -> (r: u32)
        ensures
            final(out)@ == old(out)@ + spec_texture_native(self@, version),
            r == spec_texture_native(self@, version).len() as u32,
    {
        reveal(spec_texture_native);
        let mut body: Vec<u8> = Vec::new();
        self.write_d3d_struct(&mut body, version);
        ChunkHeader { chunk_type: chunk_type::EXTENSION, length: 0, version }.write(&mut body);
        assert(body@ =~= spec_chunk(chunk_type::STRUCT, version, spec_struct_body(self@)) + spec_chunk(
            chunk_type::EXTENSION,
            version,
            Seq::empty(),
        ));
        write_chunk(out, chunk_type::TEXTURE_NATIVE, version, body.as_slice())
    }
}

// ---------------------------------------------------------------------------------------------
// Converting to RGBA.

/// The bytes one stored pixel of a raster layout needs.
pub open spec fn pixel_bytes_needed(format_mask: u32) -> int {
    if format_mask == raster_format::B8G8R8A8 {
        4
    } else if format_mask == raster_format::B8G8R8 {
        3
    } else if format_mask == raster_format::R5G6B5 || format_mask == raster_format::A1R5G5B5
        || format_mask == raster_format::R4G4B4A4 {
        2
    } else if format_mask == raster_format::LUM8 {
        1
    } else {
        0
    }
}

/// The RGBA value of one stored pixel `b` of the layout `format_mask`: channels of fewer than
/// eight bits are shifted to the top of the byte; layouts without alpha are opaque; unknown
/// layouts give opaque black.
pub open spec fn spec_decode_pixel(format_mask: u32, b: Seq<u8>) -> Seq<u8> {
    let v: int = if b.len() >= 2 {
        b[0] + 256 * b[1]
    } else {
        0
    };
    if format_mask == raster_format::B8G8R8A8 {
        seq![b[2], b[1], b[0], b[3]]
    } else if format_mask == raster_format::B8G8R8 {
        seq![b[2], b[1], b[0], 255u8]
    } else if format_mask == raster_format::R5G6B5 {
        seq![(v / 2048 % 32 * 8) as u8, (v / 32 % 64 * 4) as u8, (v % 32 * 8) as u8, 255u8]
    } else if format_mask == raster_format::A1R5G5B5 {
        seq![
            (v / 1024 % 32 * 8) as u8,
            (v / 32 % 32 * 8) as u8,
            (v % 32 * 8) as u8,
            if v / 32768 % 2 == 1 { 255u8 } else { 0u8 },
        ]
    } else if format_mask == raster_format::R4G4B4A4 {
        seq![
            (v / 4096 % 16 * 16) as u8,
            (v / 256 % 16 * 16) as u8,
            (v / 16 % 16 * 16) as u8,
            (v % 16 * 16) as u8,
        ]
    } else if format_mask == raster_format::LUM8 {
        seq![b[0], b[0], b[0], 255u8]
    } else {
        seq![0u8, 0u8, 0u8, 255u8]
    }
}

proof fn lemma_rgb565(p: u16)
    ensures
        (((p >> 11) & 0x1F) << 3) as u8 == (p / 2048 % 32 * 8) as u8,
        (((p >> 5) & 0x3F) << 2) as u8 == (p / 32 % 64 * 4) as u8,
        ((p & 0x1F) << 3) as u8 == (p % 32 * 8) as u8,
{
    assert((((p >> 11) & 0x1F) << 3) == p / 2048 % 32 * 8) by (bit_vector);
    assert((((p >> 5) & 0x3F) << 2) == p / 32 % 64 * 4) by (bit_vector);
    assert(((p & 0x1F) << 3) == p % 32 * 8) by (bit_vector);
}

proof fn lemma_argb1555(p: u16)
    ensures
        (((p >> 10) & 0x1F) << 3) as u8 == (p / 1024 % 32 * 8) as u8,
        (((p >> 5) & 0x1F) << 3) as u8 == (p / 32 % 32 * 8) as u8,
        ((p & 0x1F) << 3) as u8 == (p % 32 * 8) as u8,
        (((p >> 15) & 0x1) != 0) == (p / 32768 % 2 == 1),
{
    assert((((p >> 10) & 0x1F) << 3) == p / 1024 % 32 * 8) by (bit_vector);
    assert((((p >> 5) & 0x1F) << 3) == p / 32 % 32 * 8) by (bit_vector);
    assert(((p & 0x1F) << 3) == p % 32 * 8) by (bit_vector);
    assert((((p >> 15) & 0x1) != 0) == (p / 32768 % 2 == 1)) by (bit_vector);
}

proof fn lemma_argb4444(p: u16)
    ensures
        (((p >> 12) & 0xF) << 4) as u8 == (p / 4096 % 16 * 16) as u8,
        (((p >> 8) & 0xF) << 4) as u8 == (p / 256 % 16 * 16) as u8,
        (((p >> 4) & 0xF) << 4) as u8 == (p / 16 % 16 * 16) as u8,
        ((p & 0xF) << 4) as u8 == (p % 16 * 16) as u8,
{
    assert((((p >> 12) & 0xF) << 4) == p / 4096 % 16 * 16) by (bit_vector);
    assert((((p >> 8) & 0xF) << 4) == p / 256 % 16 * 16) by (bit_vector);
    assert((((p >> 4) & 0xF) << 4) == p / 16 % 16 * 16) by (bit_vector);
    assert(((p & 0xF) << 4) == p % 16 * 16) by (bit_vector);
}

fn decode_uncompressed_pixel(format_mask: u32, pixel_data: &[u8]) -> (r: [u8; 4])
    requires
        pixel_data@.len() >= pixel_bytes_needed(format_mask),
    ensures
        r@ == spec_decode_pixel(format_mask, pixel_data@),
{
    let ghost v: int = if pixel_data@.len() >= 2 {
        pixel_data@[0] + 256 * pixel_data@[1]
    } else {
        0
    };
    if format_mask == raster_format::B8G8R8A8 {
        let r = [pixel_data[2], pixel_data[1], pixel_data[0], pixel_data[3]];
        assert(r@ =~= spec_decode_pixel(format_mask, pixel_data@));
        r
    } else if format_mask == raster_format::B8G8R8 {
        let r = [pixel_data[2], pixel_data[1], pixel_data[0], 255];
        assert(r@ =~= spec_decode_pixel(format_mask, pixel_data@));
        r
    } else if format_mask == raster_format::R5G6B5 {
        let pixel: u16 = pixel_data[0] as u16 + 256 * (pixel_data[1] as u16);
        assert(pixel == v);
        proof {
            lemma_rgb565(pixel);
        }
        let r = [
            (((pixel >> 11) & 0x1F) << 3) as u8,
            (((pixel >> 5) & 0x3F) << 2) as u8,
            ((pixel & 0x1F) << 3) as u8,
            255,
        ];
        assert(r@ =~= spec_decode_pixel(format_mask, pixel_data@));
        r
    } else if format_mask == raster_format::A1R5G5B5 {
        let pixel: u16 = pixel_data[0] as u16 + 256 * (pixel_data[1] as u16);
        assert(pixel == v);
        proof {
            lemma_argb1555(pixel);
        }
        let r = [
            (((pixel >> 10) & 0x1F) << 3) as u8,
            (((pixel >> 5) & 0x1F) << 3) as u8,
            ((pixel & 0x1F) << 3) as u8,
            if (pixel >> 15) & 0x1 != 0 {
                255
            } else {
                0
            },
        ];
        assert(r@ =~= spec_decode_pixel(format_mask, pixel_data@));
        r
    } else if format_mask == raster_format::R4G4B4A4 {
        let pixel: u16 = pixel_data[0] as u16 + 256 * (pixel_data[1] as u16);
        assert(pixel == v);
        proof {
            lemma_argb4444(pixel);
        }
        let r = [
            (((pixel >> 12) & 0xF) << 4) as u8,
            (((pixel >> 8) & 0xF) << 4) as u8,
            (((pixel >> 4) & 0xF) << 4) as u8,
            ((pixel & 0xF) << 4) as u8,
        ];
        assert(r@ =~= spec_decode_pixel(format_mask, pixel_data@));
        r
    } else if format_mask == raster_format::LUM8 {
        let r = [pixel_data[0], pixel_data[0], pixel_data[0], 255];
        assert(r@ =~= spec_decode_pixel(format_mask, pixel_data@));
        r
    } else {
        let r = [0, 0, 0, 255];
        assert(r@ =~= spec_decode_pixel(format_mask, pixel_data@));
        r
    }
}

/// Bytes per stored pixel: a byte per 8 bits of depth, 4 when the depth is below 8.
pub open spec fn bytes_per_pixel(depth: u8) -> int {
    if depth / 8 == 0 {
        4
    } else {
        (depth / 8) as int
    }
}

/// Pixel `i` of an uncompressed level: the decoded stored pixel `i`, or transparent black
/// past the end of the stored bytes.
pub open spec fn spec_uncompressed_pixel(raster: u32, depth: u8, data: Seq<u8>, i: int) -> Seq<u8> {
    let bpp = bytes_per_pixel(depth);
    if i * bpp + bpp <= data.len() {
        spec_decode_pixel(raster & raster_format::MASK, data.subrange(i * bpp, i * bpp + bpp))
    } else {
        seq![0u8, 0u8, 0u8, 0u8]
    }
}

/// The pixels of an uncompressed level, by position.
pub open spec fn uncompressed_pixels(raster: u32, depth: u8, data: Seq<u8>) -> spec_fn(int) -> Seq<
    u8,
> {
    |i: int| spec_uncompressed_pixel(raster, depth, data, i)
}

/// The raster format names an indexed (PAL4 or PAL8) layout.
pub open spec fn spec_is_palette_format(raster: u32) -> bool {
    raster & raster_format::PAL8 != 0 || raster & raster_format::PAL4 != 0
}

/// What converting a level to RGBA needs to run: an image whose byte count fits `usize`, and
/// for DXT, the codec's limits and enough blocks; for uncompressed layouts, whole stored pixels.
pub open spec fn conversion_fits(t: TextureView, m: MipmapView) -> bool {
    &&& rgba_len(m.width, m.height) <= usize::MAX
    &&& spec_is_palette_format(t.raster_format) ==> t.palette_size <= 0x3FFF_FFFF
    &&& !spec_is_palette_format(t.raster_format) && !(t.compression is Uncompressed) ==> {
        &&& codec_fits(spec_block_format(t.compression), m.width, m.height)
        &&& m.width * 16 <= usize::MAX
        &&& spec_compressed_size(spec_block_format(t.compression), m.width as int, m.height as int)
            <= m.data.len()
    }
    &&& !spec_is_palette_format(t.raster_format) && t.compression is Uncompressed
        ==> pixel_bytes_needed(t.raster_format & raster_format::MASK) <= bytes_per_pixel(t.depth)
}

/// What converting the level `m` to RGBA needs: nothing for an empty level (an error is
/// returned), `conversion_fits` otherwise.
pub open spec fn level_decodes(t: TextureView, m: MipmapView) -> bool {
    m.width > 0 && m.height > 0 && m.data.len() > 0 ==> conversion_fits(t, m)
}

impl Texture {
    fn is_palette_format(&self) -> (r: bool)
        ensures
            r == spec_is_palette_format(self.raster_format),
    {
        self.raster_format & raster_format::PAL8 != 0 || self.raster_format & raster_format::PAL4
            != 0
    }

    /// Whether `to_rgba8` can decode this texture: palette layouts and every compression kind
    /// the library knows, so always.
    pub fn can_convert(&self) -> (r: bool)
        ensures
            r,
    {
        self.is_palette_format() || match self.compression {
            Compression::Uncompressed | Compression::Dxt1 | Compression::Dxt3 => true,
        }
    }

    fn convert_uncompressed(&self, mipmap: &MipmapLevel) -> (r: RgbaImage)
        requires
            rgba_len(mipmap.width, mipmap.height) <= usize::MAX,
            pixel_bytes_needed(self.raster_format & raster_format::MASK) <= bytes_per_pixel(
                self.depth,
            ),
        ensures
            r@.width == mipmap.width,
            r@.height == mipmap.height,
            pixels_are(
                r@.data,
                mipmap.width * mipmap.height,
                uncompressed_pixels(self.raster_format, self.depth, mipmap.data@),
            ),
    {
        let format_mask = self.raster_format & raster_format::MASK;
        let bpp: usize = if self.depth / 8 == 0 {
            4
        } else {
            (self.depth / 8) as usize
        };
        let ghost f = uncompressed_pixels(self.raster_format, self.depth, mipmap.data@);
        let data = mipmap.data.as_slice();
        let len = data.len();
        let n: usize = (mipmap.width as usize) * (mipmap.height as usize);
        let mut out: Vec<u8> = Vec::new();
        let mut i: usize = 0;
        let mut off: u128 = 0;
        while i < n
            invariant
                i <= n,
                n == mipmap.width * mipmap.height,
                n * 4 <= usize::MAX,
                bpp == bytes_per_pixel(self.depth),
                format_mask == self.raster_format & raster_format::MASK,
                pixel_bytes_needed(format_mask) <= bpp,
                len == data@.len(),
                data@ == mipmap.data@,
                off == i * bpp,
                f == uncompressed_pixels(self.raster_format, self.depth, mipmap.data@),
                pixels_are(out@, i as int, f),
            decreases n - i,
        {
            let ghost before = out@;
            proof {
                assert(i * bpp <= n * 31) by (nonlinear_arith)
                    requires
                        i <= n,
                        bpp <= 31,
                ;
            }
            let px: [u8; 4] = if off + (bpp as u128) <= len as u128 {
                let start = off as usize;
                decode_uncompressed_pixel(format_mask, &data[start..start + bpp])
            } else {
                [0u8, 0u8, 0u8, 0u8]
            };
            assert(px@ =~= spec_uncompressed_pixel(
                self.raster_format,
                self.depth,
                mipmap.data@,
                i as int,
            ));
            push_bytes(&mut out, &px);
            proof {
                lemma_pixels_push(before, i as int, f, px@);
                assert((i + 1) * bpp == i * bpp + bpp) by (nonlinear_arith);
            }
            i = i + 1;
            off = off + bpp as u128;
        }
        match RgbaImage::from_raw(mipmap.width, mipmap.height, out) {
            Some(img) => img,
            None => RgbaImage::new(mipmap.width, mipmap.height),
        }
    }

    /// Whether `to_rgba8(mipmap_index)` can run: there is no such level, or the level is empty
    /// (an error is returned), or the level meets `conversion_fits`.
    pub fn can_decode_level(&self, mipmap_index: usize) -> (r: bool)
        ensures
            r == (mipmap_index < self.mipmaps@.len() ==> level_decodes(
                self@,
                self.mipmaps@[mipmap_index as int]@,
            )),
    {
        if mipmap_index >= self.mipmaps.len() {
            return true;
        }
        let m = &self.mipmaps[mipmap_index];
        if m.width == 0 || m.height == 0 || m.data.len() == 0 {
            return true;
        }
        let w = m.width as u128;
        let h = m.height as u128;
        let max = usize::MAX as u128;
        proof {
            assert(w * h <= 0xFFFF_FFFFu128 * 0xFFFF_FFFFu128) by (nonlinear_arith)
                requires
                    w <= 0xFFFF_FFFFu128,
                    h <= 0xFFFF_FFFFu128,
            ;
        }
        if w * h * 4 > max {
            return false;
        }
        if self.is_palette_format() {
            return self.palette_size <= 0x3FFF_FFFF;
        }
        match self.compression {
            Compression::Uncompressed => {
                let mask = self.raster_format & raster_format::MASK;
                let needed: u32 = if mask == raster_format::B8G8R8A8 {
                    4
                } else if mask == raster_format::B8G8R8 {
                    3
                } else if mask == raster_format::R5G6B5 || mask == raster_format::A1R5G5B5 || mask
                    == raster_format::R4G4B4A4 {
                    2
                } else if mask == raster_format::LUM8 {
                    1
                } else {
                    0
                };
                let bpp: u32 = if self.depth / 8 == 0 {
                    4
                } else {
                    (self.depth / 8) as u32
                };
                needed <= bpp
            },
            Compression::Dxt1 | Compression::Dxt3 => {
                let block: u128 = if self.compression == Compression::Dxt1 {
                    8
                } else {
                    16
                };
                let bw = (w + 3) / 4;
                let bh = (h + 3) / 4;
                proof {
                    assert(bw * bh <= 0x4000_0000u128 * 0x4000_0000u128) by (nonlinear_arith)
                        requires
                            bw <= 0x4000_0000u128,
                            bh <= 0x4000_0000u128,
                    ;
                }
                let size = bw * bh * block;
                w + 3 <= max && h + 3 <= max && size <= max && w * 16 <= max && size <= m.data.len()
                    as u128
            },
        }
    }

    /// Decodes mipmap level `mipmap_index` into an RGBA image.
    pub fn to_rgba8(&self, mipmap_index: usize) -> (r: Result<RgbaImage, TxdError>)
        requires
            mipmap_index < self.mipmaps@.len() ==> level_decodes(
                self@,
                self.mipmaps@[mipmap_index as int]@,
            ),
        ensures
            mipmap_index >= self.mipmaps@.len() ==> r == Err::<RgbaImage, TxdError>(
                TxdError::MissingMipmap(mipmap_index),
            ),
            mipmap_index < self.mipmaps@.len() ==> ({
                let m = self.mipmaps@[mipmap_index as int]@;
                let palette_missing = self.palette_size == 0 || (self.palette@.len() as u32) < (
                self.palette_size * 4) as u32;
                &&& m.width == 0 || m.height == 0 || m.data.len() == 0 ==> r == Err::<
                    RgbaImage,
                    TxdError,
                >(TxdError::InvalidDimensions { width: m.width, height: m.height })
                &&& m.width > 0 && m.height > 0 && m.data.len() > 0 ==> (r matches Ok(img)
                    && img@.width == m.width && img@.height == m.height && if spec_is_palette_format(
                    self.raster_format,
                ) {
                    if palette_missing {
                        is_filled(img@.data, m.width * m.height, seq![0u8, 0u8, 0u8, 0u8])
                    } else {
                        pixels_are(
                            img@.data,
                            m.width * m.height,
                            palette_pixels(m.data, self.palette@, self.palette_size),
                        )
                    }
                } else if self.compression is Uncompressed {
                    pixels_are(
                        img@.data,
                        m.width * m.height,
                        uncompressed_pixels(self.raster_format, self.depth, m.data),
                    )
                } else {
                    img@.data == dxt_decoded(
                        spec_block_format(self.compression),
                        m.data,
                        m.width as usize,
                        m.height as usize,
                    )
                })
            }),
    {
        if mipmap_index >= self.mipmaps.len() {
            return Err(TxdError::MissingMipmap(mipmap_index));
        }
        let mipmap = &self.mipmaps[mipmap_index];
        if mipmap.width == 0 || mipmap.height == 0 || mipmap.data.len() == 0 {
            return Err(TxdError::InvalidDimensions { width: mipmap.width, height: mipmap.height });
        }
        if self.is_palette_format() {
            if self.palette_size == 0 || (self.palette.len() as u32) < self.palette_size * 4 {
                let zero: [u8; 4] = [0, 0, 0, 0];
                let img = RgbaImage::from_pixel(mipmap.width, mipmap.height, zero);
                assert(zero@ =~= seq![0u8, 0u8, 0u8, 0u8]);
                return Ok(img);
            }
            return convert_palette_to_rgba(
                mipmap.data.as_slice(),
                self.palette.as_slice(),
                self.palette_size,
                mipmap.width,
                mipmap.height,
            );
        }
        match self.compression {
            Compression::Dxt1 | Compression::Dxt3 => {
                self.compression.decompress_dxt(mipmap.data.as_slice(), mipmap.width, mipmap.height)
            },
            Compression::Uncompressed => Ok(self.convert_uncompressed(mipmap)),
        }
    }
}

// ---------------------------------------------------------------------------------------------
// Building from RGBA.

/// Some pixel of the image is not fully opaque.
pub open spec fn spec_has_alpha(v: ImageView) -> bool {
    exists|i: int| 0 <= i < v.width * v.height && #[trigger] v.data[4 * i + 3] < 255
}

/// What `from_rgba` needs to run on a non-empty image: the image's byte count fits `usize`,
/// and a DXT format's codec limits hold for it.
pub open spec fn creation_fits(v: ImageView, options: TextureCreateOptions) -> bool {
    &&& rgba_len(v.width, v.height) <= usize::MAX
    &&& !(options.format is Rgba32) ==> codec_fits(
        spec_block_format(options.format.spec_compression()),
        v.width,
        v.height,
    )
}

/// The texture `from_rgba` builds from the mipmap chain `levels` of `v`: each level encoded in
/// the chosen format, with the options' platform and filter flags, and no palette.
pub open spec fn spec_from_rgba(
    name: Seq<char>,
    v: ImageView,
    options: TextureCreateOptions,
    levels: Seq<ImageView>,
) -> TextureView {
    TextureView {
        platform: options.platform,
        name,
        mask_name: Seq::empty(),
        filter_flags: options.filter_flags,
        raster_format: options.format.spec_raster_format(levels.len() as int),
        depth: 32,
        has_alpha: spec_has_alpha(v),
        compression: options.format.spec_compression(),
        mipmaps: levels.map_values(|l: ImageView| options.format.spec_encode_level(l)),
        palette: Seq::empty(),
        palette_size: 0,
    }
}

fn has_transparent_pixel(image: &RgbaImage) -> (r: bool)
    ensures
        r == spec_has_alpha(image@),
{
    let data = image.as_raw();
    let n: usize = data.len() / 4;
    let mut i: usize = 0;
    while i < n
        invariant
            i <= n,
            n == image@.width * image@.height,
            data@ == image@.data,
            data@.len() == 4 * n,
            4 * n <= usize::MAX,
            forall|j: int| 0 <= j < i ==> !(#[trigger] data@[4 * j + 3] < 255),
        decreases n - i,
    {
        if data[4 * i + 3] < 255 {
            return true;
        }
        i = i + 1;
    }
    false
}

impl Texture {
    /// Whether `from_rgba` can run on `rgba` with `options`: an empty image (an error is
    /// returned), or one that meets `creation_fits`.
    pub fn can_create_from(rgba: &RgbaImage, options: &TextureCreateOptions) -> (r: bool)
        ensures
            r == (rgba@.width > 0 && rgba@.height > 0 ==> creation_fits(rgba@, *options)),
    {
        let w = rgba.width() as u128;
        let h = rgba.height() as u128;
        if w == 0 || h == 0 {
            return true;
        }
        let max = usize::MAX as u128;
        proof {
            assert(w * h <= 0xFFFF_FFFFu128 * 0xFFFF_FFFFu128) by (nonlinear_arith)
                requires
                    w <= 0xFFFF_FFFFu128,
                    h <= 0xFFFF_FFFFu128,
            ;
        }
        if w * h * 4 > max {
            return false;
        }
        let block: u128 = match options.format {
            TextureFormat::Rgba32 => {
                return true;
            },
            TextureFormat::Dxt1 { .. } => 8,
            TextureFormat::Dxt3 { .. } => 16,
        };
        let bw = (w + 3) / 4;
        let bh = (h + 3) / 4;
        proof {
            assert(bw * bh <= 0x4000_0000u128 * 0x4000_0000u128) by (nonlinear_arith)
                requires
                    bw <= 0x4000_0000u128,
                    bh <= 0x4000_0000u128,
            ;
        }
        w + 3 <= max && h + 3 <= max && bw * bh * block <= max
    }
}

impl Texture {
    /// Builds a texture from an RGBA image: its mipmap chain (or only the image), each level
    /// encoded as the options' format asks.
    pub fn from_rgba(name: String, rgba: RgbaImage, options: TextureCreateOptions) -> (r: Result<
        Texture,
        TxdError,
    >)
        requires
            rgba@.width > 0 && rgba@.height > 0 ==> creation_fits(rgba@, options),
        ensures
            rgba@.width == 0 || rgba@.height == 0 ==> r == Err::<Texture, TxdError>(
                TxdError::InvalidDimensions { width: rgba@.width, height: rgba@.height },
            ),
            rgba@.width > 0 && rgba@.height > 0 ==> (r matches Ok(t) && exists|levels: Seq<ImageView>|
                #![trigger spec_from_rgba(name@, rgba@, options, levels)]
                is_mipmap_chain(levels, rgba@, options.mipmaps, options.mip_filter) && t@
                    == spec_from_rgba(name@, rgba@, options, levels)),
    {
        let (width, height) = rgba.dimensions();
        if width == 0 || height == 0 {
            return Err(TxdError::InvalidDimensions { width, height });
        }
        let ghost v = rgba@;
        let ghost name_v = name@;
        let has_alpha = has_transparent_pixel(&rgba);
        let images = image_mipmaps(rgba, options.mipmaps, options.mip_filter);
        let ghost levels = image_views(images@);
        proof {
            lemma_chain_dims(levels, v, options.mipmaps, options.mip_filter);
            assert(forall|i: int| 0 <= i < levels.len() ==> images@[i]@ == #[trigger] levels[i]);
        }
        let compression = options.format.compression();
        let mut mipmaps: Vec<MipmapLevel> = Vec::new();
        let mut i: usize = 0;
        while i < images.len()
            invariant
                i <= images@.len(),
                images@.len() == levels.len(),
                forall|j: int| 0 <= j < levels.len() ==> images@[j]@ == #[trigger] levels[j],
                forall|j: int|
                    0 <= j < levels.len() ==> 1 <= (#[trigger] levels[j]).width <= width && 1
                        <= levels[j].height <= height,
                width == v.width,
                height == v.height,
                creation_fits(v, options),
                mipmap_views(mipmaps@) == levels.take(i as int).map_values(
                    |l: ImageView| options.format.spec_encode_level(l),
                ),
            decreases images@.len() - i,
        {
            let ghost lv = levels[i as int];
            proof {
                if !(options.format is Rgba32) {
                    lemma_codec_fits_smaller(
                        spec_block_format(options.format.spec_compression()),
                        width,
                        height,
                        lv.width,
                        lv.height,
                    );
                }
            }
            let level = options.format.encode_mipmap(&images[i])?;
            let ghost before = mipmaps@;
            mipmaps.push(level);
            proof {
                assert(levels.take(i + 1) =~= levels.take(i as int).push(lv));
                assert(mipmap_views(mipmaps@) =~= mipmap_views(before).push(level@));
                assert(levels.take(i + 1).map_values(|l: ImageView| options.format.spec_encode_level(l))
                    =~= levels.take(i as int).map_values(|l: ImageView| options.format.spec_encode_level(l)).push(
                    options.format.spec_encode_level(lv),
                ));
            }
            i = i + 1;
        }
        assert(levels.take(i as int) =~= levels);
        let raster = options.format.raster_format(mipmaps.len());
        let t = Texture {
            platform: options.platform,
            name,
            mask_name: String::new(),
            filter_flags: options.filter_flags,
            raster_format: raster,
            depth: options.format.depth(),
            has_alpha,
            compression,
            mipmaps,
            palette: Vec::new(),
            palette_size: 0,
        };
        assert(t@ == spec_from_rgba(name_v, v, options, levels));
        Ok(t)
    }
}

// ---------------------------------------------------------------------------------------------
// RGBA images.

/// An image stored as an uncompressed 32-bit texture decodes back to the same image: the pixels
/// that converting the first level to RGBA gives are the image's own, whatever the smaller
/// levels hold.
pub proof fn lemma_rgba32_texture_decodes(
    name: Seq<char>,
    v: ImageView,
    options: TextureCreateOptions,
    levels: Seq<ImageView>,
)
    requires
        options.format is Rgba32,
        is_mipmap_chain(levels, v, options.mipmaps, options.mip_filter),
        v.width > 0,
        v.height > 0,
        v.data.len() == rgba_len(v.width, v.height),
    ensures
        ({
            let t = spec_from_rgba(name, v, options, levels);
            let m = t.mipmaps[0];
            &&& t.mipmaps.len() > 0
            &&& m.width == v.width
            &&& m.height == v.height
            &&& m.data.len() > 0
            &&& !spec_is_palette_format(t.raster_format)
            &&& t.compression is Uncompressed
            &&& pixels_are(
                v.data,
                v.width * v.height,
                uncompressed_pixels(t.raster_format, t.depth, m.data),
            )
        }),
{
    let t = spec_from_rgba(name, v, options, levels);
    assert(levels[0] == v);
    let m = t.mipmaps[0];
    assert(m == options.format.spec_encode_level(v));
    let raster = t.raster_format;
    assert(raster_format::B8G8R8A8 | raster_format::MIPMAP == 0x8500u32) by (bit_vector);
    assert(raster == 0x500 || raster == 0x8500);
    assert(raster & raster_format::PAL8 == 0 && raster & raster_format::PAL4 == 0
        && raster & raster_format::MASK == raster_format::B8G8R8A8) by (bit_vector)
        requires
            raster == 0x500u32 || raster == 0x8500u32,
    ;
    let n = v.width * v.height;
    assert(0 < v.width * v.height) by (nonlinear_arith)
        requires
            v.width > 0,
            v.height > 0,
    ;
    let sw = spec_swap_red_blue(v.data);
    assert forall|i: int| 0 <= i < n implies #[trigger] pixel_at(v.data, i) == uncompressed_pixels(
        raster,
        32,
        m.data,
    )(i) by {
        assert(spec_uncompressed_pixel(raster, 32, m.data, i) == uncompressed_pixels(
            raster,
            32,
            m.data,
        )(i));
        assert((4 * i) % 4 == 0);
        assert((4 * i + 1) % 4 == 1);
        assert((4 * i + 2) % 4 == 2);
        assert((4 * i + 3) % 4 == 3);
        assert(m.data == sw);
        assert(bytes_per_pixel(32) == 4);
        assert(sw.len() == v.data.len());
        assert(i * 4 + 4 <= sw.len());
        assert(sw[4 * i] == v.data[4 * i + 2]);
        assert(sw[4 * i + 1] == v.data[4 * i + 1]);
        assert(sw[4 * i + 2] == v.data[4 * i]);
        assert(sw[4 * i + 3] == v.data[4 * i + 3]);
        let b = sw.subrange(i * 4, i * 4 + 4);
        assert(b[0] == sw[4 * i] && b[1] == sw[4 * i + 1] && b[2] == sw[4 * i + 2] && b[3] == sw[4
            * i + 3]);
        assert(pixel_at(v.data, i) =~= spec_uncompressed_pixel(raster, 32, m.data, i));
    }
}

} // verus!
