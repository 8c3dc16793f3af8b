//! What the format's fields mean, stated over all inputs: how stored pixels decode, which
//! four-character codes name which compression, how names are compared, which version names
//! which game, and when a new texture has alpha.

use crate::texture::{bytes_per_pixel, spec_decode_pixel, spec_uncompressed_pixel};
use crate::bytes::{spec_u32_at, spec_u32_le};
use crate::error::ReadFault;
use crate::texture::{
    spec_alpha_field, spec_compression_or_alpha, spec_fourcc, spec_mipmaps_bytes,
    spec_palette_field, spec_prefix, spec_read_texture, spec_read_texture_fields,
    spec_read_texture_struct, spec_struct_body, spec_tail, spec_texture_native, TextureView,
};
use crate::dictionary::{ascii_lower, names_match, spec_detect_game_version, spec_last_match};
use crate::encode::TextureCreateOptions;
use crate::image::ImageView;
use crate::texture::spec_from_rgba;
use crate::types::chunk_type;
use crate::types::GameVersion;
use vstd::utf8::encode_utf8;
use crate::types::{spec_chunk, spec_header_bytes, ChunkHeader};
use crate::types::raster_format;
use crate::types::{spec_block_format, BlockFormat, Compression};
use vstd::prelude::*;

verus! {

/// The pixels of a 16-bit layout: pixel `i` decodes the two bytes at `2 * i`.
proof fn lemma_two_byte_pixel(raster: u32, data: Seq<u8>, i: int)
    requires
        0 <= i,
        2 * i + 2 <= data.len(),
    ensures
        spec_uncompressed_pixel(raster, 16, data, i) == spec_decode_pixel(
            raster & raster_format::MASK,
            seq![data[2 * i], data[2 * i + 1]],
        ),
{
    assert(bytes_per_pixel(16) == 2);
    assert(data.subrange(i * 2, i * 2 + 2) =~= seq![data[2 * i], data[2 * i + 1]]);
}

/// An R5G6B5 pixel (16 bits, little-endian, red in the top five bits) decodes to red from the
/// top five bits, green from the middle six and blue from the low five, each moved to the top
/// of its byte, and full opacity.
pub proof fn lemma_r5g6b5_pixel(raster: u32, data: Seq<u8>, i: int)
    requires
        raster & 0x0F00 == 0x0200,
        0 <= i,
        2 * i + 2 <= data.len(),
    ensures
        ({
            let lo = data[2 * i];
            let hi = data[2 * i + 1];
            spec_uncompressed_pixel(raster, 16, data, i) == seq![
                hi & 0xF8u8,
                ((hi & 7u8) << 5u8) | ((lo >> 5u8) << 2u8),
                (lo & 0x1Fu8) << 3u8,
                255u8,
            ]
        }),
{
    let lo = data[2 * i];
    let hi = data[2 * i + 1];
    lemma_two_byte_pixel(raster, data, i);
    let p: u16 = (lo + 256 * hi) as u16;
    assert((p / 2048 % 32 * 8) as u8 == hi & 0xF8u8 && (p / 32 % 64 * 4) as u8 == ((hi & 7u8)
        << 5u8) | ((lo >> 5u8) << 2u8) && (p % 32 * 8) as u8 == (lo & 0x1Fu8) << 3u8)
        by (bit_vector)
        requires
            p == lo + 256 * hi,
    ;
    assert(spec_decode_pixel(raster_format::R5G6B5, seq![lo, hi]) =~= seq![
        hi & 0xF8u8,
        ((hi & 7u8) << 5u8) | ((lo >> 5u8) << 2u8),
        (lo & 0x1Fu8) << 3u8,
        255u8,
    ]);
}

/// An A1R5G5B5 pixel (16 bits, little-endian) decodes to red from bits 10-14, green from bits
/// 5-9 and blue from bits 0-4, each moved to the top of its byte, and alpha 255 when the top bit
/// is set, 0 when it is clear.
pub proof fn lemma_a1r5g5b5_pixel(raster: u32, data: Seq<u8>, i: int)
    requires
        raster & 0x0F00 == 0x0100,
        0 <= i,
        2 * i + 2 <= data.len(),
    ensures
        ({
            let lo = data[2 * i];
            let hi = data[2 * i + 1];
            spec_uncompressed_pixel(raster, 16, data, i) == seq![
                (hi & 0x7Cu8) << 1u8,
                ((hi & 3u8) << 6u8) | ((lo >> 5u8) << 3u8),
                (lo & 0x1Fu8) << 3u8,
                if hi & 0x80u8 != 0 { 255u8 } else { 0u8 },
            ]
        }),
{
    let lo = data[2 * i];
    let hi = data[2 * i + 1];
    lemma_two_byte_pixel(raster, data, i);
    let p: u16 = (lo + 256 * hi) as u16;
    assert((p / 1024 % 32 * 8) as u8 == (hi & 0x7Cu8) << 1u8 && (p / 32 % 32 * 8) as u8 == ((hi
        & 3u8) << 6u8) | ((lo >> 5u8) << 3u8) && (p % 32 * 8) as u8 == (lo & 0x1Fu8) << 3u8 && (p
        / 32768 % 2 == 1) == (hi & 0x80u8 != 0)) by (bit_vector)
        requires
            p == lo + 256 * hi,
    ;
    assert(spec_decode_pixel(raster_format::A1R5G5B5, seq![lo, hi]) =~= seq![
        (hi & 0x7Cu8) << 1u8,
        ((hi & 3u8) << 6u8) | ((lo >> 5u8) << 3u8),
        (lo & 0x1Fu8) << 3u8,
        if hi & 0x80u8 != 0 { 255u8 } else { 0u8 },
    ]);
}

/// An R4G4B4A4 pixel (16 bits, little-endian) decodes to red, green, blue and alpha from its
/// four nibbles, high to low, each moved to the top of its byte.
pub proof fn lemma_r4g4b4a4_pixel(raster: u32, data: Seq<u8>, i: int)
    requires
        raster & 0x0F00 == 0x0300,
        0 <= i,
        2 * i + 2 <= data.len(),
    ensures
        ({
            let lo = data[2 * i];
            let hi = data[2 * i + 1];
            spec_uncompressed_pixel(raster, 16, data, i) == seq![
                hi & 0xF0u8,
                (hi & 0x0Fu8) << 4u8,
                lo & 0xF0u8,
                (lo & 0x0Fu8) << 4u8,
            ]
        }),
{
    let lo = data[2 * i];
    let hi = data[2 * i + 1];
    lemma_two_byte_pixel(raster, data, i);
    let p: u16 = (lo + 256 * hi) as u16;
    assert((p / 4096 % 16 * 16) as u8 == hi & 0xF0u8 && (p / 256 % 16 * 16) as u8 == (hi
        & 0x0Fu8) << 4u8 && (p / 16 % 16 * 16) as u8 == lo & 0xF0u8 && (p % 16 * 16) as u8 == (lo
        & 0x0Fu8) << 4u8) by (bit_vector)
        requires
            p == lo + 256 * hi,
    ;
    assert(spec_decode_pixel(raster_format::R4G4B4A4, seq![lo, hi]) =~= seq![
        hi & 0xF0u8,
        (hi & 0x0Fu8) << 4u8,
        lo & 0xF0u8,
        (lo & 0x0Fu8) << 4u8,
    ]);
}

/// A B8G8R8A8 pixel (32 bits) stores blue, green, red, alpha: it decodes to its bytes with the
/// first and third swapped.
pub proof fn lemma_b8g8r8a8_pixel(raster: u32, data: Seq<u8>, i: int)
    requires
        raster & 0x0F00 == 0x0500,
        0 <= i,
        4 * i + 4 <= data.len(),
    ensures
        spec_uncompressed_pixel(raster, 32, data, i) == seq![
            data[4 * i + 2],
            data[4 * i + 1],
            data[4 * i],
            data[4 * i + 3],
        ],
{
    assert(bytes_per_pixel(32) == 4);
    let b = data.subrange(i * 4, i * 4 + 4);
    assert(b[0] == data[4 * i] && b[1] == data[4 * i + 1] && b[2] == data[4 * i + 2] && b[3]
        == data[4 * i + 3]);
    assert(spec_uncompressed_pixel(raster, 32, data, i) =~= seq![
        data[4 * i + 2],
        data[4 * i + 1],
        data[4 * i],
        data[4 * i + 3],
    ]);
}

/// A B8G8R8 pixel (24 bits) stores blue, green, red: it decodes to red, green, blue and full
/// opacity.
pub proof fn lemma_b8g8r8_pixel(raster: u32, data: Seq<u8>, i: int)
    requires
        raster & 0x0F00 == 0x0600,
        0 <= i,
        3 * i + 3 <= data.len(),
    ensures
        spec_uncompressed_pixel(raster, 24, data, i) == seq![
            data[3 * i + 2],
            data[3 * i + 1],
            data[3 * i],
            255u8,
        ],
{
    assert(bytes_per_pixel(24) == 3);
    let b = data.subrange(i * 3, i * 3 + 3);
    assert(b[0] == data[3 * i] && b[1] == data[3 * i + 1] && b[2] == data[3 * i + 2]);
    assert(spec_uncompressed_pixel(raster, 24, data, i) =~= seq![
        data[3 * i + 2],
        data[3 * i + 1],
        data[3 * i],
        255u8,
    ]);
}

/// A LUM8 pixel (8 bits) is a grey level: it decodes to that level in red, green and blue, and
/// full opacity.
pub proof fn lemma_lum8_pixel(raster: u32, data: Seq<u8>, i: int)
    requires
        raster & 0x0F00 == 0x0400,
        0 <= i < data.len(),
    ensures
        spec_uncompressed_pixel(raster, 8, data, i) == seq![data[i], data[i], data[i], 255u8],
{
    assert(bytes_per_pixel(8) == 1);
    assert(data.subrange(i, i + 1)[0] == data[i]);
    assert(spec_uncompressed_pixel(raster, 8, data, i) =~= seq![data[i], data[i], data[i], 255u8]);
}

/// A pixel past the end of the stored bytes is transparent black, whatever the layout.
pub proof fn lemma_pixel_past_data(raster: u32, depth: u8, data: Seq<u8>, i: int)
    requires
        0 <= i,
        depth >= 8,
        i * (depth / 8) + depth / 8 > data.len(),
    ensures
        spec_uncompressed_pixel(raster, depth, data, i) == seq![0u8, 0u8, 0u8, 0u8],
{
}

/// A stored pixel of a layout the library does not know decodes to opaque black.
pub proof fn lemma_unknown_layout_pixel(raster: u32, depth: u8, data: Seq<u8>, i: int)
    requires
        raster & 0x0F00 != 0x0100 && raster & 0x0F00 != 0x0200 && raster & 0x0F00 != 0x0300
            && raster & 0x0F00 != 0x0400 && raster & 0x0F00 != 0x0500 && raster & 0x0F00
            != 0x0600,
        0 <= i,
        depth >= 8,
        i * (depth / 8) + depth / 8 <= data.len(),
    ensures
        spec_uncompressed_pixel(raster, depth, data, i) == seq![0u8, 0u8, 0u8, 255u8],
{
}

/// The four-character codes of D3D9 headers: with bit 3 of the compression/alpha byte set, the
/// ASCII text `DXT1` (bytes 0x44 0x58 0x54 0x31) names DXT1 and `DXT3` names DXT3; with the bit
/// clear, or any other text, the texture is uncompressed. The writer stamps `DXT1` on DXT1
/// textures and `DXT3` on DXT3 ones, and DXT1 decodes with the BC1 block format, DXT3 with BC2.
pub proof fn lemma_d3d9_compression_codes(fourcc: Seq<u8>, flags: u8)
    requires
        fourcc.len() == 4,
    ensures
        flags & 8 != 0 && fourcc == seq![0x44u8, 0x58u8, 0x54u8, 0x31u8]
            ==> Compression::spec_from_d3d9(fourcc, flags) == Compression::Dxt1,
        flags & 8 != 0 && fourcc == seq![0x44u8, 0x58u8, 0x54u8, 0x33u8]
            ==> Compression::spec_from_d3d9(fourcc, flags) == Compression::Dxt3,
        flags & 8 == 0 ==> Compression::spec_from_d3d9(fourcc, flags) == Compression::Uncompressed,
        fourcc != seq![0x44u8, 0x58u8, 0x54u8, 0x31u8] && fourcc != seq![
            0x44u8,
            0x58u8,
            0x54u8,
            0x33u8,
        ] ==> Compression::spec_from_d3d9(fourcc, flags) == Compression::Uncompressed,
        spec_fourcc(Compression::Dxt1) == seq![0x44u8, 0x58u8, 0x54u8, 0x31u8],
        spec_fourcc(Compression::Dxt3) == seq![0x44u8, 0x58u8, 0x54u8, 0x33u8],
        spec_block_format(Compression::Dxt1) == BlockFormat::Bc1,
        spec_block_format(Compression::Dxt3) == BlockFormat::Bc2,
{
    let d1 = seq![0x44u8, 0x58u8, 0x54u8, 0x31u8];
    let d3 = seq![0x44u8, 0x58u8, 0x54u8, 0x33u8];
    if fourcc[0] == 0x44 && fourcc[1] == 0x58 && fourcc[2] == 0x54 {
        if fourcc[3] == 0x31 {
            assert(fourcc =~= d1);
        } else if fourcc[3] == 0x33 {
            assert(fourcc =~= d3);
        }
    }
    if fourcc == d1 {
        assert(fourcc[3] == 0x31 && fourcc[0] == 0x44 && fourcc[1] == 0x58 && fourcc[2] == 0x54);
    }
    if fourcc == d3 {
        assert(fourcc[3] == 0x33 && fourcc[0] == 0x44 && fourcc[1] == 0x58 && fourcc[2] == 0x54);
    }
}

/// Reading a D3D9 native texture at `p`: its compression comes from the four-character code at
/// bytes `p + 100 .. p + 104` and bit 3 of the compression/alpha byte at `p + 111` (`DXT1` with
/// the bit set is DXT1, `DXT3` DXT3, the bit clear none), and its alpha flag is bit 0 of that
/// byte.
pub proof fn lemma_read_d3d9_compression(s: Seq<u8>, p: int, t: TextureView)
    requires
        spec_read_texture(s, p) == Ok::<Option<TextureView>, ReadFault>(Some(t)),
        t.platform == 9,
    ensures
        s[p + 111] & 8 != 0 && s.subrange(p + 100, p + 104) == seq![0x44u8, 0x58u8, 0x54u8, 0x31u8]
            ==> t.compression == Compression::Dxt1,
        s[p + 111] & 8 != 0 && s.subrange(p + 100, p + 104) == seq![0x44u8, 0x58u8, 0x54u8, 0x33u8]
            ==> t.compression == Compression::Dxt3,
        s[p + 111] & 8 == 0 ==> t.compression == Compression::Uncompressed,
        t.has_alpha == (s[p + 111] & 1 != 0),
{
    let q = p + 12;
    let r = q + 12;
    assert(spec_read_texture_struct(s, q) == Ok::<Option<TextureView>, ReadFault>(Some(t)));
    assert(spec_read_texture_fields(s, r) == Ok::<Option<TextureView>, ReadFault>(Some(t)));
    assert(spec_u32_at(s, r) == t.platform);
    lemma_d3d9_compression_codes(s.subrange(r + 76, r + 80), s[r + 83]);
}

/// Writing a native texture: the four bytes after the 76-byte texture record prefix (bytes
/// `100 .. 104` of the chunk) and the compression/alpha byte (byte 111) say what the texture is.
/// For D3D9: `DXT1` for DXT1, `DXT3` for DXT3, and for an uncompressed texture 0x15 with alpha,
/// 0x16 without; bit 3 of byte 111 is set exactly for compressed textures and bit 0 exactly for
/// textures with alpha. For D3D8: the alpha flag as a 32-bit 1 or 0, and byte 111 holds 0, 1 or 3
/// for no compression, DXT1 and DXT3.
pub proof fn lemma_written_compression_fields(t: TextureView, version: u32)
    ensures
        ({
            let w = spec_texture_native(t, version);
            let a = w.subrange(100, 104);
            let c = w[111];
            &&& w.len() >= 112
            &&& t.platform == 9 && t.compression == Compression::Dxt1 ==> a == seq![
                0x44u8,
                0x58u8,
                0x54u8,
                0x31u8,
            ]
            &&& t.platform == 9 && t.compression == Compression::Dxt3 ==> a == seq![
                0x44u8,
                0x58u8,
                0x54u8,
                0x33u8,
            ]
            &&& t.platform == 9 && t.compression == Compression::Uncompressed ==> a == seq![
                if t.has_alpha { 0x15u8 } else { 0x16u8 },
                0u8,
                0u8,
                0u8,
            ]
            &&& t.platform == 9 ==> (c & 8 != 0) == !(t.compression is Uncompressed) && (c & 1
                != 0) == t.has_alpha
            &&& t.platform == 8 ==> a == seq![if t.has_alpha { 1u8 } else { 0u8 }, 0u8, 0u8, 0u8]
            &&& t.platform == 8 ==> c == (if t.compression == Compression::Dxt1 {
                1u8
            } else if t.compression == Compression::Dxt3 {
                3u8
            } else {
                0u8
            })
        }),
{
    reveal(spec_texture_native);
    let body = spec_struct_body(t);
    let prefix = spec_prefix(t);
    let alpha = spec_alpha_field(t);
    let tail = spec_tail(t);
    let sc = spec_chunk(chunk_type::STRUCT, version, body);
    let ec = spec_chunk(chunk_type::EXTENSION, version, Seq::empty());
    let w = spec_texture_native(t, version);
    assert(prefix.len() == 76);
    assert(alpha.len() == 4);
    assert(tail.len() == 8);
    assert(spec_header_bytes(ChunkHeader { chunk_type: 0, length: 0, version: 0 }).len() == 12);
    assert(w == spec_header_bytes(
        ChunkHeader { chunk_type: chunk_type::TEXTURE_NATIVE, length: (sc + ec).len() as u32, version },
    ) + (sc + ec));
    assert(sc == spec_header_bytes(
        ChunkHeader { chunk_type: chunk_type::STRUCT, length: body.len() as u32, version },
    ) + body);
    assert(body == prefix + alpha + tail + spec_palette_field(t) + spec_mipmaps_bytes(t.mipmaps));
    assert forall|j: int| 0 <= j < 4 implies w[100 + j] == alpha[j] by {
        assert(w[100 + j] == (sc + ec)[88 + j]);
        assert(sc[88 + j] == body[76 + j]);
    }
    assert(w.subrange(100, 104) =~= alpha);
    assert(w[111] == (sc + ec)[99]);
    assert(sc[99] == body[87]);
    assert(body[87] == tail[7]);
    assert(tail[7] == spec_compression_or_alpha(t));
    let comp = !(t.compression is Uncompressed);
    let al = t.has_alpha;
    assert(((if comp { 8u8 } else { 0u8 }) | (if al { 1u8 } else { 0u8 })) & 8 != 0 <==> comp)
        by (bit_vector);
    assert((((if comp { 8u8 } else { 0u8 }) | (if al { 1u8 } else { 0u8 })) & 1 != 0) == al)
        by (bit_vector);
    if t.platform == 8 {
        assert(spec_u32_le(1u32) =~= seq![1u8, 0u8, 0u8, 0u8]);
        assert(spec_u32_le(0u32) =~= seq![0u8, 0u8, 0u8, 0u8]);
    } else if t.compression is Uncompressed {
        assert(spec_u32_le(0x15u32) =~= seq![0x15u8, 0u8, 0u8, 0u8]);
        assert(spec_u32_le(0x16u32) =~= seq![0x16u8, 0u8, 0u8, 0u8]);
    }
}

/// `p` and `q` are the same byte but for the case of an ASCII letter.
proof fn lemma_ascii_lower_eq(p: u8, q: u8)
    ensures
        (ascii_lower(p) == ascii_lower(q)) == (p == q || (65 <= p <= 90 && q == p + 32) || (65 <= q
            <= 90 && p == q + 32)),
{
}

/// Names are compared as UTF-8 bytes: two names match exactly when they have the same number
/// of bytes and each byte is equal to the other's or is the same ASCII letter in the other case.
/// So matching is reflexive and symmetric, and a name never matches a longer or shorter one.
pub proof fn lemma_names_match_meaning(a: Seq<char>, b: Seq<char>)
    ensures
        names_match(a, b) <==> ({
            let x = encode_utf8(a);
            let y = encode_utf8(b);
            &&& x.len() == y.len()
            &&& forall|i: int|
                0 <= i < x.len() ==> (#[trigger] x[i] == y[i] || (65 <= x[i] <= 90 && y[i] == x[i]
                    + 32) || (65 <= y[i] <= 90 && x[i] == y[i] + 32))
        }),
        names_match(a, a),
        names_match(a, b) ==> names_match(b, a),
        names_match(a, b) ==> encode_utf8(a).len() == encode_utf8(b).len(),
{
    let x = encode_utf8(a);
    let y = encode_utf8(b);
    assert forall|i: int| 0 <= i < x.len() && i < y.len() implies (ascii_lower(x[i]) == ascii_lower(
        y[i])) == (x[i] == y[i] || (65 <= x[i] <= 90 && y[i] == x[i] + 32) || (65 <= y[i] <= 90
        && x[i] == y[i] + 32)) by {
        lemma_ascii_lower_eq(x[i], y[i]);
    }
    if names_match(a, b) {
        assert forall|i: int| 0 <= i < y.len() implies ascii_lower(#[trigger] y[i]) == ascii_lower(
            x[i]) by {
            assert(ascii_lower(x[i]) == ascii_lower(y[i]));
        }
    }
}

/// Lookup by name finds the last match: the index it gives (-1 for none) names a texture whose
/// name matches, and no later texture's name matches; -1 means no texture's name matches. A
/// found texture's name has as many UTF-8 bytes as the name looked up.
pub proof fn lemma_last_match_meaning(ts: Seq<TextureView>, name: Seq<char>)
    ensures
        -1 <= spec_last_match(ts, name) < ts.len(),
        spec_last_match(ts, name) >= 0 ==> names_match(ts[spec_last_match(ts, name)].name, name)
            && encode_utf8(ts[spec_last_match(ts, name)].name).len() == encode_utf8(name).len(),
        forall|j: int|
            spec_last_match(ts, name) < j < ts.len() ==> !names_match(#[trigger] ts[j].name, name),
    decreases ts.len(),
{
    if ts.len() > 0 {
        let d = ts.drop_last();
        lemma_last_match_meaning(d, name);
        if !names_match(ts.last().name, name) {
            assert forall|j: int| spec_last_match(ts, name) < j < ts.len() implies !names_match(
                #[trigger] ts[j].name,
                name,
            ) by {
                if j < ts.len() - 1 {
                    assert(ts[j] == d[j]);
                }
            }
            if spec_last_match(ts, name) >= 0 {
                assert(ts[spec_last_match(ts, name)] == d[spec_last_match(d, name)]);
            }
        }
        if spec_last_match(ts, name) >= 0 {
            lemma_names_match_meaning(ts[spec_last_match(ts, name)].name, name);
        }
    }
}

/// The game a version names: 0x302, 0x304 and 0x310 name the first GTA III releases, 0x0800FFFF
/// the later GTA III, 0x1003FFFF Vice City on PC and 0x1803FFFF San Andreas. 0x0C02FFFF, shared by
/// GTA III and the PS2 edition of Vice City, names the latter exactly when some texture is a PS2
/// one (platform 4 or the code `PS2\0`) and none is Direct3D (platform 8 or 9), else GTA III.
/// Every other version is unknown.
pub proof fn lemma_game_version_meaning(version: u32, ts: Seq<TextureView>)
    ensures
        ({
            let g = spec_detect_game_version(version, ts);
            &&& version == 0x302 || version == 0x304 || version == 0x310 ==> g == GameVersion::Gta3V1
            &&& version == 0x0800_FFFF ==> g == GameVersion::Gta3V4
            &&& version == 0x1003_FFFF ==> g == GameVersion::VcPc
            &&& version == 0x1803_FFFF ==> g == GameVersion::Sa
            &&& version == 0x0C02_FFFF ==> (g == GameVersion::VcPs2 <==> (exists|i: int|
                0 <= i < ts.len() && (#[trigger] ts[i].platform == 4 || ts[i].platform
                    == 0x0032_5350)) && (forall|i: int|
                0 <= i < ts.len() ==> #[trigger] ts[i].platform != 8 && ts[i].platform != 9))
            &&& version == 0x0C02_FFFF && g != GameVersion::VcPs2 ==> g == GameVersion::Gta3V4
            &&& version != 0x302 && version != 0x304 && version != 0x310 && version != 0x0800_FFFF
                && version != 0x0C02_FFFF && version != 0x1003_FFFF && version != 0x1803_FFFF
                ==> g == GameVersion::Unknown
        }),
{
}

/// A texture built from an image has alpha exactly when some pixel of the image is not fully
/// opaque: pixel `i`'s alpha byte `4 * i + 3` is below 255.
pub proof fn lemma_from_rgba_alpha(
    name: Seq<char>,
    v: ImageView,
    options: TextureCreateOptions,
    levels: Seq<ImageView>,
)
    ensures
        spec_from_rgba(name, v, options, levels).has_alpha <==> exists|i: int|
            0 <= i < v.width * v.height && #[trigger] v.data[4 * i + 3] < 255,
        forall|i: int|
            0 <= i < v.width * v.height && #[trigger] v.data[4 * i + 3] < 255 ==> spec_from_rgba(
                name,
                v,
                options,
                levels,
            ).has_alpha,
{
}

} // verus!
