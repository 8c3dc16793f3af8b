//! What is written can be read back: the laws that tie the writers to the readers.

use crate::bytes::{
    has_bytes, lemma_u16_at_window, lemma_u16_le_decode, lemma_u32_at_window, lemma_u32_le_decode,
    spec_u16_at, spec_u16_le, spec_u32_at, spec_u32_le, zeros,
};
use crate::error::ReadFault;
use crate::texture::{
    prepend_read, spec_alpha_field, spec_base_size, spec_compression_or_alpha,
    spec_d3d8_compression, spec_fourcc, spec_mipmaps_bytes, spec_name_field, spec_name_from_field,
    spec_name_len, spec_palette_field, spec_palette_size, spec_prefix, spec_read_mipmaps,
    spec_read_texture, spec_read_texture_fields, spec_struct_body, spec_tail,
    spec_texture_native, lemma_name_len, spec_lossy_utf8, MipmapView, TextureView,
};
use crate::dictionary::{
    spec_detect_game_version, spec_dictionary_bytes, spec_read_children, spec_read_dictionary,
    spec_textures_bytes, TextureDictionaryView,
};
use crate::types::chunk_type;
use crate::types::platform;
use crate::types::{lemma_header_at, spec_chunk, spec_header_at, spec_header_bytes, ChunkHeader, Compression};
use vstd::prelude::*;
use vstd::utf8::{decode_utf8, encode_utf8, encode_utf8_decode_utf8, encode_utf8_valid_utf8};

verus! {

/// The bytes `b` stand at position `p` of `s`.
#[verifier::opaque]
pub open spec fn stands_at(s: Seq<u8>, p: int, b: Seq<u8>) -> bool {
    &&& 0 <= p
    &&& p + b.len() <= s.len()
    &&& s.subrange(p, p + b.len()) == b
}

proof fn lemma_stands_subrange(s: Seq<u8>, p: int, b: Seq<u8>)
    requires
        stands_at(s, p, b),
    ensures
        0 <= p,
        p + b.len() <= s.len(),
        s.subrange(p, p + b.len()) == b,
{
    reveal(stands_at);
}

proof fn lemma_stands_split(s: Seq<u8>, p: int, x: Seq<u8>, y: Seq<u8>)
    requires
        stands_at(s, p, x + y),
    ensures
        stands_at(s, p, x),
        stands_at(s, p + x.len(), y),
{
    reveal(stands_at);
    let n = (x + y).len();
    assert forall|i: int| 0 <= i < x.len() implies s[p + i] == x[i] by {
        assert(s.subrange(p, p + n)[i] == (x + y)[i]);
    }
    assert forall|i: int| 0 <= i < y.len() implies s[p + x.len() + i] == y[i] by {
        assert(s.subrange(p, p + n)[x.len() + i] == (x + y)[x.len() + i]);
    }
    assert(s.subrange(p, p + x.len()) =~= x);
    assert(s.subrange(p + x.len(), p + x.len() + y.len()) =~= y);
}

proof fn lemma_stands_join(s: Seq<u8>, p: int, x: Seq<u8>, y: Seq<u8>)
    requires
        stands_at(s, p, x),
        stands_at(s, p + x.len(), y),
    ensures
        stands_at(s, p, x + y),
{
    reveal(stands_at);
    assert forall|i: int| 0 <= i < x.len() implies s[p + i] == x[i] by {
        assert(s.subrange(p, p + x.len())[i] == x[i]);
    }
    assert forall|i: int| 0 <= i < y.len() implies s[p + x.len() + i] == y[i] by {
        assert(s.subrange(p + x.len(), p + x.len() + y.len())[i] == y[i]);
    }
    assert(s.subrange(p, p + (x + y).len()) =~= x + y);
}

proof fn lemma_stands_whole(s: Seq<u8>)
    ensures
        stands_at(s, 0, s),
{
    reveal(stands_at);
    assert(s.subrange(0, s.len() as int) =~= s);
}

proof fn lemma_stands_byte(s: Seq<u8>, p: int, b: Seq<u8>, i: int)
    requires
        stands_at(s, p, b),
        0 <= i < b.len(),
    ensures
        s[p + i] == b[i],
{
    reveal(stands_at);
    assert(s.subrange(p, p + b.len())[i] == b[i]);
}

proof fn lemma_stands_u32(s: Seq<u8>, p: int, v: u32)
    requires
        stands_at(s, p, spec_u32_le(v)),
    ensures
        has_bytes(s, p, 4),
        spec_u32_at(s, p) == v,
{
    reveal(stands_at);
    lemma_u32_le_decode(v);
    assert(spec_u32_le(v).subrange(0, 4) =~= spec_u32_le(v));
    lemma_u32_at_window(s, p, spec_u32_le(v), 0);
}

proof fn lemma_stands_u16(s: Seq<u8>, p: int, v: u16)
    requires
        stands_at(s, p, spec_u16_le(v)),
    ensures
        has_bytes(s, p, 2),
        spec_u16_at(s, p) == v,
{
    reveal(stands_at);
    lemma_u16_le_decode(v);
    assert(spec_u16_le(v).subrange(0, 2) =~= spec_u16_le(v));
    lemma_u16_at_window(s, p, spec_u16_le(v), 0);
}

pub(crate) proof fn lemma_stands_header(s: Seq<u8>, p: int, chunk_type: u32, version: u32, body: Seq<u8>)
    requires
        stands_at(s, p, spec_chunk(chunk_type, version, body)),
        body.len() <= 0xFFFF_FFFF,
    ensures
        spec_header_at(s, p) == Some(
            ChunkHeader { chunk_type, length: body.len() as u32, version },
        ),
        stands_at(s, p + 12, body),
{
    let h = ChunkHeader { chunk_type, length: body.len() as u32, version };
    lemma_stands_split(s, p, spec_header_bytes(h), body);
    lemma_stands_subrange(s, p, spec_header_bytes(h));
    lemma_header_at(s, p, h);
}

// ---------------------------------------------------------------------------------------------
// Names.

/// A name that a 32-byte field stores as it stands: at most 31 UTF-8 bytes, none of them zero.
pub open spec fn name_fits(name: Seq<char>) -> bool {
    &&& encode_utf8(name).len() <= 31
    &&& forall|i: int| 0 <= i < encode_utf8(name).len() ==> #[trigger] encode_utf8(name)[i] != 0
}

proof fn lemma_name_field_len(name: Seq<char>)
    ensures
        spec_name_field(name).len() == 32,
{
}

/// A name that fits is read back from its field.
pub proof fn lemma_name_round_trip(name: Seq<char>)
    requires
        name_fits(name),
    ensures
        spec_name_from_field(spec_name_field(name)) == name,
{
    let b = encode_utf8(name);
    let f = spec_name_field(name);
    assert(b.take(b.len() as int) =~= b);
    assert forall|j: int| 0 <= j < b.len() implies f[j] != 0 by {
        assert(f[j] == b[j]);
    }
    assert(f[b.len() as int] == 0);
    lemma_name_len(f, b.len() as int);
    assert(f.take(b.len() as int) =~= b);
    encode_utf8_valid_utf8(name);
    encode_utf8_decode_utf8(name);
}

// ---------------------------------------------------------------------------------------------
// Mipmaps.

/// Mipmap levels that read back as they are: at most 255, the first at most 65535 x 65535, each
/// of at most 2^32 - 1 bytes, 0 x 0 when empty, and otherwise the size that halving the level
/// before gives.
pub open spec fn mipmap_chain_fits(ms: Seq<MipmapView>, c: Compression) -> bool {
    &&& ms.len() <= 255
    &&& ms.len() > 0 ==> ms[0].width <= 0xFFFF && ms[0].height <= 0xFFFF
    &&& forall|i: int| 0 <= i < ms.len() ==> (#[trigger] ms[i]).data.len() <= 0xFFFF_FFFF
    &&& forall|i: int|
        0 <= i < ms.len() && (#[trigger] ms[i]).data.len() == 0 ==> ms[i].width == 0
            && ms[i].height == 0
    &&& forall|i: int|
        0 < i < ms.len() && (#[trigger] ms[i]).data.len() > 0 ==> ms[i].width
            == c.spec_next_mipmap_dimension(ms[i - 1].width) && ms[i].height
            == c.spec_next_mipmap_dimension(ms[i - 1].height)
}

proof fn lemma_mipmaps_bytes_prepend(m: MipmapView, rest: Seq<MipmapView>)
    ensures
        spec_mipmaps_bytes(seq![m] + rest) == spec_u32_le(m.data.len() as u32) + m.data
            + spec_mipmaps_bytes(rest),
    decreases rest.len(),
{
    if rest.len() == 0 {
        assert((seq![m] + rest).drop_last() =~= Seq::<MipmapView>::empty());
        assert((seq![m] + rest).last() == m);
        assert(rest =~= Seq::<MipmapView>::empty());
        assert(spec_mipmaps_bytes(Seq::<MipmapView>::empty()) == Seq::<u8>::empty());
        assert(spec_mipmaps_bytes(seq![m] + rest) == spec_mipmaps_bytes(Seq::<MipmapView>::empty())
            + spec_u32_le(m.data.len() as u32) + m.data);
        assert(spec_mipmaps_bytes(seq![m] + rest) =~= spec_u32_le(m.data.len() as u32) + m.data
            + spec_mipmaps_bytes(rest));
    } else {
        lemma_mipmaps_bytes_prepend(m, rest.drop_last());
        let all = seq![m] + rest;
        assert(all.drop_last() =~= seq![m] + rest.drop_last());
        assert(all.last() == rest.last());
        let l = rest.last();
        assert(spec_mipmaps_bytes(all) == spec_mipmaps_bytes(all.drop_last()) + spec_u32_le(
            l.data.len() as u32,
        ) + l.data);
        assert(spec_mipmaps_bytes(rest) == spec_mipmaps_bytes(rest.drop_last()) + spec_u32_le(
            l.data.len() as u32,
        ) + l.data);
        assert(spec_mipmaps_bytes(seq![m] + rest) =~= spec_u32_le(m.data.len() as u32) + m.data
            + spec_mipmaps_bytes(rest));
    }
}

proof fn lemma_read_mipmaps(
    s: Seq<u8>,
    p: int,
    all: Seq<MipmapView>,
    level: nat,
    width: u32,
    height: u32,
    c: Compression,
)
    requires
        mipmap_chain_fits(all, c),
        level <= all.len(),
        stands_at(s, p, spec_mipmaps_bytes(all.subrange(level as int, all.len() as int))),
        level == 0 && all.len() > 0 ==> width == all[0].width && height == all[0].height,
        level > 0 ==> width == all[level - 1].width && height == all[level - 1].height,
    ensures
        spec_read_mipmaps(s, p, width, height, all.len(), level, c) == Ok::<
            Seq<MipmapView>,
            ReadFault,
        >(all.subrange(level as int, all.len() as int)),
    decreases all.len() - level,
{
    let n = all.len() as int;
    if level < all.len() {
        let m = all[level as int];
        let rest = all.subrange(level + 1int, n);
        assert(all.subrange(level as int, n) =~= seq![m] + rest);
        lemma_mipmaps_bytes_prepend(m, rest);
        let size_bytes = spec_u32_le(m.data.len() as u32);
        lemma_stands_split(s, p, size_bytes + m.data, spec_mipmaps_bytes(rest));
        lemma_stands_split(s, p, size_bytes, m.data);
        lemma_stands_u32(s, p, m.data.len() as u32);
        assert(m.data.len() <= 0xFFFF_FFFF);
        let size = spec_u32_at(s, p);
        assert(size == m.data.len());
        lemma_stands_subrange(s, p + 4, m.data);
        assert(s.subrange(p + 4, p + 4 + size) == m.data);
        lemma_read_mipmaps(s, p + 4 + size, all, level + 1, m.width, m.height, c);
        let w1 = if level > 0 {
            c.spec_next_mipmap_dimension(width)
        } else {
            width
        };
        let h1 = if level > 0 {
            c.spec_next_mipmap_dimension(height)
        } else {
            height
        };
        let w2: u32 = if size == 0 {
            0
        } else {
            w1
        };
        let h2: u32 = if size == 0 {
            0
        } else {
            h1
        };
        assert(w2 == m.width && h2 == m.height);
        let mv = MipmapView { width: w2, height: h2, data: s.subrange(p + 4, p + 4 + size) };
        assert(mv == m);
        assert(seq![mv] + rest =~= all.subrange(level as int, n));
    } else {
        assert(all.subrange(level as int, n) =~= Seq::<MipmapView>::empty());
    }
}

// ---------------------------------------------------------------------------------------------
// Textures.

/// A texture that reads back exactly as it is written: a Direct3D platform, names that fit
/// their fields, a consistent mipmap chain, and exactly the palette its raster format calls for.
pub open spec fn texture_round_trips(t: TextureView) -> bool {
    &&& t.platform == platform::D3D8 || t.platform == platform::D3D9
    &&& name_fits(t.name)
    &&& name_fits(t.mask_name)
    &&& mipmap_chain_fits(t.mipmaps, t.compression)
    &&& t.palette_size == spec_palette_size(t.raster_format)
    &&& t.palette.len() == t.palette_size * 4
}

proof fn lemma_alpha_bits(compressed: bool, alpha: bool)
    ensures
        ({
            let coa = (if compressed { 8u8 } else { 0u8 }) | (if alpha { 1u8 } else { 0u8 });
            &&& (coa & 1 != 0) == alpha
            &&& (coa & 8 == 0) == !compressed
        }),
{
    let x: u8 = if compressed { 8u8 } else { 0u8 };
    let y: u8 = if alpha { 1u8 } else { 0u8 };
    assert(((x | y) & 1 != 0) == (y == 1) && ((x | y) & 8 == 0) == (x == 0)) by (bit_vector)
        requires
            x == 0 || x == 8,
            y == 0 || y == 1,
    ;
}

proof fn lemma_prefix_fields(t: TextureView, s: Seq<u8>, r: int)
    requires
        name_fits(t.name),
        name_fits(t.mask_name),
        stands_at(s, r, spec_prefix(t)),
    ensures
        has_bytes(s, r, 76),
        spec_u32_at(s, r) == t.platform,
        spec_u32_at(s, r + 4) == t.filter_flags,
        spec_u32_at(s, r + 72) == t.raster_format,
        spec_name_from_field(s.subrange(r + 8, r + 40)) == t.name,
        spec_name_from_field(s.subrange(r + 40, r + 72)) == t.mask_name,
{
    let name_f = spec_name_field(t.name);
    let mask_f = spec_name_field(t.mask_name);
    lemma_name_field_len(t.name);
    lemma_name_field_len(t.mask_name);
    let p4 = spec_u32_le(t.platform) + spec_u32_le(t.filter_flags);
    lemma_stands_split(s, r, p4 + name_f + mask_f, spec_u32_le(t.raster_format));
    lemma_stands_split(s, r, p4 + name_f, mask_f);
    lemma_stands_split(s, r, p4, name_f);
    lemma_stands_split(s, r, spec_u32_le(t.platform), spec_u32_le(t.filter_flags));
    lemma_stands_u32(s, r, t.platform);
    lemma_stands_u32(s, r + 4, t.filter_flags);
    lemma_stands_u32(s, r + 72, t.raster_format);
    lemma_name_round_trip(t.name);
    lemma_name_round_trip(t.mask_name);
    lemma_stands_subrange(s, r + 8, name_f);
    lemma_stands_subrange(s, r + 40, mask_f);
}

proof fn lemma_alpha_tail_fields(t: TextureView, s: Seq<u8>, a: int)
    requires
        texture_round_trips(t),
        stands_at(s, a, spec_alpha_field(t)),
        stands_at(s, a + 4, spec_tail(t)),
    ensures
        has_bytes(s, a, 4),
        has_bytes(s, a + 4, 8),
        (if t.platform == platform::D3D9 {
            s[a + 4 + 7] & 1 != 0
        } else {
            spec_u32_at(s, a) == 1
        }) == t.has_alpha,
        (if t.platform == platform::D3D9 {
            Compression::spec_from_d3d9(s.subrange(a, a + 4), s[a + 4 + 7])
        } else {
            spec_d3d8_compression(s[a + 4 + 7])
        }) == t.compression,
        s[a + 4 + 4] == t.depth,
        s[a + 4 + 5] as nat == t.mipmaps.len(),
        t.mipmaps.len() > 0 ==> spec_u16_at(s, a + 4) as u32 == t.mipmaps[0].width
            && spec_u16_at(s, a + 4 + 2) as u32 == t.mipmaps[0].height,
{
    let tt = a + 4;
    let (w, h) = spec_base_size(t);
    let last4 = seq![t.depth, t.mipmaps.len() as u8, 4u8, spec_compression_or_alpha(t)];
    lemma_stands_split(s, tt, spec_u16_le(w as u16) + spec_u16_le(h as u16), last4);
    lemma_stands_split(s, tt, spec_u16_le(w as u16), spec_u16_le(h as u16));
    lemma_stands_u16(s, tt, w as u16);
    lemma_stands_u16(s, tt + 2, h as u16);
    lemma_stands_byte(s, tt + 4, last4, 0);
    lemma_stands_byte(s, tt + 4, last4, 1);
    lemma_stands_byte(s, tt + 4, last4, 3);
    let coa = s[tt + 7];
    assert(coa == spec_compression_or_alpha(t));
    lemma_stands_subrange(s, tt, spec_tail(t));
    assert(spec_tail(t).len() == 8);
    if t.platform == platform::D3D8 {
        lemma_stands_u32(s, a, if t.has_alpha { 1u32 } else { 0u32 });
    } else {
        lemma_alpha_bits(!(t.compression is Uncompressed), t.has_alpha);
        if t.compression is Uncompressed {
            lemma_stands_u32(s, a, if t.has_alpha { 0x15u32 } else { 0x16u32 });
        } else {
            lemma_stands_subrange(s, a, spec_fourcc(t.compression));
        }
    }
}

proof fn lemma_fields_assemble(t: TextureView, s: Seq<u8>, r: int)
    requires
        has_bytes(s, r, 76),
        spec_u32_at(s, r) == t.platform,
        spec_u32_at(s, r + 4) == t.filter_flags,
        spec_u32_at(s, r + 72) == t.raster_format,
        spec_name_from_field(s.subrange(r + 8, r + 40)) == t.name,
        spec_name_from_field(s.subrange(r + 40, r + 72)) == t.mask_name,
        has_bytes(s, r + 76, 4),
        has_bytes(s, r + 80, 8),
        (if t.platform == platform::D3D9 {
            s[r + 80 + 7] & 1 != 0
        } else {
            spec_u32_at(s, r + 76) == 1
        }) == t.has_alpha,
        (if t.platform == platform::D3D9 {
            Compression::spec_from_d3d9(s.subrange(r + 76, r + 80), s[r + 80 + 7])
        } else {
            spec_d3d8_compression(s[r + 80 + 7])
        }) == t.compression,
        s[r + 80 + 4] == t.depth,
        t.palette_size == spec_palette_size(t.raster_format),
        t.palette.len() == t.palette_size * 4,
        has_bytes(s, r + 88, t.palette_size * 4),
        s.subrange(r + 88, r + 88 + t.palette_size * 4) == t.palette,
        spec_read_mipmaps(
            s,
            r + 88 + t.palette_size * 4,
            spec_u16_at(s, r + 80) as u32,
            spec_u16_at(s, r + 80 + 2) as u32,
            s[r + 80 + 5] as nat,
            0,
            t.compression,
        ) == Ok::<Seq<MipmapView>, ReadFault>(t.mipmaps),
    ensures
        spec_read_texture_fields(s, r) == Ok::<Option<TextureView>, ReadFault>(Some(t)),
{
}

proof fn lemma_body_lens(t: TextureView)
    ensures
        spec_prefix(t).len() == 76,
        spec_alpha_field(t).len() == 4,
        spec_tail(t).len() == 8,
{
    lemma_name_field_len(t.name);
    lemma_name_field_len(t.mask_name);
}

proof fn lemma_fields_round_trip(t: TextureView, s: Seq<u8>, r: int)
    requires
        texture_round_trips(t),
        stands_at(s, r, spec_struct_body(t)),
    ensures
        has_bytes(s, r, 76),
        spec_u32_at(s, r) == t.platform,
        spec_read_texture_fields(s, r) == Ok::<Option<TextureView>, ReadFault>(Some(t)),
{
    let prefix = spec_prefix(t);
    let alpha = spec_alpha_field(t);
    let tail = spec_tail(t);
    let pal = spec_palette_field(t);
    let mips = spec_mipmaps_bytes(t.mipmaps);
    lemma_body_lens(t);
    lemma_stands_split(s, r, prefix + alpha + tail + pal, mips);
    lemma_stands_split(s, r, prefix + alpha + tail, pal);
    lemma_stands_split(s, r, prefix + alpha, tail);
    lemma_stands_split(s, r, prefix, alpha);
    lemma_prefix_fields(t, s, r);
    let a = r + 76;
    let tt = a + 4;
    lemma_alpha_tail_fields(t, s, a);
    let pstart = tt + 8;
    let mstart = pstart + t.palette_size * 4;
    lemma_stands_subrange(s, pstart, pal);
    assert(pal == t.palette);
    assert(t.mipmaps.subrange(0, t.mipmaps.len() as int) =~= t.mipmaps);
    lemma_read_mipmaps(
        s,
        mstart,
        t.mipmaps,
        0,
        spec_u16_at(s, tt) as u32,
        spec_u16_at(s, tt + 2) as u32,
        t.compression,
    );
    lemma_fields_assemble(t, s, r);
}

/// A texture that fits the format is read back, unchanged, from the native chunk written for
/// it (at any position of any input that holds that chunk).
pub proof fn lemma_texture_round_trip(t: TextureView, version: u32, s: Seq<u8>, p: int)
    requires
        texture_round_trips(t),
        spec_texture_native(t, version).len() <= 0xFFFF_FFFF + 12,
        stands_at(s, p, spec_texture_native(t, version)),
    ensures
        spec_read_texture(s, p) == Ok::<Option<TextureView>, ReadFault>(Some(t)),
{
    reveal(spec_texture_native);
    let body = spec_struct_body(t);
    let sc = spec_chunk(chunk_type::STRUCT, version, body);
    let ec = spec_chunk(chunk_type::EXTENSION, version, Seq::empty());
    lemma_stands_header(s, p, chunk_type::TEXTURE_NATIVE, version, sc + ec);
    lemma_stands_split(s, p + 12, sc, ec);
    lemma_stands_header(s, p + 12, chunk_type::STRUCT, version, body);
    lemma_fields_round_trip(t, s, p + 24);
}

// ---------------------------------------------------------------------------------------------
// Dictionaries.

/// A dictionary that reads back exactly as it is written: every texture fits the format, the
/// game version is the one its version names, and the whole fits the 32-bit length fields.
pub open spec fn dictionary_round_trips(d: TextureDictionaryView) -> bool {
    &&& forall|i: int| 0 <= i < d.textures.len() ==> texture_round_trips(#[trigger] d.textures[i])
    &&& d.game_version == spec_detect_game_version(d.version, d.textures)
    &&& spec_dictionary_bytes(d).len() <= 0xFFFF_FFFF + 12
}

proof fn lemma_textures_bytes_prepend(t: TextureView, rest: Seq<TextureView>, version: u32)
    ensures
        spec_textures_bytes(seq![t] + rest, version) == spec_texture_native(t, version)
            + spec_textures_bytes(rest, version),
    decreases rest.len(),
{
    let all = seq![t] + rest;
    if rest.len() == 0 {
        assert(all.drop_last() =~= Seq::<TextureView>::empty());
        assert(all.last() == t);
        assert(rest =~= Seq::<TextureView>::empty());
        assert(spec_textures_bytes(Seq::<TextureView>::empty(), version) == Seq::<u8>::empty());
        assert(spec_textures_bytes(all, version) =~= spec_texture_native(t, version)
            + spec_textures_bytes(rest, version));
    } else {
        lemma_textures_bytes_prepend(t, rest.drop_last(), version);
        assert(all.drop_last() =~= seq![t] + rest.drop_last());
        assert(all.last() == rest.last());
        assert(spec_textures_bytes(all, version) =~= spec_texture_native(t, version)
            + spec_textures_bytes(rest, version));
    }
}

proof fn lemma_read_child(s: Seq<u8>, pos: int, end: int, t: TextureView, version: u32)
    requires
        texture_round_trips(t),
        spec_texture_native(t, version).len() <= 0xFFFF_FFFF + 12,
        stands_at(s, pos, spec_texture_native(t, version)),
        pos < end,
    ensures
        spec_read_children(s, pos, end) == prepend_read(
            seq![t],
            spec_read_children(s, pos + spec_texture_native(t, version).len(), end),
        ),
{
    reveal(spec_texture_native);
    let body = spec_chunk(chunk_type::STRUCT, version, spec_struct_body(t)) + spec_chunk(
        chunk_type::EXTENSION,
        version,
        Seq::empty(),
    );
    lemma_stands_header(s, pos, chunk_type::TEXTURE_NATIVE, version, body);
    lemma_texture_round_trip(t, version, s, pos);
}

proof fn lemma_read_children(s: Seq<u8>, pos: int, ts: Seq<TextureView>, version: u32)
    requires
        forall|i: int| 0 <= i < ts.len() ==> texture_round_trips(#[trigger] ts[i]),
        spec_textures_bytes(ts, version).len() <= 0xFFFF_FFFF + 12,
        stands_at(
            s,
            pos,
            spec_textures_bytes(ts, version) + spec_chunk(
                chunk_type::EXTENSION,
                version,
                Seq::empty(),
            ),
        ),
    ensures
        spec_read_children(s, pos, pos + spec_textures_bytes(ts, version).len() + 12) == Ok::<
            Seq<TextureView>,
            ReadFault,
        >(ts),
    decreases ts.len(),
{
    let ext = spec_chunk(chunk_type::EXTENSION, version, Seq::<u8>::empty());
    let tb = spec_textures_bytes(ts, version);
    let end = pos + tb.len() + 12;
    lemma_stands_split(s, pos, tb, ext);
    if ts.len() == 0 {
        assert(tb.len() == 0);
        lemma_stands_header(s, pos, chunk_type::EXTENSION, version, Seq::<u8>::empty());
        assert(spec_read_children(s, pos + 12, end) == Ok::<Seq<TextureView>, ReadFault>(
            Seq::empty(),
        ));
        assert(ts =~= Seq::<TextureView>::empty());
    } else {
        let t = ts[0];
        let rest = ts.drop_first();
        assert(ts =~= seq![t] + rest);
        lemma_textures_bytes_prepend(t, rest, version);
        let native = spec_texture_native(t, version);
        let rb = spec_textures_bytes(rest, version);
        lemma_stands_split(s, pos, native, rb);
        lemma_stands_join(s, pos + native.len(), rb, ext);
        assert forall|i: int| 0 <= i < rest.len() implies texture_round_trips(#[trigger] rest[i]) by {
            assert(rest[i] == ts[i + 1]);
        }
        lemma_read_children(s, pos + native.len(), rest, version);
        assert(texture_round_trips(ts[0]));
        lemma_read_child(s, pos, end, t, version);
        assert(pos + native.len() + rb.len() + 12 == end);
    }
}

proof fn lemma_skip_child(s: Seq<u8>, pos: int, end: int, ty: u32, version: u32, body: Seq<u8>)
    requires
        stands_at(s, pos, spec_chunk(ty, version, body)),
        ty != chunk_type::TEXTURE_NATIVE,
        body.len() <= 0xFFFF_FFFF,
        pos < end,
    ensures
        spec_read_children(s, pos, end) == spec_read_children(s, pos + 12 + body.len(), end),
{
    lemma_stands_header(s, pos, ty, version, body);
}

proof fn lemma_read_dictionary_at(d: TextureDictionaryView, s: Seq<u8>)
    requires
        dictionary_round_trips(d),
        stands_at(s, 0, spec_dictionary_bytes(d)),
    ensures
        spec_read_dictionary(s) == Ok::<TextureDictionaryView, ReadFault>(d),
{
    let v = d.version;
    let count = spec_u16_le(d.textures.len() as u16) + spec_u16_le(0);
    let sc = spec_chunk(chunk_type::STRUCT, v, count);
    let tb = spec_textures_bytes(d.textures, v);
    let ext = spec_chunk(chunk_type::EXTENSION, v, Seq::<u8>::empty());
    let body = sc + tb + ext;
    assert(spec_dictionary_bytes(d) == spec_chunk(chunk_type::TEX_DICTIONARY, v, body));
    lemma_stands_header(s, 0, chunk_type::TEX_DICTIONARY, v, body);
    lemma_stands_split(s, 12, sc + tb, ext);
    lemma_stands_split(s, 12, sc, tb);
    lemma_stands_join(s, 12 + sc.len() as int, tb, ext);
    assert(count.len() == 4);
    let end: int = 12 + body.len() as int;
    lemma_skip_child(s, 12, end, chunk_type::STRUCT, v, count);
    lemma_read_children(s, 28, d.textures, v);
    assert(28 + tb.len() + 12 == end);
    let view = TextureDictionaryView {
        textures: d.textures,
        version: v,
        game_version: spec_detect_game_version(v, d.textures),
    };
    assert(view == d);
}

/// A dictionary that fits the format reads back, unchanged, from the bytes written for it.
pub proof fn lemma_dictionary_round_trip(d: TextureDictionaryView)
    requires
        dictionary_round_trips(d),
    ensures
        spec_read_dictionary(spec_dictionary_bytes(d)) == Ok::<TextureDictionaryView, ReadFault>(
            d,
        ),
{
    lemma_stands_whole(spec_dictionary_bytes(d));
    lemma_read_dictionary_at(d, spec_dictionary_bytes(d));
}

} // verus!
