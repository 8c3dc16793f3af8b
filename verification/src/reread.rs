//! What is read can be written and read again: every dictionary read from bytes (with names
//! that fit their fields) meets the conditions of the round-trip laws.

use crate::bytes::{has_bytes, spec_u16_at, spec_u32_at};
use crate::dictionary::{
    spec_detect_game_version, spec_dictionary_bytes, spec_read_children, spec_read_dictionary,
    TextureDictionaryView,
};
use crate::error::ReadFault;
use crate::round_trip::{
    dictionary_round_trips, lemma_dictionary_round_trip, lemma_stands_header,
    lemma_texture_round_trip, mipmap_chain_fits, name_fits, stands_at, texture_round_trips,
};
use crate::texture::{
    prepend_read, spec_palette_size, spec_read_mipmaps, spec_read_texture,
    spec_read_texture_fields, spec_read_texture_struct, spec_struct_body, spec_texture_end,
    spec_texture_native, MipmapView, TextureView,
};
use crate::types::chunk_type;
use crate::types::{spec_chunk, spec_header_at, Compression};
use vstd::prelude::*;

verus! {

/// What the levels read from `level` on look like, the previous level being `width` x `height`.
pub open spec fn read_levels_shape(
    ms: Seq<MipmapView>,
    width: u32,
    height: u32,
    level: nat,
    c: Compression,
) -> bool {
    &&& forall|i: int| 0 <= i < ms.len() ==> (#[trigger] ms[i]).data.len() <= 0xFFFF_FFFF
    &&& forall|i: int|
        0 <= i < ms.len() && (#[trigger] ms[i]).data.len() == 0 ==> ms[i].width == 0
            && ms[i].height == 0
    &&& forall|i: int|
        0 < i < ms.len() && (#[trigger] ms[i]).data.len() > 0 ==> ms[i].width
            == c.spec_next_mipmap_dimension(ms[i - 1].width) && ms[i].height
            == c.spec_next_mipmap_dimension(ms[i - 1].height)
    &&& ms.len() > 0 && ms[0].data.len() > 0 ==> ms[0].width == (if level > 0 {
        c.spec_next_mipmap_dimension(width)
    } else {
        width
    }) && ms[0].height == (if level > 0 {
        c.spec_next_mipmap_dimension(height)
    } else {
        height
    })
}

proof fn lemma_read_levels_shape(
    s: Seq<u8>,
    p: int,
    width: u32,
    height: u32,
    count: nat,
    level: nat,
    c: Compression,
)
    ensures
        spec_read_mipmaps(s, p, width, height, count, level, c) matches Ok(ms) ==> {
            &&& level <= count ==> ms.len() == count - level
            &&& read_levels_shape(ms, width, height, level, c)
        },
    decreases count - level,
{
    if level < count && has_bytes(s, p, 4) {
        let size = spec_u32_at(s, p);
        let w1 = if level > 0 {
            c.spec_next_mipmap_dimension(width)
        } else {
            width
        };
        let h1 = if level > 0 {
            c.spec_next_mipmap_dimension(height)
        } else {
            height
        };
        let w2: u32 = if size == 0 {
            0
        } else {
            w1
        };
        let h2: u32 = if size == 0 {
            0
        } else {
            h1
        };
        if has_bytes(s, p + 4, size as int) {
            lemma_read_levels_shape(s, p + 4 + size, w2, h2, count, level + 1, c);
            let m = MipmapView { width: w2, height: h2, data: s.subrange(p + 4, p + 4 + size) };
            match spec_read_mipmaps(s, p + 4 + size, w2, h2, count, level + 1, c) {
                Ok(rest) => {
                    let ms = seq![m] + rest;
                    assert(ms[0] == m);
                    assert forall|i: int| 0 < i < ms.len() implies #[trigger] ms[i] == rest[i - 1] by {
                    }
                    assert forall|i: int|
                        0 < i < ms.len() && (#[trigger] ms[i]).data.len() > 0 implies ms[i].width
                        == c.spec_next_mipmap_dimension(ms[i - 1].width) && ms[i].height
                        == c.spec_next_mipmap_dimension(ms[i - 1].height) by {
                        if i > 1 {
                            assert(ms[i - 1] == rest[i - 2]);
                        }
                    }
                    assert forall|i: int| 0 <= i < ms.len() implies (#[trigger] ms[i]).data.len()
                        <= 0xFFFF_FFFF by {
                        if i > 0 {
                            assert(ms[i] == rest[i - 1]);
                        }
                    }
                    assert forall|i: int|
                        0 <= i < ms.len() && (#[trigger] ms[i]).data.len() == 0 implies ms[i].width
                        == 0 && ms[i].height == 0 by {
                        if i > 0 {
                            assert(ms[i] == rest[i - 1]);
                        }
                    }
                },
                Err(_) => {},
            }
        }
    }
}

/// A texture read from bytes whose names fit their fields meets `texture_round_trips`.
pub proof fn lemma_read_texture_fits(s: Seq<u8>, p: int, t: TextureView)
    requires
        spec_read_texture(s, p) == Ok::<Option<TextureView>, ReadFault>(Some(t)),
        name_fits(t.name),
        name_fits(t.mask_name),
    ensures
        texture_round_trips(t),
{
    if let Some(h) = spec_header_at(s, p) {
        if h.chunk_type == chunk_type::TEXTURE_NATIVE {
            let q = p + 12;
            if let Some(sh) = spec_header_at(s, q) {
                if sh.chunk_type == chunk_type::STRUCT && has_bytes(s, q + 12, 76) {
                    let r = q + 12;
                    let a = r + 76;
                    let tt = a + 4;
                    if has_bytes(s, a, 4) && has_bytes(s, tt, 8) {
                        let coa = s[tt + 7];
                        let compression = if spec_u32_at(s, r) == crate::types::platform::D3D9 {
                            Compression::spec_from_d3d9(s.subrange(a, a + 4), coa)
                        } else {
                            crate::texture::spec_d3d8_compression(coa)
                        };
                        let psize = spec_palette_size(spec_u32_at(s, r + 72));
                        let mstart = tt + 8 + psize * 4;
                        let w0 = spec_u16_at(s, tt) as u32;
                        let h0 = spec_u16_at(s, tt + 2) as u32;
                        lemma_read_levels_shape(s, mstart, w0, h0, s[tt + 5] as nat, 0, compression);
                    }
                }
            }
        }
    }
}

/// Every texture that reading the children from `pos` to `end` gives was read from some
/// position of `s`.
proof fn lemma_read_children_sources(s: Seq<u8>, pos: int, end: int)
    ensures
        spec_read_children(s, pos, end) matches Ok(ts) ==> forall|i: int|
            0 <= i < ts.len() ==> exists|p: int|
                spec_read_texture(s, p) == Ok::<Option<TextureView>, ReadFault>(
                    Some(#[trigger] ts[i]),
                ),
    decreases (if pos >= end {
        0
    } else {
        end - pos
    }),
{
    if pos < end {
        if let Some(h) = spec_header_at(s, pos) {
            let next = pos + 12 + h.length;
            lemma_read_children_sources(s, next, end);
            if h.chunk_type == chunk_type::TEXTURE_NATIVE {
                if let Ok(Some(t)) = spec_read_texture(s, pos) {
                    if let Ok(rest) = spec_read_children(s, next, end) {
                        let ts = seq![t] + rest;
                        assert forall|i: int| 0 <= i < ts.len() implies exists|p: int|
                            spec_read_texture(s, p) == Ok::<Option<TextureView>, ReadFault>(
                                Some(#[trigger] ts[i]),
                            ) by {
                            if i == 0 {
                                assert(spec_read_texture(s, pos) == Ok::<
                                    Option<TextureView>,
                                    ReadFault,
                                >(Some(ts[0])));
                            } else {
                                assert(ts[i] == rest[i - 1]);
                            }
                        }
                    }
                }
            }
        }
    }
}

/// Every dictionary the bytes `s` hold, if its names fit their fields and its bytes fit the
/// 32-bit length fields, is written as bytes that read back to the same dictionary.
pub proof fn lemma_read_write_read(s: Seq<u8>, d: TextureDictionaryView)
    requires
        spec_read_dictionary(s) == Ok::<TextureDictionaryView, ReadFault>(d),
        forall|i: int|
            0 <= i < d.textures.len() ==> name_fits((#[trigger] d.textures[i]).name) && name_fits(
                d.textures[i].mask_name,
            ),
        spec_dictionary_bytes(d).len() <= 0xFFFF_FFFF + 12,
    ensures
        spec_read_dictionary(spec_dictionary_bytes(d)) == Ok::<TextureDictionaryView, ReadFault>(
            d,
        ),
{
    let h = spec_header_at(s, 0).unwrap();
    lemma_read_children_sources(s, 12, 12 + h.length);
    assert forall|i: int| 0 <= i < d.textures.len() implies texture_round_trips(
        #[trigger] d.textures[i],
    ) by {
        let p = choose|p: int|
            spec_read_texture(s, p) == Ok::<Option<TextureView>, ReadFault>(Some(d.textures[i]));
        lemma_read_texture_fits(s, p, d.textures[i]);
    }
    lemma_dictionary_round_trip(d);
}

/// A written native texture chunk ends where its header says it does.
proof fn lemma_texture_chunk_end(t: TextureView, version: u32, s: Seq<u8>, p: int)
    requires
        spec_texture_native(t, version).len() <= 0xFFFF_FFFF + 12,
        stands_at(s, p, spec_texture_native(t, version)),
    ensures
        spec_texture_end(s, p) == p + spec_texture_native(t, version).len(),
{
    reveal(spec_texture_native);
    let inner = spec_chunk(chunk_type::STRUCT, version, spec_struct_body(t)) + spec_chunk(
        chunk_type::EXTENSION,
        version,
        Seq::empty(),
    );
    assert(spec_texture_native(t, version) == spec_chunk(chunk_type::TEXTURE_NATIVE, version, inner));
    lemma_stands_header(s, p, chunk_type::TEXTURE_NATIVE, version, inner);
}

/// Reading a written native texture chunk gives the texture back and ends right after the
/// chunk.
pub proof fn lemma_texture_read_ends_after_chunk(t: TextureView, version: u32, s: Seq<u8>, p: int)
    requires
        texture_round_trips(t),
        spec_texture_native(t, version).len() <= 0xFFFF_FFFF + 12,
        stands_at(s, p, spec_texture_native(t, version)),
    ensures
        spec_read_texture(s, p) == Ok::<Option<TextureView>, ReadFault>(Some(t)),
        spec_texture_end(s, p) == p + spec_texture_native(t, version).len(),
{
    lemma_texture_round_trip(t, version, s, p);
    lemma_texture_chunk_end(t, version, s, p);
}

} // verus!
