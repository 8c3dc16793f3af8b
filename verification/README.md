# libtxd

Reading, writing and converting RenderWare texture dictionaries (`.txd`, D3D8/D3D9),
verified with Verus.

## Layout

| Path | Contents |
| --- | --- |
| `src/bytes.rs` | little-endian integers over byte sequences; positioned reads |
| `src/types.rs` | `Compression`, `GameVersion`, `ChunkHeader`, chunk framing, the DXT codec |
| `src/texture.rs` | `Texture`/`MipmapLevel`, the native texture chunk (read/write), RGBA conversion, `from_rgba` |
| `src/dictionary.rs` | `TextureDictionary`: read, write, lookup, add, remove, game version |
| `src/encode.rs` | `TextureFormat`, `TextureCreateOptions`, mipmap chains |
| `src/palette.rs` | indexed (PAL4/PAL8) images |
| `src/image.rs` | the RGBA image type the library works on |
| `src/round_trip.rs`, `src/reread.rs` | proofs that what is written reads back |
| `app/` | file I/O, conversions to the `image` crate's types, palette quantization |

The byte formats are stated as spec functions (`spec_read_dictionary`,
`spec_dictionary_bytes`, `spec_read_texture`, `spec_texture_native`, ...), and the
executable readers and writers are proved to follow them. The laws that tie them
together are proof functions: `lemma_dictionary_round_trip`,
`lemma_texture_round_trip`, `lemma_read_write_read`.
