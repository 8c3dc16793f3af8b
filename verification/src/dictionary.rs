//! The texture dictionary container: reading, writing, lookup, adding and removing.

use crate::bytes::{push_u16_le, spec_u16_le};
use crate::error::{truncated_record, ReadFault, TxdError};
use crate::texture::{
    prepend_read, read_texture_at, spec_read_texture, spec_texture_native, texture_read_matches,
    Texture, TextureView,
};
use crate::types::chunk_type;
use crate::types::platform;
use crate::types::{read_header, spec_chunk, spec_header_at, write_chunk, ChunkHeader, GameVersion};
use vstd::prelude::*;
use vstd::utf8::encode_utf8;

verus! {

/// A texture dictionary: its textures, its RenderWare version and the game that version names.
#[derive(Debug, Clone, PartialEq)]
pub struct TextureDictionary {
    pub textures: Vec<Texture>,
    pub version: u32,
    pub game_version: GameVersion,
}

/// What a [`TextureDictionary`] holds.
pub struct TextureDictionaryView {
    pub textures: Seq<TextureView>,
    pub version: u32,
    pub game_version: GameVersion,
}

/// The views of a sequence of textures.
pub open spec fn texture_views(ts: Seq<Texture>) -> Seq<TextureView> {
    ts.map_values(|t: Texture| t@)
}

impl View for TextureDictionary {
    type V = TextureDictionaryView;

    open spec fn view(&self) -> TextureDictionaryView {
        TextureDictionaryView {
            textures: texture_views(self.textures@),
            version: self.version,
            game_version: self.game_version,
        }
    }
}

impl Default for TextureDictionary {
    fn default() -> (r: TextureDictionary)
        ensures
            r@ == (TextureDictionaryView {
                textures: Seq::empty(),
                version: GameVersion::Sa.spec_value(),
                game_version: GameVersion::Sa,
            }),
    {
        let r = TextureDictionary {
            textures: Vec::new(),
            version: GameVersion::Sa.value(),
            game_version: GameVersion::Sa,
        };
        assert(texture_views(r.textures@) =~= Seq::empty());
        r
    }
}

// ---------------------------------------------------------------------------------------------
// Names.

/// The byte an ASCII letter has in lower case; other bytes unchanged.
pub open spec fn ascii_lower(b: u8) -> u8 {
    if 65 <= b <= 90 {
        (b + 32) as u8
    } else {
        b
    }
}

/// Two names are equal but for the case of ASCII letters (compared byte by byte in UTF-8).
pub open spec fn names_match(a: Seq<char>, b: Seq<char>) -> bool {
    let x = encode_utf8(a);
    let y = encode_utf8(b);
    &&& x.len() == y.len()
    &&& forall|i: int| 0 <= i < x.len() ==> ascii_lower(#[trigger] x[i]) == ascii_lower(y[i])
}

fn to_ascii_lower(b: u8) -> (r: u8)
    ensures
        r == ascii_lower(b),
{
    if 65 <= b && b <= 90 {
        b + 32
    } else {
        b
    }
}

fn eq_ignore_ascii_case(a: &str, b: &str) -> (r: bool)
    ensures
        r == names_match(a@, b@),
{
    let x = a.as_bytes();
    let y = b.as_bytes();
    if x.len() != y.len() {
        return false;
    }
    let mut i: usize = 0;
    while i < x.len()
        invariant
            x@ == encode_utf8(a@),
            y@ == encode_utf8(b@),
            x@.len() == y@.len(),
            i <= x@.len(),
            forall|j: int| 0 <= j < i ==> ascii_lower(#[trigger] x@[j]) == ascii_lower(y@[j]),
        decreases x@.len() - i,
    {
        if to_ascii_lower(x[i]) != to_ascii_lower(y[i]) {
            return false;
        }
        i = i + 1;
    }
    true
}

/// The index of the last texture whose name matches `name`, or -1 if none does.
pub open spec fn spec_last_match(ts: Seq<TextureView>, name: Seq<char>) -> int
    decreases ts.len(),
{
    if ts.len() == 0 {
        -1
    } else if names_match(ts.last().name, name) {
        ts.len() - 1
    } else {
        spec_last_match(ts.drop_last(), name)
    }
}

/// `k` is the last index whose name matches (-1: none does).
pub proof fn lemma_last_match(ts: Seq<TextureView>, name: Seq<char>, k: int)
    requires
        -1 <= k < ts.len(),
        k >= 0 ==> names_match(ts[k].name, name),
        forall|j: int| k < j < ts.len() ==> !names_match(#[trigger] ts[j].name, name),
    ensures
        spec_last_match(ts, name) == k,
    decreases ts.len(),
{
    if ts.len() > 0 && k < ts.len() - 1 {
        let d = ts.drop_last();
        assert(!names_match(ts[ts.len() - 1].name, name));
        assert forall|j: int| k < j < d.len() implies !names_match(#[trigger] d[j].name, name) by {
            assert(d[j] == ts[j]);
        }
        if k >= 0 {
            assert(d[k] == ts[k]);
        }
        lemma_last_match(d, name, k);
    }
}

/// A texture added to a dictionary is the one found under its own name: later textures win.
pub proof fn lemma_find_after_add(ts: Seq<TextureView>, t: TextureView)
    ensures
        spec_last_match(ts.push(t), t.name) == ts.len(),
{
    assert(ts.push(t).last() == t);
}

// ---------------------------------------------------------------------------------------------
// Game version.

/// Some texture is stored for Direct3D (8 or 9).
pub open spec fn has_d3d_texture(ts: Seq<TextureView>) -> bool {
    exists|i: int|
        0 <= i < ts.len() && (#[trigger] ts[i].platform == platform::D3D8 || ts[i].platform
            == platform::D3D9)
}

/// Some texture is stored for the PlayStation 2.
pub open spec fn has_ps2_texture(ts: Seq<TextureView>) -> bool {
    exists|i: int|
        0 <= i < ts.len() && (#[trigger] ts[i].platform == platform::PS2 || ts[i].platform
            == platform::PS2_FOURCC)
}

/// The game a dictionary version names: the three early GTA III versions name the first, the
/// version shared by GTA III and the PS2 edition of Vice City names the latter only when the
/// textures are all PS2 ones, and the Vice City and San Andreas versions name their games.
pub open spec fn spec_detect_game_version(version: u32, ts: Seq<TextureView>) -> GameVersion {
    if version == 0x0000_0302 || version == 0x0000_0304 || version == 0x0000_0310 {
        GameVersion::Gta3V1
    } else if version == 0x0800_FFFF {
        GameVersion::Gta3V4
    } else if version == 0x0C02_FFFF {
        if has_ps2_texture(ts) && !has_d3d_texture(ts) {
            GameVersion::VcPs2
        } else {
            GameVersion::Gta3V4
        }
    } else if version == 0x1003_FFFF {
        GameVersion::VcPc
    } else if version == 0x1803_FFFF {
        GameVersion::Sa
    } else {
        GameVersion::Unknown
    }
}

/// The textures decide the game only for the version that GTA III and the PS2 edition of Vice
/// City share: for every other version any two lists of textures give the same game.
pub proof fn lemma_game_version_ignores_textures(version: u32, a: Seq<TextureView>, b: Seq<TextureView>)
    requires
        version != 0x0C02_FFFF,
    ensures
        spec_detect_game_version(version, a) == spec_detect_game_version(version, b),
{
}

fn any_platform(textures: &Vec<Texture>, p1: u32, p2: u32) -> (r: bool)
    ensures
        r == exists|i: int|
            0 <= i < textures@.len() && (#[trigger] textures@[i].platform == p1
                || textures@[i].platform == p2),
{
    let mut i: usize = 0;
    while i < textures.len()
        invariant
            i <= textures@.len(),
            forall|j: int|
                0 <= j < i ==> !(#[trigger] textures@[j].platform == p1 || textures@[j].platform
                    == p2),
        decreases textures@.len() - i,
    {
        if textures[i].platform == p1 || textures[i].platform == p2 {
            return true;
        }
        i = i + 1;
    }
    false
}

// ---------------------------------------------------------------------------------------------
// Reading.

/// The textures of the child chunks from `pos` to `end`: each child is a header and a body of
/// the length it states; the TEXTURE_NATIVE children give the textures; reading stops where no
/// header fits.
pub open spec fn spec_read_children(s: Seq<u8>, pos: int, end: int) -> Result<
    Seq<TextureView>,
    ReadFault,
>
    decreases (if pos >= end {
        0
    } else {
        end - pos
    }),
{
    if pos >= end {
        Ok(Seq::empty())
    } else {
        match spec_header_at(s, pos) {
            None => Ok(Seq::empty()),
            Some(h) => {
                let next = pos + 12 + h.length;
                if h.chunk_type == chunk_type::TEXTURE_NATIVE {
                    match spec_read_texture(s, pos) {
                        Err(f) => Err(f),
                        Ok(None) => spec_read_children(s, next, end),
                        Ok(Some(t)) => prepend_read(seq![t], spec_read_children(s, next, end)),
                    }
                } else {
                    spec_read_children(s, next, end)
                }
            },
        }
    }
}

/// The dictionary stored in `s`: a TEX_DICTIONARY chunk at the start, whose children hold the
/// textures.
pub open spec fn spec_read_dictionary(s: Seq<u8>) -> Result<TextureDictionaryView, ReadFault> {
    match spec_header_at(s, 0) {
        None => Err(ReadFault::Binary),
        Some(h) => if h.chunk_type != chunk_type::TEX_DICTIONARY {
            Err(ReadFault::NotDictionary)
        } else {
            match spec_read_children(s, 12, 12 + h.length) {
                Err(f) => Err(f),
                Ok(ts) => Ok(
                    TextureDictionaryView {
                        textures: ts,
                        version: h.version,
                        game_version: spec_detect_game_version(h.version, ts),
                    },
                ),
            }
        },
    }
}

// ---------------------------------------------------------------------------------------------
// Writing.

/// The native texture chunks of `ts`, in order, stamped with `version`.
pub open spec fn spec_textures_bytes(ts: Seq<TextureView>, version: u32) -> Seq<u8>
    decreases ts.len(),
{
    if ts.len() == 0 {
        Seq::empty()
    } else {
        spec_textures_bytes(ts.drop_last(), version) + spec_texture_native(ts.last(), version)
    }
}

/// A TEX_DICTIONARY chunk: a STRUCT chunk with the texture count (16 bits) and a zero device
/// id, the textures, and an empty EXTENSION chunk; every chunk stamped with the version.
pub open spec fn spec_dictionary_bytes(d: TextureDictionaryView) -> Seq<u8> {
    spec_chunk(
        chunk_type::TEX_DICTIONARY,
        d.version,
        spec_chunk(
            chunk_type::STRUCT,
            d.version,
            spec_u16_le(d.textures.len() as u16) + spec_u16_le(0),
        ) + spec_textures_bytes(d.textures, d.version) + spec_chunk(
            chunk_type::EXTENSION,
            d.version,
            Seq::empty(),
        ),
    )
}

impl TextureDictionary {
    /// Reads a dictionary from the bytes of a `.txd` file.
    pub fn from_reader(data: &[u8]) -> (r: Result<TextureDictionary, TxdError>)
        ensures
            match (r, spec_read_dictionary(data@)) {
                (Ok(d), Ok(v)) => d@ == v,
                (Err(e), Err(f)) => e.reports(f),
                _ => false,
            },
    {
        let header = match read_header(data, 0) {
            Some(h) => h,
            None => {
                return Err(truncated_record());
            },
        };
        if header.chunk_type != chunk_type::TEX_DICTIONARY {
            return Err(TxdError::NotTextureDictionary);
        }
        let textures = Self::read_body(data, header.length)?;
        let game_version = Self::detect_game_version(header.version, &textures);
        Ok(TextureDictionary { textures, version: header.version, game_version })
    }

    fn read_body(data: &[u8], length: u32) -> (r: Result<Vec<Texture>, TxdError>)
        ensures
            match (r, spec_read_children(data@, 12, 12 + length)) {
                (Ok(ts), Ok(v)) => texture_views(ts@) == v,
                (Err(e), Err(f)) => e.reports(f),
                _ => false,
            },
    {
        let n = data.len();
        let section_end: u128 = 12 + length as u128;
        let mut pos: u128 = 12;
        let mut textures: Vec<Texture> = Vec::new();
        let mut stop = false;
        while !stop && pos < section_end
            invariant
                n == data@.len(),
                section_end == 12 + length,
                12 <= pos <= n + 0x1_0000_000c,
                spec_read_children(data@, 12, section_end as int) == prepend_read(
                    texture_views(textures@),
                    spec_read_children(data@, pos as int, section_end as int),
                ),
                stop ==> spec_read_children(data@, pos as int, section_end as int) == Ok::<
                    Seq<TextureView>,
                    ReadFault,
                >(Seq::empty()),
            decreases (if stop || pos >= section_end {
                0
            } else {
                section_end - pos
            }),
        {
            match read_header(data, pos) {
                None => {
                    stop = true;
                },
                Some(h) => {
                    let ghost before = textures@;
                    let next = pos + 12 + h.length as u128;
                    if h.chunk_type == chunk_type::TEXTURE_NATIVE {
                        let t = read_texture_at(data, pos)?;
                        match t {
                            Some(tex) => {
                                textures.push(tex);
                                proof {
                                    let rest = spec_read_children(
                                        data@,
                                        next as int,
                                        section_end as int,
                                    );
                                    assert(texture_views(textures@) =~= texture_views(before)
                                        + seq![tex@]);
                                    match rest {
                                        Ok(rv) => {
                                            assert(texture_views(before) + (seq![tex@] + rv)
                                                =~= texture_views(textures@) + rv);
                                        },
                                        Err(f) => {},
                                    }
                                }
                            },
                            None => {},
                        }
                    }
                    pos = next;
                },
            }
        }
        assert(texture_views(textures@) + Seq::<TextureView>::empty() =~= texture_views(
            textures@,
        ));
        Ok(textures)
    }

    fn detect_game_version(version: u32, textures: &Vec<Texture>) -> (r: GameVersion)
        ensures
            r == spec_detect_game_version(version, texture_views(textures@)),
    {
        let ghost views = texture_views(textures@);
        if version == GameVersion::Gta3V1.value() || version == GameVersion::Gta3V2.value()
            || version == GameVersion::Gta3V3.value() {
            return GameVersion::Gta3V1;
        } else if version == GameVersion::Gta3V4.value() {
            return GameVersion::Gta3V4;
        } else if version == GameVersion::VcPs2.value() {
            let has_d3d = any_platform(textures, platform::D3D8, platform::D3D9);
            let has_ps2 = any_platform(textures, platform::PS2, platform::PS2_FOURCC);
            assert(has_d3d == has_d3d_texture(views)) by {
                if has_d3d {
                    let i = choose|i: int|
                        0 <= i < textures@.len() && (#[trigger] textures@[i].platform
                            == platform::D3D8 || textures@[i].platform == platform::D3D9);
                    assert(views[i] == textures@[i]@);
                    assert(views[i].platform == textures@[i].platform);
                }
                if has_d3d_texture(views) {
                    let i = choose|i: int|
                        0 <= i < views.len() && (#[trigger] views[i].platform == platform::D3D8
                            || views[i].platform == platform::D3D9);
                    assert(views[i] == textures@[i]@);
                    assert(views[i].platform == textures@[i].platform);
                }
            }
            assert(has_ps2 == has_ps2_texture(views)) by {
                if has_ps2 {
                    let i = choose|i: int|
                        0 <= i < textures@.len() && (#[trigger] textures@[i].platform
                            == platform::PS2 || textures@[i].platform == platform::PS2_FOURCC);
                    assert(views[i] == textures@[i]@);
                    assert(views[i].platform == textures@[i].platform);
                }
                if has_ps2_texture(views) {
                    let i = choose|i: int|
                        0 <= i < views.len() && (#[trigger] views[i].platform == platform::PS2
                            || views[i].platform == platform::PS2_FOURCC);
                    assert(views[i] == textures@[i]@);
                    assert(views[i].platform == textures@[i].platform);
                }
            }
            return if has_d3d && !has_ps2 {
                GameVersion::Gta3V4
            } else if has_ps2 && !has_d3d {
                GameVersion::VcPs2
            } else {
                GameVersion::Gta3V4
            };
        }
        let lower16 = (version & 0xFFFF) as u16;
        let upper16 = ((version >> 16) & 0xFFFF) as u16;
        assert(lower16 == 0xFFFF && upper16 == 0x0C02 <==> version == 0x0C02_FFFF) by (bit_vector)
            requires
                lower16 == (version & 0xFFFF) as u16,
                upper16 == ((version >> 16) & 0xFFFF) as u16,
        ;
        assert(lower16 == 0xFFFF && upper16 == 0x1003 <==> version == 0x1003_FFFF) by (bit_vector)
            requires
                lower16 == (version & 0xFFFF) as u16,
                upper16 == ((version >> 16) & 0xFFFF) as u16,
        ;
        assert(lower16 == 0xFFFF && upper16 == 0x1803 <==> version == 0x1803_FFFF) by (bit_vector)
            requires
                lower16 == (version & 0xFFFF) as u16,
                upper16 == ((version >> 16) & 0xFFFF) as u16,
        ;
        if upper16 == 0x0C02 && lower16 == 0xFFFF {
            GameVersion::VcPs2
        } else if upper16 == 0x1003 && lower16 == 0xFFFF {
            GameVersion::VcPc
        } else if upper16 == 0x1803 && lower16 == 0xFFFF {
            GameVersion::Sa
        } else {
            GameVersion::Unknown
        }
    }

    /// The index of the last texture whose name matches `name` (ASCII case ignored).
    fn last_match(&self, name: &str) -> (r: Option<usize>)
        ensures
            spec_last_match(self@.textures, name@) < 0 ==> r is None,
            spec_last_match(self@.textures, name@) >= 0 ==> (r matches Some(i) && i
                == spec_last_match(self@.textures, name@)),
            r matches Some(i) ==> i < self.textures@.len(),
    {
        let ghost views = self@.textures;
        let mut i: usize = self.textures.len();
        while i > 0
            invariant
                i <= self.textures@.len(),
                views == self@.textures,
                forall|j: int| i <= j < views.len() ==> !names_match(#[trigger] views[j].name, name@),
            decreases i,
        {
            let k = i - 1;
            assert(views[k as int] == self.textures@[k as int]@);
            if eq_ignore_ascii_case(self.textures[k].name.as_str(), name) {
                proof {
                    lemma_last_match(views, name@, k as int);
                }
                return Some(k);
            }
            i = k;
        }
        proof {
            lemma_last_match(views, name@, -1);
        }
        None
    }

    /// The last texture whose name matches `name`, ASCII case ignored.
    pub fn find_texture(&self, name: &str) -> (r: Option<&Texture>)
        ensures
            spec_last_match(self@.textures, name@) < 0 ==> r is None,
            spec_last_match(self@.textures, name@) >= 0 ==> r == Some(
                &self.textures@[spec_last_match(self@.textures, name@)],
            ),
    {
        match self.last_match(name) {
            Some(i) => Some(&self.textures[i]),
            None => None,
        }
    }

    /// The last texture whose name matches `name`, ASCII case ignored, to be changed in place.
    pub fn find_texture_mut(&mut self, name: &str) -> (r: Option<&mut Texture>)
        ensures
            spec_last_match(old(self)@.textures, name@) < 0 ==> r is None && *final(self) == *old(
                self,
            ),
            spec_last_match(old(self)@.textures, name@) >= 0 ==> (r matches Some(t) && *t == old(
                self,
            ).textures@[spec_last_match(old(self)@.textures, name@)] && final(self).textures@ == old(
                self,
            ).textures@.update(spec_last_match(old(self)@.textures, name@), *final(t))),
            final(self).version == old(self).version,
            final(self).game_version == old(self).game_version,
    {
        match self.last_match(name) {
            Some(i) => Some(&mut self.textures[i]),
            None => None,
        }
    }

    /// Appends a texture.
    pub fn add_texture(&mut self, texture: Texture)
        ensures
            final(self).textures@ == old(self).textures@.push(texture),
            final(self).version == old(self).version,
            final(self).game_version == old(self).game_version,
    {
        self.textures.push(texture);
    }

    /// Removes and returns the texture at `index`, if there is one.
    pub fn remove_texture(&mut self, index: usize) -> (r: Option<Texture>)
        ensures
            index < old(self).textures@.len() ==> r == Some(old(self).textures@[index as int])
                && final(self).textures@ == old(self).textures@.remove(index as int),
            index >= old(self).textures@.len() ==> r is None && final(self).textures@ == old(
                self,
            ).textures@,
            final(self).version == old(self).version,
            final(self).game_version == old(self).game_version,
    {
        if index < self.textures.len() {
            Some(self.textures.remove(index))
        } else {
            None
        }
    }

    /// Removes and returns the last texture whose name matches `name`, ASCII case ignored.
    pub fn remove_texture_by_name(&mut self, name: &str) -> (r: Option<Texture>)
        ensures
            spec_last_match(old(self)@.textures, name@) < 0 ==> r is None && final(self).textures@
                == old(self).textures@,
            spec_last_match(old(self)@.textures, name@) >= 0 ==> r == Some(
                old(self).textures@[spec_last_match(old(self)@.textures, name@)],
            ) && final(self).textures@ == old(self).textures@.remove(
                spec_last_match(old(self)@.textures, name@),
            ),
            final(self).version == old(self).version,
            final(self).game_version == old(self).game_version,
    {
        match self.last_match(name) {
            Some(i) => Some(self.textures.remove(i)),
            None => None,
        }
    }

    /// Sets the version, and the game it names.
    pub fn set_version(&mut self, version: u32)
        ensures
            final(self).version == version,
            final(self).game_version == spec_detect_game_version(version, old(self)@.textures),
            final(self).textures@ == old(self).textures@,
    {
        self.version = version;
        self.game_version = Self::detect_game_version(version, &self.textures);
    }

    /// Appends the bytes of this dictionary as a `.txd` file.
    pub fn save_to(&self, out: &mut Vec<u8>)
        ensures
            final(out)@ == old(out)@ + spec_dictionary_bytes(self@),
    {
        let version = self.version;
        let mut body: Vec<u8> = Vec::new();
        ChunkHeader { chunk_type: chunk_type::STRUCT, length: 4, version }.write(&mut body);
        push_u16_le(&mut body, self.textures.len() as u16);
        push_u16_le(&mut body, 0);
        let ghost views = self@.textures;
        assert(body@ =~= spec_chunk(
            chunk_type::STRUCT,
            version,
            spec_u16_le(views.len() as u16) + spec_u16_le(0),
        ));
        let ghost head = body@;
        let mut i: usize = 0;
        while i < self.textures.len()
            invariant
                i <= self.textures@.len(),
                views == self@.textures,
                version == self.version,
                body@ == head + spec_textures_bytes(views.take(i as int), version),
            decreases self.textures@.len() - i,
        {
            self.textures[i].write_d3d(&mut body, version);
            proof {
                assert(views.take(i + 1).drop_last() =~= views.take(i as int));
                assert(views.take(i + 1).last() == self.textures@[i as int]@);
            }
            i = i + 1;
            assert(body@ =~= head + spec_textures_bytes(views.take(i as int), version));
        }
        assert(views.take(i as int) =~= views);
        ChunkHeader { chunk_type: chunk_type::EXTENSION, length: 0, version }.write(&mut body);
        assert(body@ =~= spec_chunk(
            chunk_type::STRUCT,
            version,
            spec_u16_le(views.len() as u16) + spec_u16_le(0),
        ) + spec_textures_bytes(views, version) + spec_chunk(
            chunk_type::EXTENSION,
            version,
            Seq::empty(),
        ));
        write_chunk(out, chunk_type::TEX_DICTIONARY, version, body.as_slice());
    }
}

} // verus!
