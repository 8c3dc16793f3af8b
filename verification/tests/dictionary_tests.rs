use libtxd::dictionary::TextureDictionary;
use libtxd::error::TxdError;
use libtxd::texture::{MipmapLevel, Texture};
use libtxd::types::platform;
use libtxd::types::{Compression, GameVersion};

fn sample_texture(name: &str) -> Texture {
    let mut tex = Texture {
        name: name.to_string(),
        ..Default::default()
    };
    tex.mipmaps.push(MipmapLevel {
        width: 4,
        height: 4,
        data: vec![0x11; 4 * 4 * 4],
    });
    tex
}

#[test]
fn duplicate_name_lookup_and_removal_use_latest_match() {
    let mut dict = TextureDictionary::default();
    dict.add_texture(sample_texture("same"));

    let mut replacement = sample_texture("SAME");
    replacement.filter_flags = 7;
    dict.add_texture(replacement);

    assert_eq!(dict.find_texture("same").unwrap().filter_flags, 7);
    assert!(dict.remove_texture_by_name("same").is_some());
    assert_eq!(dict.textures.len(), 1);
    assert_eq!(dict.textures[0].filter_flags, 0);
}

#[test]
fn default_dictionary_is_san_andreas() {
    let dict = TextureDictionary::default();
    assert_eq!(dict.version, 0x1803_FFFF);
    assert_eq!(dict.game_version, GameVersion::Sa);
    assert!(dict.textures.is_empty());
}

#[test]
fn empty_dictionary_bytes_are_exact() {
    let dict = TextureDictionary::default();
    let mut out = Vec::new();
    dict.save_to(&mut out);
    let expected: Vec<u8> = vec![
        0x16, 0, 0, 0, 28, 0, 0, 0, 0xFF, 0xFF, 0x03, 0x18, // dictionary header
        0x01, 0, 0, 0, 4, 0, 0, 0, 0xFF, 0xFF, 0x03, 0x18, // struct header
        0, 0, 0, 0, // texture count, device id
        0x03, 0, 0, 0, 0, 0, 0, 0, 0xFF, 0xFF, 0x03, 0x18, // extension header
    ];
    assert_eq!(out, expected);
    let back = TextureDictionary::from_reader(&out).unwrap();
    assert_eq!(back, dict);
}

#[test]
fn save_to_appends_after_existing_bytes() {
    let dict = TextureDictionary::default();
    let mut out = vec![9u8, 9u8];
    dict.save_to(&mut out);
    assert_eq!(out.len(), 42);
    assert_eq!(&out[..2], &[9, 9]);
    assert_eq!(out[2], 0x16);
}

#[test]
fn find_texture_ignores_ascii_case_and_misses_unknown_names() {
    let mut dict = TextureDictionary::default();
    dict.add_texture(sample_texture("Wall01"));
    assert!(dict.find_texture("WALL01").is_some());
    assert!(dict.find_texture("wall01").is_some());
    assert!(dict.find_texture("wall02").is_none());
    assert!(dict.find_texture("wall0").is_none());
}

#[test]
fn find_texture_mut_changes_the_latest_match() {
    let mut dict = TextureDictionary::default();
    dict.add_texture(sample_texture("a"));
    dict.add_texture(sample_texture("A"));
    dict.find_texture_mut("a").unwrap().filter_flags = 42;
    assert_eq!(dict.textures[0].filter_flags, 0);
    assert_eq!(dict.textures[1].filter_flags, 42);
    assert!(dict.find_texture_mut("b").is_none());
}

#[test]
fn added_texture_is_found_under_its_name() {
    let mut dict = TextureDictionary::default();
    dict.add_texture(sample_texture("x"));
    let mut t = sample_texture("X");
    t.depth = 8;
    dict.add_texture(t);
    assert_eq!(dict.find_texture("x").unwrap().depth, 8);
}

#[test]
fn remove_texture_by_index() {
    let mut dict = TextureDictionary::default();
    dict.add_texture(sample_texture("first"));
    dict.add_texture(sample_texture("second"));
    assert!(dict.remove_texture(5).is_none());
    assert_eq!(dict.textures.len(), 2);
    let removed = dict.remove_texture(0).unwrap();
    assert_eq!(removed.name, "first");
    assert_eq!(dict.textures.len(), 1);
    assert_eq!(dict.textures[0].name, "second");
    assert!(dict.remove_texture_by_name("missing").is_none());
}

#[test]
fn set_version_detects_the_game() {
    let mut dict = TextureDictionary::default();
    dict.set_version(0x0000_0302);
    assert_eq!(dict.game_version, GameVersion::Gta3V1);
    dict.set_version(0x0000_0310);
    assert_eq!(dict.game_version, GameVersion::Gta3V1);
    dict.set_version(0x0800_FFFF);
    assert_eq!(dict.game_version, GameVersion::Gta3V4);
    dict.set_version(0x1003_FFFF);
    assert_eq!(dict.game_version, GameVersion::VcPc);
    dict.set_version(0x1803_FFFF);
    assert_eq!(dict.game_version, GameVersion::Sa);
    dict.set_version(0x1234_5678);
    assert_eq!(dict.game_version, GameVersion::Unknown);
    assert_eq!(dict.version, 0x1234_5678);

    // The shared GTA III / Vice City PS2 version depends on the textures.
    dict.set_version(0x0C02_FFFF);
    assert_eq!(dict.game_version, GameVersion::Gta3V4);
    let mut ps2 = sample_texture("p");
    ps2.platform = platform::PS2;
    dict.add_texture(ps2);
    dict.set_version(0x0C02_FFFF);
    assert_eq!(dict.game_version, GameVersion::VcPs2);
    dict.add_texture(sample_texture("d3d8"));
    dict.set_version(0x0C02_FFFF);
    assert_eq!(dict.game_version, GameVersion::Gta3V4);
}

fn rich_dictionary() -> TextureDictionary {
    let mut dict = TextureDictionary::default();

    // D3D9, uncompressed, with a mipmap chain.
    let mut a = Texture {
        platform: platform::D3D9,
        name: "cred".to_string(),
        mask_name: "credm".to_string(),
        filter_flags: 0x1106,
        raster_format: 0x8500,
        depth: 32,
        has_alpha: true,
        compression: Compression::Uncompressed,
        mipmaps: Vec::new(),
        palette: Vec::new(),
        palette_size: 0,
    };
    a.mipmaps.push(MipmapLevel { width: 4, height: 2, data: (0..32).collect() });
    a.mipmaps.push(MipmapLevel { width: 2, height: 1, data: (0..8).collect() });
    a.mipmaps.push(MipmapLevel { width: 1, height: 1, data: vec![1, 2, 3, 4] });
    dict.add_texture(a);

    // D3D9, DXT1.
    let mut b = Texture {
        platform: platform::D3D9,
        name: "Tex_0008".to_string(),
        compression: Compression::Dxt1,
        raster_format: 0x0100,
        depth: 16,
        ..Default::default()
    };
    b.mipmaps.push(MipmapLevel { width: 8, height: 8, data: vec![0xAB; 32] });
    b.mipmaps.push(MipmapLevel { width: 4, height: 4, data: vec![0xCD; 8] });
    dict.add_texture(b);

    // D3D8, DXT3 with alpha.
    let mut c = Texture {
        platform: platform::D3D8,
        name: "body".to_string(),
        compression: Compression::Dxt3,
        has_alpha: true,
        ..Default::default()
    };
    c.mipmaps.push(MipmapLevel { width: 4, height: 4, data: vec![7; 16] });
    dict.add_texture(c);

    // D3D8, PAL8 with a full palette.
    let mut d = Texture {
        platform: platform::D3D8,
        name: "pal".to_string(),
        raster_format: 0x2000 | 0x0500,
        depth: 8,
        palette: (0..1024u32).map(|i| (i % 251) as u8).collect(),
        palette_size: 256,
        ..Default::default()
    };
    d.mipmaps.push(MipmapLevel { width: 2, height: 2, data: vec![0, 1, 2, 3] });
    dict.add_texture(d);

    dict.set_version(0x1803_FFFF);
    dict
}

#[test]
fn dictionary_round_trips_through_bytes() {
    let dict = rich_dictionary();
    let mut out = Vec::new();
    dict.save_to(&mut out);
    let back = TextureDictionary::from_reader(&out).unwrap();
    assert_eq!(back.version, 0x1803_FFFF);
    assert_eq!(back.game_version, GameVersion::Sa);
    assert_eq!(back.textures.len(), 4);
    assert_eq!(back, dict);

    // Writing what was read gives the same bytes.
    let mut again = Vec::new();
    back.save_to(&mut again);
    assert_eq!(again, out);
}

#[test]
fn reading_skips_textures_of_other_platforms() {
    let mut dict = rich_dictionary();
    let mut ps2 = sample_texture("ps2");
    ps2.platform = platform::PS2;
    dict.textures.insert(1, ps2);
    let mut out = Vec::new();
    dict.save_to(&mut out);
    let back = TextureDictionary::from_reader(&out).unwrap();
    assert_eq!(back.textures.len(), 4);
    assert!(back.find_texture("ps2").is_none());
    assert!(back.find_texture("body").is_some());
}

#[test]
fn reading_rejects_other_roots_and_short_input() {
    assert!(matches!(
        TextureDictionary::from_reader(&[]),
        Err(TxdError::Binary(_))
    ));
    assert!(matches!(
        TextureDictionary::from_reader(&[0x16, 0, 0, 0, 0, 0, 0]),
        Err(TxdError::Binary(_))
    ));
    let not_dict = [0x15u8, 0, 0, 0, 0, 0, 0, 0, 0, 0, 0, 0];
    assert!(matches!(
        TextureDictionary::from_reader(&not_dict),
        Err(TxdError::NotTextureDictionary)
    ));
}

#[test]
fn reading_reports_truncated_payloads() {
    let dict = rich_dictionary();
    let mut out = Vec::new();
    dict.save_to(&mut out);
    // Cutting inside the first texture's pixel data: the payload read fails.
    let cut = &out[..28 + 24 + 88 + 4 + 10];
    assert!(matches!(TextureDictionary::from_reader(cut), Err(TxdError::Io(_))));
    // Cutting inside the first texture's fixed header: the record read fails.
    let cut = &out[..28 + 24 + 50];
    assert!(matches!(TextureDictionary::from_reader(cut), Err(TxdError::Binary(_))));
}

#[test]
fn reading_stops_at_a_missing_child_header() {
    // A dictionary whose stated length runs past the end: reading stops where no header fits.
    let mut bytes: Vec<u8> = vec![0x16, 0, 0, 0, 200, 0, 0, 0, 0xFF, 0xFF, 0x03, 0x18];
    bytes.extend_from_slice(&[0x01, 0, 0, 0, 4, 0, 0, 0, 0xFF, 0xFF, 0x03, 0x18, 0, 0, 0, 0]);
    bytes.extend_from_slice(&[1, 2, 3]);
    let dict = TextureDictionary::from_reader(&bytes).unwrap();
    assert!(dict.textures.is_empty());
    assert_eq!(dict.game_version, GameVersion::Sa);
}
