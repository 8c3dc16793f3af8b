use libtxd::encode::{image_mipmaps, FilterType, TextureCreateOptions, TextureFormat};
use libtxd::error::TxdError;
use libtxd::image::RgbaImage;
use libtxd::palette::{check_palette_request, convert_palette_to_rgba, pad_palette};
use libtxd::texture::{MipmapLevel, Texture};
use libtxd::types::chunk_type;
use libtxd::types::platform;
use libtxd::types::raster_format;
use libtxd::types::{ChunkHeader, Compression, DxtAlgorithm};

fn image_from_fn(width: u32, height: u32, f: impl Fn(u32, u32) -> [u8; 4]) -> RgbaImage {
    let mut data = Vec::new();
    for y in 0..height {
        for x in 0..width {
            data.extend_from_slice(&f(x, y));
        }
    }
    RgbaImage::from_raw(width, height, data).unwrap()
}

#[test]
fn texture_from_rgba_builds_mipmapped_texture() {
    let source = image_from_fn(4, 2, |x, y| [x as u8 * 40, y as u8 * 80, 120, 255]);

    let texture =
        Texture::from_rgba("sample".to_string(), source.clone(), TextureCreateOptions::default())
            .unwrap();
    let decoded = texture.to_rgba8(0).unwrap();

    assert_eq!(texture.name, "sample");
    assert_eq!(texture.compression, Compression::Uncompressed);
    assert_eq!(texture.depth, 32);
    assert_eq!(texture.mipmaps.len(), 3);
    assert_eq!(texture.mipmaps[1].width, 2);
    assert_eq!(texture.mipmaps[1].height, 1);
    assert_eq!(decoded, source);
}

#[test]
fn from_rgba_stores_bgra_and_flags() {
    let source = image_from_fn(1, 1, |_, _| [1, 2, 3, 200]);
    let texture =
        Texture::from_rgba("one".to_string(), source, TextureCreateOptions::default()).unwrap();
    assert_eq!(texture.mipmaps.len(), 1);
    assert_eq!(texture.mipmaps[0].data, vec![3, 2, 1, 200]);
    assert_eq!(texture.raster_format, raster_format::B8G8R8A8);
    assert!(texture.has_alpha);
    assert_eq!(texture.platform, platform::D3D9);
    assert_eq!(texture.filter_flags, 0x1106);
    assert_eq!(texture.mask_name, "");
    assert_eq!(texture.palette_size, 0);
}

#[test]
fn from_rgba_without_mipmaps_and_opaque() {
    let source = image_from_fn(4, 4, |_, _| [9, 9, 9, 255]);
    let options = TextureCreateOptions { mipmaps: false, ..TextureCreateOptions::default() };
    let texture = Texture::from_rgba("flat".to_string(), source, options).unwrap();
    assert_eq!(texture.mipmaps.len(), 1);
    assert_eq!(texture.raster_format, 0x0500);
    assert!(!texture.has_alpha);
}

#[test]
fn from_rgba_rejects_empty_images() {
    let empty = RgbaImage::from_raw(0, 3, Vec::new()).unwrap();
    let r = Texture::from_rgba("e".to_string(), empty, TextureCreateOptions::default());
    assert!(matches!(r, Err(TxdError::InvalidDimensions { width: 0, height: 3 })));
}

#[test]
fn from_rgba_dxt1_round_trips_a_solid_colour() {
    let source = image_from_fn(8, 8, |_, _| [255, 0, 0, 255]);
    let options = TextureCreateOptions {
        format: TextureFormat::Dxt1 { algorithm: DxtAlgorithm::ClusterFit },
        ..TextureCreateOptions::default()
    };
    let texture = Texture::from_rgba("red".to_string(), source.clone(), options).unwrap();
    assert_eq!(texture.compression, Compression::Dxt1);
    assert_eq!(texture.mipmaps.len(), 4);
    assert_eq!(texture.mipmaps[0].data.len(), 32);
    assert_eq!(texture.mipmaps[2].width, 2);
    assert_eq!(texture.mipmaps[2].data.len(), 8);
    assert_eq!(texture.raster_format, 0x8500);
    let decoded = texture.to_rgba8(0).unwrap();
    assert_eq!(decoded, source);
}

#[test]
fn image_mipmaps_halves_down_to_one_pixel() {
    let source = image_from_fn(5, 3, |x, y| [x as u8, y as u8, 0, 255]);
    let levels = image_mipmaps(source.clone(), true, FilterType::Nearest);
    let dims: Vec<(u32, u32)> = levels.iter().map(|l| l.dimensions()).collect();
    assert_eq!(dims, vec![(5, 3), (2, 1), (1, 1)]);
    assert_eq!(levels[0], source);
    let only = image_mipmaps(source, false, FilterType::Nearest);
    assert_eq!(only.len(), 1);
}

#[test]
fn compressed_sizes() {
    assert_eq!(Compression::Dxt1.compressed_size(16, 32).unwrap(), 256);
    assert_eq!(Compression::Dxt1.compressed_size(15, 32).unwrap(), 256);
    assert_eq!(Compression::Dxt3.compressed_size(16, 32).unwrap(), 512);
    assert_eq!(Compression::Dxt3.compressed_size(1, 1).unwrap(), 16);
    assert!(matches!(
        Compression::Uncompressed.compressed_size(4, 4),
        Err(TxdError::UnsupportedCompression)
    ));
}

#[test]
fn dxt_codec_errors() {
    assert!(matches!(
        Compression::Dxt1.decompress_dxt(&[], 4, 4),
        Err(TxdError::InvalidDimensions { width: 4, height: 4 })
    ));
    assert!(matches!(
        Compression::Uncompressed.decompress_dxt(&[0; 8], 4, 4),
        Err(TxdError::UnsupportedCompression)
    ));
    let img = image_from_fn(4, 4, |_, _| [0, 0, 0, 0]);
    assert!(matches!(
        Compression::Uncompressed.compress_to_dxt(&img, DxtAlgorithm::RangeFit),
        Err(TxdError::UnsupportedCompression)
    ));
    let empty = RgbaImage::from_raw(0, 0, Vec::new()).unwrap();
    assert!(matches!(
        Compression::Dxt3.compress_to_dxt(&empty, DxtAlgorithm::RangeFit),
        Err(TxdError::InvalidDimensions { width: 0, height: 0 })
    ));
    let blocks = Compression::Dxt3.compress_to_dxt(&img, DxtAlgorithm::RangeFit).unwrap();
    assert_eq!(blocks.len(), 16);
    let back = Compression::Dxt3.decompress_dxt(&blocks, 4, 4).unwrap();
    assert_eq!(back.dimensions(), (4, 4));
}

fn one_pixel(raster: u32, depth: u8, data: Vec<u8>) -> Texture {
    let mut t = Texture { raster_format: raster, depth, ..Default::default() };
    t.mipmaps.push(MipmapLevel { width: 1, height: 1, data });
    t
}

#[test]
fn decodes_packed_pixel_layouts() {
    let px = |t: Texture| t.to_rgba8(0).unwrap().into_raw();
    assert_eq!(px(one_pixel(raster_format::R5G6B5, 16, vec![0x1F, 0xF8])), vec![248, 0, 248, 255]);
    assert_eq!(px(one_pixel(raster_format::A1R5G5B5, 16, vec![0x00, 0xFC])), vec![248, 0, 0, 255]);
    assert_eq!(px(one_pixel(raster_format::A1R5G5B5, 16, vec![0x1F, 0x00])), vec![0, 0, 248, 0]);
    assert_eq!(px(one_pixel(raster_format::R4G4B4A4, 16, vec![0x34, 0x12])), vec![16, 32, 48, 64]);
    assert_eq!(px(one_pixel(raster_format::LUM8, 8, vec![77])), vec![77, 77, 77, 255]);
    assert_eq!(px(one_pixel(raster_format::B8G8R8, 24, vec![1, 2, 3])), vec![3, 2, 1, 255]);
    assert_eq!(px(one_pixel(raster_format::B8G8R8A8, 32, vec![1, 2, 3, 4])), vec![3, 2, 1, 4]);
    assert_eq!(px(one_pixel(raster_format::R5G5B5, 16, vec![1, 2])), vec![0, 0, 0, 255]);
    // Depth 0 reads four bytes per pixel.
    assert_eq!(px(one_pixel(raster_format::B8G8R8A8, 0, vec![5, 6, 7, 8])), vec![7, 6, 5, 8]);
}

#[test]
fn uncompressed_pixels_past_the_data_are_transparent() {
    let mut t = Texture { raster_format: raster_format::LUM8, depth: 8, ..Default::default() };
    t.mipmaps.push(MipmapLevel { width: 2, height: 1, data: vec![10] });
    assert_eq!(t.to_rgba8(0).unwrap().into_raw(), vec![10, 10, 10, 255, 0, 0, 0, 0]);
}

#[test]
fn to_rgba8_errors() {
    let t = one_pixel(raster_format::LUM8, 8, vec![1]);
    assert!(matches!(t.to_rgba8(1), Err(TxdError::MissingMipmap(1))));
    let mut e = Texture::default();
    e.mipmaps.push(MipmapLevel { width: 0, height: 2, data: vec![1] });
    assert!(matches!(e.to_rgba8(0), Err(TxdError::InvalidDimensions { width: 0, height: 2 })));
    let mut d = Texture::default();
    d.mipmaps.push(MipmapLevel { width: 2, height: 2, data: vec![] });
    assert!(matches!(d.to_rgba8(0), Err(TxdError::InvalidDimensions { width: 2, height: 2 })));
    assert!(t.can_convert());
}

#[test]
fn palette_textures_decode_through_the_palette() {
    let mut palette = vec![0u8; 1024];
    palette[4..8].copy_from_slice(&[10, 20, 30, 40]);
    let mut t = Texture {
        raster_format: raster_format::PAL8,
        depth: 8,
        palette,
        palette_size: 256,
        ..Default::default()
    };
    t.mipmaps.push(MipmapLevel { width: 2, height: 1, data: vec![1, 5] });
    assert_eq!(t.to_rgba8(0).unwrap().into_raw(), vec![10, 20, 30, 40, 0, 0, 0, 0]);

    // A palette shorter than its stated size gives a transparent image.
    t.palette.truncate(100);
    assert_eq!(t.to_rgba8(0).unwrap().into_raw(), vec![0; 8]);
}

#[test]
fn convert_palette_to_rgba_cases() {
    let palette = [1u8, 2, 3, 4, 5, 6, 7, 8];
    // Index 3 is not below the palette size 2, so entry 0 is used.
    let img = convert_palette_to_rgba(&[3, 1], &palette, 2, 2, 1).unwrap();
    assert_eq!(img.into_raw(), vec![1, 2, 3, 4, 5, 6, 7, 8]);
    // Entry 1 of a one-entry palette is missing: transparent black. Missing indices too.
    let img = convert_palette_to_rgba(&[1], &palette[..4], 16, 2, 1).unwrap();
    assert_eq!(img.into_raw(), vec![0; 8]);
    assert!(matches!(
        convert_palette_to_rgba(&[], &palette, 2, 1, 1),
        Err(TxdError::InvalidDimensions { width: 1, height: 1 })
    ));
    assert!(matches!(
        convert_palette_to_rgba(&[0], &[], 2, 1, 1),
        Err(TxdError::InvalidDimensions { .. })
    ));
}

#[test]
fn palette_requests() {
    assert!(matches!(check_palette_request(15, 4, 4), Err(TxdError::InvalidPalette)));
    assert!(matches!(
        check_palette_request(16, 0, 4),
        Err(TxdError::InvalidDimensions { width: 0, height: 4 })
    ));
    assert!(check_palette_request(256, 4, 4).is_ok());
    let p = pad_palette(&[1, 2, 3, 4], 16);
    assert_eq!(p.len(), 64);
    assert_eq!(&p[..4], &[1, 2, 3, 4]);
    assert!(p[4..].iter().all(|&b| b == 0));
    assert_eq!(pad_palette(&[7; 80], 16).len(), 64);
}

#[test]
fn chunk_headers_read_and_write() {
    let h = ChunkHeader { chunk_type: chunk_type::TEXTURE_NATIVE, length: 7, version: 0x1803_FFFF };
    let mut out = Vec::new();
    h.write(&mut out);
    assert_eq!(out, vec![0x15, 0, 0, 0, 7, 0, 0, 0, 0xFF, 0xFF, 0x03, 0x18]);
    assert_eq!(ChunkHeader::read(&out, 0).unwrap(), h);
    assert!(matches!(ChunkHeader::read(&out, 1), Err(TxdError::Binary(_))));
}

#[test]
fn native_texture_round_trip_and_names() {
    let long_name = "abcdefghijklmnopqrstuvwxyz0123456789";
    let mut t = Texture {
        platform: platform::D3D9,
        name: long_name.to_string(),
        compression: Compression::Dxt3,
        has_alpha: true,
        ..Default::default()
    };
    t.mipmaps.push(MipmapLevel { width: 4, height: 4, data: vec![3; 16] });
    let mut out = vec![0xEEu8; 5];
    let written = t.write_d3d(&mut out, 0x1003_FFFF);
    assert_eq!(written as usize, out.len() - 5);
    let (back, end) = Texture::from_d3d_reader(&out, 5).unwrap().unwrap();
    assert_eq!(end as usize, out.len());
    assert_eq!(back.name, &long_name[..31]);
    assert_eq!(back.compression, Compression::Dxt3);
    assert!(back.has_alpha);
    assert_eq!(back.mipmaps, t.mipmaps);

    // Another chunk type at the position: no texture.
    assert!(Texture::from_d3d_reader(&out, 0).is_ok());
    let other = [0x03u8, 0, 0, 0, 0, 0, 0, 0, 0, 0, 0, 0];
    assert!(Texture::from_d3d_reader(&other, 0).unwrap().is_none());
}

#[test]
fn invalid_utf8_names_are_read_lossily() {
    let mut t = Texture { platform: platform::D3D8, name: "ab".to_string(), ..Default::default() };
    t.mipmaps.push(MipmapLevel { width: 1, height: 1, data: vec![1, 2, 3, 4] });
    let mut out = Vec::new();
    t.write_d3d(&mut out, 0x1803_FFFF);
    // The name field starts after the two headers, platform and filter flags.
    out[24 + 8] = 0xFF;
    let (back, end) = Texture::from_d3d_reader(&out, 0).unwrap().unwrap();
    assert_eq!(end as usize, out.len());
    assert_eq!(back.name, "\u{FFFD}b");
}

#[test]
fn native_texture_reader_skips_trailing_children() {
    let mut t = Texture::default();
    t.mipmaps.push(MipmapLevel { width: 1, height: 1, data: vec![9, 8, 7, 6] });
    let mut out = Vec::new();
    t.write_d3d(&mut out, 0x1803_FFFF);
    // Grow the chunk by four bytes after its children and state the longer length.
    let length = u32::from_le_bytes([out[4], out[5], out[6], out[7]]) + 4;
    out[4..8].copy_from_slice(&length.to_le_bytes());
    out.extend_from_slice(&[1, 2, 3, 4]);
    out.extend_from_slice(&[0xAA; 3]);
    let (back, end) = Texture::from_d3d_reader(&out, 0).unwrap().unwrap();
    assert_eq!(end as usize, out.len() - 3);
    assert_eq!(back.mipmaps, t.mipmaps);
}

#[test]
fn empty_dxt_level_is_an_invalid_dimension() {
    let mut t = Texture { compression: Compression::Dxt1, ..Default::default() };
    t.mipmaps.push(MipmapLevel { width: 4, height: 4, data: Vec::new() });
    assert!(t.can_decode_level(0));
    assert!(matches!(
        t.to_rgba8(0),
        Err(TxdError::InvalidDimensions { width: 4, height: 4 })
    ));
}
