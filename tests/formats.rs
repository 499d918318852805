use summit::atlas::{normalize_sprite_path, parse_meta, Atlas, AtlasManager, MetaDataFile};
use summit::atlas_data::{decode_data, encode_data, Rgba, RgbaBuffer};
use summit::binary_reader::{BinaryReader, ReadError};
use summit::xnb_reader::{TextureFormat, XnbError, XnbReader};

fn push_str(out: &mut Vec<u8>, s: &str) {
    out.push(s.len() as u8);
    out.extend_from_slice(s.as_bytes());
}

fn push_i16(out: &mut Vec<u8>, v: i16) {
    out.extend_from_slice(&v.to_le_bytes());
}

fn sprite_record(out: &mut Vec<u8>, path: &str, v: [i16; 8]) {
    push_str(out, path);
    for x in v {
        push_i16(out, x);
    }
}

fn meta_bytes() -> Vec<u8> {
    let mut m = Vec::new();
    m.extend_from_slice(&7i32.to_le_bytes());
    push_str(&mut m, "");
    m.extend_from_slice(&0i32.to_le_bytes());
    push_i16(&mut m, 1);
    push_str(&mut m, "tiles");
    push_i16(&mut m, 2);
    sprite_record(&mut m, "a", [0, 0, 8, 8, 0, 0, 8, 8]);
    sprite_record(&mut m, "b", [8, 0, 8, 8, 0, 0, 8, 8]);
    m
}

fn solid_image(w: u32, h: u32) -> RgbaBuffer {
    let px = Rgba { r: 10, g: 20, b: 30, a: 255 };
    RgbaBuffer { width: w, height: h, pixels: vec![px; (w * h) as usize] }
}

#[test]
fn reader_reads_little_endian_values() {
    let mut r = BinaryReader::new(vec![0x34, 0x12, 0xff, 0xff, 0x78, 0x56, 0x34, 0x12, 0xfe, 0x01, 0x00]);
    assert_eq!(r.read_ushort(), Ok(0x1234));
    assert_eq!(r.read_short(), Ok(-1));
    assert_eq!(r.read_ulong(), Ok(0x1234_5678));
    assert_eq!(r.read_byte(), Ok(-2));
    assert_eq!(r.read_bool(), Ok(true));
    assert_eq!(r.read_bool(), Ok(false));
    assert_eq!(r.read_ubyte(), Err(ReadError::UnexpectedEof));
    assert_eq!(r.position(), 11);
}

#[test]
fn reader_reads_signed_long_and_seeks() {
    let mut r = BinaryReader::new(vec![0xff, 0xff, 0xff, 0xff, 9]);
    assert_eq!(r.read_long(), Ok(-1));
    assert_eq!(r.set_position(0), Ok(()));
    assert_eq!(r.skip(4), Ok(()));
    assert_eq!(r.read_ubyte(), Ok(9));
    assert_eq!(r.skip(10), Ok(()));
    assert_eq!(r.read_ubyte(), Err(ReadError::UnexpectedEof));
}

#[test]
fn reader_reads_length_prefixed_strings() {
    let mut r = BinaryReader::new(vec![3, b'a', b'b', b'c', 2, 0xff, 0xfe, 5, b'x']);
    assert_eq!(r.read_string().as_deref(), Ok("abc"));
    assert_eq!(r.read_string(), Err(ReadError::InvalidUtf8));
    let mut short = BinaryReader::new(vec![5, b'x']);
    assert_eq!(short.read_string(), Err(ReadError::UnexpectedEof));
}

#[test]
fn data_file_runs_decode() {
    let mut d = Vec::new();
    d.extend_from_slice(&3u32.to_le_bytes());
    d.extend_from_slice(&1u32.to_le_bytes());
    d.push(1);
    d.extend_from_slice(&[2, 128, 3, 2, 1]);
    d.extend_from_slice(&[0, 0]);
    let img = decode_data(d).unwrap();
    assert_eq!((img.width, img.height), (3, 1));
    assert_eq!(img.pixels[0], Rgba { r: 1, g: 2, b: 3, a: 128 });
    assert_eq!(img.pixels[1], Rgba { r: 1, g: 2, b: 3, a: 128 });
    assert_eq!(img.pixels[2], Rgba { r: 0, g: 0, b: 0, a: 0 });
}

#[test]
fn data_file_without_alpha_is_opaque_and_runs_cross_rows() {
    let mut d = Vec::new();
    d.extend_from_slice(&2u32.to_le_bytes());
    d.extend_from_slice(&2u32.to_le_bytes());
    d.push(0);
    d.extend_from_slice(&[3, 9, 8, 7]);
    d.extend_from_slice(&[0, 1, 1, 1]);
    let img = decode_data(d).unwrap();
    assert_eq!(img.pixels.len(), 4);
    assert_eq!(img.pixels[2], Rgba { r: 7, g: 8, b: 9, a: 255 });
    assert_eq!(img.pixels[3], Rgba { r: 1, g: 1, b: 1, a: 255 });
}

#[test]
fn data_file_zero_count_is_one_pixel_and_long_runs_are_cut() {
    let mut d = Vec::new();
    d.extend_from_slice(&3u32.to_le_bytes());
    d.extend_from_slice(&1u32.to_le_bytes());
    d.push(0);
    d.extend_from_slice(&[0, 1, 2, 3]);
    d.extend_from_slice(&[255, 4, 5, 6]);
    let img = decode_data(d).unwrap();
    assert_eq!(img.pixels[0], Rgba { r: 3, g: 2, b: 1, a: 255 });
    assert_eq!(img.pixels[1], Rgba { r: 6, g: 5, b: 4, a: 255 });
    assert_eq!(img.pixels.len(), 3);
}

#[test]
fn data_file_short_read_fails() {
    let mut d = Vec::new();
    d.extend_from_slice(&2u32.to_le_bytes());
    d.extend_from_slice(&2u32.to_le_bytes());
    d.push(1);
    d.extend_from_slice(&[1, 255, 1, 2, 3]);
    assert_eq!(decode_data(d).unwrap_err(), ReadError::UnexpectedEof);
    assert_eq!(decode_data(vec![1, 0, 0]).unwrap_err(), ReadError::UnexpectedEof);
}

#[test]
fn empty_image_needs_no_runs() {
    let mut d = Vec::new();
    d.extend_from_slice(&0u32.to_le_bytes());
    d.extend_from_slice(&5u32.to_le_bytes());
    d.push(1);
    let img = decode_data(d).unwrap();
    assert_eq!((img.width, img.height, img.pixels.len()), (0, 5, 0));
}

#[test]
fn data_file_round_trip() {
    let mut pixels = Vec::new();
    for i in 0..12u8 {
        let a = if i % 3 == 0 { 0 } else { i * 20 };
        let p = if a == 0 { Rgba { r: 0, g: 0, b: 0, a: 0 } } else { Rgba { r: i, g: i + 1, b: i + 2, a } };
        pixels.push(p);
    }
    let img = RgbaBuffer { width: 4, height: 3, pixels: pixels.clone() };
    let bytes = encode_data(&img);
    assert_eq!(&bytes[0..9], &[4, 0, 0, 0, 3, 0, 0, 0, 1]);
    let back = decode_data(bytes).unwrap();
    assert_eq!((back.width, back.height), (4, 3));
    assert_eq!(back.pixels, pixels);
}

#[test]
fn meta_file_parses_sprites() {
    let files = parse_meta(meta_bytes()).unwrap();
    assert_eq!(files.len(), 1);
    assert_eq!(files[0].name, "tiles");
    assert_eq!(files[0].sprites.len(), 2);
    assert_eq!(files[0].sprites[1].path, "b");
    let m = files[0].sprites[1].metadata;
    assert_eq!((m.x, m.y, m.width, m.height, m.offset_x, m.offset_y, m.real_width, m.real_height), (8, 0, 8, 8, 0, 0, 8, 8));
}

#[test]
fn meta_scenario_builds_atlas_with_uv() {
    let files = parse_meta(meta_bytes()).unwrap();
    let image = decode_data(encode_data(&solid_image(16, 8))).unwrap();
    let mut atlas = Atlas::new("Gameplay");
    for f in files {
        atlas.add_data_file(f, solid_image(image.width, image.height));
    }
    assert_eq!(atlas.name, "Gameplay");
    assert_eq!(atlas.sprites.len(), 2);
    let a = atlas.get_sprite("a").unwrap();
    let b = atlas.get_sprite("b").unwrap();
    assert_eq!((a.metadata.x, a.metadata.y, a.metadata.width, a.metadata.height), (0, 0, 8, 8));
    assert_eq!((b.metadata.x, b.metadata.y, b.metadata.width, b.metadata.height), (8, 0, 8, 8));
    let ua = a.uv_rect.unwrap();
    let ub = b.uv_rect.unwrap();
    let w = ua.image_width as f32;
    let h = ua.image_height as f32;
    assert_eq!((w, h), (16.0, 8.0));
    assert_eq!((ua.min_x as f32 / w, ua.min_y as f32 / h, ua.max_x as f32 / w, ua.max_y as f32 / h), (0.0, 0.0, 8.0 / 16.0, 8.0 / 8.0));
    assert_eq!((ub.min_x as f32 / w, ub.min_y as f32 / h, ub.max_x as f32 / w, ub.max_y as f32 / h), (8.0 / 16.0, 0.0, 16.0 / 16.0, 8.0 / 8.0));
}

#[test]
fn meta_file_short_fails() {
    let mut m = meta_bytes();
    m.truncate(m.len() - 3);
    assert_eq!(parse_meta(m).unwrap_err(), ReadError::UnexpectedEof);
    assert_eq!(parse_meta(vec![1, 2]).unwrap_err(), ReadError::UnexpectedEof);
}

#[test]
fn meta_paths_use_forward_slashes() {
    let mut m = Vec::new();
    m.extend_from_slice(&0i32.to_le_bytes());
    push_str(&mut m, "x");
    m.extend_from_slice(&0i32.to_le_bytes());
    push_i16(&mut m, 1);
    push_str(&mut m, "d");
    push_i16(&mut m, 1);
    sprite_record(&mut m, "decals\\a\\b", [1, 2, 3, 4, 5, 6, 7, 8]);
    let files = parse_meta(m).unwrap();
    assert_eq!(files[0].sprites[0].path, "decals/a/b");
    assert_eq!(normalize_sprite_path("a\\b\\c"), "a/b/c");
}

#[test]
fn negative_count_reads_nothing() {
    let mut m = Vec::new();
    m.extend_from_slice(&0i32.to_le_bytes());
    push_str(&mut m, "");
    m.extend_from_slice(&0i32.to_le_bytes());
    push_i16(&mut m, -3);
    let files: Vec<MetaDataFile> = parse_meta(m).unwrap();
    assert!(files.is_empty());
}

#[test]
fn registry_lookups_and_last_writer_wins() {
    let mut first = Atlas::new("Gameplay");
    first.add_data_file(parse_meta(meta_bytes()).unwrap().remove(0), solid_image(16, 8));
    let mut second = Atlas::new("Misc");
    second.add_data_file(parse_meta(meta_bytes()).unwrap().remove(0), solid_image(32, 8));
    let mut mgr = AtlasManager::new();
    mgr.add_atlas(first);
    mgr.add_atlas(second);
    assert!(mgr.get_sprite("Gameplay", "a").is_some());
    assert!(mgr.get_sprite("Gameplay", "zz").is_none());
    assert!(mgr.get_sprite("Nope", "a").is_none());
    let (owner, sprite) = mgr.get_sprite_global("a").unwrap();
    assert_eq!(owner, "Misc");
    assert_eq!(sprite.uv_rect.unwrap().image_width, 32);
    assert!(mgr.get_sprite_global("zz").is_none());
    assert_eq!(mgr.get_atlas_image("Gameplay", "tiles").map(|i| i.width), Some(16));
    let mut again = Atlas::new("Gameplay");
    again.add_data_file(parse_meta(meta_bytes()).unwrap().remove(0), solid_image(64, 8));
    mgr.add_atlas(again);
    assert_eq!(mgr.atlases.len(), 2);
    assert_eq!(mgr.get_sprite_global("a").unwrap().0, "Gameplay");
}

#[test]
fn uv_is_recomputed_without_a_cached_rect() {
    let mut atlas = Atlas::new("Gameplay");
    atlas.add_data_file(parse_meta(meta_bytes()).unwrap().remove(0), solid_image(16, 8));
    let mut mgr = AtlasManager::new();
    mgr.add_atlas(atlas);
    let (_, mut sprite) = mgr.get_sprite_global("b").unwrap();
    sprite.uv_rect = None;
    let uv = mgr.sprite_uv(&sprite).unwrap();
    assert_eq!((uv.min_x, uv.max_x, uv.image_width), (8, 16, 16));
    let region = mgr.sprite_region_uv(&sprite, 0, 0, 8, 8).unwrap();
    assert_eq!((region.min_x, region.min_y, region.max_x, region.max_y), (8, 0, 16, 8));
    sprite.atlas = "Other".to_string();
    assert!(mgr.sprite_uv(&sprite).is_none());
    assert_eq!(mgr.get_texture_path_for_tile('9'), Some("tilesSolid"));
    assert_eq!(mgr.get_texture_path_for_tile('m'), Some("mountainTiles"));
    assert_eq!(mgr.get_texture_path_for_tile('#'), None);
}

fn xnb_bytes(flag: u8, format: i32, w: u32, h: u32, data: &[u8]) -> Vec<u8> {
    let mut d = b"XNBw".to_vec();
    d.push(5);
    d.push(flag);
    d.extend_from_slice(&0u32.to_le_bytes());
    d.push(1);
    push_str(&mut d, "Texture2DReader");
    d.extend_from_slice(&0i32.to_le_bytes());
    d.push(0);
    d.push(1);
    d.extend_from_slice(&format.to_le_bytes());
    d.extend_from_slice(&w.to_le_bytes());
    d.extend_from_slice(&h.to_le_bytes());
    d.extend_from_slice(&1u32.to_le_bytes());
    d.extend_from_slice(&(data.len() as u32).to_le_bytes());
    d.extend_from_slice(data);
    d
}

#[test]
fn xnb_color_texture_decodes() {
    let data = [255, 1, 2, 3, 128, 4, 5, 6];
    let mut r = XnbReader::new(xnb_bytes(0, 0, 2, 1, &data));
    let img = r.read_texture().unwrap();
    assert_eq!((img.width, img.height), (2, 1));
    assert_eq!(img.pixels[0], Rgba { r: 3, g: 2, b: 1, a: 255 });
    assert_eq!(img.pixels[1], Rgba { r: 6, g: 5, b: 4, a: 128 });
}

#[test]
fn xnb_rejects_bad_input() {
    let mut bad_magic = xnb_bytes(0, 0, 1, 1, &[0, 0, 0, 0]);
    bad_magic[0] = b'Y';
    assert!(matches!(XnbReader::new(bad_magic).read_texture(), Err(XnbError::InvalidFormat(_))));
    assert!(matches!(
        XnbReader::new(xnb_bytes(0x80, 0, 1, 1, &[0, 0, 0, 0])).read_texture(),
        Err(XnbError::UnsupportedFeature(_))
    ));
    assert!(matches!(
        XnbReader::new(xnb_bytes(0, 4, 1, 1, &[0, 0, 0, 0])).read_texture(),
        Err(XnbError::UnsupportedFeature(_))
    ));
    assert!(matches!(
        XnbReader::new(xnb_bytes(0, 0, 0, 1, &[])).read_texture(),
        Err(XnbError::InvalidFormat(_))
    ));
    assert!(matches!(
        XnbReader::new(xnb_bytes(0, 0, 2, 1, &[0, 0, 0, 0])).read_texture(),
        Err(XnbError::InvalidFormat(_))
    ));
    assert!(matches!(
        XnbReader::new(xnb_bytes(0, 0, 1, 1, &[0, 0, 0, 0, 0])).read_texture(),
        Err(XnbError::InvalidFormat(_))
    ));
    let mut short = xnb_bytes(0, 0, 1, 1, &[0, 0, 0, 0]);
    short.truncate(short.len() - 1);
    assert!(matches!(XnbReader::new(short).read_texture(), Err(XnbError::IoError(ReadError::UnexpectedEof))));
}

#[test]
fn texture_format_numbers() {
    assert_eq!(TextureFormat::from(0), TextureFormat::Color);
    assert_eq!(TextureFormat::from(6), TextureFormat::Dxt5);
    assert_eq!(TextureFormat::from(19), TextureFormat::HdrBlendable);
    assert_eq!(TextureFormat::from(20), TextureFormat::Unknown);
    assert_eq!(TextureFormat::from(-1), TextureFormat::Unknown);
}
