//! Tests for archive unpacking and the top-level skin container, run
//! against real zip archives and encoded images built in memory.

use std::io::{Cursor, Write};

use wsz::archive::{find_archive_file, get_filename_without_extension, unpack_wsz_bytes};
use wsz::color::{RgbColor, RgbaColor};
use wsz::error::WszError;
use wsz::Wsz;

fn px(r: u8, g: u8, b: u8) -> RgbaColor {
    RgbaColor { r, g, b, a: 255 }
}

/// Encodes a coordinate-pattern image as PNG bytes.
fn png_sheet(w: u32, h: u32) -> Vec<u8> {
    let img = image::RgbaImage::from_fn(w, h, |x, y| {
        image::Rgba([x as u8, y as u8, 7, 255])
    });
    let mut bytes = Vec::new();
    image::DynamicImage::ImageRgba8(img)
        .write_to(&mut Cursor::new(&mut bytes), image::ImageFormat::Png)
        .unwrap();
    bytes
}

/// Builds a zip archive from name/contents pairs.
fn build_zip(files: &[(&str, Vec<u8>)]) -> Vec<u8> {
    let mut cursor = Cursor::new(Vec::new());
    let mut writer = zip::ZipWriter::new(&mut cursor);
    let options = zip::write::SimpleFileOptions::default()
        .compression_method(zip::CompressionMethod::Deflated);
    for (name, contents) in files {
        writer.start_file(*name, options).unwrap();
        writer.write_all(contents).unwrap();
    }
    writer.finish().unwrap();
    cursor.into_inner()
}

#[test]
fn unpack_reads_stored_files() {
    let data = build_zip(&[
        ("dir/viscolor.txt", b"1,2,3\n".to_vec()),
        ("readme.txt", b"hello".to_vec()),
    ]);
    let archive = unpack_wsz_bytes(&data).unwrap();
    assert_eq!(archive.len(), 2);
    let bytes = find_archive_file(&archive, "VISCOLOR.TXT").unwrap();
    assert_eq!(bytes, &b"1,2,3\n".to_vec());
    assert!(find_archive_file(&archive, "pledit.txt").is_none());
}

#[test]
fn unpack_rejects_garbage() {
    match unpack_wsz_bytes(b"this is not an archive") {
        Err(WszError::Zip(_)) | Err(WszError::Io(_)) => {}
        other => panic!("expected an archive error, got {:?}", other),
    }
}

#[test]
fn skin_sprites_come_from_decoded_sheets() {
    let data = build_zip(&[
        ("skin/MONOSTER.BMP", png_sheet(56, 24)),
        ("skin/viscolor.txt", b"0,0,0\n255,255,255\n".to_vec()),
    ]);
    let skin = Wsz::from_bytes(&data).unwrap();
    let stereo = skin.get_sprite("MAIN_STEREO").unwrap();
    assert_eq!(stereo.width(), 29);
    assert_eq!(stereo.height(), 12);
    // MAIN_STEREO is cut at (0, 12): its top-left pixel encodes (0, 12)
    assert_eq!(stereo.get_pixel(0, 0), px(0, 12, 7));
    let mono = skin.get_sprite("MAIN_MONO").unwrap();
    assert_eq!(mono.get_pixel(0, 0), px(29, 12, 7));
    assert!(skin.get_sprite("MAIN_WINDOW_BACKGROUND").is_none());
    assert_eq!(skin.get_vis_colors().len(), 2);
}

#[test]
fn missing_color_table_degrades_to_empty() {
    let data = build_zip(&[("skin/MONOSTER.BMP", png_sheet(56, 24))]);
    let skin = Wsz::from_bytes(&data).unwrap();
    let colors = skin.get_vis_colors();
    assert_eq!(colors.len(), 0);
    assert_eq!(colors.bg_color(), None);
    assert_eq!(colors.vis_color(0), None);
    assert_eq!(skin.get_pledit_settings().normal, None);
    assert_eq!(skin.get_regions().main, None);
}

#[test]
fn malformed_color_table_aborts() {
    let data = build_zip(&[("viscolor.txt", b"0,0,0\nNOT,A,COLOR\n".to_vec())]);
    match Wsz::from_bytes(&data) {
        Err(WszError::InvalidFormat { line, error }) => {
            assert_eq!(line, 2);
            assert_eq!(error, "Invalid color value: 'NOT'");
        }
        other => panic!("expected a format error, got {:?}", other),
    }
}

#[test]
fn malformed_region_file_is_discarded() {
    let data = build_zip(&[("region.txt", b"[Bogus]\n".to_vec())]);
    let skin = Wsz::from_bytes(&data).unwrap();
    assert_eq!(skin.get_regions().main, None);
}

#[test]
fn region_file_is_parsed() {
    let data = build_zip(&[(
        "region.txt",
        b"[Normal]\nNumPoints=4\nPointList=0,0,10,0,10,10,0,10\n".to_vec(),
    )]);
    let skin = Wsz::from_bytes(&data).unwrap();
    assert_eq!(
        skin.get_regions().main,
        Some(vec![vec![(0, 0), (10, 0), (10, 10), (0, 10)]])
    );
}

#[test]
fn screenshot_paints_background_and_sprites() {
    let data = build_zip(&[
        ("MAIN.BMP", png_sheet(275, 116)),
        ("pledit.txt", b"[Text]\nNormalBG=010203\n".to_vec()),
    ]);
    let skin = Wsz::from_bytes(&data).unwrap();
    assert_eq!(
        skin.get_pledit_settings().normal_bg,
        Some(RgbColor { r: 1, g: 2, b: 3 })
    );
    let shot = skin.render_screenshot().unwrap();
    assert_eq!(shot.width(), 275);
    assert_eq!(shot.height(), 435);
    // the main background sprite covers the top window
    assert_eq!(shot.get_pixel(0, 0), px(0, 0, 7));
    assert_eq!(shot.get_pixel(200, 100), px(200, 100, 7));
    // everything below is the settings' background color
    assert_eq!(shot.get_pixel(0, 200), px(1, 2, 3));
    assert_eq!(shot.get_pixel(274, 434), px(1, 2, 3));
}

#[test]
fn screenshot_defaults_to_black_background() {
    let data = build_zip(&[("MAIN.BMP", png_sheet(275, 116))]);
    let skin = Wsz::from_bytes(&data).unwrap();
    let shot = skin.render_screenshot().unwrap();
    assert_eq!(shot.get_pixel(0, 400), px(0, 0, 0));
}

#[test]
fn missing_config_file_is_not_found() {
    let data = build_zip(&[("readme.txt", b"hi".to_vec())]);
    let archive = unpack_wsz_bytes(&data).unwrap();
    match wsz::text::viscolor::VisColors::from_archive(&archive) {
        Err(WszError::NotFound(m)) => assert_eq!(m, "viscolor.txt"),
        other => panic!("expected a not-found error, got {:?}", other),
    }
}

#[test]
fn undecodable_sheet_is_an_image_error() {
    let data = build_zip(&[("MONOSTER.BMP", b"not an image at all".to_vec())]);
    let archive = unpack_wsz_bytes(&data).unwrap();
    let manager = wsz::sprites::SpriteManager::new();
    match manager.extract_sprite_sheet_from_archive(&archive, "MONOSTER.BMP") {
        Err(WszError::ImageError(_)) | Err(WszError::Io(_)) => {}
        other => panic!("expected a codec error, got {:?}", other),
    }
    // an undecodable sheet does not abort building the whole skin
    let skin = Wsz::from_bytes(&data).unwrap();
    assert!(skin.get_sprite("MAIN_STEREO").is_none());
}

#[test]
fn unknown_sheet_name_is_an_argument_error() {
    let data = build_zip(&[("readme.txt", b"hi".to_vec())]);
    let archive = unpack_wsz_bytes(&data).unwrap();
    let manager = wsz::sprites::SpriteManager::new();
    match manager.extract_sprite_sheet_from_archive(&archive, "NOT_A_SHEET.BMP") {
        Err(WszError::ArgumentError(m)) => {
            assert_eq!(m, "NOT_A_SHEET.BMP not a known sprite sheet");
        }
        other => panic!("expected an argument error, got {:?}", other),
    }
    match manager.extract_sprite_sheet_from_archive(&archive, "MAIN.BMP") {
        Err(WszError::NotFound(m)) => {
            assert_eq!(m, "MAIN.BMP not found in skin (at any path)");
        }
        other => panic!("expected a not-found error, got {:?}", other),
    }
}

#[test]
fn filename_stems() {
    assert_eq!(get_filename_without_extension("skins/Classic.wsz"), "Classic");
    assert_eq!(get_filename_without_extension("a.tar.gz"), "a.tar");
    assert_eq!(get_filename_without_extension("noext"), "noext");
    assert_eq!(get_filename_without_extension(".hidden"), ".hidden");
    assert_eq!(get_filename_without_extension("dir/"), "unknown");
}
