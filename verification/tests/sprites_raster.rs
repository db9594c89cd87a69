//! Tests for the sheet extractor, the sheet composer and the window
//! compositor.

use wsz::color::{transparency_key_color, RgbColor, RgbaColor};
use wsz::error::WszError;
use wsz::namemap::NameMap;
use wsz::raster::Raster;
use wsz::sprites::{SpriteManager, SpriteWindowDefinition, SpriteWindowManager, WindowType};

fn px(r: u8, g: u8, b: u8) -> RgbaColor {
    RgbaColor { r, g, b, a: 255 }
}

/// A raster whose pixel at (x, y) encodes its own coordinates.
fn coordinate_sheet(w: u32, h: u32) -> Raster {
    let mut sheet = Raster::new_filled(w, h, px(0, 0, 0));
    for y in 0..h {
        for x in 0..w {
            sheet.put_pixel(x, y, px(x as u8, y as u8, 7));
        }
    }
    sheet
}

#[test]
fn extract_sprite_copies_verbatim() {
    let manager = SpriteManager::new();
    let sheet = coordinate_sheet(56, 24);
    // MAIN_MONO is the 27x12 rectangle at (29, 12)
    let mono = manager.extract_sprite("MAIN_MONO", &sheet).unwrap();
    assert_eq!(mono.width(), 27);
    assert_eq!(mono.height(), 12);
    assert_eq!(mono.get_pixel(0, 0), px(29, 12, 7));
    assert_eq!(mono.get_pixel(26, 11), px(55, 23, 7));
}

#[test]
fn extract_sprite_unknown_name() {
    let manager = SpriteManager::new();
    let sheet = coordinate_sheet(8, 8);
    match manager.extract_sprite("NO_SUCH_SPRITE", &sheet) {
        Err(WszError::ArgumentError(m)) => {
            assert_eq!(m, "Sprite NO_SUCH_SPRITE not found");
        }
        other => panic!("expected an argument error, got {:?}", other),
    }
}

#[test]
fn extract_sprite_clips_to_sheet() {
    let manager = SpriteManager::new();
    // MAIN_POSITION_SLIDER_THUMB is the 29x10 rectangle at (248, 0);
    // against a 250x10 sheet only 2 columns remain
    let sheet = coordinate_sheet(250, 10);
    let thumb = manager.extract_sprite("MAIN_POSITION_SLIDER_THUMB", &sheet).unwrap();
    assert_eq!(thumb.width(), 2);
    assert_eq!(thumb.height(), 10);
    assert_eq!(thumb.get_pixel(0, 0), px(248, 0, 7));
}

#[test]
fn extract_sprite_outside_sheet_is_empty() {
    let manager = SpriteManager::new();
    // the thumb's origin (248, 0) lies beyond a 10-wide sheet
    let sheet = coordinate_sheet(10, 10);
    let thumb = manager.extract_sprite("MAIN_POSITION_SLIDER_THUMB", &sheet).unwrap();
    assert_eq!(thumb.width(), 0);
    assert_eq!(thumb.height(), 0);
}

#[test]
fn crop_cuts_the_overlap() {
    // the clipping arithmetic itself: a 20x20 request at (5, 5) against a
    // 10x10 sheet leaves the 5x5 overlap
    let sheet = coordinate_sheet(10, 10);
    let cut = sheet.crop(5, 5, 5, 5);
    assert_eq!(cut.width(), 5);
    assert_eq!(cut.height(), 5);
    assert_eq!(cut.get_pixel(0, 0), px(5, 5, 7));
    assert_eq!(cut.get_pixel(4, 4), px(9, 9, 7));
}

#[test]
fn compose_extract_round_trip() {
    // the four MONOSTER rectangles tile a 56x24 sheet exactly
    let manager = SpriteManager::new();
    let sheet = coordinate_sheet(56, 24);
    let sprites = manager.extract_sheet_sprites(&sheet, "MONOSTER.BMP");
    assert_eq!(sprites.len(), 4);
    let composed = manager.construct_sprite_sheet(&sprites, "MONOSTER.BMP").unwrap();
    assert_eq!(composed.width(), 56);
    assert_eq!(composed.height(), 24);
    for y in 0..24 {
        for x in 0..56 {
            assert_eq!(composed.get_pixel(x, y), sheet.get_pixel(x, y));
        }
    }
}

#[test]
fn compose_extract_idempotent() {
    let manager = SpriteManager::new();
    let sheet = coordinate_sheet(56, 24);
    let once = manager
        .construct_sprite_sheet(&manager.extract_sheet_sprites(&sheet, "MONOSTER.BMP"),
            "MONOSTER.BMP")
        .unwrap();
    let twice = manager
        .construct_sprite_sheet(&manager.extract_sheet_sprites(&once, "MONOSTER.BMP"),
            "MONOSTER.BMP")
        .unwrap();
    assert_eq!(twice.width(), once.width());
    assert_eq!(twice.height(), once.height());
    for y in 0..once.height() {
        for x in 0..once.width() {
            assert_eq!(twice.get_pixel(x, y), once.get_pixel(x, y));
        }
    }
}

#[test]
fn compose_uncovered_pixels_get_transparency_key() {
    // supply only MAIN_MONO (at (29, 12)): the canvas still spans to its
    // edges, and everything outside the rectangle is the key color
    let manager = SpriteManager::new();
    let mut sprites: NameMap<Raster> = NameMap::new();
    sprites.insert(String::from("MAIN_MONO"), Raster::new_filled(27, 12, px(9, 9, 9)));
    let composed = manager.construct_sprite_sheet(&sprites, "MONOSTER.BMP").unwrap();
    assert_eq!(composed.width(), 56);
    assert_eq!(composed.height(), 24);
    assert_eq!(composed.get_pixel(0, 0), transparency_key_color());
    assert_eq!(composed.get_pixel(28, 12), transparency_key_color());
    assert_eq!(composed.get_pixel(29, 12), px(9, 9, 9));
    assert_eq!(composed.get_pixel(55, 23), px(9, 9, 9));
}

#[test]
fn compose_empty_supply_is_empty_sheet() {
    let manager = SpriteManager::new();
    let sprites: NameMap<Raster> = NameMap::new();
    let composed = manager.construct_sprite_sheet(&sprites, "MONOSTER.BMP").unwrap();
    assert_eq!(composed.width(), 0);
    assert_eq!(composed.height(), 0);
}

#[test]
fn catalog_has_expected_rectangles() {
    let manager = SpriteManager::new();
    let d = manager.get_sprite_definition("MAIN_STEREO").unwrap();
    assert_eq!(d.sprite_sheet, "MONOSTER.BMP");
    assert_eq!((d.x, d.y, d.width, d.height), (0, 12, 29, 12));
    let c = manager.get_sprite_definition("CHARACTER_97").unwrap();
    assert_eq!(c.sprite_sheet, "TEXT.BMP");
    assert_eq!((c.x, c.y, c.width, c.height), (0, 0, 5, 6));
    let z = manager.get_sprite_definition("CHARACTER_122").unwrap();
    assert_eq!((z.x, z.y), (125, 0));
    assert!(manager.get_sprite_definition("CHARACTER_8230").is_some());
    let names = SpriteManager::sprite_sheet_names();
    assert_eq!(names.len(), 16);
    assert!(names.iter().any(|n| n == "MAIN.BMP"));
}

fn window_sprites() -> NameMap<Raster> {
    let mut sprites: NameMap<Raster> = NameMap::new();
    sprites.insert(
        String::from("MAIN_WINDOW_BACKGROUND"),
        Raster::new_filled(275, 116, px(10, 10, 10)),
    );
    sprites.insert(String::from("MAIN_STEREO"), Raster::new_filled(29, 12, px(200, 0, 0)));
    sprites
}

#[test]
fn layering_higher_layer_occludes() {
    // MAIN_WINDOW_BACKGROUND is at layer 0, MAIN_STEREO at layer 1 over
    // (239, 41): where both cover, layer 1 wins; elsewhere layer 0 shows
    let manager = SpriteWindowManager::new();
    let window = manager.draw_all_sprites(&window_sprites()).unwrap();
    assert_eq!(window.width(), 275);
    assert_eq!(window.height(), 435);
    assert_eq!(window.get_pixel(239, 41), px(200, 0, 0));
    assert_eq!(window.get_pixel(267, 52), px(200, 0, 0));
    assert_eq!(window.get_pixel(238, 41), px(10, 10, 10));
    assert_eq!(window.get_pixel(0, 0), px(10, 10, 10));
    // below the main window nothing is drawn: the default black background
    assert_eq!(window.get_pixel(0, 200), px(0, 0, 0));
}

#[test]
fn background_color_fills_uncovered_canvas() {
    let mut manager = SpriteWindowManager::new();
    manager.set_bg_color(RgbColor { r: 1, g: 2, b: 3 });
    let window = manager.draw_all_sprites(&window_sprites()).unwrap();
    assert_eq!(window.get_pixel(0, 434), px(1, 2, 3));
}

#[test]
fn draw_all_out_of_bounds_is_error() {
    let mut manager = SpriteWindowManager::new();
    manager.add_window_sprite(
        "RUNAWAY",
        &SpriteWindowDefinition {
            name: String::from("RUNAWAY"),
            sprite_name: String::from("MAIN_STEREO"),
            window_type: WindowType::Playlist,
            layer: 2,
            x: 270,
            y: 200,
            width: 29,
            height: 12,
        },
    );
    match manager.draw_all_sprites(&window_sprites()) {
        Err(WszError::ArgumentError(m)) => {
            assert_eq!(m, "Sprite is out of bounds");
        }
        other => panic!("expected an out-of-bounds error, got {:?}", other),
    }
}

#[test]
fn set_sprite_position_moves_the_placement() {
    let mut manager = SpriteWindowManager::new();
    manager.set_sprite_position("MAIN_STEREO", 0, 0);
    let window = manager.draw_all_sprites(&window_sprites()).unwrap();
    assert_eq!(window.get_pixel(0, 0), px(200, 0, 0));
    assert_eq!(window.get_pixel(239, 41), px(10, 10, 10));
}

#[test]
fn set_sprite_name_redirects_the_placement() {
    let mut manager = SpriteWindowManager::new();
    let mut sprites = window_sprites();
    sprites.insert(String::from("OTHER"), Raster::new_filled(29, 12, px(0, 200, 0)));
    manager.set_sprite_name("MAIN_STEREO", "OTHER");
    let window = manager.draw_all_sprites(&sprites).unwrap();
    assert_eq!(window.get_pixel(239, 41), px(0, 200, 0));
}

#[test]
fn remove_window_sprite_stops_drawing_it() {
    let mut manager = SpriteWindowManager::new();
    manager.remove_window_sprite("MAIN_STEREO");
    let window = manager.draw_all_sprites(&window_sprites()).unwrap();
    assert_eq!(window.get_pixel(239, 41), px(10, 10, 10));
}

#[test]
fn high_layers_are_painted() {
    // every layer present is painted, ascending: a layer-5 placement
    // occludes the layer-1 stereo indicator it overlaps
    let mut manager = SpriteWindowManager::new();
    manager.add_window_sprite(
        "TOPMOST",
        &SpriteWindowDefinition {
            name: String::from("TOPMOST"),
            sprite_name: String::from("OTHER"),
            window_type: WindowType::Main,
            layer: 5,
            x: 239,
            y: 41,
            width: 29,
            height: 12,
        },
    );
    let mut sprites = window_sprites();
    sprites.insert(String::from("OTHER"), Raster::new_filled(29, 12, px(0, 0, 200)));
    let window = manager.draw_all_sprites(&sprites).unwrap();
    assert_eq!(window.get_pixel(239, 41), px(0, 0, 200));
    assert_eq!(window.get_pixel(238, 41), px(10, 10, 10));
}

#[test]
fn draw_sprite_places_at_window_origin() {
    let manager = SpriteWindowManager::new();
    let mut window = Raster::new_filled(275, 435, px(0, 0, 0));
    let stereo = Raster::new_filled(29, 12, px(200, 0, 0));
    manager.draw_sprite(&mut window, &stereo, "MAIN_STEREO").unwrap();
    assert_eq!(window.get_pixel(239, 41), px(200, 0, 0));
    match manager.draw_sprite(&mut window, &stereo, "UNKNOWN") {
        Err(WszError::ArgumentError(m)) => assert_eq!(m, "Sprite UNKNOWN not found"),
        other => panic!("expected an argument error, got {:?}", other),
    }
}

#[test]
fn raster_rgba_bytes_round_trip() {
    let sheet = coordinate_sheet(3, 2);
    let bytes = sheet.to_rgba_bytes();
    assert_eq!(bytes.len(), 24);
    assert_eq!(&bytes[0..4], &[0, 0, 7, 255]);
    let back = Raster::from_rgba_bytes(3, 2, &bytes).unwrap();
    for y in 0..2 {
        for x in 0..3 {
            assert_eq!(back.get_pixel(x, y), sheet.get_pixel(x, y));
        }
    }
    assert!(Raster::from_rgba_bytes(4, 2, &bytes).is_none());
}
