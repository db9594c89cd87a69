//! Sprite rectangles and placements for the position slider sheet.

use vstd::prelude::*;
use vstd::string::StringExecFns;

use crate::sprites::{models_of, placement_models_of, PlacementModel, SpriteDefinition, SpriteRectModel, SpriteWindowDefinition, WindowType};

verus! {

/// The sheet rectangles this module contributes, as mathematical values.
pub open spec fn posbar_sprites_spec() -> Seq<SpriteRectModel> {
    seq![
        SpriteRectModel { name: "MAIN_POSITION_SLIDER_BACKGROUND"@, sheet: "POSBAR.BMP"@, x: 0, y: 0, width: 248, height: 10 },
        SpriteRectModel { name: "MAIN_POSITION_SLIDER_THUMB"@, sheet: "POSBAR.BMP"@, x: 248, y: 0, width: 29, height: 10 },
        SpriteRectModel { name: "MAIN_POSITION_SLIDER_THUMB_SELECTED"@, sheet: "POSBAR.BMP"@, x: 278, y: 0, width: 29, height: 10 },
    ]
}

/// The sprite rectangles of this sheet.
pub fn posbar_sprites() -> (r: Vec<SpriteDefinition>)
    ensures
        models_of(r@) == posbar_sprites_spec(),
{
    let mut v: Vec<SpriteDefinition> = Vec::new();
    v.push(SpriteDefinition {
        name: String::from_str("MAIN_POSITION_SLIDER_BACKGROUND"),
        sprite_sheet: String::from_str("POSBAR.BMP"),
        x: 0,
        y: 0,
        width: 248,
        height: 10,
    });
    v.push(SpriteDefinition {
        name: String::from_str("MAIN_POSITION_SLIDER_THUMB"),
        sprite_sheet: String::from_str("POSBAR.BMP"),
        x: 248,
        y: 0,
        width: 29,
        height: 10,
    });
    v.push(SpriteDefinition {
        name: String::from_str("MAIN_POSITION_SLIDER_THUMB_SELECTED"),
        sprite_sheet: String::from_str("POSBAR.BMP"),
        x: 278,
        y: 0,
        width: 29,
        height: 10,
    });
    proof {
        assert(models_of(v@) =~= posbar_sprites_spec());
    }
    v
}

/// The window placements this module contributes, as mathematical values.
pub open spec fn posbar_window_sprites_spec() -> Seq<PlacementModel> {
    seq![
        PlacementModel { name: "MAIN_POSITION_SLIDER_BACKGROUND"@, sprite_name: "MAIN_POSITION_SLIDER_BACKGROUND"@, window_type: WindowType::Main, layer: 1, x: 17, y: 72, width: 248, height: 10 },
        PlacementModel { name: "MAIN_POSITION_SLIDER_THUMB"@, sprite_name: "MAIN_POSITION_SLIDER_THUMB"@, window_type: WindowType::Main, layer: 2, x: 17, y: 72, width: 29, height: 10 },
    ]
}

/// The window placements drawn from this sheet.
pub fn posbar_window_sprites() -> (r: Vec<SpriteWindowDefinition>)
    ensures
        placement_models_of(r@) == posbar_window_sprites_spec(),
{
    let mut v: Vec<SpriteWindowDefinition> = Vec::new();
    v.push(SpriteWindowDefinition {
        name: String::from_str("MAIN_POSITION_SLIDER_BACKGROUND"),
        sprite_name: String::from_str("MAIN_POSITION_SLIDER_BACKGROUND"),
        window_type: WindowType::Main,
        layer: 1,
        x: 17,
        y: 72,
        width: 248,
        height: 10,
    });
    v.push(SpriteWindowDefinition {
        name: String::from_str("MAIN_POSITION_SLIDER_THUMB"),
        sprite_name: String::from_str("MAIN_POSITION_SLIDER_THUMB"),
        window_type: WindowType::Main,
        layer: 2,
        x: 17,
        y: 72,
        width: 29,
        height: 10,
    });
    proof {
        assert(placement_models_of(v@) =~= posbar_window_sprites_spec());
    }
    v
}

} // verus!
