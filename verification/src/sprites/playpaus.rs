//! Sprite rectangles and placements for the playback indicator sheet.

use vstd::prelude::*;
use vstd::string::StringExecFns;

use crate::sprites::{models_of, placement_models_of, PlacementModel, SpriteDefinition, SpriteRectModel, SpriteWindowDefinition, WindowType};

verus! {

/// The sheet rectangles this module contributes, as mathematical values.
pub open spec fn playpaus_sprites_spec() -> Seq<SpriteRectModel> {
    seq![
        SpriteRectModel { name: "MAIN_PLAYING_INDICATOR"@, sheet: "PLAYPAUS.BMP"@, x: 0, y: 0, width: 9, height: 9 },
        SpriteRectModel { name: "MAIN_PAUSED_INDICATOR"@, sheet: "PLAYPAUS.BMP"@, x: 9, y: 0, width: 9, height: 9 },
        SpriteRectModel { name: "MAIN_STOPPED_INDICATOR"@, sheet: "PLAYPAUS.BMP"@, x: 18, y: 0, width: 9, height: 9 },
        SpriteRectModel { name: "MAIN_NOT_WORKING_INDICATOR"@, sheet: "PLAYPAUS.BMP"@, x: 36, y: 0, width: 3, height: 9 },
        SpriteRectModel { name: "MAIN_WORKING_INDICATOR"@, sheet: "PLAYPAUS.BMP"@, x: 39, y: 0, width: 3, height: 9 },
    ]
}

/// The sprite rectangles of this sheet.
pub fn playpaus_sprites() -> (r: Vec<SpriteDefinition>)
    ensures
        models_of(r@) == playpaus_sprites_spec(),
{
    let mut v: Vec<SpriteDefinition> = Vec::new();
    v.push(SpriteDefinition {
        name: String::from_str("MAIN_PLAYING_INDICATOR"),
        sprite_sheet: String::from_str("PLAYPAUS.BMP"),
        x: 0,
        y: 0,
        width: 9,
        height: 9,
    });
    v.push(SpriteDefinition {
        name: String::from_str("MAIN_PAUSED_INDICATOR"),
        sprite_sheet: String::from_str("PLAYPAUS.BMP"),
        x: 9,
        y: 0,
        width: 9,
        height: 9,
    });
    v.push(SpriteDefinition {
        name: String::from_str("MAIN_STOPPED_INDICATOR"),
        sprite_sheet: String::from_str("PLAYPAUS.BMP"),
        x: 18,
        y: 0,
        width: 9,
        height: 9,
    });
    v.push(SpriteDefinition {
        name: String::from_str("MAIN_NOT_WORKING_INDICATOR"),
        sprite_sheet: String::from_str("PLAYPAUS.BMP"),
        x: 36,
        y: 0,
        width: 3,
        height: 9,
    });
    v.push(SpriteDefinition {
        name: String::from_str("MAIN_WORKING_INDICATOR"),
        sprite_sheet: String::from_str("PLAYPAUS.BMP"),
        x: 39,
        y: 0,
        width: 3,
        height: 9,
    });
    proof {
        assert(models_of(v@) =~= playpaus_sprites_spec());
    }
    v
}

/// The window placements this module contributes, as mathematical values.
pub open spec fn playpaus_window_sprites_spec() -> Seq<PlacementModel> {
    seq![
        PlacementModel { name: "MAIN_STOPPED_INDICATOR"@, sprite_name: "MAIN_STOPPED_INDICATOR"@, window_type: WindowType::Main, layer: 1, x: 26, y: 28, width: 9, height: 9 },
    ]
}

/// The window placements drawn from this sheet.
pub fn playpaus_window_sprites() -> (r: Vec<SpriteWindowDefinition>)
    ensures
        placement_models_of(r@) == playpaus_window_sprites_spec(),
{
    let mut v: Vec<SpriteWindowDefinition> = Vec::new();
    v.push(SpriteWindowDefinition {
        name: String::from_str("MAIN_STOPPED_INDICATOR"),
        sprite_name: String::from_str("MAIN_STOPPED_INDICATOR"),
        window_type: WindowType::Main,
        layer: 1,
        x: 26,
        y: 28,
        width: 9,
        height: 9,
    });
    proof {
        assert(placement_models_of(v@) =~= playpaus_window_sprites_spec());
    }
    v
}

} // verus!
