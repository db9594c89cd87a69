//! Sprite rectangles and placements for the mono/stereo indicator sheet.

use vstd::prelude::*;
use vstd::string::StringExecFns;

use crate::sprites::{models_of, placement_models_of, PlacementModel, SpriteDefinition, SpriteRectModel, SpriteWindowDefinition, WindowType};

verus! {

/// The sheet rectangles this module contributes, as mathematical values.
pub open spec fn monoster_sprites_spec() -> Seq<SpriteRectModel> {
    seq![
        SpriteRectModel { name: "MAIN_STEREO"@, sheet: "MONOSTER.BMP"@, x: 0, y: 12, width: 29, height: 12 },
        SpriteRectModel { name: "MAIN_STEREO_ACTIVE"@, sheet: "MONOSTER.BMP"@, x: 0, y: 0, width: 29, height: 12 },
        SpriteRectModel { name: "MAIN_MONO"@, sheet: "MONOSTER.BMP"@, x: 29, y: 12, width: 27, height: 12 },
        SpriteRectModel { name: "MAIN_MONO_ACTIVE"@, sheet: "MONOSTER.BMP"@, x: 29, y: 0, width: 27, height: 12 },
    ]
}

/// The sprite rectangles of this sheet.
pub fn monoster_sprites() -> (r: Vec<SpriteDefinition>)
    ensures
        models_of(r@) == monoster_sprites_spec(),
{
    let mut v: Vec<SpriteDefinition> = Vec::new();
    v.push(SpriteDefinition {
        name: String::from_str("MAIN_STEREO"),
        sprite_sheet: String::from_str("MONOSTER.BMP"),
        x: 0,
        y: 12,
        width: 29,
        height: 12,
    });
    v.push(SpriteDefinition {
        name: String::from_str("MAIN_STEREO_ACTIVE"),
        sprite_sheet: String::from_str("MONOSTER.BMP"),
        x: 0,
        y: 0,
        width: 29,
        height: 12,
    });
    v.push(SpriteDefinition {
        name: String::from_str("MAIN_MONO"),
        sprite_sheet: String::from_str("MONOSTER.BMP"),
        x: 29,
        y: 12,
        width: 27,
        height: 12,
    });
    v.push(SpriteDefinition {
        name: String::from_str("MAIN_MONO_ACTIVE"),
        sprite_sheet: String::from_str("MONOSTER.BMP"),
        x: 29,
        y: 0,
        width: 27,
        height: 12,
    });
    proof {
        assert(models_of(v@) =~= monoster_sprites_spec());
    }
    v
}

/// The window placements this module contributes, as mathematical values.
pub open spec fn monoster_window_sprites_spec() -> Seq<PlacementModel> {
    seq![
        PlacementModel { name: "MAIN_MONO"@, sprite_name: "MAIN_MONO"@, window_type: WindowType::Main, layer: 1, x: 212, y: 41, width: 27, height: 12 },
        PlacementModel { name: "MAIN_STEREO"@, sprite_name: "MAIN_STEREO"@, window_type: WindowType::Main, layer: 1, x: 239, y: 41, width: 29, height: 12 },
    ]
}

/// The window placements drawn from this sheet.
pub fn monoster_window_sprites() -> (r: Vec<SpriteWindowDefinition>)
    ensures
        placement_models_of(r@) == monoster_window_sprites_spec(),
{
    let mut v: Vec<SpriteWindowDefinition> = Vec::new();
    v.push(SpriteWindowDefinition {
        name: String::from_str("MAIN_MONO"),
        sprite_name: String::from_str("MAIN_MONO"),
        window_type: WindowType::Main,
        layer: 1,
        x: 212,
        y: 41,
        width: 27,
        height: 12,
    });
    v.push(SpriteWindowDefinition {
        name: String::from_str("MAIN_STEREO"),
        sprite_name: String::from_str("MAIN_STEREO"),
        window_type: WindowType::Main,
        layer: 1,
        x: 239,
        y: 41,
        width: 29,
        height: 12,
    });
    proof {
        assert(placement_models_of(v@) =~= monoster_window_sprites_spec());
    }
    v
}

} // verus!
