//! Sprite rectangles and placements for the main window background sheet.

use vstd::prelude::*;
use vstd::string::StringExecFns;

use crate::sprites::{models_of, placement_models_of, PlacementModel, SpriteDefinition, SpriteRectModel, SpriteWindowDefinition, WindowType};

verus! {

/// The sheet rectangles this module contributes, as mathematical values.
pub open spec fn main_sprites_spec() -> Seq<SpriteRectModel> {
    seq![
        SpriteRectModel { name: "MAIN_WINDOW_BACKGROUND"@, sheet: "MAIN.BMP"@, x: 0, y: 0, width: 275, height: 116 },
    ]
}

/// The sprite rectangles of this sheet.
pub fn main_sprites() -> (r: Vec<SpriteDefinition>)
    ensures
        models_of(r@) == main_sprites_spec(),
{
    let mut v: Vec<SpriteDefinition> = Vec::new();
    v.push(SpriteDefinition {
        name: String::from_str("MAIN_WINDOW_BACKGROUND"),
        sprite_sheet: String::from_str("MAIN.BMP"),
        x: 0,
        y: 0,
        width: 275,
        height: 116,
    });
    proof {
        assert(models_of(v@) =~= main_sprites_spec());
    }
    v
}

/// The window placements this module contributes, as mathematical values.
pub open spec fn main_window_sprites_spec() -> Seq<PlacementModel> {
    seq![
        PlacementModel { name: "MAIN_WINDOW_BACKGROUND"@, sprite_name: "MAIN_WINDOW_BACKGROUND"@, window_type: WindowType::Main, layer: 0, x: 0, y: 0, width: 275, height: 116 },
    ]
}

/// The window placements drawn from this sheet.
pub fn main_window_sprites() -> (r: Vec<SpriteWindowDefinition>)
    ensures
        placement_models_of(r@) == main_window_sprites_spec(),
{
    let mut v: Vec<SpriteWindowDefinition> = Vec::new();
    v.push(SpriteWindowDefinition {
        name: String::from_str("MAIN_WINDOW_BACKGROUND"),
        sprite_name: String::from_str("MAIN_WINDOW_BACKGROUND"),
        window_type: WindowType::Main,
        layer: 0,
        x: 0,
        y: 0,
        width: 275,
        height: 116,
    });
    proof {
        assert(placement_models_of(v@) =~= main_window_sprites_spec());
    }
    v
}

} // verus!
