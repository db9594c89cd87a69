//! Laws relating the sheet extractor, the sheet composer and the window
//! compositor.

use vstd::prelude::*;

use crate::color::{transparency_key, RgbColor};
use crate::namemap::NameMap;
use crate::raster::{lemma_pixelwise_same_image, Raster};
use crate::sprites::{
    covers, is_sheet_composition, is_sheet_extraction, is_window_composite, painted_before,
    placed_x, placed_y, sheet_extent_h, sheet_extent_w, sprite_for, supplied_raster, supplies,
    wcovers, SpriteDefinition, SpriteRectModel, SpriteWindowDefinition,
};

verus! {

/// Two rectangles share no pixel.
pub open spec fn rects_disjoint(a: SpriteRectModel, b: SpriteRectModel) -> bool {
    ||| a.x + a.width <= b.x
    ||| b.x + b.width <= a.x
    ||| a.y + a.height <= b.y
    ||| b.y + b.height <= a.y
}

/// Whether catalog rectangle `i` belongs to sheet `sheet_name` and contains
/// pixel `(x, y)`.
pub open spec fn rect_covers(
    defs: NameMap<SpriteDefinition>,
    sheet_name: Seq<char>,
    i: int,
    x: int,
    y: int,
) -> bool {
    &&& 0 <= i < defs.len_spec()
    &&& defs.val_at(i).sprite_sheet@ == sheet_name
    &&& defs.val_at(i).x <= x < defs.val_at(i).x + defs.val_at(i).width
    &&& defs.val_at(i).y <= y < defs.val_at(i).y + defs.val_at(i).height
}

/// The catalog keys its rectangles by their own names, and every rectangle
/// of sheet `sheet_name` lies inside the sheet raster.
pub open spec fn rects_in_bounds(
    defs: NameMap<SpriteDefinition>,
    sheet: Raster,
    sheet_name: Seq<char>,
) -> bool {
    &&& defs.wf()
    &&& sheet.wf()
    &&& forall|i: int| 0 <= i < defs.len_spec()
        ==> #[trigger] defs.key_at(i) == defs.val_at(i).name@
    &&& forall|i: int|
        0 <= i < defs.len_spec() && #[trigger] defs.val_at(i).sprite_sheet@ == sheet_name
        ==> defs.val_at(i).x + defs.val_at(i).width <= sheet.width_spec()
            && defs.val_at(i).y + defs.val_at(i).height <= sheet.height_spec()
}

/// The hypotheses under which a sheet round-trips: the catalog keys its
/// rectangles by their own names, every rectangle of the sheet lies inside
/// the sheet raster, the rectangles are pairwise disjoint, and together they
/// reach the sheet's right and bottom edges.
pub open spec fn round_trip_pre(
    defs: NameMap<SpriteDefinition>,
    sheet: Raster,
    sheet_name: Seq<char>,
    sprites: NameMap<Raster>,
) -> bool {
    &&& rects_in_bounds(defs, sheet, sheet_name)
    &&& forall|i: int, j: int|
        0 <= i < defs.len_spec() && 0 <= j < defs.len_spec() && i != j
        && #[trigger] defs.val_at(i).sprite_sheet@ == sheet_name
        && #[trigger] defs.val_at(j).sprite_sheet@ == sheet_name
        ==> rects_disjoint(defs.val_at(i).model(), defs.val_at(j).model())
    &&& sheet_extent_w(defs, sprites, sheet_name) == sheet.width_spec()
    &&& sheet_extent_h(defs, sprites, sheet_name) == sheet.height_spec()
}

/// Under the round-trip hypotheses, each rectangle of the sheet is supplied
/// with its extracted raster, whose size is exactly the rectangle's.
proof fn lemma_extraction_supplies(
    defs: NameMap<SpriteDefinition>,
    sheet: Raster,
    sheet_name: Seq<char>,
    sprites: NameMap<Raster>,
)
    requires
        rects_in_bounds(defs, sheet, sheet_name),
        is_sheet_extraction(defs, sheet, sheet_name, sprites),
    ensures
        forall|i: int|
            0 <= i < defs.len_spec() && #[trigger] defs.val_at(i).sprite_sheet@ == sheet_name
            ==> supplies(defs, sprites, sheet_name, i)
                && supplied_raster(defs, sprites, i).wf()
                && supplied_raster(defs, sprites, i).width_spec() == defs.val_at(i).width
                && supplied_raster(defs, sprites, i).height_spec() == defs.val_at(i).height
                && forall|a: int, b: int|
                    0 <= a < defs.val_at(i).width && 0 <= b < defs.val_at(i).height
                    ==> supplied_raster(defs, sprites, i).pix(a, b)
                        == sheet.pix(defs.val_at(i).x + a, defs.val_at(i).y + b),
        forall|i: int, x: int, y: int|
            #[trigger] covers(defs, sprites, sheet_name, i, x, y)
            ==> rect_covers(defs, sheet_name, i, x, y),
        forall|i: int, x: int, y: int|
            #[trigger] rect_covers(defs, sheet_name, i, x, y)
            ==> covers(defs, sprites, sheet_name, i, x, y),
{
    assert forall|i: int|
        0 <= i < defs.len_spec() && #[trigger] defs.val_at(i).sprite_sheet@ == sheet_name
        implies supplies(defs, sprites, sheet_name, i)
            && supplied_raster(defs, sprites, i).wf()
            && supplied_raster(defs, sprites, i).width_spec() == defs.val_at(i).width
            && supplied_raster(defs, sprites, i).height_spec() == defs.val_at(i).height
            && forall|a: int, b: int|
                0 <= a < defs.val_at(i).width && 0 <= b < defs.val_at(i).height
                ==> supplied_raster(defs, sprites, i).pix(a, b)
                    == sheet.pix(defs.val_at(i).x + a, defs.val_at(i).y + b) by {
        let name = defs.val_at(i).name@;
        defs.lemma_view_at(i);
        assert(defs.key_at(i) == name);
        assert(defs.map_view().contains_key(name));
        assert(defs.map_view()[name] == defs.val_at(i));
        assert(sprites.map_view().contains_key(name));
        assert(sprites.has_key(name) == sprites.map_view().contains_key(name));
    }
    assert forall|i: int, x: int, y: int|
        #[trigger] covers(defs, sprites, sheet_name, i, x, y)
        implies rect_covers(defs, sheet_name, i, x, y) by {}
    assert forall|i: int, x: int, y: int|
        #[trigger] rect_covers(defs, sheet_name, i, x, y)
        implies covers(defs, sprites, sheet_name, i, x, y) by {}
}

/// Round trip. For a sheet whose catalog rectangles are disjoint, lie inside
/// the sheet and reach its edges, composing the extracted sprites reproduces
/// the sheet exactly on every pixel inside some rectangle, while every pixel
/// outside all rectangles becomes the transparency-key color.
pub proof fn lemma_compose_extract_round_trip(
    defs: NameMap<SpriteDefinition>,
    sheet: Raster,
    sheet_name: Seq<char>,
    sprites: NameMap<Raster>,
    composed: Raster,
)
    requires
        round_trip_pre(defs, sheet, sheet_name, sprites),
        is_sheet_extraction(defs, sheet, sheet_name, sprites),
        is_sheet_composition(defs, sprites, sheet_name, composed),
    ensures
        composed.wf(),
        composed.width_spec() == sheet.width_spec(),
        composed.height_spec() == sheet.height_spec(),
        forall|i: int, x: int, y: int|
            #[trigger] rect_covers(defs, sheet_name, i, x, y)
            ==> composed.pix(x, y) == sheet.pix(x, y),
        forall|x: int, y: int|
            0 <= x < sheet.width_spec() && 0 <= y < sheet.height_spec()
            && (forall|i: int| 0 <= i < defs.len_spec()
                ==> !rect_covers(defs, sheet_name, i, x, y))
            ==> composed.pix(x, y) == transparency_key(),
{
    lemma_extraction_supplies(defs, sheet, sheet_name, sprites);
    assert forall|i: int, x: int, y: int|
        #[trigger] rect_covers(defs, sheet_name, i, x, y)
        implies composed.pix(x, y) == sheet.pix(x, y) by {
        let d = defs.val_at(i);
        assert(covers(defs, sprites, sheet_name, i, x, y));
        assert forall|j: int| i < j < defs.len_spec()
            implies !covers(defs, sprites, sheet_name, j, x, y) by {
            if covers(defs, sprites, sheet_name, j, x, y) {
                assert(rect_covers(defs, sheet_name, j, x, y));
                assert(rects_disjoint(d.model(), defs.val_at(j).model()));
                assert(false);
            }
        }
        let spr = supplied_raster(defs, sprites, i);
        assert(composed.pix(x, y) == spr.pix(x - d.x, y - d.y));
        assert(spr.pix(x - d.x, y - d.y) == sheet.pix(d.x + (x - d.x), d.y + (y - d.y)));
    }
    assert forall|x: int, y: int|
        0 <= x < sheet.width_spec() && 0 <= y < sheet.height_spec()
        && (forall|i: int| 0 <= i < defs.len_spec()
            ==> !rect_covers(defs, sheet_name, i, x, y))
        implies composed.pix(x, y) == transparency_key() by {
        assert forall|i: int| 0 <= i < defs.len_spec()
            implies !covers(defs, sprites, sheet_name, i, x, y) by {
            if covers(defs, sprites, sheet_name, i, x, y) {
                assert(rect_covers(defs, sheet_name, i, x, y));
            }
        }
    }
}

/// Idempotence. Extracting the sprites of a composed sheet and composing
/// them again yields the same raster: applying compose-after-extract twice
/// equals applying it once.
pub proof fn lemma_compose_extract_idempotent(
    defs: NameMap<SpriteDefinition>,
    sheet: Raster,
    sheet_name: Seq<char>,
    sprites1: NameMap<Raster>,
    composed1: Raster,
    sprites2: NameMap<Raster>,
    composed2: Raster,
)
    requires
        round_trip_pre(defs, sheet, sheet_name, sprites1),
        is_sheet_extraction(defs, sheet, sheet_name, sprites1),
        is_sheet_composition(defs, sprites1, sheet_name, composed1),
        is_sheet_extraction(defs, composed1, sheet_name, sprites2),
        is_sheet_composition(defs, sprites2, sheet_name, composed2),
    ensures
        composed2.same_image(composed1),
{
    lemma_compose_extract_round_trip(defs, sheet, sheet_name, sprites1, composed1);
    lemma_extraction_supplies(defs, sheet, sheet_name, sprites1);
    assert(rects_in_bounds(defs, composed1, sheet_name));
    lemma_extraction_supplies(defs, composed1, sheet_name, sprites2);
    assert forall|i: int| 0 <= i < defs.len_spec()
        implies ((#[trigger] supplies(defs, sprites1, sheet_name, i))
            <==> supplies(defs, sprites2, sheet_name, i)) by {
        if supplies(defs, sprites1, sheet_name, i) {
            assert(defs.val_at(i).sprite_sheet@ == sheet_name);
        }
        if supplies(defs, sprites2, sheet_name, i) {
            assert(defs.val_at(i).sprite_sheet@ == sheet_name);
        }
    }
    assert forall|i: int| 0 <= i < defs.len_spec()
        && #[trigger] supplies(defs, sprites1, sheet_name, i)
        implies supplied_raster(defs, sprites1, i).width_spec()
            == supplied_raster(defs, sprites2, i).width_spec()
            && supplied_raster(defs, sprites1, i).height_spec()
                == supplied_raster(defs, sprites2, i).height_spec() by {
        assert(defs.val_at(i).sprite_sheet@ == sheet_name);
    }
    lemma_extent_congruent(defs, sprites1, sprites2, sheet_name, defs.len_spec() as int);
    assert(composed2.width_spec() == composed1.width_spec());
    assert(composed2.height_spec() == composed1.height_spec());
    assert forall|x: int, y: int|
        0 <= x < composed2.width_spec() && 0 <= y < composed2.height_spec()
        implies composed2.pix(x, y) == composed1.pix(x, y) by {
        if exists|i: int| #[trigger] rect_covers(defs, sheet_name, i, x, y) {
            let i = choose|i: int| #[trigger] rect_covers(defs, sheet_name, i, x, y);
            let d = defs.val_at(i);
            assert(covers(defs, sprites2, sheet_name, i, x, y));
            assert forall|j: int| i < j < defs.len_spec()
                implies !covers(defs, sprites2, sheet_name, j, x, y) by {
                if covers(defs, sprites2, sheet_name, j, x, y) {
                    assert(rect_covers(defs, sheet_name, j, x, y));
                    assert(rects_disjoint(d.model(), defs.val_at(j).model()));
                    assert(false);
                }
            }
            let spr2 = supplied_raster(defs, sprites2, i);
            assert(composed2.pix(x, y) == spr2.pix(x - d.x, y - d.y));
            assert(spr2.pix(x - d.x, y - d.y) == composed1.pix(d.x + (x - d.x), d.y + (y - d.y)));
        } else {
            assert forall|i: int| 0 <= i < defs.len_spec()
                implies !covers(defs, sprites2, sheet_name, i, x, y)
                    && !covers(defs, sprites1, sheet_name, i, x, y) by {
                if covers(defs, sprites2, sheet_name, i, x, y) {
                    assert(rect_covers(defs, sheet_name, i, x, y));
                }
                if covers(defs, sprites1, sheet_name, i, x, y) {
                    assert(rect_covers(defs, sheet_name, i, x, y));
                }
            }
            assert(composed2.pix(x, y) == transparency_key());
            assert(composed1.pix(x, y) == transparency_key());
        }
    }
    lemma_pixelwise_same_image(composed2, composed1);
}

/// Two supplied-raster tables that agree per entry on presence and size
/// give the same extents.
proof fn lemma_extent_congruent(
    defs: NameMap<SpriteDefinition>,
    s1: NameMap<Raster>,
    s2: NameMap<Raster>,
    sheet_name: Seq<char>,
    n: int,
)
    requires
        0 <= n <= defs.len_spec(),
        forall|i: int| 0 <= i < defs.len_spec()
            ==> ((#[trigger] supplies(defs, s1, sheet_name, i)) <==> supplies(defs, s2, sheet_name, i)),
        forall|i: int| 0 <= i < defs.len_spec() && #[trigger] supplies(defs, s1, sheet_name, i)
            ==> supplied_raster(defs, s1, i).width_spec() == supplied_raster(defs, s2, i).width_spec()
                && supplied_raster(defs, s1, i).height_spec()
                    == supplied_raster(defs, s2, i).height_spec(),
    ensures
        crate::sprites::extent_w_upto(defs, s1, sheet_name, n)
            == crate::sprites::extent_w_upto(defs, s2, sheet_name, n),
        crate::sprites::extent_h_upto(defs, s1, sheet_name, n)
            == crate::sprites::extent_h_upto(defs, s2, sheet_name, n),
    decreases n,
{
    if n > 0 {
        lemma_extent_congruent(defs, s1, s2, sheet_name, n - 1);
        assert(supplies(defs, s1, sheet_name, n - 1) <==> supplies(defs, s2, sheet_name, n - 1));
        assert(crate::sprites::counted(defs, s1, sheet_name, n - 1)
            <==> crate::sprites::counted(defs, s2, sheet_name, n - 1));
        if crate::sprites::counted(defs, s1, sheet_name, n - 1) {
            assert(supplied_raster(defs, s1, n - 1).width_spec()
                == supplied_raster(defs, s2, n - 1).width_spec());
            assert(supplied_raster(defs, s1, n - 1).height_spec()
                == supplied_raster(defs, s2, n - 1).height_spec());
        }
    }
}

/// Layering. Where placements on layers 0 and 1 both cover a pixel and no
/// other placement covers it, the layer-1 sprite's pixel is what the
/// composite shows.
pub proof fn lemma_layering_higher_wins(
    defs: NameMap<SpriteWindowDefinition>,
    sprites: NameMap<Raster>,
    bg: RgbColor,
    img: Raster,
    i0: int,
    i1: int,
    x: int,
    y: int,
)
    requires
        is_window_composite(defs, sprites, bg, img),
        wcovers(defs, sprites, i0, x, y),
        wcovers(defs, sprites, i1, x, y),
        defs.val_at(i0).layer == 0,
        defs.val_at(i1).layer == 1,
        forall|k: int| #[trigger] wcovers(defs, sprites, k, x, y) ==> k == i0 || k == i1,
    ensures
        img.pix(x, y) == sprite_for(defs, sprites, i1)
            .pix(x - placed_x(defs.val_at(i1).model()), y - placed_y(defs.val_at(i1).model())),
{
    assert(i0 != i1);
    assert forall|j: int| #[trigger] wcovers(defs, sprites, j, x, y) && j != i1
        implies painted_before(defs, j, i1) by {
        assert(j == i0);
    }
}

/// Layering. Where only a layer-0 placement covers a pixel, its sprite's
/// pixel is what the composite shows: a lower layer stays visible exactly
/// where the higher layers leave it uncovered.
pub proof fn lemma_layering_uncovered_shows_lower(
    defs: NameMap<SpriteWindowDefinition>,
    sprites: NameMap<Raster>,
    bg: RgbColor,
    img: Raster,
    i0: int,
    x: int,
    y: int,
)
    requires
        is_window_composite(defs, sprites, bg, img),
        wcovers(defs, sprites, i0, x, y),
        forall|k: int| #[trigger] wcovers(defs, sprites, k, x, y) ==> k == i0,
    ensures
        img.pix(x, y) == sprite_for(defs, sprites, i0)
            .pix(x - placed_x(defs.val_at(i0).model()), y - placed_y(defs.val_at(i0).model())),
{
    assert forall|j: int| #[trigger] wcovers(defs, sprites, j, x, y) && j != i0
        implies painted_before(defs, j, i0) by {}
}

} // verus!
