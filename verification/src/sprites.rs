//! Sprite catalogs, the sheet extractor and composer, and the window
//! compositor that assembles element images into one preview raster.

pub mod main;
pub mod monoster;
pub mod playpaus;
pub mod posbar;
pub mod text;

use vstd::prelude::*;
use vstd::string::StringExecFns;

use crate::archive::WszArchive;
use crate::color::{transparency_key, transparency_key_color, RgbColor, RgbaColor};
use crate::error::WszError;
use crate::namemap::NameMap;
use crate::raster::Raster;
use crate::strutil::str_eq;

verus! {

/// A sprite image cut from a sheet.
pub type SpriteImage = Raster;

/// Represents a sprite within a sprite sheet.
#[derive(Debug, Clone)]
pub struct SpriteDefinition {
    /// Name of the sprite.
    pub name: String,
    /// Name of the sprite sheet.
    pub sprite_sheet: String,
    /// X position (from left).
    pub x: u32,
    /// Y position (from top).
    pub y: u32,
    /// Width in pixels.
    pub width: u32,
    /// Height in pixels.
    pub height: u32,
}

/// The mathematical content of a sprite definition.
pub ghost struct SpriteRectModel {
    pub name: Seq<char>,
    pub sheet: Seq<char>,
    pub x: u32,
    pub y: u32,
    pub width: u32,
    pub height: u32,
}

impl SpriteDefinition {
    /// The definition's mathematical content.
    pub open spec fn model(self) -> SpriteRectModel {
        SpriteRectModel {
            name: self.name@,
            sheet: self.sprite_sheet@,
            x: self.x,
            y: self.y,
            width: self.width,
            height: self.height,
        }
    }
}

/// The models of a list of definitions.
pub open spec fn models_of(defs: Seq<SpriteDefinition>) -> Seq<SpriteRectModel> {
    defs.map_values(|d: SpriteDefinition| d.model())
}

/// The sixteen sheet file names a skin may contain.
pub open spec fn sheet_names_spec() -> Seq<Seq<char>> {
    seq![
        "BALANCE.BMP"@,
        "CBUTTONS.BMP"@,
        "MAIN.BMP"@,
        "MONOSTER.BMP"@,
        "NUMBERS.BMP"@,
        "NUMS_EX.BMP"@,
        "PLAYPAUS.BMP"@,
        "PLEDIT.BMP"@,
        "EQ_EX.BMP"@,
        "EQMAIN.BMP"@,
        "POSBAR.BMP"@,
        "SHUFREP.BMP"@,
        "TEXT.BMP"@,
        "TITLEBAR.BMP"@,
        "VOLUME.BMP"@,
        "GEN.BMP"@,
    ]
}

/// Whether `name` is one of the known sheet file names.
pub open spec fn is_known_sheet(name: Seq<char>) -> bool {
    sheet_names_spec().contains(name)
}

/// The width the extractor cuts for `d` out of `sheet`: clipped to the sheet,
/// zero when the origin lies outside it.
pub open spec fn clip_w(d: SpriteRectModel, sheet: Raster) -> int {
    if d.x > sheet.width_spec() || d.y > sheet.height_spec() {
        0
    } else if d.x + d.width > sheet.width_spec() {
        sheet.width_spec() - d.x
    } else {
        d.width as int
    }
}

/// The height the extractor cuts for `d` out of `sheet`.
pub open spec fn clip_h(d: SpriteRectModel, sheet: Raster) -> int {
    if d.x > sheet.width_spec() || d.y > sheet.height_spec() {
        0
    } else if d.y + d.height > sheet.height_spec() {
        sheet.height_spec() - d.y
    } else {
        d.height as int
    }
}

/// `r` is exactly the sprite that definition `d` cuts out of `sheet`:
/// the rectangle clipped to the sheet, pixels copied verbatim.
pub open spec fn is_extracted(d: SpriteRectModel, sheet: Raster, r: Raster) -> bool {
    &&& r.wf()
    &&& r.width_spec() == clip_w(d, sheet)
    &&& r.height_spec() == clip_h(d, sheet)
    &&& forall|x: int, y: int|
        0 <= x < clip_w(d, sheet) && 0 <= y < clip_h(d, sheet)
        ==> r.pix(x, y) == sheet.pix(d.x + x, d.y + y)
}

/// Extracts sprites from sprite sheets of a skin archive.
#[derive(Debug, Clone)]
pub struct SpriteManager {
    definitions: NameMap<SpriteDefinition>,
}

impl SpriteManager {
    /// The catalog of sprite definitions.
    pub closed spec fn defs(self) -> NameMap<SpriteDefinition> {
        self.definitions
    }

    /// Well-formed: the catalog keys are unique.
    pub open spec fn wf(self) -> bool {
        self.defs().wf()
    }

    /// Returns the names of all known sprite sheets.
    pub fn sprite_sheet_names() -> (r: Vec<String>)
        ensures
            r@.len() == sheet_names_spec().len(),
            forall|i: int| 0 <= i < r@.len() ==> r@[i]@ == sheet_names_spec()[i],
    {
        let mut v: Vec<String> = Vec::new();
        v.push(String::from_str("BALANCE.BMP"));
        v.push(String::from_str("CBUTTONS.BMP"));
        v.push(String::from_str("MAIN.BMP"));
        v.push(String::from_str("MONOSTER.BMP"));
        v.push(String::from_str("NUMBERS.BMP"));
        v.push(String::from_str("NUMS_EX.BMP"));
        v.push(String::from_str("PLAYPAUS.BMP"));
        v.push(String::from_str("PLEDIT.BMP"));
        v.push(String::from_str("EQ_EX.BMP"));
        v.push(String::from_str("EQMAIN.BMP"));
        v.push(String::from_str("POSBAR.BMP"));
        v.push(String::from_str("SHUFREP.BMP"));
        v.push(String::from_str("TEXT.BMP"));
        v.push(String::from_str("TITLEBAR.BMP"));
        v.push(String::from_str("VOLUME.BMP"));
        v.push(String::from_str("GEN.BMP"));
        v
    }

    /// Returns a sprite definition by name.
    pub fn get_sprite_definition(&self, name: &str) -> (r: Option<&SpriteDefinition>)
        requires
            self.wf(),
        ensures
            match r {
                Some(d) => self.defs().map_view().contains_key(name@)
                    && *d == self.defs().map_view()[name@],
                None => !self.defs().map_view().contains_key(name@),
            },
    {
        self.definitions.get(name)
    }

    /// Returns all sprite definitions.
    pub fn get_sprite_definitions(&self) -> (r: &NameMap<SpriteDefinition>)
        ensures
            *r == self.defs(),
    {
        &self.definitions
    }

    /// Extracts the named sprite from a sheet raster. A rectangle whose
    /// origin lies outside the sheet yields an empty raster; one that
    /// extends past an edge is clipped. Only an unknown name is an error.
    pub fn extract_sprite(&self, name: &str, sprite_sheet: &Raster) -> (r: Result<Raster, WszError>)
        requires
            self.wf(),
            sprite_sheet.wf(),
        ensures
            match r {
                Ok(img) => self.defs().map_view().contains_key(name@)
                    && is_extracted(self.defs().map_view()[name@].model(), *sprite_sheet, img),
                Err(e) => !self.defs().map_view().contains_key(name@)
                    && (e matches WszError::ArgumentError(m) && m@ == sprite_not_found_msg(name@)),
            },
    {
        let def = match self.definitions.get(name) {
            Some(d) => d,
            None => {
                return Err(WszError::ArgumentError(sprite_not_found_message(name)));
            },
        };
        let sheet_w = sprite_sheet.width();
        let sheet_h = sprite_sheet.height();
        if def.x > sheet_w || def.y > sheet_h {
            return Ok(Raster::new_filled(0, 0, transparency_key_color()));
        }
        let w: u32 = if (def.x as u64) + (def.width as u64) > (sheet_w as u64) {
            sheet_w - def.x
        } else {
            def.width
        };
        let h: u32 = if (def.y as u64) + (def.height as u64) > (sheet_h as u64) {
            sheet_h - def.y
        } else {
            def.height
        };
        Ok(sprite_sheet.crop(def.x, def.y, w, h))
    }
}

/// Whether catalog entry `i` supplies a raster for sheet `sheet`.
pub open spec fn supplies(
    defs: NameMap<SpriteDefinition>,
    sprites: NameMap<Raster>,
    sheet: Seq<char>,
    i: int,
) -> bool {
    &&& 0 <= i < defs.len_spec()
    &&& defs.val_at(i).sprite_sheet@ == sheet
    &&& sprites.has_key(defs.val_at(i).name@)
}

/// The raster supplied for catalog entry `i`.
pub open spec fn supplied_raster(
    defs: NameMap<SpriteDefinition>,
    sprites: NameMap<Raster>,
    i: int,
) -> Raster {
    sprites.map_view()[defs.val_at(i).name@]
}

/// Whether entry `i` supplies a raster with at least one pixel; only such
/// entries influence the composed sheet.
pub open spec fn counted(
    defs: NameMap<SpriteDefinition>,
    sprites: NameMap<Raster>,
    sheet: Seq<char>,
    i: int,
) -> bool {
    &&& supplies(defs, sprites, sheet, i)
    &&& supplied_raster(defs, sprites, i).width_spec() > 0
    &&& supplied_raster(defs, sprites, i).height_spec() > 0
}

/// The width needed by the first `n` entries: the maximum right edge of
/// any counted entry's supplied raster placed at its rectangle origin.
pub open spec fn extent_w_upto(
    defs: NameMap<SpriteDefinition>,
    sprites: NameMap<Raster>,
    sheet: Seq<char>,
    n: int,
) -> int
    decreases n,
{
    if n <= 0 {
        0
    } else {
        let rest = extent_w_upto(defs, sprites, sheet, n - 1);
        if counted(defs, sprites, sheet, n - 1) {
            let edge = defs.val_at(n - 1).x + supplied_raster(defs, sprites, n - 1).width_spec();
            if edge > rest { edge } else { rest }
        } else {
            rest
        }
    }
}

/// The height needed by the first `n` entries.
pub open spec fn extent_h_upto(
    defs: NameMap<SpriteDefinition>,
    sprites: NameMap<Raster>,
    sheet: Seq<char>,
    n: int,
) -> int
    decreases n,
{
    if n <= 0 {
        0
    } else {
        let rest = extent_h_upto(defs, sprites, sheet, n - 1);
        if counted(defs, sprites, sheet, n - 1) {
            let edge = defs.val_at(n - 1).y + supplied_raster(defs, sprites, n - 1).height_spec();
            if edge > rest { edge } else { rest }
        } else {
            rest
        }
    }
}

/// The width of the composed sheet.
pub open spec fn sheet_extent_w(
    defs: NameMap<SpriteDefinition>,
    sprites: NameMap<Raster>,
    sheet: Seq<char>,
) -> int {
    extent_w_upto(defs, sprites, sheet, defs.len_spec() as int)
}

/// The height of the composed sheet.
pub open spec fn sheet_extent_h(
    defs: NameMap<SpriteDefinition>,
    sprites: NameMap<Raster>,
    sheet: Seq<char>,
) -> int {
    extent_h_upto(defs, sprites, sheet, defs.len_spec() as int)
}

/// Whether entry `i`'s supplied raster covers sheet pixel `(x, y)`.
pub open spec fn covers(
    defs: NameMap<SpriteDefinition>,
    sprites: NameMap<Raster>,
    sheet: Seq<char>,
    i: int,
    x: int,
    y: int,
) -> bool {
    &&& supplies(defs, sprites, sheet, i)
    &&& defs.val_at(i).x <= x < defs.val_at(i).x + supplied_raster(defs, sprites, i).width_spec()
    &&& defs.val_at(i).y <= y < defs.val_at(i).y + supplied_raster(defs, sprites, i).height_spec()
}

/// Every counted entry fits within the extents.
pub proof fn lemma_extent_upto_bounds(
    defs: NameMap<SpriteDefinition>,
    sprites: NameMap<Raster>,
    sheet: Seq<char>,
    n: int,
)
    requires
        0 <= n,
    ensures
        0 <= extent_w_upto(defs, sprites, sheet, n),
        0 <= extent_h_upto(defs, sprites, sheet, n),
        forall|i: int| 0 <= i < n && #[trigger] counted(defs, sprites, sheet, i)
            ==> defs.val_at(i).x + supplied_raster(defs, sprites, i).width_spec()
                <= extent_w_upto(defs, sprites, sheet, n)
            && defs.val_at(i).y + supplied_raster(defs, sprites, i).height_spec()
                <= extent_h_upto(defs, sprites, sheet, n),
    decreases n,
{
    if n > 0 {
        lemma_extent_upto_bounds(defs, sprites, sheet, n - 1);
    }
}

/// `img` is the composition of the supplied rasters for sheet `sheet`:
/// a canvas of exactly the extents, transparency-key where no supplied
/// raster covers, and elsewhere the pixel of the last covering entry in
/// catalog order.
pub open spec fn is_sheet_composition(
    defs: NameMap<SpriteDefinition>,
    sprites: NameMap<Raster>,
    sheet: Seq<char>,
    img: Raster,
) -> bool {
    &&& img.wf()
    &&& img.width_spec() == sheet_extent_w(defs, sprites, sheet)
    &&& img.height_spec() == sheet_extent_h(defs, sprites, sheet)
    &&& forall|x: int, y: int|
        0 <= x < img.width_spec() && 0 <= y < img.height_spec()
        && (forall|i: int| 0 <= i < defs.len_spec() ==> !covers(defs, sprites, sheet, i, x, y))
        ==> img.pix(x, y) == transparency_key()
    &&& forall|i: int, x: int, y: int|
        #[trigger] covers(defs, sprites, sheet, i, x, y)
        && (forall|j: int| i < j < defs.len_spec() ==> !covers(defs, sprites, sheet, j, x, y))
        ==> img.pix(x, y) == supplied_raster(defs, sprites, i)
            .pix(x - defs.val_at(i).x, y - defs.val_at(i).y)
}

/// `sprites` maps exactly the catalog names of sheet `sheet` to the
/// sprites extracted from `sheet_raster`.
pub open spec fn is_sheet_extraction(
    defs: NameMap<SpriteDefinition>,
    sheet_raster: Raster,
    sheet: Seq<char>,
    sprites: NameMap<Raster>,
) -> bool {
    &&& sprites.wf()
    &&& forall|k: Seq<char>| #[trigger] sprites.map_view().contains_key(k)
        <==> (defs.map_view().contains_key(k) && defs.map_view()[k].sprite_sheet@ == sheet)
    &&& forall|k: Seq<char>| #[trigger] sprites.map_view().contains_key(k)
        ==> is_extracted(defs.map_view()[k].model(), sheet_raster, sprites.map_view()[k])
}

/// The text of the error for a composed sheet whose extents exceed what a
/// raster can hold.
pub open spec fn sheet_too_large_msg() -> Seq<char> {
    "reconstructed sprite sheet is too large"@
}

impl SpriteManager {
    /// Reconstructs a sheet raster from supplied sprite rasters: a canvas
    /// sized to the maximum extents of the supplied, non-empty rasters,
    /// pre-filled with the transparency-key color, each raster then painted
    /// at its rectangle origin in catalog order, opaque overwrite.
    #[verifier::loop_isolation(false)]
    pub fn construct_sprite_sheet(
        &self,
        sprites: &NameMap<Raster>,
        sprite_sheet_name: &str,
    ) -> (r: Result<Raster, WszError>)
        requires
            self.wf(),
            sprites.wf(),
            forall|k: Seq<char>| #[trigger] sprites.map_view().contains_key(k)
                ==> sprites.map_view()[k].wf(),
        ensures
            ({
                let ew = sheet_extent_w(self.defs(), *sprites, sprite_sheet_name@);
                let eh = sheet_extent_h(self.defs(), *sprites, sprite_sheet_name@);
                match r {
                    Ok(img) => {
                        &&& ew <= u32::MAX
                        &&& eh <= u32::MAX
                        &&& ew * eh <= usize::MAX
                        &&& is_sheet_composition(self.defs(), *sprites, sprite_sheet_name@, img)
                    },
                    Err(e) => {
                        &&& (ew > u32::MAX || eh > u32::MAX || ew * eh > usize::MAX)
                        &&& (e matches WszError::ArgumentError(m) && m@ == sheet_too_large_msg())
                    },
                }
            }),
    {
        let ghost gdefs = self.defs();
        let ghost gsheet = sprite_sheet_name@;
        let n = self.definitions.len();

        let mut ew: u64 = 0;
        let mut eh: u64 = 0;
        let mut i: usize = 0;
        while i < n
            invariant
                i <= n,
                ew == extent_w_upto(gdefs, *sprites, gsheet, i as int),
                eh == extent_h_upto(gdefs, *sprites, gsheet, i as int),
                ew <= u32::MAX as u64 + u32::MAX as u64,
                eh <= u32::MAX as u64 + u32::MAX as u64,
            decreases n - i,
        {
            let def = self.definitions.val_ref(i);
            if str_eq(def.sprite_sheet.as_str(), sprite_sheet_name) {
                match sprites.get(def.name.as_str()) {
                    Some(spr) => {
                        if spr.width() > 0 && spr.height() > 0 {
                            proof {
                                assert(counted(gdefs, *sprites, gsheet, i as int));
                            }
                            let cw: u64 = (def.x as u64) + (spr.width() as u64);
                            let ch: u64 = (def.y as u64) + (spr.height() as u64);
                            if cw > ew {
                                ew = cw;
                            }
                            if ch > eh {
                                eh = ch;
                            }
                        }
                    },
                    None => {},
                }
            }
            i = i + 1;
        }
        proof {
            lemma_extent_upto_bounds(gdefs, *sprites, gsheet, n as int);
        }
        if ew > u32::MAX as u64 || eh > u32::MAX as u64 {
            return Err(WszError::ArgumentError(sheet_too_large_message()));
        }
        proof {
            assert((ew as int) * (eh as int) <= (u32::MAX as int) * (u32::MAX as int))
                by (nonlinear_arith)
                requires
                    0 <= ew as int <= u32::MAX as int,
                    0 <= eh as int <= u32::MAX as int,
            {}
        }
        let prod: u64 = ew * eh;
        if prod > usize::MAX as u64 {
            return Err(WszError::ArgumentError(sheet_too_large_message()));
        }
        let mut img = Raster::new_filled(ew as u32, eh as u32, transparency_key_color());

        let mut i: usize = 0;
        while i < n
            invariant
                i <= n,
                img.wf(),
                img.width_spec() == sheet_extent_w(gdefs, *sprites, gsheet),
                img.height_spec() == sheet_extent_h(gdefs, *sprites, gsheet),
                forall|x: int, y: int|
                    0 <= x < img.width_spec() && 0 <= y < img.height_spec()
                    && (forall|j: int| 0 <= j < i ==> !covers(gdefs, *sprites, gsheet, j, x, y))
                    ==> img.pix(x, y) == transparency_key(),
                forall|j: int, x: int, y: int|
                    #[trigger] covers(gdefs, *sprites, gsheet, j, x, y) && j < i
                    && (forall|k: int| j < k < i ==> !covers(gdefs, *sprites, gsheet, k, x, y))
                    ==> img.pix(x, y) == supplied_raster(gdefs, *sprites, j)
                        .pix(x - gdefs.val_at(j).x, y - gdefs.val_at(j).y),
            decreases n - i,
        {
            let ghost pre = img;
            let def = self.definitions.val_ref(i);
            let mut painted: bool = false;
            if str_eq(def.sprite_sheet.as_str(), sprite_sheet_name) {
                match sprites.get(def.name.as_str()) {
                    Some(spr) => {
                        if spr.width() > 0 && spr.height() > 0 {
                            proof {
                                assert(counted(gdefs, *sprites, gsheet, i as int));
                            }
                            img.copy_from(spr, def.x, def.y);
                            painted = true;
                        }
                    },
                    None => {},
                }
            }
            proof {
                let ii = i as int;
                if painted {
                    let d = gdefs.val_at(ii);
                    let spr = supplied_raster(gdefs, *sprites, ii);
                    assert forall|j: int, x: int, y: int|
                        #[trigger] covers(gdefs, *sprites, gsheet, j, x, y) && j < ii + 1
                        && (forall|k: int| j < k < ii + 1 ==> !covers(gdefs, *sprites, gsheet, k, x, y))
                        implies img.pix(x, y) == supplied_raster(gdefs, *sprites, j)
                            .pix(x - gdefs.val_at(j).x, y - gdefs.val_at(j).y) by {
                        if j == ii {
                            assert(img.pix(x, y) == spr.pix(x - d.x, y - d.y));
                        } else {
                            assert(!covers(gdefs, *sprites, gsheet, ii, x, y));
                            assert(counted(gdefs, *sprites, gsheet, j));
                            assert(gdefs.val_at(j).x + supplied_raster(gdefs, *sprites, j).width_spec()
                                <= img.width_spec());
                            assert(gdefs.val_at(j).y + supplied_raster(gdefs, *sprites, j).height_spec()
                                <= img.height_spec());
                            assert(0 <= x < img.width_spec());
                            assert(0 <= y < img.height_spec());
                            assert(img.pix(x, y) == pre.pix(x, y));
                        }
                    }
                    assert forall|x: int, y: int|
                        0 <= x < img.width_spec() && 0 <= y < img.height_spec()
                        && (forall|j: int| 0 <= j < ii + 1 ==> !covers(gdefs, *sprites, gsheet, j, x, y))
                        implies img.pix(x, y) == transparency_key() by {
                        assert(!covers(gdefs, *sprites, gsheet, ii, x, y));
                        assert(img.pix(x, y) == pre.pix(x, y));
                    }
                } else {
                    assert(!counted(gdefs, *sprites, gsheet, ii));
                    assert forall|x: int, y: int| !covers(gdefs, *sprites, gsheet, ii, x, y) by {}
                }
            }
            i = i + 1;
        }
        Ok(img)
    }
}

impl SpriteManager {
    /// Extracts every catalog sprite of one sheet from its decoded raster,
    /// keyed by sprite name.
    #[verifier::loop_isolation(false)]
    pub fn extract_sheet_sprites(&self, sheet_raster: &Raster, sprite_sheet_name: &str)
        -> (r: NameMap<Raster>)
        requires
            self.wf(),
            sheet_raster.wf(),
        ensures
            is_sheet_extraction(self.defs(), *sheet_raster, sprite_sheet_name@, r),
    {
        let ghost gdefs = self.defs();
        let ghost gsheet = sprite_sheet_name@;
        let mut out = NameMap::<Raster>::new();
        let n = self.definitions.len();
        let mut i: usize = 0;
        while i < n
            invariant
                i <= n,
                out.wf(),
                forall|k: Seq<char>| #[trigger] out.map_view().contains_key(k)
                    <==> exists|j: int| 0 <= j < i && gdefs.key_at(j) == k
                        && gdefs.val_at(j).sprite_sheet@ == gsheet,
                forall|k: Seq<char>| #[trigger] out.map_view().contains_key(k)
                    ==> gdefs.map_view().contains_key(k)
                        && is_extracted(gdefs.map_view()[k].model(), *sheet_raster,
                            out.map_view()[k]),
            decreases n - i,
        {
            let key = self.definitions.key_ref(i);
            let def = self.definitions.val_ref(i);
            if str_eq(def.sprite_sheet.as_str(), sprite_sheet_name) {
                proof {
                    gdefs.lemma_view_at(i as int);
                }
                match self.extract_sprite(key.as_str(), sheet_raster) {
                    Ok(img) => {
                        let owned = key.clone();
                        out.insert(owned, img);
                        proof {
                            assert forall|k: Seq<char>| #[trigger] out.map_view().contains_key(k)
                                implies exists|j: int| 0 <= j < i + 1 && gdefs.key_at(j) == k
                                    && gdefs.val_at(j).sprite_sheet@ == gsheet by {
                                if k == gdefs.key_at(i as int) {
                                    assert(0 <= i < i + 1 && gdefs.key_at(i as int) == k
                                        && gdefs.val_at(i as int).sprite_sheet@ == gsheet);
                                }
                            }
                        }
                    },
                    Err(_) => {
                        proof {
                            assert(false);
                        }
                    },
                }
            } else {
                proof {
                    assert forall|k: Seq<char>| #[trigger] out.map_view().contains_key(k)
                        implies exists|j: int| 0 <= j < i + 1 && gdefs.key_at(j) == k
                            && gdefs.val_at(j).sprite_sheet@ == gsheet by {}
                }
            }
            i = i + 1;
        }
        proof {
            assert forall|k: Seq<char>| #[trigger] out.map_view().contains_key(k)
                <==> (gdefs.map_view().contains_key(k)
                    && gdefs.map_view()[k].sprite_sheet@ == gsheet) by {
                if out.map_view().contains_key(k) {
                    let j = choose|j: int| 0 <= j < n && gdefs.key_at(j) == k
                        && gdefs.val_at(j).sprite_sheet@ == gsheet;
                    gdefs.lemma_view_at(j);
                }
                if gdefs.map_view().contains_key(k) && gdefs.map_view()[k].sprite_sheet@ == gsheet {
                    gdefs.lemma_index_of(k);
                    let j = gdefs.index_of(k);
                    gdefs.lemma_view_at(j);
                    assert(0 <= j < n && gdefs.key_at(j) == k
                        && gdefs.val_at(j).sprite_sheet@ == gsheet);
                }
            }
        }
        out
    }
}

/// Whether archive entry `i` stores the sheet named `name`: either its whole
/// stored name matches ignoring ASCII case, or its base name does.
pub open spec fn sheet_entry_matches(archive: WszArchive, name: Seq<char>, i: int) -> bool {
    ||| crate::strutil::eq_ignore_ascii_case(archive.key_at(i), name)
    ||| crate::archive::matches_basename(archive.key_at(i), name)
}

/// Entry `i` is the one the sheet lookup selects for `name`: the first
/// entry whose whole stored name matches ignoring ASCII case or, when no
/// stored name matches whole, the first whose base name matches.
pub open spec fn chosen_sheet_entry(archive: WszArchive, name: Seq<char>, i: int) -> bool {
    ||| (0 <= i < archive.len_spec()
        && crate::strutil::eq_ignore_ascii_case(archive.key_at(i), name)
        && (forall|j: int| 0 <= j < i
            ==> !crate::strutil::eq_ignore_ascii_case(archive.key_at(j), name)))
    ||| (0 <= i < archive.len_spec()
        && (forall|j: int| 0 <= j < archive.len_spec()
            ==> !crate::strutil::eq_ignore_ascii_case(archive.key_at(j), name))
        && crate::archive::matches_basename(archive.key_at(i), name)
        && (forall|j: int| 0 <= j < i
            ==> !crate::archive::matches_basename(archive.key_at(j), name)))
}

/// The lookup selects at most one entry.
pub proof fn lemma_chosen_sheet_entry_unique(
    archive: WszArchive,
    name: Seq<char>,
    i: int,
    j: int,
)
    requires
        chosen_sheet_entry(archive, name, i),
        chosen_sheet_entry(archive, name, j),
    ensures
        i == j,
{
    if i < j {
        assert(false);
    } else if j < i {
        assert(false);
    }
}

/// A sheet file is readable: the lookup selects an entry and its bytes
/// decode as an image.
pub open spec fn sheet_readable(archive: WszArchive, name: Seq<char>) -> bool {
    exists|i: int| #[trigger] chosen_sheet_entry(archive, name, i)
        && crate::codec::image_decode(archive.val_at(i)@) is Some
}

/// The text of the error for a sheet name outside the known set.
pub open spec fn unknown_sheet_msg(name: Seq<char>) -> Seq<char> {
    name + " not a known sprite sheet"@
}

/// The text of the error for a sheet file absent from the archive.
pub open spec fn sheet_not_found_msg(name: Seq<char>) -> Seq<char> {
    name + " not found in skin (at any path)"@
}

impl SpriteManager {
    /// Whether `name` is one of the known sheet file names.
    fn is_known_sheet_name(name: &str) -> (r: bool)
        ensures
            r == is_known_sheet(name@),
    {
        let names = SpriteManager::sprite_sheet_names();
        let mut i: usize = 0;
        while i < names.len()
            invariant
                i <= names@.len(),
                names@.len() == sheet_names_spec().len(),
                forall|j: int| 0 <= j < names@.len() ==> names@[j]@ == sheet_names_spec()[j],
                forall|j: int| 0 <= j < i ==> sheet_names_spec()[j] != name@,
            decreases names@.len() - i,
        {
            if str_eq(names[i].as_str(), name) {
                proof {
                    assert(sheet_names_spec()[i as int] == name@);
                }
                return true;
            }
            i = i + 1;
        }
        proof {
            assert(!sheet_names_spec().contains(name@));
        }
        false
    }

    /// Extracts every catalog sprite of one named sheet from the archive:
    /// the sheet file is found by name (ignoring ASCII case and directory
    /// prefixes), decoded, and cut up along the catalog rectangles.
    pub fn extract_sprite_sheet_from_archive(
        &self,
        archive: &WszArchive,
        sprite_sheet_name: &str,
    ) -> (r: Result<NameMap<Raster>, WszError>)
        requires
            self.wf(),
            archive.wf(),
        ensures
            match r {
                Ok(m) => {
                    &&& is_known_sheet(sprite_sheet_name@)
                    &&& exists|i: int, img: Raster|
                        chosen_sheet_entry(*archive, sprite_sheet_name@, i)
                        && #[trigger] crate::codec::is_decoded_raster(archive.val_at(i)@, img)
                        && is_sheet_extraction(self.defs(), img, sprite_sheet_name@, m)
                },
                Err(e) => match e {
                    WszError::ArgumentError(m) => !is_known_sheet(sprite_sheet_name@)
                        && m@ == unknown_sheet_msg(sprite_sheet_name@),
                    WszError::NotFound(m) => is_known_sheet(sprite_sheet_name@)
                        && m@ == sheet_not_found_msg(sprite_sheet_name@)
                        && forall|i: int| 0 <= i < archive.len_spec()
                            ==> !(#[trigger] sheet_entry_matches(*archive, sprite_sheet_name@, i)),
                    WszError::ImageError(_) | WszError::Io(_) => is_known_sheet(sprite_sheet_name@)
                        && exists|i: int| #[trigger] chosen_sheet_entry(*archive, sprite_sheet_name@, i)
                            && crate::codec::image_decode(archive.val_at(i)@) is None,
                    _ => false,
                },
            },
    {
        if !SpriteManager::is_known_sheet_name(sprite_sheet_name) {
            return Err(WszError::ArgumentError(
                String::from_str(sprite_sheet_name).concat(" not a known sprite sheet"),
            ));
        }
        let data = match crate::archive::find_archive_file_exact(archive, sprite_sheet_name) {
            Some(bytes) => {
                proof {
                    let i = choose|i: int| 0 <= i < archive.len_spec()
                        && #[trigger] crate::strutil::eq_ignore_ascii_case(
                            archive.key_at(i), sprite_sheet_name@)
                        && *bytes == archive.val_at(i)
                        && (forall|j: int| 0 <= j < i
                            ==> !crate::strutil::eq_ignore_ascii_case(
                                archive.key_at(j), sprite_sheet_name@));
                    assert(chosen_sheet_entry(*archive, sprite_sheet_name@, i)
                        && *bytes == archive.val_at(i));
                }
                bytes
            },
            None => {
                match crate::archive::find_archive_file(archive, sprite_sheet_name) {
                    Some(bytes) => {
                        proof {
                            let i = choose|i: int| 0 <= i < archive.len_spec()
                                && #[trigger] crate::archive::matches_basename(
                                    archive.key_at(i), sprite_sheet_name@)
                                && *bytes == archive.val_at(i)
                                && (forall|j: int| 0 <= j < i
                                    ==> !crate::archive::matches_basename(
                                        archive.key_at(j), sprite_sheet_name@));
                            assert(chosen_sheet_entry(*archive, sprite_sheet_name@, i)
                                && *bytes == archive.val_at(i));
                        }
                        bytes
                    },
                    None => {
                        return Err(WszError::NotFound(
                            String::from_str(sprite_sheet_name)
                                .concat(" not found in skin (at any path)"),
                        ));
                    },
                }
            },
        };
        let ghost src = choose|i: int| #[trigger] chosen_sheet_entry(*archive, sprite_sheet_name@, i)
            && *data == archive.val_at(i);
        let img = match crate::codec::decode_raster(data.as_slice()) {
            Ok(img) => img,
            Err(e) => {
                return Err(e);
            },
        };
        let m = self.extract_sheet_sprites(&img, sprite_sheet_name);
        proof {
            assert(crate::codec::is_decoded_raster(archive.val_at(src)@, img));
            assert(is_sheet_extraction(self.defs(), img, sprite_sheet_name@, m));
        }
        Ok(m)
    }

    /// Extracts the sprites of every known sheet present in the archive.
    /// The result holds exactly the catalog sprites whose sheet file is
    /// present and decodes, each cut from its sheet along its catalog
    /// rectangle; sheets that are missing or do not decode contribute
    /// nothing.
    #[verifier::loop_isolation(false)]
    pub fn extract_all_sprites_from_archive(&self, archive: &WszArchive)
        -> (r: Result<NameMap<Raster>, WszError>)
        requires
            self.wf(),
            archive.wf(),
        ensures
            r is Ok,
            r->Ok_0.wf(),
            forall|k: Seq<char>| #[trigger] r->Ok_0.map_view().contains_key(k)
                <==> (self.defs().map_view().contains_key(k)
                    && is_known_sheet(self.defs().map_view()[k].sprite_sheet@)
                    && sheet_readable(*archive, self.defs().map_view()[k].sprite_sheet@)),
            forall|k: Seq<char>| #[trigger] r->Ok_0.map_view().contains_key(k) ==> {
                &&& r->Ok_0.map_view()[k].wf()
                &&& exists|i: int, img: Raster|
                    chosen_sheet_entry(*archive, self.defs().map_view()[k].sprite_sheet@, i)
                    && #[trigger] crate::codec::is_decoded_raster(archive.val_at(i)@, img)
                    && is_extracted(self.defs().map_view()[k].model(), img,
                        r->Ok_0.map_view()[k])
            },
    {
        let names = SpriteManager::sprite_sheet_names();
        let mut sprite_images = NameMap::<Raster>::new();
        let mut s: usize = 0;
        while s < names.len()
            invariant
                s <= names@.len(),
                sprite_images.wf(),
                forall|k: Seq<char>| #[trigger] sprite_images.map_view().contains_key(k)
                    <==> (self.defs().map_view().contains_key(k)
                        && (exists|si: int| 0 <= si < s
                            && sheet_names_spec()[si]
                                == self.defs().map_view()[k].sprite_sheet@)
                        && sheet_readable(*archive, self.defs().map_view()[k].sprite_sheet@)),
                forall|k: Seq<char>| #[trigger] sprite_images.map_view().contains_key(k) ==> {
                    &&& sprite_images.map_view()[k].wf()
                    &&& exists|i: int, img: Raster|
                        chosen_sheet_entry(*archive,
                            self.defs().map_view()[k].sprite_sheet@, i)
                        && #[trigger] crate::codec::is_decoded_raster(archive.val_at(i)@, img)
                        && is_extracted(self.defs().map_view()[k].model(), img,
                            sprite_images.map_view()[k])
                },
            decreases names@.len() - s,
        {
            let ghost prev = sprite_images.map_view();
            let ghost gname = names@[s as int]@;
            proof {
                assert(sheet_names_spec()[s as int] == gname);
                assert(is_known_sheet(gname));
            }
            match self.extract_sprite_sheet_from_archive(archive, names[s].as_str()) {
                Ok(sheet_map) => {
                    let ghost gsheet = sheet_map;
                    sprite_images.extend(sheet_map);
                    proof {
                        let ii = choose|i: int, img: Raster|
                            chosen_sheet_entry(*archive, gname, i)
                            && #[trigger] crate::codec::is_decoded_raster(archive.val_at(i)@, img)
                            && is_sheet_extraction(self.defs(), img, gname, gsheet);
                        assert(crate::codec::image_decode(archive.val_at(ii.0)@) is Some);
                        assert(sheet_readable(*archive, gname));
                        assert forall|k: Seq<char>|
                            #[trigger] sprite_images.map_view().contains_key(k)
                            <==> (self.defs().map_view().contains_key(k)
                                && (exists|si: int| 0 <= si < s + 1
                                    && sheet_names_spec()[si]
                                        == self.defs().map_view()[k].sprite_sheet@)
                                && sheet_readable(*archive,
                                    self.defs().map_view()[k].sprite_sheet@)) by {
                            if sprite_images.map_view().contains_key(k) {
                                if gsheet.map_view().contains_key(k) {
                                    assert(self.defs().map_view()[k].sprite_sheet@ == gname);
                                    assert(0 <= s < s + 1
                                        && sheet_names_spec()[s as int]
                                            == self.defs().map_view()[k].sprite_sheet@);
                                } else {
                                    assert(prev.contains_key(k));
                                    let si = choose|si: int| 0 <= si < s
                                        && sheet_names_spec()[si]
                                            == self.defs().map_view()[k].sprite_sheet@;
                                    assert(0 <= si < s + 1);
                                }
                            }
                            if self.defs().map_view().contains_key(k)
                                && (exists|si: int| 0 <= si < s + 1
                                    && sheet_names_spec()[si]
                                        == self.defs().map_view()[k].sprite_sheet@)
                                && sheet_readable(*archive,
                                    self.defs().map_view()[k].sprite_sheet@) {
                                let si = choose|si: int| 0 <= si < s + 1
                                    && sheet_names_spec()[si]
                                        == self.defs().map_view()[k].sprite_sheet@;
                                if si == s {
                                    assert(gsheet.map_view().contains_key(k));
                                    assert(sprite_images.map_view().contains_key(k));
                                } else {
                                    assert(prev.contains_key(k));
                                    assert(sprite_images.map_view().contains_key(k));
                                }
                            }
                        }
                        assert forall|k: Seq<char>|
                            #[trigger] sprite_images.map_view().contains_key(k) implies {
                            &&& sprite_images.map_view()[k].wf()
                            &&& exists|i: int, img: Raster|
                                chosen_sheet_entry(*archive,
                                    self.defs().map_view()[k].sprite_sheet@, i)
                                && #[trigger] crate::codec::is_decoded_raster(archive.val_at(i)@, img)
                                && is_extracted(self.defs().map_view()[k].model(), img,
                                    sprite_images.map_view()[k])
                        } by {
                            if gsheet.map_view().contains_key(k) {
                                assert(sprite_images.map_view()[k] == gsheet.map_view()[k]);
                                assert(self.defs().map_view()[k].sprite_sheet@ == gname);
                                assert(crate::codec::is_decoded_raster(
                                    archive.val_at(ii.0)@, ii.1));
                                assert(is_extracted(self.defs().map_view()[k].model(), ii.1,
                                    sprite_images.map_view()[k]));
                            } else {
                                assert(prev.contains_key(k));
                                assert(sprite_images.map_view()[k] == prev[k]);
                            }
                        }
                    }
                },
                Err(e) => {
                    proof {
                        assert(!(e matches WszError::ArgumentError(_)));
                        assert(!sheet_readable(*archive, gname)) by {
                            if sheet_readable(*archive, gname) {
                                let good = choose|i: int|
                                    #[trigger] chosen_sheet_entry(*archive, gname, i)
                                    && crate::codec::image_decode(archive.val_at(i)@) is Some;
                                match e {
                                    WszError::NotFound(_) => {
                                        assert(sheet_entry_matches(*archive, gname, good));
                                        assert(false);
                                    },
                                    _ => {
                                        let bad = choose|i: int|
                                            #[trigger] chosen_sheet_entry(*archive, gname, i)
                                            && crate::codec::image_decode(archive.val_at(i)@)
                                                is None;
                                        lemma_chosen_sheet_entry_unique(
                                            *archive, gname, good, bad);
                                        assert(false);
                                    },
                                }
                            }
                        }
                        assert forall|k: Seq<char>|
                            #[trigger] sprite_images.map_view().contains_key(k)
                            <==> (self.defs().map_view().contains_key(k)
                                && (exists|si: int| 0 <= si < s + 1
                                    && sheet_names_spec()[si]
                                        == self.defs().map_view()[k].sprite_sheet@)
                                && sheet_readable(*archive,
                                    self.defs().map_view()[k].sprite_sheet@)) by {
                            if sprite_images.map_view().contains_key(k) {
                                let si = choose|si: int| 0 <= si < s
                                    && sheet_names_spec()[si]
                                        == self.defs().map_view()[k].sprite_sheet@;
                                assert(0 <= si < s + 1);
                            }
                            if self.defs().map_view().contains_key(k)
                                && (exists|si: int| 0 <= si < s + 1
                                    && sheet_names_spec()[si]
                                        == self.defs().map_view()[k].sprite_sheet@)
                                && sheet_readable(*archive,
                                    self.defs().map_view()[k].sprite_sheet@) {
                                let si = choose|si: int| 0 <= si < s + 1
                                    && sheet_names_spec()[si]
                                        == self.defs().map_view()[k].sprite_sheet@;
                                assert(si != s);
                                assert(sprite_images.map_view().contains_key(k));
                            }
                        }
                    }
                },
            }
            s = s + 1;
        }
        proof {
            assert forall|k: Seq<char>| #[trigger] sprite_images.map_view().contains_key(k)
                <==> (self.defs().map_view().contains_key(k)
                    && is_known_sheet(self.defs().map_view()[k].sprite_sheet@)
                    && sheet_readable(*archive,
                        self.defs().map_view()[k].sprite_sheet@)) by {
                if self.defs().map_view().contains_key(k)
                    && is_known_sheet(self.defs().map_view()[k].sprite_sheet@) {
                    let sheet = self.defs().map_view()[k].sprite_sheet@;
                    assert(sheet_names_spec().contains(sheet));
                    let si = choose|si: int| 0 <= si < sheet_names_spec().len()
                        && sheet_names_spec()[si] == sheet;
                    assert(0 <= si < names@.len() && sheet_names_spec()[si] == sheet);
                }
            }
        }
        Ok(sprite_images)
    }
}

/// Builds the error text for a composed sheet that exceeds raster limits.
pub fn sheet_too_large_message() -> (r: String)
    ensures
        r@ == sheet_too_large_msg(),
{
    String::from_str("reconstructed sprite sheet is too large")
}

/// A catalog map reduced to its mathematical content.
pub open spec fn model_map(m: Map<Seq<char>, SpriteDefinition>) -> Map<Seq<char>, SpriteRectModel> {
    Map::new(|k: Seq<char>| m.contains_key(k), |k: Seq<char>| m[k].model())
}

/// Folds a list of rectangles into a map keyed by name, front to back;
/// a later entry with the same name replaces an earlier one.
pub open spec fn insert_models(
    models: Seq<SpriteRectModel>,
    acc: Map<Seq<char>, SpriteRectModel>,
) -> Map<Seq<char>, SpriteRectModel>
    decreases models.len(),
{
    if models.len() == 0 {
        acc
    } else {
        insert_models(models.drop_first(), acc.insert(models[0].name, models[0]))
    }
}

/// Folding a concatenation folds its parts in order.
pub proof fn lemma_insert_models_concat(
    a: Seq<SpriteRectModel>,
    b: Seq<SpriteRectModel>,
    acc: Map<Seq<char>, SpriteRectModel>,
)
    ensures
        insert_models(a + b, acc) == insert_models(b, insert_models(a, acc)),
    decreases a.len(),
{
    if a.len() == 0 {
        assert(a + b =~= b);
    } else {
        assert((a + b)[0] == a[0]);
        assert((a + b).drop_first() =~= a.drop_first() + b);
        lemma_insert_models_concat(a.drop_first(), b, acc.insert(a[0].name, a[0]));
    }
}

/// Inserting into a catalog map inserts its model.
pub proof fn lemma_model_map_insert(
    m: Map<Seq<char>, SpriteDefinition>,
    k: Seq<char>,
    d: SpriteDefinition,
)
    ensures
        model_map(m.insert(k, d)) == model_map(m).insert(k, d.model()),
{
    assert(model_map(m.insert(k, d)) =~= model_map(m).insert(k, d.model()));
}

/// Moves each definition of `list` into `table`, keyed by its name.
#[verifier::loop_isolation(false)]
fn insert_defs(table: &mut NameMap<SpriteDefinition>, list: Vec<SpriteDefinition>)
    requires
        old(table).wf(),
    ensures
        final(table).wf(),
        model_map(final(table).map_view())
            == insert_models(models_of(list@), model_map(old(table).map_view())),
{
    let ghost target = insert_models(models_of(list@), model_map(old(table).map_view()));
    let mut rest = list;
    while rest.len() > 0
        invariant
            table.wf(),
            insert_models(models_of(rest@), model_map(table.map_view())) == target,
        decreases rest@.len(),
    {
        let ghost prev_rest = rest@;
        let ghost prev_map = table.map_view();
        let d = rest.remove(0);
        let ghost dm = d.model();
        let key = d.name.clone();
        table.insert(key, d);
        proof {
            assert(rest@ =~= prev_rest.drop_first());
            assert(models_of(rest@) =~= models_of(prev_rest).drop_first());
            assert(models_of(prev_rest)[0] == dm);
            lemma_model_map_insert(prev_map, dm.name, d);
        }
    }
    proof {
        assert(models_of(rest@) =~= Seq::<SpriteRectModel>::empty());
    }
}

/// The full sprite catalog, in registration order.
pub open spec fn sprite_catalog_models() -> Seq<SpriteRectModel> {
    main::main_sprites_spec() + monoster::monoster_sprites_spec()
        + playpaus::playpaus_sprites_spec() + posbar::posbar_sprites_spec()
        + text::text_sprites_spec()
}

/// The sprite catalog as a map from sprite name to rectangle.
pub open spec fn sprite_catalog_map() -> Map<Seq<char>, SpriteRectModel> {
    insert_models(sprite_catalog_models(), Map::empty())
}

impl SpriteManager {
    /// Creates the manager with the full sprite catalog.
    pub fn new() -> (r: SpriteManager)
        ensures
            r.wf(),
            model_map(r.defs().map_view()) == sprite_catalog_map(),
    {
        let mut definitions = NameMap::<SpriteDefinition>::new();
        proof {
            assert(model_map(definitions.map_view()) =~= Map::<Seq<char>, SpriteRectModel>::empty());
        }
        insert_defs(&mut definitions, main::main_sprites());
        insert_defs(&mut definitions, monoster::monoster_sprites());
        insert_defs(&mut definitions, playpaus::playpaus_sprites());
        insert_defs(&mut definitions, posbar::posbar_sprites());
        insert_defs(&mut definitions, text::text_sprites());
        proof {
            let a1 = main::main_sprites_spec();
            let a2 = monoster::monoster_sprites_spec();
            let a3 = playpaus::playpaus_sprites_spec();
            let a4 = posbar::posbar_sprites_spec();
            let a5 = text::text_sprites_spec();
            let e = Map::<Seq<char>, SpriteRectModel>::empty();
            lemma_insert_models_concat(a1, a2, e);
            lemma_insert_models_concat(a1 + a2, a3, e);
            lemma_insert_models_concat(a1 + a2 + a3, a4, e);
            lemma_insert_models_concat(a1 + a2 + a3 + a4, a5, e);
        }
        SpriteManager { definitions }
    }
}

/// The assembled preview image.
pub type WindowImage = Raster;

/// Fixed size of the assembled preview: three windows stacked vertically.
pub const WINDOW_WIDTH: u32 = 275;

/// Fixed height of the assembled preview.
pub const WINDOW_HEIGHT: u32 = 435;

/// The sub-window a placement belongs to.
#[derive(Debug, Clone, Copy, PartialEq, Eq, Structural)]
pub enum WindowType {
    /// Main window.
    Main,
    /// Equalizer window.
    Equalizer,
    /// Playlist window.
    Playlist,
}

/// The fixed horizontal origin of a sub-window within the preview.
pub open spec fn window_start_x(t: WindowType) -> u32 {
    match t {
        WindowType::Main => 0,
        WindowType::Equalizer => 0,
        WindowType::Playlist => 0,
    }
}

/// The fixed vertical origin of a sub-window within the preview.
pub open spec fn window_start_y(t: WindowType) -> u32 {
    match t {
        WindowType::Main => 0,
        WindowType::Equalizer => 116,
        WindowType::Playlist => 232,
    }
}

/// Returns the fixed origin of a sub-window within the preview.
pub fn window_start(t: WindowType) -> (r: (u32, u32))
    ensures
        r.0 == window_start_x(t),
        r.1 == window_start_y(t),
{
    match t {
        WindowType::Main => (0, 0),
        WindowType::Equalizer => (0, 116),
        WindowType::Playlist => (0, 232),
    }
}

/// Represents a sprite placed within the preview window.
#[derive(Debug, Clone)]
pub struct SpriteWindowDefinition {
    /// Name of the element.
    pub name: String,
    /// Name of the sprite drawn for it.
    pub sprite_name: String,
    /// The sub-window it belongs to.
    pub window_type: WindowType,
    /// Paint layer; higher layers occlude lower ones.
    pub layer: u32,
    /// X position (from the sub-window's left edge).
    pub x: u32,
    /// Y position (from the sub-window's top edge).
    pub y: u32,
    /// Width in pixels.
    pub width: u32,
    /// Height in pixels.
    pub height: u32,
}

/// The mathematical content of a window placement.
pub ghost struct PlacementModel {
    pub name: Seq<char>,
    pub sprite_name: Seq<char>,
    pub window_type: WindowType,
    pub layer: u32,
    pub x: u32,
    pub y: u32,
    pub width: u32,
    pub height: u32,
}

impl SpriteWindowDefinition {
    /// The placement's mathematical content.
    pub open spec fn model(self) -> PlacementModel {
        PlacementModel {
            name: self.name@,
            sprite_name: self.sprite_name@,
            window_type: self.window_type,
            layer: self.layer,
            x: self.x,
            y: self.y,
            width: self.width,
            height: self.height,
        }
    }
}

/// The models of a list of placements.
pub open spec fn placement_models_of(defs: Seq<SpriteWindowDefinition>) -> Seq<PlacementModel> {
    defs.map_values(|d: SpriteWindowDefinition| d.model())
}

/// The absolute left edge of a placement within the preview.
pub open spec fn placed_x(d: PlacementModel) -> int {
    window_start_x(d.window_type) + d.x
}

/// The absolute top edge of a placement within the preview.
pub open spec fn placed_y(d: PlacementModel) -> int {
    window_start_y(d.window_type) + d.y
}

/// Whether the placement's declared rectangle and the actual sprite both
/// stay inside a canvas of the given size.
pub open spec fn placement_fits(d: PlacementModel, spr: Raster, w: int, h: int) -> bool {
    &&& placed_x(d) + d.width <= w
    &&& placed_y(d) + d.height <= h
    &&& placed_x(d) + spr.width_spec() <= w
    &&& placed_y(d) + spr.height_spec() <= h
}

/// The text of the error for a placement that exceeds the canvas.
pub open spec fn out_of_bounds_msg() -> Seq<char> {
    "Sprite is out of bounds"@
}

/// A placement map reduced to its mathematical content.
pub open spec fn placement_model_map(
    m: Map<Seq<char>, SpriteWindowDefinition>,
) -> Map<Seq<char>, PlacementModel> {
    Map::new(|k: Seq<char>| m.contains_key(k), |k: Seq<char>| m[k].model())
}

/// Folds a list of placements into a map keyed by name, front to back;
/// a later entry with the same name replaces an earlier one.
pub open spec fn insert_placements(
    models: Seq<PlacementModel>,
    acc: Map<Seq<char>, PlacementModel>,
) -> Map<Seq<char>, PlacementModel>
    decreases models.len(),
{
    if models.len() == 0 {
        acc
    } else {
        insert_placements(models.drop_first(), acc.insert(models[0].name, models[0]))
    }
}

/// Folding a concatenation folds its parts in order.
pub proof fn lemma_insert_placements_concat(
    a: Seq<PlacementModel>,
    b: Seq<PlacementModel>,
    acc: Map<Seq<char>, PlacementModel>,
)
    ensures
        insert_placements(a + b, acc) == insert_placements(b, insert_placements(a, acc)),
    decreases a.len(),
{
    if a.len() == 0 {
        assert(a + b =~= b);
    } else {
        assert((a + b)[0] == a[0]);
        assert((a + b).drop_first() =~= a.drop_first() + b);
        lemma_insert_placements_concat(a.drop_first(), b, acc.insert(a[0].name, a[0]));
    }
}

/// Inserting into a placement map inserts its model.
pub proof fn lemma_placement_map_insert(
    m: Map<Seq<char>, SpriteWindowDefinition>,
    k: Seq<char>,
    d: SpriteWindowDefinition,
)
    ensures
        placement_model_map(m.insert(k, d)) == placement_model_map(m).insert(k, d.model()),
{
    assert(placement_model_map(m.insert(k, d)) =~= placement_model_map(m).insert(k, d.model()));
}

/// Moves each placement of `list` into `table`, keyed by its name.
#[verifier::loop_isolation(false)]
fn insert_window_defs(table: &mut NameMap<SpriteWindowDefinition>, list: Vec<SpriteWindowDefinition>)
    requires
        old(table).wf(),
    ensures
        final(table).wf(),
        placement_model_map(final(table).map_view())
            == insert_placements(placement_models_of(list@), placement_model_map(old(table).map_view())),
{
    let ghost target = insert_placements(
        placement_models_of(list@),
        placement_model_map(old(table).map_view()),
    );
    let mut rest = list;
    while rest.len() > 0
        invariant
            table.wf(),
            insert_placements(placement_models_of(rest@), placement_model_map(table.map_view()))
                == target,
        decreases rest@.len(),
    {
        let ghost prev_rest = rest@;
        let ghost prev_map = table.map_view();
        let d = rest.remove(0);
        let ghost dm = d.model();
        let key = d.name.clone();
        table.insert(key, d);
        proof {
            assert(rest@ =~= prev_rest.drop_first());
            assert(placement_models_of(rest@) =~= placement_models_of(prev_rest).drop_first());
            assert(placement_models_of(prev_rest)[0] == dm);
            lemma_placement_map_insert(prev_map, dm.name, d);
        }
    }
    proof {
        assert(placement_models_of(rest@) =~= Seq::<PlacementModel>::empty());
    }
}

/// The full placement catalog, in registration order.
pub open spec fn window_catalog_models() -> Seq<PlacementModel> {
    main::main_window_sprites_spec() + monoster::monoster_window_sprites_spec()
        + playpaus::playpaus_window_sprites_spec() + posbar::posbar_window_sprites_spec()
}

/// The placement catalog as a map from element name to placement.
pub open spec fn window_catalog_map() -> Map<Seq<char>, PlacementModel> {
    insert_placements(window_catalog_models(), Map::empty())
}

/// `img` is the assembled preview for catalog `defs`, supplied rasters
/// `sprites` and background `bg`: the fixed-size canvas holds `bg` where no
/// painted placement covers, and elsewhere the pixel of the placement that
/// is painted last among those covering (highest layer, then catalog order).
pub open spec fn is_window_composite(
    defs: NameMap<SpriteWindowDefinition>,
    sprites: NameMap<Raster>,
    bg: RgbColor,
    img: Raster,
) -> bool {
    &&& img.wf()
    &&& img.width_spec() == WINDOW_WIDTH
    &&& img.height_spec() == WINDOW_HEIGHT
    &&& forall|i: int| #[trigger] drawn(defs, sprites, i)
        ==> placement_fits(defs.val_at(i).model(), sprite_for(defs, sprites, i),
            WINDOW_WIDTH as int, WINDOW_HEIGHT as int)
    &&& forall|x: int, y: int|
        0 <= x < WINDOW_WIDTH && 0 <= y < WINDOW_HEIGHT
        && (forall|i: int| 0 <= i < defs.len_spec() ==> !wcovers(defs, sprites, i, x, y))
        ==> img.pix(x, y) == (RgbaColor { r: bg.r, g: bg.g, b: bg.b, a: 255u8 })
    &&& forall|i: int, x: int, y: int|
        #[trigger] wcovers(defs, sprites, i, x, y)
        && (forall|j: int| #[trigger] wcovers(defs, sprites, j, x, y) && j != i
            ==> painted_before(defs, j, i))
        ==> img.pix(x, y) == sprite_for(defs, sprites, i)
            .pix(x - placed_x(defs.val_at(i).model()), y - placed_y(defs.val_at(i).model()))
}

/// Rasterizes placed sprites into one image resembling the player's window.
pub struct SpriteWindowManager {
    definitions: NameMap<SpriteWindowDefinition>,
    bg_color: RgbColor,
}

/// Whether placement `i` is painted: a sprite raster is supplied under its
/// sprite name.
pub open spec fn drawn(
    defs: NameMap<SpriteWindowDefinition>,
    sprites: NameMap<Raster>,
    i: int,
) -> bool {
    &&& 0 <= i < defs.len_spec()
    &&& sprites.has_key(defs.val_at(i).sprite_name@)
}

/// The raster supplied for placement `i`.
pub open spec fn sprite_for(
    defs: NameMap<SpriteWindowDefinition>,
    sprites: NameMap<Raster>,
    i: int,
) -> Raster {
    sprites.map_view()[defs.val_at(i).sprite_name@]
}

/// Whether painted placement `i` covers canvas pixel `(x, y)`.
pub open spec fn wcovers(
    defs: NameMap<SpriteWindowDefinition>,
    sprites: NameMap<Raster>,
    i: int,
    x: int,
    y: int,
) -> bool {
    &&& drawn(defs, sprites, i)
    &&& placed_x(defs.val_at(i).model()) <= x
        < placed_x(defs.val_at(i).model()) + sprite_for(defs, sprites, i).width_spec()
    &&& placed_y(defs.val_at(i).model()) <= y
        < placed_y(defs.val_at(i).model()) + sprite_for(defs, sprites, i).height_spec()
}

/// Placement `i` is painted strictly before placement `j`: on a lower
/// layer, or earlier in catalog order within the same layer.
pub open spec fn painted_before(defs: NameMap<SpriteWindowDefinition>, i: int, j: int) -> bool {
    defs.val_at(i).layer < defs.val_at(j).layer
    || (defs.val_at(i).layer == defs.val_at(j).layer && i < j)
}

/// Whether placement `j` has already been painted when the compositor is
/// about to paint entry `i` of layer `layer`.
pub open spec fn painted_upto(
    defs: NameMap<SpriteWindowDefinition>,
    layer: int,
    i: int,
    j: int,
) -> bool {
    &&& 0 <= j < defs.len_spec()
    &&& (defs.val_at(j).layer < layer || (defs.val_at(j).layer == layer && j < i))
}

impl SpriteWindowManager {
    /// The placement catalog.
    pub closed spec fn defs(self) -> NameMap<SpriteWindowDefinition> {
        self.definitions
    }

    /// The background color the canvas is initialized with.
    pub closed spec fn bg_spec(self) -> RgbColor {
        self.bg_color
    }

    /// Well-formed: the catalog keys are unique.
    pub open spec fn wf(self) -> bool {
        self.defs().wf()
    }

    /// Creates the manager with the full placement catalog and a black
    /// background.
    pub fn new() -> (r: SpriteWindowManager)
        ensures
            r.wf(),
            placement_model_map(r.defs().map_view()) == window_catalog_map(),
            r.bg_spec() == (RgbColor { r: 0, g: 0, b: 0 }),
    {
        let mut definitions = NameMap::<SpriteWindowDefinition>::new();
        proof {
            assert(placement_model_map(definitions.map_view())
                =~= Map::<Seq<char>, PlacementModel>::empty());
        }
        insert_window_defs(&mut definitions, main::main_window_sprites());
        insert_window_defs(&mut definitions, monoster::monoster_window_sprites());
        insert_window_defs(&mut definitions, playpaus::playpaus_window_sprites());
        insert_window_defs(&mut definitions, posbar::posbar_window_sprites());
        proof {
            let a1 = main::main_window_sprites_spec();
            let a2 = monoster::monoster_window_sprites_spec();
            let a3 = playpaus::playpaus_window_sprites_spec();
            let a4 = posbar::posbar_window_sprites_spec();
            let e = Map::<Seq<char>, PlacementModel>::empty();
            lemma_insert_placements_concat(a1, a2, e);
            lemma_insert_placements_concat(a1 + a2, a3, e);
            lemma_insert_placements_concat(a1 + a2 + a3, a4, e);
        }
        SpriteWindowManager { definitions, bg_color: RgbColor { r: 0, g: 0, b: 0 } }
    }

    /// Draws one sprite into `window` at the absolute position of the
    /// named placement: sub-window origin plus the placement offset,
    /// opaque overwrite, no blending.
    pub fn draw_sprite(
        &self,
        window: &mut WindowImage,
        sprite: &Raster,
        window_sprite_name: &str,
    ) -> (r: Result<(), WszError>)
        requires
            self.wf(),
            old(window).wf(),
            sprite.wf(),
        ensures
            match r {
                Ok(()) => {
                    let d = self.defs().map_view()[window_sprite_name@].model();
                    &&& self.defs().map_view().contains_key(window_sprite_name@)
                    &&& placement_fits(d, *sprite, old(window).width_spec() as int,
                        old(window).height_spec() as int)
                    &&& final(window).wf()
                    &&& final(window).width_spec() == old(window).width_spec()
                    &&& final(window).height_spec() == old(window).height_spec()
                    &&& forall|x: int, y: int|
                        placed_x(d) <= x < placed_x(d) + sprite.width_spec()
                        && placed_y(d) <= y < placed_y(d) + sprite.height_spec()
                        ==> final(window).pix(x, y) == sprite.pix(x - placed_x(d), y - placed_y(d))
                    &&& forall|x: int, y: int|
                        0 <= x < old(window).width_spec() && 0 <= y < old(window).height_spec()
                        && !(placed_x(d) <= x < placed_x(d) + sprite.width_spec()
                            && placed_y(d) <= y < placed_y(d) + sprite.height_spec())
                        ==> final(window).pix(x, y) == old(window).pix(x, y)
                },
                Err(e) => {
                    &&& *final(window) == *old(window)
                    &&& if self.defs().map_view().contains_key(window_sprite_name@) {
                        !placement_fits(self.defs().map_view()[window_sprite_name@].model(),
                            *sprite, old(window).width_spec() as int, old(window).height_spec() as int)
                        && (e matches WszError::ArgumentError(m) && m@ == out_of_bounds_msg())
                    } else {
                        e matches WszError::ArgumentError(m)
                            && m@ == sprite_not_found_msg(window_sprite_name@)
                    }
                },
            },
    {
        let def = match self.definitions.get(window_sprite_name) {
            Some(d) => d,
            None => {
                return Err(WszError::ArgumentError(sprite_not_found_message(window_sprite_name)));
            },
        };
        draw_placement(window, sprite, def)
    }

    /// Sets the background color of the window.
    pub fn set_bg_color(&mut self, color: RgbColor)
        ensures
            final(self).defs() == old(self).defs(),
            final(self).bg_spec() == color,
    {
        self.bg_color = color;
    }

    /// Moves the named placement to a new position; a name the catalog
    /// does not know changes nothing.
    pub fn set_sprite_position(&mut self, name: &str, x: u32, y: u32)
        requires
            old(self).wf(),
        ensures
            final(self).wf(),
            final(self).bg_spec() == old(self).bg_spec(),
            if old(self).defs().map_view().contains_key(name@) {
                final(self).defs().map_view() == old(self).defs().map_view().insert(
                    name@,
                    SpriteWindowDefinition {
                        x,
                        y,
                        ..old(self).defs().map_view()[name@]
                    },
                )
            } else {
                final(self).defs() == old(self).defs()
            },
    {
        let updated = match self.definitions.get(name) {
            Some(d) => Some(SpriteWindowDefinition {
                name: d.name.clone(),
                sprite_name: d.sprite_name.clone(),
                window_type: d.window_type,
                layer: d.layer,
                x,
                y,
                width: d.width,
                height: d.height,
            }),
            None => None,
        };
        match updated {
            Some(nd) => {
                self.definitions.insert(String::from_str(name), nd);
            },
            None => {},
        }
    }

    /// Points the named placement at another sprite; a name the catalog
    /// does not know changes nothing.
    pub fn set_sprite_name(&mut self, name: &str, new_name: &str)
        requires
            old(self).wf(),
        ensures
            final(self).wf(),
            final(self).bg_spec() == old(self).bg_spec(),
            if old(self).defs().map_view().contains_key(name@) {
                &&& final(self).defs().map_view().dom() == old(self).defs().map_view().dom()
                &&& forall|k: Seq<char>|
                    #[trigger] old(self).defs().map_view().contains_key(k) && k != name@
                    ==> final(self).defs().map_view()[k] == old(self).defs().map_view()[k]
                &&& final(self).defs().map_view()[name@].model() == (PlacementModel {
                    sprite_name: new_name@,
                    ..old(self).defs().map_view()[name@].model()
                })
            } else {
                final(self).defs() == old(self).defs()
            },
    {
        let updated = match self.definitions.get(name) {
            Some(d) => Some(SpriteWindowDefinition {
                name: d.name.clone(),
                sprite_name: String::from_str(new_name),
                window_type: d.window_type,
                layer: d.layer,
                x: d.x,
                y: d.y,
                width: d.width,
                height: d.height,
            }),
            None => None,
        };
        match updated {
            Some(nd) => {
                self.definitions.insert(String::from_str(name), nd);
                proof {
                    assert(final(self).defs().map_view().dom()
                        =~= old(self).defs().map_view().dom());
                }
            },
            None => {},
        }
    }

    /// Adds a placement under the given name, replacing any existing one.
    pub fn add_window_sprite(&mut self, name: &str, definition: &SpriteWindowDefinition)
        requires
            old(self).wf(),
        ensures
            final(self).wf(),
            final(self).bg_spec() == old(self).bg_spec(),
            final(self).defs().map_view()
                == old(self).defs().map_view().insert(name@, *definition),
    {
        let nd = SpriteWindowDefinition {
            name: definition.name.clone(),
            sprite_name: definition.sprite_name.clone(),
            window_type: definition.window_type,
            layer: definition.layer,
            x: definition.x,
            y: definition.y,
            width: definition.width,
            height: definition.height,
        };
        self.definitions.insert(String::from_str(name), nd);
    }

    /// Removes the named placement.
    pub fn remove_window_sprite(&mut self, name: &str)
        requires
            old(self).wf(),
        ensures
            final(self).wf(),
            final(self).bg_spec() == old(self).bg_spec(),
            final(self).defs().map_view() == old(self).defs().map_view().remove(name@),
    {
        self.definitions.remove(name);
    }

    /// Paints every supplied placement into a fixed-size canvas, layer by
    /// layer, ascending from zero to the highest layer present; within one
    /// layer, in catalog order. Lower layers are occluded by higher ones.
    /// Fails if any painted placement exceeds the canvas.
    #[verifier::loop_isolation(false)]
    pub fn draw_all_sprites(&self, sprites: &NameMap<Raster>) -> (r: Result<WindowImage, WszError>)
        requires
            self.wf(),
            sprites.wf(),
            forall|k: Seq<char>| #[trigger] sprites.map_view().contains_key(k)
                ==> sprites.map_view()[k].wf(),
        ensures
            match r {
                Ok(img) => is_window_composite(self.defs(), *sprites, self.bg_spec(), img),
                Err(e) => {
                    &&& exists|i: int| #[trigger] drawn(self.defs(), *sprites, i)
                        && !placement_fits(self.defs().val_at(i).model(),
                            sprite_for(self.defs(), *sprites, i),
                            WINDOW_WIDTH as int, WINDOW_HEIGHT as int)
                    &&& (e matches WszError::ArgumentError(m) && m@ == out_of_bounds_msg())
                },
            },
    {
        let ghost gdefs = self.defs();
        let bg = RgbaColor::from_rgb(self.bg_color);
        let mut window = Raster::new_filled(WINDOW_WIDTH, WINDOW_HEIGHT, bg);
        let n = self.definitions.len();
        let mut top_layer: u32 = 0;
        let mut t: usize = 0;
        while t < n
            invariant
                t <= n,
                forall|j: int| 0 <= j < t ==> gdefs.val_at(j).layer <= top_layer,
            decreases n - t,
        {
            let d = self.definitions.val_ref(t);
            if d.layer > top_layer {
                top_layer = d.layer;
            }
            t = t + 1;
        }
        let mut layer: u64 = 0;
        while layer < top_layer as u64 + 1
            invariant
                layer <= top_layer as u64 + 1,
                window.wf(),
                window.width_spec() == WINDOW_WIDTH,
                window.height_spec() == WINDOW_HEIGHT,
                forall|j: int| painted_upto(gdefs, layer as int, 0, j)
                    && drawn(gdefs, *sprites, j)
                    ==> placement_fits(gdefs.val_at(j).model(), sprite_for(gdefs, *sprites, j),
                        WINDOW_WIDTH as int, WINDOW_HEIGHT as int),
                forall|x: int, y: int|
                    0 <= x < WINDOW_WIDTH && 0 <= y < WINDOW_HEIGHT
                    && (forall|j: int| painted_upto(gdefs, layer as int, 0, j)
                        ==> !wcovers(gdefs, *sprites, j, x, y))
                    ==> window.pix(x, y) == bg,
                forall|j: int, x: int, y: int|
                    painted_upto(gdefs, layer as int, 0, j)
                    && #[trigger] wcovers(gdefs, *sprites, j, x, y)
                    && (forall|k: int| painted_upto(gdefs, layer as int, 0, k) && k != j
                        && #[trigger] wcovers(gdefs, *sprites, k, x, y)
                        ==> painted_before(gdefs, k, j))
                    ==> window.pix(x, y) == sprite_for(gdefs, *sprites, j)
                        .pix(x - placed_x(gdefs.val_at(j).model()),
                            y - placed_y(gdefs.val_at(j).model())),
            decreases top_layer as u64 + 1 - layer,
        {
            let mut i: usize = 0;
            while i < n
                invariant
                    i <= n,
                    layer < top_layer as u64 + 1,
                    window.wf(),
                    window.width_spec() == WINDOW_WIDTH,
                    window.height_spec() == WINDOW_HEIGHT,
                    forall|j: int| painted_upto(gdefs, layer as int, i as int, j)
                        && drawn(gdefs, *sprites, j)
                        ==> placement_fits(gdefs.val_at(j).model(), sprite_for(gdefs, *sprites, j),
                            WINDOW_WIDTH as int, WINDOW_HEIGHT as int),
                    forall|x: int, y: int|
                        0 <= x < WINDOW_WIDTH && 0 <= y < WINDOW_HEIGHT
                        && (forall|j: int| painted_upto(gdefs, layer as int, i as int, j)
                            ==> !wcovers(gdefs, *sprites, j, x, y))
                        ==> window.pix(x, y) == bg,
                    forall|j: int, x: int, y: int|
                        painted_upto(gdefs, layer as int, i as int, j)
                        && #[trigger] wcovers(gdefs, *sprites, j, x, y)
                        && (forall|k: int| painted_upto(gdefs, layer as int, i as int, k) && k != j
                            && #[trigger] wcovers(gdefs, *sprites, k, x, y)
                            ==> painted_before(gdefs, k, j))
                        ==> window.pix(x, y) == sprite_for(gdefs, *sprites, j)
                            .pix(x - placed_x(gdefs.val_at(j).model()),
                                y - placed_y(gdefs.val_at(j).model())),
                decreases n - i,
            {
                let ghost pre = window;
                let def = self.definitions.val_ref(i);
                let mut painted: bool = false;
                if def.layer as u64 == layer {
                    match sprites.get(def.sprite_name.as_str()) {
                        Some(spr) => {
                            match draw_placement(&mut window, spr, def) {
                                Ok(()) => {
                                    painted = true;
                                },
                                Err(e) => {
                                    proof {
                                        assert(drawn(gdefs, *sprites, i as int));
                                    }
                                    return Err(e);
                                },
                            }
                        },
                        None => {},
                    }
                }
                proof {
                    let ii = i as int;
                    let la = layer as int;
                    assert forall|j: int| #[trigger] painted_upto(gdefs, la, ii, j)
                        implies painted_upto(gdefs, la, ii + 1, j) by {}
                    assert forall|j: int| #[trigger] painted_upto(gdefs, la, ii + 1, j)
                        implies painted_upto(gdefs, la, ii, j)
                            || (j == ii && gdefs.val_at(ii).layer == la) by {}
                    if painted {
                        let d = gdefs.val_at(ii).model();
                        let spr = sprite_for(gdefs, *sprites, ii);
                        assert(drawn(gdefs, *sprites, ii));
                        assert forall|j: int| #[trigger] painted_upto(gdefs, la, ii, j)
                            implies painted_before(gdefs, j, ii) by {}
                        assert forall|j: int| painted_upto(gdefs, la, ii + 1, j)
                            && #[trigger] drawn(gdefs, *sprites, j)
                            implies placement_fits(gdefs.val_at(j).model(),
                                sprite_for(gdefs, *sprites, j),
                                WINDOW_WIDTH as int, WINDOW_HEIGHT as int) by {
                            if j != ii {
                                assert(painted_upto(gdefs, la, ii, j));
                            }
                        }
                        assert forall|j: int, x: int, y: int|
                            painted_upto(gdefs, la, ii + 1, j)
                            && #[trigger] wcovers(gdefs, *sprites, j, x, y)
                            && (forall|k: int| painted_upto(gdefs, la, ii + 1, k) && k != j
                                && #[trigger] wcovers(gdefs, *sprites, k, x, y)
                                ==> painted_before(gdefs, k, j))
                            implies window.pix(x, y) == sprite_for(gdefs, *sprites, j)
                                .pix(x - placed_x(gdefs.val_at(j).model()),
                                    y - placed_y(gdefs.val_at(j).model())) by {
                            if j == ii {
                                assert(window.pix(x, y) == spr.pix(x - placed_x(d), y - placed_y(d)));
                            } else {
                                assert(painted_upto(gdefs, la, ii, j));
                                if wcovers(gdefs, *sprites, ii, x, y) {
                                    assert(painted_upto(gdefs, la, ii + 1, ii));
                                    assert(painted_before(gdefs, ii, j));
                                    assert(painted_before(gdefs, j, ii));
                                    assert(false);
                                }
                                assert(0 <= x < WINDOW_WIDTH && 0 <= y < WINDOW_HEIGHT);
                                assert(window.pix(x, y) == pre.pix(x, y));
                                assert forall|k: int| painted_upto(gdefs, la, ii, k) && k != j
                                    && #[trigger] wcovers(gdefs, *sprites, k, x, y)
                                    implies painted_before(gdefs, k, j) by {
                                    assert(painted_upto(gdefs, la, ii + 1, k));
                                }
                            }
                        }
                        assert forall|x: int, y: int|
                            0 <= x < WINDOW_WIDTH && 0 <= y < WINDOW_HEIGHT
                            && (forall|j: int| painted_upto(gdefs, la, ii + 1, j)
                                ==> !wcovers(gdefs, *sprites, j, x, y))
                            implies window.pix(x, y) == bg by {
                            assert(painted_upto(gdefs, la, ii + 1, ii));
                            assert(!wcovers(gdefs, *sprites, ii, x, y));
                            assert(window.pix(x, y) == pre.pix(x, y));
                            assert forall|j: int| #[trigger] painted_upto(gdefs, la, ii, j)
                                implies !wcovers(gdefs, *sprites, j, x, y) by {
                                assert(painted_upto(gdefs, la, ii + 1, j));
                            }
                        }
                    } else {
                        if gdefs.val_at(ii).layer == la {
                            assert(!drawn(gdefs, *sprites, ii));
                        }
                        assert forall|j: int| painted_upto(gdefs, la, ii + 1, j)
                            && #[trigger] drawn(gdefs, *sprites, j)
                            implies placement_fits(gdefs.val_at(j).model(),
                                sprite_for(gdefs, *sprites, j),
                                WINDOW_WIDTH as int, WINDOW_HEIGHT as int) by {
                            if !painted_upto(gdefs, la, ii, j) {
                                assert(j == ii && gdefs.val_at(ii).layer == la);
                                assert(false);
                            }
                        }
                        assert forall|j: int, x: int, y: int|
                            painted_upto(gdefs, la, ii + 1, j)
                            && #[trigger] wcovers(gdefs, *sprites, j, x, y)
                            && (forall|k: int| painted_upto(gdefs, la, ii + 1, k) && k != j
                                && #[trigger] wcovers(gdefs, *sprites, k, x, y)
                                ==> painted_before(gdefs, k, j))
                            implies window.pix(x, y) == sprite_for(gdefs, *sprites, j)
                                .pix(x - placed_x(gdefs.val_at(j).model()),
                                    y - placed_y(gdefs.val_at(j).model())) by {
                            if !painted_upto(gdefs, la, ii, j) {
                                assert(j == ii && gdefs.val_at(ii).layer == la);
                                assert(!drawn(gdefs, *sprites, ii));
                                assert(false);
                            }
                            assert forall|k: int| painted_upto(gdefs, la, ii, k) && k != j
                                && #[trigger] wcovers(gdefs, *sprites, k, x, y)
                                implies painted_before(gdefs, k, j) by {
                                assert(painted_upto(gdefs, la, ii + 1, k));
                            }
                        }
                        assert forall|x: int, y: int|
                            0 <= x < WINDOW_WIDTH && 0 <= y < WINDOW_HEIGHT
                            && (forall|j: int| painted_upto(gdefs, la, ii + 1, j)
                                ==> !wcovers(gdefs, *sprites, j, x, y))
                            implies window.pix(x, y) == bg by {
                            assert forall|j: int| #[trigger] painted_upto(gdefs, la, ii, j)
                                implies !wcovers(gdefs, *sprites, j, x, y) by {
                                assert(painted_upto(gdefs, la, ii + 1, j));
                            }
                        }
                    }
                }
                i = i + 1;
            }
            proof {
                let la = layer as int;
                assert forall|j: int| #[trigger] painted_upto(gdefs, la + 1, 0, j)
                    implies painted_upto(gdefs, la, n as int, j) by {}
                assert forall|j: int| #[trigger] painted_upto(gdefs, la, n as int, j)
                    implies painted_upto(gdefs, la + 1, 0, j) by {}
                assert forall|j: int, x: int, y: int|
                    painted_upto(gdefs, la + 1, 0, j)
                    && #[trigger] wcovers(gdefs, *sprites, j, x, y)
                    && (forall|k: int| painted_upto(gdefs, la + 1, 0, k) && k != j
                        && #[trigger] wcovers(gdefs, *sprites, k, x, y)
                        ==> painted_before(gdefs, k, j))
                    implies window.pix(x, y) == sprite_for(gdefs, *sprites, j)
                        .pix(x - placed_x(gdefs.val_at(j).model()),
                            y - placed_y(gdefs.val_at(j).model())) by {
                    assert(painted_upto(gdefs, la, n as int, j));
                    assert forall|k: int| painted_upto(gdefs, la, n as int, k) && k != j
                        && #[trigger] wcovers(gdefs, *sprites, k, x, y)
                        implies painted_before(gdefs, k, j) by {
                        assert(painted_upto(gdefs, la + 1, 0, k));
                    }
                }
                assert forall|x: int, y: int|
                    0 <= x < WINDOW_WIDTH && 0 <= y < WINDOW_HEIGHT
                    && (forall|j: int| painted_upto(gdefs, la + 1, 0, j)
                        ==> !wcovers(gdefs, *sprites, j, x, y))
                    implies window.pix(x, y) == bg by {
                    assert forall|j: int| #[trigger] painted_upto(gdefs, la, n as int, j)
                        implies !wcovers(gdefs, *sprites, j, x, y) by {
                        assert(painted_upto(gdefs, la + 1, 0, j));
                    }
                }
            }
            layer = layer + 1;
        }
        proof {
            let ml = layer as int;
            assert forall|j: int| #[trigger] drawn(gdefs, *sprites, j)
                implies painted_upto(gdefs, ml, 0, j) by {
                assert(gdefs.val_at(j).layer <= top_layer);
            }
            assert forall|j: int, x: int, y: int|
                #[trigger] wcovers(gdefs, *sprites, j, x, y)
                && (forall|k: int| #[trigger] wcovers(gdefs, *sprites, k, x, y)
                    && k != j ==> painted_before(gdefs, k, j))
                implies window.pix(x, y) == sprite_for(gdefs, *sprites, j)
                    .pix(x - placed_x(gdefs.val_at(j).model()),
                        y - placed_y(gdefs.val_at(j).model())) by {
                assert(painted_upto(gdefs, ml, 0, j));
                assert forall|k: int| painted_upto(gdefs, ml, 0, k) && k != j
                    && #[trigger] wcovers(gdefs, *sprites, k, x, y)
                    implies painted_before(gdefs, k, j) by {}
            }
            assert forall|x: int, y: int|
                0 <= x < WINDOW_WIDTH && 0 <= y < WINDOW_HEIGHT
                && (forall|i: int| 0 <= i < gdefs.len_spec()
                    ==> !wcovers(gdefs, *sprites, i, x, y))
                implies window.pix(x, y) == bg by {
                assert forall|j: int| #[trigger] painted_upto(gdefs, ml, 0, j)
                    implies !wcovers(gdefs, *sprites, j, x, y) by {}
            }
        }
        Ok(window)
    }
}

/// Draws `sprite` into `window` at the absolute position of placement
/// `def`: sub-window origin plus the placement offset, opaque overwrite.
fn draw_placement(
    window: &mut Raster,
    sprite: &Raster,
    def: &SpriteWindowDefinition,
) -> (r: Result<(), WszError>)
    requires
        old(window).wf(),
        sprite.wf(),
    ensures
        match r {
            Ok(()) => {
                let d = def.model();
                &&& placement_fits(d, *sprite, old(window).width_spec() as int,
                    old(window).height_spec() as int)
                &&& final(window).wf()
                &&& final(window).width_spec() == old(window).width_spec()
                &&& final(window).height_spec() == old(window).height_spec()
                &&& forall|x: int, y: int|
                    placed_x(d) <= x < placed_x(d) + sprite.width_spec()
                    && placed_y(d) <= y < placed_y(d) + sprite.height_spec()
                    ==> final(window).pix(x, y) == sprite.pix(x - placed_x(d), y - placed_y(d))
                &&& forall|x: int, y: int|
                    0 <= x < old(window).width_spec() && 0 <= y < old(window).height_spec()
                    && !(placed_x(d) <= x < placed_x(d) + sprite.width_spec()
                        && placed_y(d) <= y < placed_y(d) + sprite.height_spec())
                    ==> final(window).pix(x, y) == old(window).pix(x, y)
            },
            Err(e) => {
                &&& *final(window) == *old(window)
                &&& !placement_fits(def.model(), *sprite, old(window).width_spec() as int,
                    old(window).height_spec() as int)
                &&& (e matches WszError::ArgumentError(m) && m@ == out_of_bounds_msg())
            },
        },
{
    let (ox, oy) = window_start(def.window_type);
    let sx: u64 = (ox as u64) + (def.x as u64);
    let sy: u64 = (oy as u64) + (def.y as u64);
    let ww: u64 = window.width() as u64;
    let wh: u64 = window.height() as u64;
    if sx + (def.width as u64) > ww || sy + (def.height as u64) > wh
        || sx + (sprite.width() as u64) > ww || sy + (sprite.height() as u64) > wh {
        return Err(WszError::ArgumentError(String::from_str("Sprite is out of bounds")));
    }
    window.copy_from(sprite, sx as u32, sy as u32);
    Ok(())
}

/// The text of the error for a sprite name the catalog does not know.
pub open spec fn sprite_not_found_msg(name: Seq<char>) -> Seq<char> {
    "Sprite "@ + name + " not found"@
}

/// Builds the error text for a sprite name the catalog does not know.
pub fn sprite_not_found_message(name: &str) -> (r: String)
    ensures
        r@ == sprite_not_found_msg(name@),
{
    String::from_str("Sprite ").concat(name).concat(" not found")
}

} // verus!
