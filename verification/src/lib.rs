//! Library for unpacking Winamp skin archives into named sprite images,
//! packing them back, and rendering a static preview of the skin.

pub mod archive;
pub mod codec;
pub mod color;
pub mod error;
pub mod laws;
pub mod namemap;
pub mod raster;
pub mod sprites;
pub mod strutil;
pub mod text;

use vstd::prelude::*;

use crate::archive::{archive_spec, byte_map, matches_basename, utf8_lossy, zip_entries,
    WszArchive};
use crate::color::RgbColor;
use crate::error::WszError;
use crate::namemap::NameMap;
use crate::raster::Raster;
use crate::sprites::{drawn, is_extracted, is_window_composite, model_map, placement_fits,
    placement_model_map, sprite_catalog_map, sprite_for, window_catalog_map, SpriteManager,
    SpriteWindowDefinition, SpriteWindowManager, WindowImage, WINDOW_HEIGHT, WINDOW_WIDTH};
use crate::text::pledit::{pledit_init, pledit_spec, PleditSettings};
use crate::text::region::{region_init, regions_spec, Regions};
use crate::text::viscolor::{vis_colors_spec, VisColors};

verus! {

/// Top-level container for a skin: its sprites and its parsed
/// configuration files.
#[derive(Debug, Clone)]
pub struct Wsz {
    sprites: NameMap<Raster>,
    vis_colors: VisColors,
    pledit: PleditSettings,
    regions: Regions,
}

/// The sprites `m` are exactly those a skin archive yields for the
/// standard catalog: one for each catalog rectangle whose sheet file is
/// present and decodes, cut from the decoded sheet along the rectangle.
pub open spec fn sprites_from_archive(archive: WszArchive, m: NameMap<Raster>) -> bool {
    &&& m.wf()
    &&& exists|mgr: SpriteManager| #[trigger] mgr.wf()
        && model_map(mgr.defs().map_view()) == sprite_catalog_map()
        && (forall|k: Seq<char>| #[trigger] m.map_view().contains_key(k)
            <==> (mgr.defs().map_view().contains_key(k)
                && sprites::is_known_sheet(mgr.defs().map_view()[k].sprite_sheet@)
                && sprites::sheet_readable(archive, mgr.defs().map_view()[k].sprite_sheet@)))
        && (forall|k: Seq<char>| #[trigger] m.map_view().contains_key(k) ==> {
            &&& m.map_view()[k].wf()
            &&& exists|i: int, img: Raster|
                sprites::chosen_sheet_entry(archive, mgr.defs().map_view()[k].sprite_sheet@, i)
                && #[trigger] codec::is_decoded_raster(archive.val_at(i)@, img)
                && is_extracted(mgr.defs().map_view()[k].model(), img, m.map_view()[k])
        })
}

/// What a successfully built `Wsz` holds for the archive it came from:
/// sprites extracted from the archive's sheets; the color table of the
/// archive's color-table file, or empty when the archive has none; the
/// settings of its settings file, or defaults when it has none; and the
/// regions of its region file, or empty regions on any failure there.
pub open spec fn wsz_from_archive_ok(archive: WszArchive, w: Wsz) -> bool {
    &&& w.wf()
    &&& sprites_from_archive(archive, w.sprites_nm())
    &&& ((forall|i: int| 0 <= i < archive.len_spec()
            ==> !(#[trigger] matches_basename(archive.key_at(i), "viscolor.txt"@)))
        ==> w.vis_model().len() == 0)
    &&& ((exists|i: int| 0 <= i < archive.len_spec()
            && #[trigger] matches_basename(archive.key_at(i), "viscolor.txt"@))
        ==> exists|i: int| 0 <= i < archive.len_spec()
            && #[trigger] matches_basename(archive.key_at(i), "viscolor.txt"@)
            && vis_colors_spec(utf8_lossy(archive.val_at(i)@))
                == Ok::<_, (int, Seq<char>)>(w.vis_model()))
    &&& ((forall|i: int| 0 <= i < archive.len_spec()
            ==> !(#[trigger] matches_basename(archive.key_at(i), "pledit.txt"@)))
        ==> w.pledit_model() == pledit_init().settings)
    &&& ((exists|i: int| 0 <= i < archive.len_spec()
            && #[trigger] matches_basename(archive.key_at(i), "pledit.txt"@))
        ==> exists|i: int| 0 <= i < archive.len_spec()
            && #[trigger] matches_basename(archive.key_at(i), "pledit.txt"@)
            && pledit_spec(utf8_lossy(archive.val_at(i)@))
                == Ok::<_, (int, Seq<char>)>(w.pledit_model()))
    &&& ((forall|i: int| 0 <= i < archive.len_spec()
            ==> !(#[trigger] matches_basename(archive.key_at(i), "region.txt"@)))
        ==> w.regions_model() == region_init().regions)
    &&& ((exists|i: int| 0 <= i < archive.len_spec()
            && #[trigger] matches_basename(archive.key_at(i), "region.txt"@))
        ==> exists|i: int| 0 <= i < archive.len_spec()
            && #[trigger] matches_basename(archive.key_at(i), "region.txt"@)
            && (match regions_spec(utf8_lossy(archive.val_at(i)@)) {
                Ok(m) => w.regions_model() == m,
                Err(_) => w.regions_model() == region_init().regions,
            }))
}

/// A failure to build a `Wsz` from an archive is a grammar violation in
/// the color-table or settings file.
pub open spec fn wsz_from_archive_err(archive: WszArchive, e: WszError) -> bool {
    e matches WszError::InvalidFormat { line, error }
    && (
        (exists|i: int| 0 <= i < archive.len_spec()
            && #[trigger] matches_basename(archive.key_at(i), "viscolor.txt"@)
            && vis_colors_spec(utf8_lossy(archive.val_at(i)@))
                == Err::<Seq<RgbColor>, _>((line as int, error@)))
        || (exists|i: int| 0 <= i < archive.len_spec()
            && #[trigger] matches_basename(archive.key_at(i), "pledit.txt"@)
            && pledit_spec(utf8_lossy(archive.val_at(i)@))
                == Err::<text::pledit::PleditModel, _>((line as int, error@)))
    )
}

impl Wsz {
    /// The skin's sprites.
    pub closed spec fn sprites_nm(self) -> NameMap<Raster> {
        self.sprites
    }

    /// The skin's color table.
    pub closed spec fn vis_model(self) -> Seq<RgbColor> {
        self.vis_colors.colors_seq()
    }

    /// The skin's playlist-editor settings.
    pub closed spec fn pledit_model(self) -> text::pledit::PleditModel {
        self.pledit.model()
    }

    /// The skin's window regions.
    pub closed spec fn regions_model(self) -> text::region::RegionsModel {
        self.regions.model()
    }

    /// Well-formed: the name-keyed tables have unique keys and every
    /// sprite raster is consistent.
    pub closed spec fn wf(self) -> bool {
        &&& self.sprites.wf()
        &&& self.pledit.wf()
        &&& forall|k: Seq<char>| #[trigger] self.sprites.map_view().contains_key(k)
            ==> self.sprites.map_view()[k].wf()
    }

    /// Builds a skin from the raw bytes of a skin archive.
    pub fn from_bytes(data: &[u8]) -> (r: Result<Wsz, WszError>)
        ensures
            match r {
                Ok(w) => zip_entries(data@) is Some
                    && exists|archive: WszArchive| #[trigger] archive.wf()
                        && byte_map(archive.map_view()) == archive_spec(data@)
                        && wsz_from_archive_ok(archive, w),
                Err(e) => {
                    ||| (zip_entries(data@) is None
                        && (e matches WszError::Zip(_) || e matches WszError::Io(_)))
                    ||| (zip_entries(data@) is Some
                        && exists|archive: WszArchive| #[trigger] archive.wf()
                            && byte_map(archive.map_view()) == archive_spec(data@)
                            && wsz_from_archive_err(archive, e))
                },
            },
    {
        let contents = match archive::unpack_wsz_bytes(data) {
            Ok(contents) => contents,
            Err(e) => {
                return Err(e);
            },
        };
        Wsz::from_archive(&contents)
    }

    /// Builds a skin from an already-unpacked archive. Sprites come from
    /// every sheet that is present and decodes; missing configuration
    /// files degrade to empty defaults; region errors are discarded by
    /// design; other configuration errors propagate.
    pub fn from_archive(archive: &WszArchive) -> (r: Result<Wsz, WszError>)
        requires
            archive.wf(),
        ensures
            match r {
                Ok(w) => wsz_from_archive_ok(*archive, w),
                Err(e) => wsz_from_archive_err(*archive, e),
            },
    {
        let sprite_manager = SpriteManager::new();
        let sprites = match sprite_manager.extract_all_sprites_from_archive(archive) {
            Ok(sprites) => sprites,
            Err(e) => {
                proof {
                    assert(false);
                }
                return Err(e);
            },
        };

        let vis_colors = match VisColors::from_archive(archive) {
            Ok(vis_colors) => vis_colors,
            Err(e) => {
                match e {
                    WszError::NotFound(_) => VisColors::default(),
                    _ => {
                        return Err(e);
                    },
                }
            },
        };

        let pledit = match PleditSettings::from_archive(archive) {
            Ok(pledit) => pledit,
            Err(e) => {
                match e {
                    WszError::NotFound(_) => PleditSettings::default(),
                    _ => {
                        return Err(e);
                    },
                }
            },
        };

        let regions = match Regions::from_archive(archive) {
            Ok(regions) => regions,
            Err(_) => Regions::default(),
        };

        let w = Wsz { sprites, vis_colors, pledit, regions };
        proof {
            assert(sprites_from_archive(*archive, w.sprites_nm()));
        }
        Ok(w)
    }

    /// Looks a sprite up by name.
    pub fn get_sprite(&self, name: &str) -> (r: Option<&Raster>)
        requires
            self.wf(),
        ensures
            match r {
                Some(img) => self.sprites_nm().map_view().contains_key(name@)
                    && *img == self.sprites_nm().map_view()[name@],
                None => !self.sprites_nm().map_view().contains_key(name@),
            },
    {
        self.sprites.get(name)
    }

    /// All sprites of the skin.
    pub fn get_sprites(&self) -> (r: &NameMap<Raster>)
        ensures
            *r == self.sprites_nm(),
            self.wf() ==> r.wf(),
    {
        &self.sprites
    }

    /// The visualization colors.
    pub fn get_vis_colors(&self) -> (r: &VisColors)
        ensures
            r.colors_seq() == self.vis_model(),
    {
        &self.vis_colors
    }

    /// The playlist editor settings.
    pub fn get_pledit_settings(&self) -> (r: &PleditSettings)
        ensures
            r.model() == self.pledit_model(),
            self.wf() ==> r.wf(),
    {
        &self.pledit
    }

    /// The window regions.
    pub fn get_regions(&self) -> (r: &Regions)
        ensures
            r.model() == self.regions_model(),
    {
        &self.regions
    }

    /// Renders the skin as the player's stacked windows: the standard
    /// placements painted over a canvas filled with the settings'
    /// normal-background color, or black without one.
    pub fn render_screenshot(&self) -> (r: Result<WindowImage, WszError>)
        requires
            self.wf(),
        ensures
            ({
                let bg = match self.pledit_model().normal_bg {
                    Some(c) => c,
                    None => RgbColor { r: 0, g: 0, b: 0 },
                };
                match r {
                    Ok(img) => exists|defs: NameMap<SpriteWindowDefinition>|
                        #[trigger] defs.wf()
                        && placement_model_map(defs.map_view()) == window_catalog_map()
                        && is_window_composite(defs, self.sprites_nm(), bg, img),
                    Err(e) => (e matches WszError::ArgumentError(m)
                        && m@ == sprites::out_of_bounds_msg())
                        && exists|defs: NameMap<SpriteWindowDefinition>|
                            #[trigger] defs.wf()
                            && placement_model_map(defs.map_view()) == window_catalog_map()
                            && exists|i: int| #[trigger] drawn(defs, self.sprites_nm(), i)
                                && !placement_fits(defs.val_at(i).model(),
                                    sprite_for(defs, self.sprites_nm(), i),
                                    WINDOW_WIDTH as int, WINDOW_HEIGHT as int),
                }
            }),
    {
        let mut window_defs = SpriteWindowManager::new();
        match self.pledit.normal_bg {
            Some(bg_color) => {
                window_defs.set_bg_color(bg_color);
            },
            None => {},
        }
        let window = match window_defs.draw_all_sprites(&self.sprites) {
            Ok(window) => window,
            Err(e) => {
                proof {
                    let wdefs = window_defs.defs();
                    let bad = choose|i: int| #[trigger] drawn(wdefs, self.sprites, i)
                        && !placement_fits(wdefs.val_at(i).model(),
                            sprite_for(wdefs, self.sprites, i),
                            WINDOW_WIDTH as int, WINDOW_HEIGHT as int);
                    assert(drawn(wdefs, self.sprites_nm(), bad)
                        && !placement_fits(wdefs.val_at(bad).model(),
                            sprite_for(wdefs, self.sprites_nm(), bad),
                            WINDOW_WIDTH as int, WINDOW_HEIGHT as int));
                    assert(wdefs.wf()
                        && placement_model_map(wdefs.map_view()) == window_catalog_map());
                }
                return Err(e);
            },
        };
        Ok(window)
    }
}

} // verus!
