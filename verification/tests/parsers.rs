//! Tests for the three configuration-text parsers.

use wsz::color::RgbColor;
use wsz::error::WszError;
use wsz::text::pledit::PleditSettings;
use wsz::text::region::Regions;
use wsz::text::viscolor::VisColors;

fn rgb(r: u8, g: u8, b: u8) -> RgbColor {
    RgbColor { r, g, b }
}

#[test]
fn viscolor_basic_table() {
    let v = VisColors::from_string("0,0,0\n255,255,255\n 10 , 20 , 30 \n").unwrap();
    assert_eq!(v.len(), 3);
    assert_eq!(v.get(0), Some(rgb(0, 0, 0)));
    assert_eq!(v.get(1), Some(rgb(255, 255, 255)));
    assert_eq!(v.get(2), Some(rgb(10, 20, 30)));
    assert_eq!(v.get(3), None);
}

#[test]
fn viscolor_error_is_line_tagged() {
    let r = VisColors::from_string("0,0,0\n255,255,255 // comment\nNOT,A,COLOR\n");
    match r {
        Err(WszError::InvalidFormat { line, error }) => {
            assert_eq!(line, 3);
            assert_eq!(error, "Invalid color value: 'NOT'");
        }
        other => panic!("expected a line-3 format error, got {:?}", other),
    }
}

#[test]
fn viscolor_line_without_comma_skipped() {
    let v = VisColors::from_string("0,0,0\nno comma here\n1,2,3\n").unwrap();
    assert_eq!(v.len(), 2);
    assert_eq!(v.get(1), Some(rgb(1, 2, 3)));
}

#[test]
fn viscolor_comment_stripped() {
    let v = VisColors::from_string("1,2,3 // a comment\n").unwrap();
    assert_eq!(v.len(), 1);
    assert_eq!(v.get(0), Some(rgb(1, 2, 3)));
}

#[test]
fn viscolor_extra_fields_error() {
    // a content line must hold exactly three fields
    let r = VisColors::from_string("1,2,3,4,5\n");
    match r {
        Err(WszError::InvalidFormat { line, error }) => {
            assert_eq!(line, 1);
            assert_eq!(error, "Expected three comma-separated RGB values");
        }
        other => panic!("expected a line-1 format error, got {:?}", other),
    }
}

#[test]
fn viscolor_value_out_of_range() {
    let r = VisColors::from_string("0,0,256\n");
    match r {
        Err(WszError::InvalidFormat { line, error }) => {
            assert_eq!(line, 1);
            assert_eq!(error, "Invalid color value: '256'");
        }
        other => panic!("expected a line-1 format error, got {:?}", other),
    }
}

#[test]
fn viscolor_two_fields_error() {
    let r = VisColors::from_string("1,2\n");
    match r {
        Err(WszError::InvalidFormat { line, error }) => {
            assert_eq!(line, 1);
            assert_eq!(error, "Expected three comma-separated RGB values");
        }
        other => panic!("expected a line-1 format error, got {:?}", other),
    }
}

#[test]
fn viscolor_empty_is_empty() {
    let v = VisColors::from_string("").unwrap();
    assert!(v.is_empty());
    assert_eq!(v.bg_color(), None);
    assert_eq!(v.vis_color(0), None);
    assert_eq!(v.osc_colors(), Vec::<RgbColor>::new());
}

fn full_table() -> VisColors {
    // 24 entries: entry i is (i, i, i)
    let mut text = String::new();
    for i in 0..24 {
        text.push_str(&format!("{},{},{}\n", i, i, i));
    }
    VisColors::from_string(&text).unwrap()
}

#[test]
fn viscolor_legend_positions() {
    let v = full_table();
    assert_eq!(v.len(), 24);
    assert_eq!(v.bg_color(), Some(rgb(0, 0, 0)));
    assert_eq!(v.bg_dots_color(), Some(rgb(1, 1, 1)));
    assert_eq!(v.peak_dots_color(), Some(rgb(23, 23, 23)));
    // bar value 15 is the first spectrum entry, value 0 the last
    assert_eq!(v.vis_color(15), Some(rgb(2, 2, 2)));
    assert_eq!(v.vis_color(0), Some(rgb(17, 17, 17)));
    assert_eq!(v.vis_color(16), None);
    assert_eq!(v.osc_color(0), Some(rgb(18, 18, 18)));
    assert_eq!(v.osc_color(4), Some(rgb(22, 22, 22)));
    assert_eq!(v.osc_color(5), None);
}

#[test]
fn viscolor_slices() {
    let v = full_table();
    let bars = v.vis_colors();
    assert_eq!(bars.len(), 16);
    assert_eq!(bars[0], rgb(17, 17, 17));
    assert_eq!(bars[15], rgb(2, 2, 2));
    let osc = v.osc_colors();
    assert_eq!(osc.len(), 5);
    assert_eq!(osc[0], rgb(18, 18, 18));
    assert_eq!(osc[4], rgb(22, 22, 22));
}

#[test]
fn pledit_typed_and_custom_keys() {
    let p = PleditSettings::from_string(
        "; a comment\n[Text]\nNormal=#00FF00\nCurrent=FFFFFF\nNormalBG=000000\nSelectedBG=0000C6\nFont=Arial\nWeird=stuff\n[Other]\nKey=1\n",
    )
    .unwrap();
    assert_eq!(p.normal, Some(rgb(0, 255, 0)));
    assert_eq!(p.current, Some(rgb(255, 255, 255)));
    assert_eq!(p.normal_bg, Some(rgb(0, 0, 0)));
    assert_eq!(p.selected_bg, Some(rgb(0, 0, 198)));
    assert_eq!(p.font.as_deref(), Some("Arial"));
    assert_eq!(p.custom.get("Weird").map(String::as_str), Some("stuff"));
    assert_eq!(p.custom.get("Other.Key").map(String::as_str), Some("1"));
    assert_eq!(p.custom.get("Key"), None);
}

#[test]
fn pledit_key_outside_section_is_error() {
    let r = PleditSettings::from_string("Normal=#00FF00\n");
    match r {
        Err(WszError::InvalidFormat { line, error }) => {
            assert_eq!(line, 1);
            assert_eq!(error, "Key-value pair outside of any section");
        }
        other => panic!("expected a line-1 format error, got {:?}", other),
    }
}

#[test]
fn pledit_bad_hex_color() {
    let r = PleditSettings::from_string("[Text]\nNormal=XYZXYZ\n");
    match r {
        Err(WszError::InvalidFormat { line, error }) => {
            assert_eq!(line, 2);
            assert_eq!(error, "Invalid hex value for red: 'XY'");
        }
        other => panic!("expected a line-2 hex format error, got {:?}", other),
    }
}

#[test]
fn pledit_bad_hex_length() {
    let r = PleditSettings::from_string("[Text]\nNormal=#ABC\n");
    match r {
        Err(WszError::InvalidFormat { line, error }) => {
            assert_eq!(line, 2);
            assert_eq!(error, "Invalid hex color format: 'ABC'");
        }
        other => panic!("expected a line-2 hex format error, got {:?}", other),
    }
}

#[test]
fn pledit_invalid_line() {
    let r = PleditSettings::from_string("[Text]\njust words\n");
    match r {
        Err(WszError::InvalidFormat { line, error }) => {
            assert_eq!(line, 2);
            assert_eq!(error, "Invalid line format: 'just words'");
        }
        other => panic!("expected a line-2 format error, got {:?}", other),
    }
}

#[test]
fn region_single_polygon() {
    let r = Regions::from_string("[Normal]\nNumPoints=4\nPointList=0,0,10,0,10,10,0,10\n").unwrap();
    assert_eq!(
        r.main,
        Some(vec![vec![(0, 0), (10, 0), (10, 10), (0, 10)]])
    );
    assert_eq!(r.main_shade, None);
    assert_eq!(r.equalizer, None);
    assert_eq!(r.equalizer_shade, None);
}

#[test]
fn region_count_mismatch_is_error() {
    let r = Regions::from_string("[Normal]\nNumPoints=3,2\nPointList=0,0,10,0,10,10,0,10\n");
    match r {
        Err(WszError::InvalidFormat { line, error }) => {
            assert_eq!(line, 3);
            assert_eq!(
                error,
                "Number of points does not match number of points in the region"
            );
        }
        other => panic!("expected a count mismatch error, got {:?}", other),
    }
}

#[test]
fn region_two_polygons_and_mixed_separators() {
    let r = Regions::from_string(
        "[Equalizer]\nNumPoints=3,2\nPointList=0,0 10,0  10,10, 1,1 2,2\n",
    )
    .unwrap();
    assert_eq!(
        r.equalizer,
        Some(vec![vec![(0, 0), (10, 0), (10, 10)], vec![(1, 1), (2, 2)]])
    );
}

#[test]
fn region_unknown_section_is_error() {
    let r = Regions::from_string("; leading comment\n[Bogus]\n");
    match r {
        Err(WszError::InvalidFormat { line, error }) => {
            assert_eq!(line, 2);
            assert_eq!(error, "Invalid region type: 'Bogus'");
        }
        other => panic!("expected an unknown-section error, got {:?}", other),
    }
}

#[test]
fn region_unknown_key_is_error() {
    let r = Regions::from_string("[Normal]\nColor=red\n");
    match r {
        Err(WszError::InvalidFormat { line, error }) => {
            assert_eq!(line, 2);
            assert_eq!(error, "Invalid key: 'Color'");
        }
        other => panic!("expected an unknown-key error, got {:?}", other),
    }
}

#[test]
fn region_bad_number_is_error() {
    let r = Regions::from_string("[Normal]\nNumPoints=4x\n");
    match r {
        Err(WszError::InvalidFormat { line, error }) => {
            assert_eq!(line, 2);
            assert_eq!(error, "Invalid number: '4x'");
        }
        other => panic!("expected a number error, got {:?}", other),
    }
}

#[test]
fn region_comments_and_blanks_skipped() {
    let r = Regions::from_string("; shapes\n\n[WindowShade]\nNumPoints=3\nPointList=0 0 1 0 1 1\n")
        .unwrap();
    assert_eq!(r.main_shade, Some(vec![vec![(0, 0), (1, 0), (1, 1)]]));
}
