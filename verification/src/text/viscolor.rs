//! Parser for the visualization color table: each content line holds three
//! comma-separated 8-bit decimals; `//` starts a comment; a line without a
//! comma is skipped.

use vstd::prelude::*;
use vstd::string::StringExecFns;

use crate::archive::{bytes_to_string_lossy, find_archive_file, matches_basename, utf8_lossy,
    WszArchive};
use crate::color::RgbColor;
use crate::error::WszError;
use crate::strutil::{contains_char, range_contains_char, split_char, split_ranges,
    strip_comment_range, strip_line_comment, trim_range, trim_spec, uint_val, parse_uint_range};

verus! {

/// Position of the background color in the table's legend.
pub const VIS_COLOR_BG: usize = 0;

/// Position of the background-dots color.
pub const VIS_COLOR_BG_DOTS: usize = 1;

/// Position of the highest spectrum-bar color; the sixteen bar colors run
/// from here, high to low.
pub const VIS_COLOR_SPEC_15: usize = 2;

/// Position of the lowest spectrum-bar color.
pub const VIS_COLOR_SPEC_0: usize = 17;

/// Position of the first oscilloscope color; the five run from here.
pub const VIS_COLOR_OSC_1: usize = 18;

/// Position of the last oscilloscope color.
pub const VIS_COLOR_OSC_5: usize = 22;

/// Position of the peak-dots color.
pub const VIS_COLOR_PEAK_DOTS: usize = 23;

/// What one line contributes to the color table.
pub ghost enum VisLineOut {
    /// Blank, comment-only, or without a comma: ignored.
    Skip,
    /// One color appended to the table.
    Color(RgbColor),
    /// A grammar violation, with its message.
    Bad(Seq<char>),
}

/// The error text for a field that is not an 8-bit decimal.
pub open spec fn vis_value_msg(part: Seq<char>) -> Seq<char> {
    "Invalid color value: '"@ + part + "'"@
}

/// The error text for a line without exactly three comma-separated fields.
pub open spec fn vis_three_msg() -> Seq<char> {
    "Expected three comma-separated RGB values"@
}

/// An 8-bit decimal value.
pub open spec fn u8_val(s: Seq<char>) -> Option<int> {
    match uint_val(s) {
        Some(v) => if v <= 255 { Some(v) } else { None },
        None => None,
    }
}

/// What one line contributes: the line is trimmed, a `//` comment removed;
/// a blank line or one without a comma is skipped; otherwise the line must
/// hold exactly three comma-separated 8-bit decimals.
pub open spec fn vis_line(line: Seq<char>) -> VisLineOut {
    let t1 = trim_spec(line);
    if t1.len() == 0 {
        VisLineOut::Skip
    } else {
        let t = trim_spec(strip_line_comment(t1));
        if !contains_char(t, ',') {
            VisLineOut::Skip
        } else {
            let parts = split_char(t, ',');
            if parts.len() != 3 {
                VisLineOut::Bad(vis_three_msg())
            } else {
                let p0 = trim_spec(parts[0]);
                let p1 = trim_spec(parts[1]);
                let p2 = trim_spec(parts[2]);
                match u8_val(p0) {
                    None => VisLineOut::Bad(vis_value_msg(p0)),
                    Some(r) => match u8_val(p1) {
                        None => VisLineOut::Bad(vis_value_msg(p1)),
                        Some(g) => match u8_val(p2) {
                            None => VisLineOut::Bad(vis_value_msg(p2)),
                            Some(b) => VisLineOut::Color(
                                RgbColor { r: r as u8, g: g as u8, b: b as u8 },
                            ),
                        },
                    },
                }
            }
        }
    }
}

/// The colors contributed by lines `ln` onward, or the first grammar
/// violation with its 1-based line number and message.
pub open spec fn vis_parse_from(lines: Seq<Seq<char>>, ln: int)
    -> Result<Seq<RgbColor>, (int, Seq<char>)>
    decreases lines.len() - ln,
{
    if ln < 0 || ln >= lines.len() {
        Ok(Seq::empty())
    } else {
        match vis_line(lines[ln]) {
            VisLineOut::Skip => vis_parse_from(lines, ln + 1),
            VisLineOut::Color(c) => match vis_parse_from(lines, ln + 1) {
                Ok(rest) => Ok(seq![c] + rest),
                Err(e) => Err(e),
            },
            VisLineOut::Bad(m) => Err((ln + 1, m)),
        }
    }
}

/// Prepends already-collected colors to a parse outcome.
pub open spec fn vis_combine(
    acc: Seq<RgbColor>,
    r: Result<Seq<RgbColor>, (int, Seq<char>)>,
) -> Result<Seq<RgbColor>, (int, Seq<char>)> {
    match r {
        Ok(rest) => Ok(acc + rest),
        Err(e) => Err(e),
    }
}

/// The color table parsed from the text, or its first grammar violation.
pub open spec fn vis_colors_spec(s: Seq<char>) -> Result<Seq<RgbColor>, (int, Seq<char>)> {
    vis_parse_from(split_char(s, '\n'), 0)
}

/// The visualization colors of a skin, in table order. Indices are
/// positionally meaningful; a table shorter than the legend yields no color
/// for the missing positions.
#[derive(Debug, Clone)]
pub struct VisColors {
    colors: Vec<RgbColor>,
}

impl VisColors {
    /// The table as a sequence.
    pub closed spec fn colors_seq(self) -> Seq<RgbColor> {
        self.colors@
    }

    /// Creates an empty table.
    pub fn new() -> (r: VisColors)
        ensures
            r.colors_seq() == Seq::<RgbColor>::empty(),
    {
        let r = VisColors { colors: Vec::new() };
        proof {
            assert(r.colors_seq() =~= Seq::<RgbColor>::empty());
        }
        r
    }

    /// Parses the color-table file found in the archive by its base name;
    /// a missing file is a `NotFound` error the caller may treat as an
    /// empty table.
    pub fn from_archive(archive: &WszArchive) -> (r: Result<VisColors, WszError>)
        requires
            archive.wf(),
        ensures
            match r {
                Ok(v) => exists|i: int| 0 <= i < archive.len_spec()
                    && #[trigger] matches_basename(archive.key_at(i), "viscolor.txt"@)
                    && vis_colors_spec(utf8_lossy(archive.val_at(i)@)) == Ok::<_, (int, Seq<char>)>(v.colors_seq()),
                Err(e) => match e {
                    WszError::NotFound(m) => m@ == "viscolor.txt"@
                        && forall|i: int| 0 <= i < archive.len_spec()
                            ==> !(#[trigger] matches_basename(archive.key_at(i), "viscolor.txt"@)),
                    WszError::InvalidFormat { line, error } => exists|i: int|
                        0 <= i < archive.len_spec()
                        && #[trigger] matches_basename(archive.key_at(i), "viscolor.txt"@)
                        && vis_colors_spec(utf8_lossy(archive.val_at(i)@))
                            == Err::<Seq<RgbColor>, _>((line as int, error@)),
                    _ => false,
                },
            },
    {
        let bytes = match find_archive_file(archive, "viscolor.txt") {
            Some(bytes) => bytes,
            None => {
                return Err(WszError::NotFound(String::from_str("viscolor.txt")));
            },
        };
        let content = bytes_to_string_lossy(bytes);
        VisColors::from_string(content.as_str())
    }

    /// Parses the color table from text: each content line holds exactly
    /// three comma-separated 8-bit decimals, appended in order; `//` begins
    /// a comment; lines without a comma are skipped. The first violation is
    /// an error with its 1-based line number.
    #[verifier::loop_isolation(false)]
    pub fn from_string(content: &str) -> (r: Result<VisColors, WszError>)
        ensures
            match r {
                Ok(v) => vis_colors_spec(content@) == Ok::<_, (int, Seq<char>)>(v.colors_seq()),
                Err(e) => {
                    &&& vis_colors_spec(content@) is Err
                    &&& (e matches WszError::InvalidFormat { line, error }
                        && vis_colors_spec(content@)
                            == Err::<Seq<RgbColor>, _>((line as int, error@)))
                },
            },
    {
        let ghost whole = content@;
        let ghost glines = split_char(whole, '\n');
        let ghost target = vis_colors_spec(whole);
        let n = content.unicode_len();
        proof {
            assert(whole.subrange(0, n as int) =~= whole);
        }
        let lines = split_ranges(content, 0, n, '\n');
        let mut colors: Vec<RgbColor> = Vec::new();
        let mut k: usize = 0;
        while k < lines.len()
            invariant
                k <= lines@.len(),
                vis_combine(colors@, vis_parse_from(glines, k as int)) == target,
            decreases lines@.len() - k,
        {
            let ghost prev = colors@;
            let (ls, le) = lines[k];
            let ghost line = glines[k as int];
            let (a1, b1) = trim_range(content, ls, le);
            if a1 == b1 {
                proof {
                    assert(vis_line(line) is Skip);
                }
            } else {
                let ce = strip_comment_range(content, a1, b1);
                let (a, b) = trim_range(content, a1, ce);
                let ghost t = trim_spec(strip_line_comment(trim_spec(line)));
                proof {
                    assert(whole.subrange(a as int, b as int) == t);
                }
                if !range_contains_char(content, a, b, ',') {
                    proof {
                        assert(vis_line(line) is Skip);
                    }
                } else {
                    let parts = split_ranges(content, a, b, ',');
                    proof {
                        crate::strutil::lemma_split_char_len(t, ',');
                    }
                    if parts.len() != 3 {
                        proof {
                            assert(vis_line(line) == VisLineOut::Bad(vis_three_msg()));
                        }
                        return Err(WszError::InvalidFormat {
                            line: k + 1,
                            error: String::from_str("Expected three comma-separated RGB values"),
                        });
                    }
                    let (r0a, r0b) = {
                        let p = parts[0];
                        trim_range(content, p.0, p.1)
                    };
                    let ghost p0 = trim_spec(split_char(t, ',')[0]);
                    proof {
                        assert(whole.subrange(r0a as int, r0b as int) == p0);
                    }
                    let rv = match parse_uint_range(content, r0a, r0b, 255) {
                        Some(v) => v,
                        None => {
                            proof {
                                assert(vis_line(line) == VisLineOut::Bad(vis_value_msg(p0)));
                            }
                            return Err(WszError::InvalidFormat {
                                line: k + 1,
                                error: String::from_str("Invalid color value: '")
                                    .concat(content.substring_char(r0a, r0b))
                                    .concat("'"),
                            });
                        },
                    };
                    let (r1a, r1b) = {
                        let p = parts[1];
                        trim_range(content, p.0, p.1)
                    };
                    let ghost p1 = trim_spec(split_char(t, ',')[1]);
                    proof {
                        assert(whole.subrange(r1a as int, r1b as int) == p1);
                    }
                    let gv = match parse_uint_range(content, r1a, r1b, 255) {
                        Some(v) => v,
                        None => {
                            proof {
                                assert(vis_line(line) == VisLineOut::Bad(vis_value_msg(p1)));
                            }
                            return Err(WszError::InvalidFormat {
                                line: k + 1,
                                error: String::from_str("Invalid color value: '")
                                    .concat(content.substring_char(r1a, r1b))
                                    .concat("'"),
                            });
                        },
                    };
                    let (r2a, r2b) = {
                        let p = parts[2];
                        trim_range(content, p.0, p.1)
                    };
                    let ghost p2 = trim_spec(split_char(t, ',')[2]);
                    proof {
                        assert(whole.subrange(r2a as int, r2b as int) == p2);
                    }
                    let bv = match parse_uint_range(content, r2a, r2b, 255) {
                        Some(v) => v,
                        None => {
                            proof {
                                assert(vis_line(line) == VisLineOut::Bad(vis_value_msg(p2)));
                            }
                            return Err(WszError::InvalidFormat {
                                line: k + 1,
                                error: String::from_str("Invalid color value: '")
                                    .concat(content.substring_char(r2a, r2b))
                                    .concat("'"),
                            });
                        },
                    };
                    let c = RgbColor { r: rv as u8, g: gv as u8, b: bv as u8 };
                    proof {
                        assert(vis_line(line) == VisLineOut::Color(c));
                    }
                    colors.push(c);
                    proof {
                        if vis_parse_from(glines, k as int + 1) is Ok {
                            let rest = vis_parse_from(glines, k as int + 1)->Ok_0;
                            assert(prev + (seq![c] + rest) =~= colors@ + rest);
                        }
                    }
                }
            }
            k = k + 1;
        }
        proof {
            assert(vis_parse_from(glines, k as int) == Ok::<Seq<RgbColor>, (int, Seq<char>)>(Seq::empty()));
            assert(colors@ + Seq::<RgbColor>::empty() =~= colors@);
        }
        Ok(VisColors { colors })
    }

    /// Number of colors in the table.
    pub fn len(&self) -> (r: usize)
        ensures
            r == self.colors_seq().len(),
    {
        self.colors.len()
    }

    /// Whether the table is empty.
    pub fn is_empty(&self) -> (r: bool)
        ensures
            r == (self.colors_seq().len() == 0),
    {
        self.colors.is_empty()
    }

    /// The color at a legend position, if the table reaches it.
    pub fn get(&self, index: usize) -> (r: Option<RgbColor>)
        ensures
            match r {
                Some(c) => index < self.colors_seq().len() && c == self.colors_seq()[index as int],
                None => index >= self.colors_seq().len(),
            },
    {
        if index < self.colors.len() {
            Some(self.colors[index])
        } else {
            None
        }
    }

    /// The spectrum-bar color for bar value `value`, highest value first in
    /// the table: value 15 maps to the first bar entry, value 0 to the last.
    pub fn vis_color(&self, value: usize) -> (r: Option<RgbColor>)
        ensures
            match r {
                Some(c) => value <= 15 && 17 - value < self.colors_seq().len()
                    && c == self.colors_seq()[17 - value as int],
                None => value > 15 || 17 - value as int >= self.colors_seq().len(),
            },
    {
        if value > 15 {
            return None;
        }
        self.get(15 - value + VIS_COLOR_SPEC_15)
    }

    /// The sixteen spectrum-bar colors, low bar value first: the table's
    /// bar entries reversed, as far as the table reaches.
    #[verifier::loop_isolation(false)]
    pub fn vis_colors(&self) -> (r: Vec<RgbColor>)
        ensures
            r@ == vis_bar_slice(self.colors_seq()),
    {
        let n = self.colors.len();
        let hi: usize = if n < 18 { n } else { 18 };
        let mut out: Vec<RgbColor> = Vec::new();
        if hi <= 2 {
            proof {
                assert(out@ =~= vis_bar_slice(self.colors_seq()));
            }
            return out;
        }
        let count = hi - 2;
        let mut i: usize = 0;
        while i < count
            invariant
                2 < hi <= 18,
                hi <= self.colors_seq().len(),
                count == hi - 2,
                i <= count,
                out@.len() == i,
                forall|j: int| 0 <= j < i
                    ==> out@[j] == self.colors_seq().subrange(2, hi as int).reverse()[j],
            decreases count - i,
        {
            let c = self.colors[hi - 1 - i];
            proof {
                let sub = self.colors_seq().subrange(2, hi as int);
                assert(sub.reverse()[i as int] == sub[sub.len() - 1 - i]);
                assert(sub[hi - 3 - i] == self.colors_seq()[hi - 1 - i]);
            }
            out.push(c);
            i = i + 1;
        }
        proof {
            assert(out@ =~= vis_bar_slice(self.colors_seq()));
        }
        out
    }

    /// The oscilloscope color for oscilloscope value `value`; the legend
    /// has five, at positions 18 through 22.
    pub fn osc_color(&self, value: usize) -> (r: Option<RgbColor>)
        ensures
            match r {
                Some(c) => value <= 4 && value + 18 < self.colors_seq().len()
                    && c == self.colors_seq()[value + 18],
                None => value > 4 || value + 18 >= self.colors_seq().len(),
            },
    {
        if value > 4 {
            return None;
        }
        self.get(value + VIS_COLOR_OSC_1)
    }

    /// The five oscilloscope colors, in table order, as far as the table
    /// reaches.
    #[verifier::loop_isolation(false)]
    pub fn osc_colors(&self) -> (r: Vec<RgbColor>)
        ensures
            r@ == osc_slice(self.colors_seq()),
    {
        let n = self.colors.len();
        let hi: usize = if n < 23 { n } else { 23 };
        let mut out: Vec<RgbColor> = Vec::new();
        if hi <= 18 {
            proof {
                assert(out@ =~= osc_slice(self.colors_seq()));
            }
            return out;
        }
        let mut i: usize = 18;
        while i < hi
            invariant
                18 <= i <= hi <= 23,
                hi <= self.colors_seq().len(),
                out@.len() == i - 18,
                forall|j: int| 0 <= j < i - 18 ==> out@[j] == self.colors_seq()[18 + j],
            decreases hi - i,
        {
            out.push(self.colors[i]);
            i = i + 1;
        }
        proof {
            assert(out@ =~= osc_slice(self.colors_seq()));
        }
        out
    }

    /// The background color, if the table reaches it.
    pub fn bg_color(&self) -> (r: Option<RgbColor>)
        ensures
            match r {
                Some(c) => self.colors_seq().len() > 0 && c == self.colors_seq()[0],
                None => self.colors_seq().len() == 0,
            },
    {
        self.get(VIS_COLOR_BG)
    }

    /// The background-dots color, if the table reaches it.
    pub fn bg_dots_color(&self) -> (r: Option<RgbColor>)
        ensures
            match r {
                Some(c) => self.colors_seq().len() > 1 && c == self.colors_seq()[1],
                None => self.colors_seq().len() <= 1,
            },
    {
        self.get(VIS_COLOR_BG_DOTS)
    }

    /// The peak-dots color, if the table reaches it.
    pub fn peak_dots_color(&self) -> (r: Option<RgbColor>)
        ensures
            match r {
                Some(c) => self.colors_seq().len() > 23 && c == self.colors_seq()[23],
                None => self.colors_seq().len() <= 23,
            },
    {
        self.get(VIS_COLOR_PEAK_DOTS)
    }
}

/// The table's spectrum-bar entries, low bar value first.
pub open spec fn vis_bar_slice(colors: Seq<RgbColor>) -> Seq<RgbColor> {
    let hi = if colors.len() < 18 { colors.len() as int } else { 18 };
    if colors.len() <= 2 {
        Seq::empty()
    } else {
        colors.subrange(2, hi).reverse()
    }
}

/// The table's oscilloscope entries, in table order.
pub open spec fn osc_slice(colors: Seq<RgbColor>) -> Seq<RgbColor> {
    let hi = if colors.len() < 23 { colors.len() as int } else { 23 };
    if colors.len() <= 18 {
        Seq::empty()
    } else {
        colors.subrange(18, hi)
    }
}

impl Default for VisColors {
    /// The empty color table.
    fn default() -> (r: VisColors)
        ensures
            r.colors_seq() == Seq::<RgbColor>::empty(),
    {
        VisColors::new()
    }
}

} // verus!
