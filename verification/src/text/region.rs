//! Parser for the window region polygons: four fixed section names, each
//! giving per-polygon vertex counts (`NumPoints`) and a flat vertex list
//! (`PointList`); a section commits once both are seen and consistent.

use vstd::prelude::*;
use vstd::seq_lib::group_seq_properties;
use vstd::string::StringExecFns;

use crate::archive::{bytes_to_string_lossy, find_archive_file, matches_basename, utf8_lossy,
    WszArchive};
use crate::error::WszError;
use crate::strutil::{contains_char, eq_ignore_ascii_case, find_char_in_range, parse_uint_range,
    range_eq_ignore_case, split_char, split_ranges, split_wsc, split_wsc_ranges, trim_range,
    trim_spec, uint_val};
use crate::text::pledit::{contains_eq, first_eq, lemma_first_eq};

verus! {

/// The four window shapes a region file may describe.
#[derive(Debug, Clone, Copy, PartialEq, Eq, Structural)]
pub enum RegionType {
    /// The main window.
    Main,
    /// The main window, rolled up.
    MainShade,
    /// The equalizer window.
    Equalizer,
    /// The equalizer window, rolled up.
    EqualizerShade,
}

/// The region type a section header names, if any.
pub open spec fn region_type_of(s: Seq<char>) -> Option<RegionType> {
    if s == "Normal"@ {
        Some(RegionType::Main)
    } else if s == "WindowShade"@ {
        Some(RegionType::MainShade)
    } else if s == "Equalizer"@ {
        Some(RegionType::Equalizer)
    } else if s == "EqualizerWS"@ {
        Some(RegionType::EqualizerShade)
    } else {
        None
    }
}

impl RegionType {
    /// Reads a section header name. An unknown name is a format error;
    /// standing alone, the name carries no position, so the error's line is
    /// zero, and the region parser reports the header's own line instead.
    pub fn from_str(s: &str) -> (r: Result<RegionType, WszError>)
        ensures
            match r {
                Ok(rt) => region_type_of(s@) == Some(rt),
                Err(e) => region_type_of(s@) is None
                    && (e matches WszError::InvalidFormat { line, error }
                        && line == 0 && error@ == "Invalid region type: '"@ + s@ + "'"@),
            },
    {
        if crate::strutil::str_eq(s, "Normal") {
            Ok(RegionType::Main)
        } else if crate::strutil::str_eq(s, "WindowShade") {
            Ok(RegionType::MainShade)
        } else if crate::strutil::str_eq(s, "Equalizer") {
            Ok(RegionType::Equalizer)
        } else if crate::strutil::str_eq(s, "EqualizerWS") {
            Ok(RegionType::EqualizerShade)
        } else {
            Err(WszError::InvalidFormat {
                line: 0,
                error: String::from_str("Invalid region type: '").concat(s).concat("'"),
            })
        }
    }
}

/// One section's raw data while it is being gathered.
pub struct Region {
    /// Vertex count of each polygon.
    pub num_points: Vec<usize>,
    /// Flat vertex list, consumed in pairs.
    pub points: Vec<u32>,
}

impl Region {
    /// Creates an empty gathering state.
    pub fn new() -> (r: Region)
        ensures
            r.num_points@ == Seq::<usize>::empty(),
            r.points@ == Seq::<u32>::empty(),
    {
        let r = Region { num_points: Vec::new(), points: Vec::new() };
        proof {
            assert(r.num_points@ =~= Seq::<usize>::empty());
            assert(r.points@ =~= Seq::<u32>::empty());
        }
        r
    }
}

/// The mathematical content of the parsed regions.
pub ghost struct RegionsModel {
    pub main: Option<Seq<Seq<(u32, u32)>>>,
    pub main_shade: Option<Seq<Seq<(u32, u32)>>>,
    pub equalizer: Option<Seq<Seq<(u32, u32)>>>,
    pub equalizer_shade: Option<Seq<Seq<(u32, u32)>>>,
}

/// The parser's state.
pub ghost struct RegState {
    pub regions: RegionsModel,
    pub section: Option<RegionType>,
    pub np: Seq<int>,
    pub pts: Seq<u32>,
}

/// The state before any line is read.
pub open spec fn region_init() -> RegState {
    RegState {
        regions: RegionsModel {
            main: None,
            main_shade: None,
            equalizer: None,
            equalizer_shade: None,
        },
        section: None,
        np: Seq::empty(),
        pts: Seq::empty(),
    }
}

/// Stores a committed polygon list under its window shape.
pub open spec fn set_region(
    r: RegionsModel,
    rt: RegionType,
    polys: Seq<Seq<(u32, u32)>>,
) -> RegionsModel {
    match rt {
        RegionType::Main => RegionsModel { main: Some(polys), ..r },
        RegionType::MainShade => RegionsModel { main_shade: Some(polys), ..r },
        RegionType::Equalizer => RegionsModel { equalizer: Some(polys), ..r },
        RegionType::EqualizerShade => RegionsModel { equalizer_shade: Some(polys), ..r },
    }
}

/// The sum of the first `i` vertex counts.
pub open spec fn prefix_sum(np: Seq<int>, i: int) -> int
    decreases i,
{
    if i <= 0 {
        0
    } else {
        prefix_sum(np, i - 1) + np[i - 1]
    }
}

/// Prefix sums of nonnegative counts grow monotonically.
pub proof fn lemma_prefix_sum_mono(np: Seq<int>, i: int, n: int)
    requires
        0 <= i <= n <= np.len(),
        forall|k: int| 0 <= k < np.len() ==> np[k] >= 0,
    ensures
        prefix_sum(np, i) <= prefix_sum(np, n),
        0 <= prefix_sum(np, i),
    decreases n - i + i,
{
    if i > 0 {
        lemma_prefix_sum_mono(np, i - 1, i - 1);
    }
    if i < n {
        lemma_prefix_sum_mono(np, i, n - 1);
    }
}

/// The polygons described by vertex counts `np` over the flat vertex list
/// `pts`: polygon `i` takes `np[i]` consecutive `(x, y)` pairs, starting
/// where polygon `i - 1` ended.
pub open spec fn polygons_spec(np: Seq<int>, pts: Seq<u32>) -> Seq<Seq<(u32, u32)>> {
    Seq::new(
        np.len(),
        |i: int| Seq::new(
            np[i] as nat,
            |j: int| (pts[2 * (prefix_sum(np, i) + j)], pts[2 * (prefix_sum(np, i) + j) + 1]),
        ),
    )
}

/// The error text for a list entry that is not an unsigned decimal.
pub open spec fn invalid_number_msg(tok: Seq<char>) -> Seq<char> {
    "Invalid number: '"@ + tok + "'"@
}

/// The vertex counts read from a comma-separated list, or the first
/// offending entry.
pub open spec fn usize_list_from(parts: Seq<Seq<char>>, i: int) -> Result<Seq<int>, Seq<char>>
    decreases parts.len() - i,
{
    if i < 0 || i >= parts.len() {
        Ok(Seq::empty())
    } else {
        let tok = trim_spec(parts[i]);
        match uint_val(tok) {
            Some(v) => if v <= usize::MAX {
                match usize_list_from(parts, i + 1) {
                    Ok(rest) => Ok(seq![v] + rest),
                    Err(e) => Err(e),
                }
            } else {
                Err(tok)
            },
            None => Err(tok),
        }
    }
}

/// The vertex counts of a `NumPoints` value.
pub open spec fn numpoints_val(value: Seq<char>) -> Result<Seq<int>, Seq<char>> {
    usize_list_from(split_char(value, ','), 0)
}

/// Keeps only nonempty segments.
pub open spec fn nonempty_seg() -> spec_fn(Seq<char>) -> bool {
    |t: Seq<char>| t.len() > 0
}

/// The tokens of a whitespace- or comma-separated list.
pub open spec fn wsc_tokens(value: Seq<char>) -> Seq<Seq<char>> {
    split_wsc(value).filter(nonempty_seg())
}

/// The vertices read from a token list, or the first offending token.
pub open spec fn u32_list_from(toks: Seq<Seq<char>>, i: int) -> Result<Seq<u32>, Seq<char>>
    decreases toks.len() - i,
{
    if i < 0 || i >= toks.len() {
        Ok(Seq::empty())
    } else {
        match uint_val(toks[i]) {
            Some(v) => if v <= u32::MAX {
                match u32_list_from(toks, i + 1) {
                    Ok(rest) => Ok(seq![v as u32] + rest),
                    Err(e) => Err(e),
                }
            } else {
                Err(toks[i])
            },
            None => Err(toks[i]),
        }
    }
}

/// The vertices of a `PointList` value.
pub open spec fn pointlist_val(value: Seq<char>) -> Result<Seq<u32>, Seq<char>> {
    u32_list_from(wsc_tokens(value), 0)
}

/// What one region line does to the parser state.
pub ghost enum RegLineOut {
    /// The state after the line.
    Keep(RegState),
    /// A grammar violation reported at this line, with its message.
    Here(Seq<char>),
}

/// Commits the gathered section once both keys are present: the counts
/// must account for every vertex pair, else the mismatch is a violation.
pub open spec fn region_commit(st: RegState) -> RegLineOut {
    match st.section {
        Some(rt) => if st.np.len() > 0 && st.pts.len() > 0 {
            if prefix_sum(st.np, st.np.len() as int) != st.pts.len() / 2 {
                RegLineOut::Here("Number of points does not match number of points in the region"@)
            } else {
                RegLineOut::Keep(RegState {
                    regions: set_region(st.regions, rt, polygons_spec(st.np, st.pts)),
                    section: None,
                    np: Seq::empty(),
                    pts: Seq::empty(),
                })
            }
        } else {
            RegLineOut::Keep(st)
        },
        None => RegLineOut::Keep(st),
    }
}

/// Processes one line: blank lines and `;` comments are skipped, a header
/// opens one of the four known sections, `NumPoints` and `PointList` gather
/// data; any other key, a pair before any header, and a line that is
/// neither header nor pair are violations.
pub open spec fn region_line(st: RegState, line: Seq<char>) -> RegLineOut {
    let t = trim_spec(line);
    if t.len() == 0 {
        RegLineOut::Keep(st)
    } else if t[0] == ';' {
        RegLineOut::Keep(st)
    } else if t[0] == '[' && t.last() == ']' {
        let inner = t.subrange(1, t.len() - 1);
        match region_type_of(inner) {
            Some(rt) => RegLineOut::Keep(RegState {
                section: Some(rt),
                np: Seq::empty(),
                pts: Seq::empty(),
                ..st
            }),
            None => RegLineOut::Here("Invalid region type: '"@ + inner + "'"@),
        }
    } else if contains_eq(t) {
        let p = first_eq(t);
        let key = trim_spec(t.subrange(0, p));
        let value = trim_spec(t.subrange(p + 1, t.len() as int));
        match st.section {
            None => RegLineOut::Here("Key-value pair outside of any section"@),
            Some(_) => {
                if eq_ignore_ascii_case(key, "numpoints"@) {
                    match numpoints_val(value) {
                        Ok(nums) => region_commit(RegState { np: nums, ..st }),
                        Err(tok) => RegLineOut::Here(invalid_number_msg(tok)),
                    }
                } else if eq_ignore_ascii_case(key, "pointlist"@) {
                    match pointlist_val(value) {
                        Ok(pv) => region_commit(RegState { pts: pv, ..st }),
                        Err(tok) => RegLineOut::Here(invalid_number_msg(tok)),
                    }
                } else {
                    RegLineOut::Here("Invalid key: '"@ + key + "'"@)
                }
            },
        }
    } else {
        RegLineOut::Here("Invalid line format: '"@ + t + "'"@)
    }
}

/// The state after lines `ln` onward, or the first violation with its
/// 1-based line number.
pub open spec fn region_from(lines: Seq<Seq<char>>, ln: int, st: RegState)
    -> Result<RegState, (int, Seq<char>)>
    decreases lines.len() - ln,
{
    if ln < 0 || ln >= lines.len() {
        Ok(st)
    } else {
        match region_line(st, lines[ln]) {
            RegLineOut::Keep(st2) => region_from(lines, ln + 1, st2),
            RegLineOut::Here(m) => Err((ln + 1, m)),
        }
    }
}

/// The regions parsed from the text, or the first grammar violation.
pub open spec fn regions_spec(s: Seq<char>) -> Result<RegionsModel, (int, Seq<char>)> {
    match region_from(split_char(s, '\n'), 0, region_init()) {
        Ok(st) => Ok(st.regions),
        Err(e) => Err(e),
    }
}

/// The polygon lists of one window shape.
pub open spec fn polys_model(v: Seq<Vec<(u32, u32)>>) -> Seq<Seq<(u32, u32)>> {
    v.map_values(|p: Vec<(u32, u32)>| p@)
}

/// An optional polygon list reduced to its mathematical content.
pub open spec fn opt_polys_model(o: Option<Vec<Vec<(u32, u32)>>>) -> Option<Seq<Seq<(u32, u32)>>> {
    match o {
        Some(v) => Some(polys_model(v@)),
        None => None,
    }
}

/// Transparent window regions: up to four independently optional polygon
/// lists, one per window shape.
#[derive(Debug, Clone)]
pub struct Regions {
    /// Main window region.
    pub main: Option<Vec<Vec<(u32, u32)>>>,
    /// Main window shade region.
    pub main_shade: Option<Vec<Vec<(u32, u32)>>>,
    /// Equalizer window region.
    pub equalizer: Option<Vec<Vec<(u32, u32)>>>,
    /// Equalizer window shade region.
    pub equalizer_shade: Option<Vec<Vec<(u32, u32)>>>,
}

impl Regions {
    /// The regions' mathematical content.
    pub open spec fn model(self) -> RegionsModel {
        RegionsModel {
            main: opt_polys_model(self.main),
            main_shade: opt_polys_model(self.main_shade),
            equalizer: opt_polys_model(self.equalizer),
            equalizer_shade: opt_polys_model(self.equalizer_shade),
        }
    }

    /// Creates empty regions.
    pub fn new() -> (r: Regions)
        ensures
            r.model() == region_init().regions,
    {
        Regions { main: None, main_shade: None, equalizer: None, equalizer_shade: None }
    }

    /// Parses the region file found in the archive by its base name; a
    /// missing file is a `NotFound` error the caller may treat as empty
    /// regions.
    pub fn from_archive(archive: &WszArchive) -> (r: Result<Regions, WszError>)
        requires
            archive.wf(),
        ensures
            match r {
                Ok(p) => exists|i: int| 0 <= i < archive.len_spec()
                    && #[trigger] matches_basename(archive.key_at(i), "region.txt"@)
                    && regions_spec(utf8_lossy(archive.val_at(i)@))
                        == Ok::<_, (int, Seq<char>)>(p.model()),
                Err(e) => match e {
                    WszError::NotFound(m) => m@ == "region.txt"@
                        && forall|i: int| 0 <= i < archive.len_spec()
                            ==> !(#[trigger] matches_basename(archive.key_at(i), "region.txt"@)),
                    WszError::InvalidFormat { line, error } => exists|i: int|
                        0 <= i < archive.len_spec()
                        && #[trigger] matches_basename(archive.key_at(i), "region.txt"@)
                        && regions_spec(utf8_lossy(archive.val_at(i)@))
                            == Err::<RegionsModel, _>((line as int, error@)),
                    _ => false,
                },
            },
    {
        let bytes = match find_archive_file(archive, "region.txt") {
            Some(bytes) => bytes,
            None => {
                return Err(WszError::NotFound(String::from_str("region.txt")));
            },
        };
        let content = bytes_to_string_lossy(bytes);
        Regions::from_string(content.as_str())
    }

    /// Parses regions from text. A section's data commits as soon as both
    /// of its keys have been seen and the vertex counts account for every
    /// vertex pair; the first violation is an error with its 1-based line
    /// number.
    #[verifier::loop_isolation(false)]
    #[verifier::rlimit(80)]
    pub fn from_string(content: &str) -> (r: Result<Regions, WszError>)
        ensures
            match r {
                Ok(p) => regions_spec(content@) == Ok::<_, (int, Seq<char>)>(p.model()),
                Err(e) => {
                    &&& regions_spec(content@) is Err
                    &&& (e matches WszError::InvalidFormat { line, error }
                        && regions_spec(content@)
                            == Err::<RegionsModel, _>((line as int, error@)))
                },
            },
    {
        let ghost whole = content@;
        let ghost glines = split_char(whole, '\n');
        let ghost target = region_from(glines, 0, region_init());
        let n = content.unicode_len();
        proof {
            assert(whole.subrange(0, n as int) =~= whole);
        }
        let lines = split_ranges(content, 0, n, '\n');
        let mut out = Regions::new();
        let mut section: Option<RegionType> = None;
        let mut nums: Vec<usize> = Vec::new();
        let mut pts: Vec<u32> = Vec::new();
        proof {
            assert(nums@.map_values(|v: usize| v as int) =~= Seq::<int>::empty());
            assert(pts@ =~= Seq::<u32>::empty());
        }
        let mut k: usize = 0;
        while k < lines.len()
            invariant
                k <= lines@.len(),
                region_from(glines, k as int, RegState {
                    regions: out.model(),
                    section: section,
                    np: nums@.map_values(|v: usize| v as int),
                    pts: pts@,
                }) == target,
            decreases lines@.len() - k,
        {
            let ghost st = RegState {
                regions: out.model(),
                section: section,
                np: nums@.map_values(|v: usize| v as int),
                pts: pts@,
            };
            let (ls, le) = lines[k];
            let ghost line = glines[k as int];
            let (a, b) = trim_range(content, ls, le);
            let ghost t = trim_spec(line);
            proof {
                assert(whole.subrange(a as int, b as int) == t);
            }
            if a == b {
                proof {
                    assert(region_line(st, line) == RegLineOut::Keep(st));
                }
            } else if content.get_char(a) == ';' {
                proof {
                    assert(t[0] == ';');
                    assert(region_line(st, line) == RegLineOut::Keep(st));
                }
            } else if content.get_char(a) == '[' && content.get_char(b - 1) == ']' {
                let ghost inner = t.subrange(1, t.len() - 1);
                proof {
                    assert(t[0] == '[' && t.last() == ']');
                    assert(whole.subrange(a as int + 1, b as int - 1) =~= inner);
                }
                match RegionType::from_str(content.substring_char(a + 1, b - 1)) {
                    Ok(rt) => {
                        section = Some(rt);
                        nums = Vec::new();
                        pts = Vec::new();
                        proof {
                            assert(nums@.map_values(|v: usize| v as int) =~= Seq::<int>::empty());
                            assert(pts@ =~= Seq::<u32>::empty());
                        }
                    },
                    Err(_) => {
                        proof {
                            assert(region_line(st, line) == RegLineOut::Here(
                                "Invalid region type: '"@ + inner + "'"@,
                            ));
                        }
                        return Err(WszError::InvalidFormat {
                            line: k + 1,
                            error: String::from_str("Invalid region type: '")
                                .concat(content.substring_char(a + 1, b - 1))
                                .concat("'"),
                        });
                    },
                }
            } else {
                let eq_pos = match find_char_in_range(content, a, b, '=') {
                    Some(p) => p,
                    None => {
                        proof {
                            assert(!contains_eq(t)) by {
                                assert forall|i: int| 0 <= i < t.len() implies t[i] != '=' by {
                                    assert(t[i] == whole[a + i]);
                                }
                            }
                        }
                        return Err(WszError::InvalidFormat {
                            line: k + 1,
                            error: String::from_str("Invalid line format: '")
                                .concat(content.substring_char(a, b))
                                .concat("'"),
                        });
                    },
                };
                proof {
                    assert(t[eq_pos - a] == '=');
                    assert(contains_eq(t));
                    assert forall|j: int| 0 <= j < eq_pos - a implies t[j] != '=' by {
                        assert(t[j] == whole[a + j]);
                    }
                    lemma_first_eq(t, eq_pos - a);
                }
                let (ka, kb) = trim_range(content, a, eq_pos);
                let (va, vb) = trim_range(content, eq_pos + 1, b);
                let ghost key = trim_spec(t.subrange(0, eq_pos - a));
                let ghost value = trim_spec(t.subrange(eq_pos - a + 1, t.len() as int));
                proof {
                    assert(whole.subrange(a as int, eq_pos as int)
                        =~= t.subrange(0, eq_pos - a));
                    assert(whole.subrange(eq_pos as int + 1, b as int)
                        =~= t.subrange(eq_pos - a + 1, t.len() as int));
                    assert(whole.subrange(ka as int, kb as int) == key);
                    assert(whole.subrange(va as int, vb as int) == value);
                }
                if section.is_none() {
                    return Err(WszError::InvalidFormat {
                        line: k + 1,
                        error: String::from_str("Key-value pair outside of any section"),
                    });
                }
                if range_eq_ignore_case(content, ka, kb, "numpoints") {
                    match parse_numpoints(content, va, vb) {
                        Ok(list) => {
                            nums = list;
                        },
                        Err((ta, tb)) => {
                            return Err(WszError::InvalidFormat {
                                line: k + 1,
                                error: String::from_str("Invalid number: '")
                                    .concat(content.substring_char(ta, tb))
                                    .concat("'"),
                            });
                        },
                    }
                } else if range_eq_ignore_case(content, ka, kb, "pointlist") {
                    match parse_pointlist(content, va, vb) {
                        Ok(list) => {
                            pts = list;
                        },
                        Err((ta, tb)) => {
                            return Err(WszError::InvalidFormat {
                                line: k + 1,
                                error: String::from_str("Invalid number: '")
                                    .concat(content.substring_char(ta, tb))
                                    .concat("'"),
                            });
                        },
                    }
                } else {
                    return Err(WszError::InvalidFormat {
                        line: k + 1,
                        error: String::from_str("Invalid key: '")
                            .concat(content.substring_char(ka, kb))
                            .concat("'"),
                    });
                }
                // both keys seen: validate and commit the section
                if nums.len() > 0 && pts.len() > 0 {
                    let ghost mid = RegState {
                        regions: out.model(),
                        section: section,
                        np: nums@.map_values(|v: usize| v as int),
                        pts: pts@,
                    };
                    let total = sum_counts(&nums);
                    let half = pts.len() / 2;
                    if total != half as u128 {
                        return Err(WszError::InvalidFormat {
                            line: k + 1,
                            error: String::from_str(
                                "Number of points does not match number of points in the region"),
                        });
                    }
                    let polys = build_polygons(&nums, &pts);
                    let rt = match section {
                        Some(rt) => rt,
                        None => {
                            proof {
                                assert(false);
                            }
                            RegionType::Main
                        },
                    };
                    match rt {
                        RegionType::Main => {
                            out.main = Some(polys);
                        },
                        RegionType::MainShade => {
                            out.main_shade = Some(polys);
                        },
                        RegionType::Equalizer => {
                            out.equalizer = Some(polys);
                        },
                        RegionType::EqualizerShade => {
                            out.equalizer_shade = Some(polys);
                        },
                    }
                    section = None;
                    nums = Vec::new();
                    pts = Vec::new();
                    proof {
                        assert(nums@.map_values(|v: usize| v as int) =~= Seq::<int>::empty());
                        assert(pts@ =~= Seq::<u32>::empty());
                        assert(region_commit(mid) == RegLineOut::Keep(RegState {
                            regions: out.model(),
                            section: section,
                            np: nums@.map_values(|v: usize| v as int),
                            pts: pts@,
                        }));
                    }
                }
            }
            k = k + 1;
        }
        Ok(out)
    }
}

/// Reads a comma-separated list of vertex counts; on failure returns the
/// span of the first offending entry.
#[verifier::loop_isolation(false)]
fn parse_numpoints(content: &str, va: usize, vb: usize) -> (r: Result<Vec<usize>, (usize, usize)>)
    requires
        va <= vb <= content@.len(),
    ensures
        ({
            let v = numpoints_val(content@.subrange(va as int, vb as int));
            match r {
                Ok(list) => v == Ok::<_, Seq<char>>(list@.map_values(|x: usize| x as int)),
                Err(sp) => va <= sp.0 <= sp.1 <= vb
                    && v == Err::<Seq<int>, _>(content@.subrange(sp.0 as int, sp.1 as int)),
            }
        }),
{
    let ghost value = content@.subrange(va as int, vb as int);
    let ghost parts = split_char(value, ',');
    let spans = split_ranges(content, va, vb, ',');
    let mut list: Vec<usize> = Vec::new();
    let mut j: usize = 0;
    while j < spans.len()
        invariant
            j <= spans@.len(),
            usize_combine(list@.map_values(|x: usize| x as int), usize_list_from(parts, j as int))
                == usize_list_from(parts, 0),
        decreases spans@.len() - j,
    {
        let ghost prev = list@;
        let (pa, pb) = spans[j];
        let (ta, tb) = trim_range(content, pa, pb);
        let ghost tok = trim_spec(parts[j as int]);
        proof {
            assert(content@.subrange(ta as int, tb as int) == tok);
        }
        let max64: u64 = usize::MAX as u64;
        match parse_uint_range(content, ta, tb, max64) {
            Some(v) => {
                list.push(v as usize);
                proof {
                    let f = |x: usize| x as int;
                    assert(list@.map_values(f) =~= prev.map_values(f).push(v as int));
                    if usize_list_from(parts, j as int + 1) is Ok {
                        let rest = usize_list_from(parts, j as int + 1)->Ok_0;
                        assert(prev.map_values(f) + (seq![v as int] + rest)
                            =~= list@.map_values(f) + rest);
                    }
                }
            },
            None => {
                return Err((ta, tb));
            },
        }
        j = j + 1;
    }
    proof {
        assert(usize_list_from(parts, j as int) == Ok::<Seq<int>, Seq<char>>(Seq::empty()));
        assert(list@.map_values(|x: usize| x as int) + Seq::<int>::empty()
            =~= list@.map_values(|x: usize| x as int));
    }
    Ok(list)
}

/// Prepends already-collected counts to a parse outcome.
pub open spec fn usize_combine(
    acc: Seq<int>,
    r: Result<Seq<int>, Seq<char>>,
) -> Result<Seq<int>, Seq<char>> {
    match r {
        Ok(rest) => Ok(acc + rest),
        Err(e) => Err(e),
    }
}

/// Prepends already-collected vertices to a parse outcome.
pub open spec fn u32_combine(
    acc: Seq<u32>,
    r: Result<Seq<u32>, Seq<char>>,
) -> Result<Seq<u32>, Seq<char>> {
    match r {
        Ok(rest) => Ok(acc + rest),
        Err(e) => Err(e),
    }
}

/// Reads a whitespace- or comma-separated vertex list; on failure returns
/// the span of the first offending token.
#[verifier::loop_isolation(false)]
fn parse_pointlist(content: &str, va: usize, vb: usize) -> (r: Result<Vec<u32>, (usize, usize)>)
    requires
        va <= vb <= content@.len(),
    ensures
        ({
            let v = pointlist_val(content@.subrange(va as int, vb as int));
            match r {
                Ok(list) => v == Ok::<_, Seq<char>>(list@),
                Err(sp) => va <= sp.0 <= sp.1 <= vb
                    && v == Err::<Seq<u32>, _>(content@.subrange(sp.0 as int, sp.1 as int)),
            }
        }),
{
    broadcast use group_seq_properties;

    let ghost value = content@.subrange(va as int, vb as int);
    let ghost segs = split_wsc(value);
    let spans = split_wsc_ranges(content, va, vb);
    let mut toks: Vec<(usize, usize)> = Vec::new();
    let mut j: usize = 0;
    while j < spans.len()
        invariant
            j <= spans@.len(),
            forall|m: int| 0 <= m < toks@.len()
                ==> va <= #[trigger] toks@[m].0 <= toks@[m].1 <= vb,
            toks@.map_values(|p: (usize, usize)| content@.subrange(p.0 as int, p.1 as int))
                =~= segs.subrange(0, j as int).filter(nonempty_seg()),
        decreases spans@.len() - j,
    {
        let ghost prevt = toks@;
        let (pa, pb) = spans[j];
        proof {
            assert(segs.subrange(0, j as int + 1)
                =~= segs.subrange(0, j as int).push(segs[j as int]));
        }
        if pb > pa {
            toks.push((pa, pb));
        }
        proof {
            let f = |p: (usize, usize)| content@.subrange(p.0 as int, p.1 as int);
            let pred = nonempty_seg();
            let pre = segs.subrange(0, j as int);
            Seq::filter_distributes_over_add(pre, seq![segs[j as int]], pred);
            assert(pre + seq![segs[j as int]] =~= segs.subrange(0, j as int + 1));
            reveal_with_fuel(Seq::filter, 2);
            assert(seq![segs[j as int]].drop_last() =~= Seq::<Seq<char>>::empty());
            if segs[j as int].len() > 0 {
                assert(seq![segs[j as int]].filter(pred) =~= seq![segs[j as int]]);
                assert(toks@.map_values(f) =~= prevt.map_values(f).push(segs[j as int]));
            } else {
                assert(seq![segs[j as int]].filter(pred) =~= Seq::<Seq<char>>::empty());
                assert(pre.filter(pred) + Seq::<Seq<char>>::empty() =~= pre.filter(pred));
            }
        }
        j = j + 1;
    }
    proof {
        assert(segs.subrange(0, segs.len() as int) =~= segs);
        assert(toks@.map_values(|p: (usize, usize)| content@.subrange(p.0 as int, p.1 as int))
            =~= wsc_tokens(value));
    }
    let ghost gtoks = wsc_tokens(value);
    let mut list: Vec<u32> = Vec::new();
    let mut i: usize = 0;
    while i < toks.len()
        invariant
            i <= toks@.len(),
            toks@.len() == gtoks.len(),
            forall|m: int| 0 <= m < toks@.len()
                ==> va <= #[trigger] toks@[m].0 <= toks@[m].1 <= vb,
            forall|m: int| 0 <= m < toks@.len()
                ==> content@.subrange(#[trigger] toks@[m].0 as int, toks@[m].1 as int) == gtoks[m],
            u32_combine(list@, u32_list_from(gtoks, i as int)) == u32_list_from(gtoks, 0),
        decreases toks@.len() - i,
    {
        let ghost prev = list@;
        let (ta, tb) = toks[i];
        match parse_uint_range(content, ta, tb, 0xFFFF_FFFFu64) {
            Some(v) => {
                list.push(v as u32);
                proof {
                    if u32_list_from(gtoks, i as int + 1) is Ok {
                        let rest = u32_list_from(gtoks, i as int + 1)->Ok_0;
                        assert(prev + (seq![v as u32] + rest) =~= list@ + rest);
                    }
                }
            },
            None => {
                return Err((ta, tb));
            },
        }
        i = i + 1;
    }
    proof {
        assert(u32_list_from(gtoks, i as int) == Ok::<Seq<u32>, Seq<char>>(Seq::empty()));
        assert(list@ + Seq::<u32>::empty() =~= list@);
    }
    Ok(list)
}

/// Sums the vertex counts without overflow.
#[verifier::loop_isolation(false)]
fn sum_counts(nums: &Vec<usize>) -> (r: u128)
    ensures
        r == prefix_sum(nums@.map_values(|v: usize| v as int), nums@.len() as int),
{
    let ghost np = nums@.map_values(|v: usize| v as int);
    let mut total: u128 = 0;
    let mut i: usize = 0;
    while i < nums.len()
        invariant
            i <= nums@.len(),
            total == prefix_sum(np, i as int),
            total <= (i as int) * (usize::MAX as int),
        decreases nums@.len() - i,
    {
        proof {
            assert((i as int + 1) * (usize::MAX as int)
                == (i as int) * (usize::MAX as int) + (usize::MAX as int)) by (nonlinear_arith);
            assert((i as int + 1) * (usize::MAX as int) < u128::MAX) by (nonlinear_arith)
                requires
                    0 <= i as int + 1 <= usize::MAX as int + 1,
                    usize::MAX as int <= u64::MAX as int,
            {}
        }
        total = total + (nums[i] as u128);
        i = i + 1;
    }
    total
}

/// Assembles polygons from vertex counts and the flat vertex list.
#[verifier::loop_isolation(false)]
fn build_polygons(nums: &Vec<usize>, pts: &Vec<u32>) -> (r: Vec<Vec<(u32, u32)>>)
    requires
        prefix_sum(nums@.map_values(|v: usize| v as int), nums@.len() as int)
            == pts@.len() / 2,
    ensures
        polys_model(r@) == polygons_spec(nums@.map_values(|v: usize| v as int), pts@),
{
    let ghost np = nums@.map_values(|v: usize| v as int);
    let ghost target = polygons_spec(np, pts@);
    let pn = pts.len();
    let mut out: Vec<Vec<(u32, u32)>> = Vec::new();
    let mut offset: usize = 0;
    let mut i: usize = 0;
    proof {
        assert forall|k: int| 0 <= k < np.len() implies np[k] >= 0 by {}
    }
    while i < nums.len()
        invariant
            i <= nums@.len(),
            out@.len() == i,
            offset == prefix_sum(np, i as int),
            forall|m: int| 0 <= m < i ==> #[trigger] out@[m]@ == target[m],
        decreases nums@.len() - i,
    {
        let cnt = nums[i];
        proof {
            lemma_prefix_sum_mono(np, i as int + 1, np.len() as int);
            lemma_prefix_sum_mono(np, i as int, i as int);
            assert(prefix_sum(np, i as int + 1) == offset + cnt);
            assert(offset + cnt <= pts@.len() / 2);
        }
        let mut poly: Vec<(u32, u32)> = Vec::new();
        let mut j: usize = 0;
        while j < cnt
            invariant
                j <= cnt,
                offset + cnt <= pts@.len() / 2,
                poly@.len() == j,
                forall|m: int| 0 <= m < j
                    ==> #[trigger] poly@[m] == (pts@[2 * (offset + m)], pts@[2 * (offset + m) + 1]),
            decreases cnt - j,
        {
            proof {
                assert(offset + j < pts@.len() / 2);
                assert(pts@.len() == pn);
            }
            let idx = (offset + j) * 2;
            proof {
                assert(idx + 1 < pts@.len());
            }
            poly.push((pts[idx], pts[idx + 1]));
            j = j + 1;
        }
        proof {
            assert(poly@ =~= target[i as int]);
        }
        out.push(poly);
        proof {
            assert(offset + cnt <= pts@.len() / 2);
            assert(pts@.len() == pn);
        }
        offset = offset + cnt;
        i = i + 1;
    }
    proof {
        assert(polys_model(out@) =~= target);
    }
    out
}

impl Default for Regions {
    /// Empty regions.
    fn default() -> (r: Regions)
        ensures
            r.model() == region_init().regions,
    {
        Regions::new()
    }
}

} // verus!
