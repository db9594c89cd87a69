//! Parser for the playlist-editor settings: `[Section]` headers, `;`
//! comments, and `key=value` pairs. Recognized keys of the `Text` section
//! are typed; everything else is kept verbatim as qualified text.

use vstd::prelude::*;
use vstd::string::StringExecFns;

use crate::archive::{bytes_to_string_lossy, find_archive_file, matches_basename, utf8_lossy,
    WszArchive};
use crate::color::RgbColor;
use crate::error::WszError;
use crate::namemap::NameMap;
use crate::strutil::{eq_ignore_ascii_case, find_char_in_range, range_eq_ignore_case, split_char,
    split_ranges, trim_range, trim_spec};

verus! {

/// The mathematical content of parsed playlist-editor settings.
pub ghost struct PleditModel {
    pub normal: Option<RgbColor>,
    pub current: Option<RgbColor>,
    pub normal_bg: Option<RgbColor>,
    pub selected_bg: Option<RgbColor>,
    pub font: Option<Seq<char>>,
    pub custom: Map<Seq<char>, Seq<char>>,
}

/// The parser's state: the settings gathered so far and the current
/// section name (empty before any header).
pub ghost struct PleditState {
    pub settings: PleditModel,
    pub section: Seq<char>,
}

/// The state before any line is read.
pub open spec fn pledit_init() -> PleditState {
    PleditState {
        settings: PleditModel {
            normal: None,
            current: None,
            normal_bg: None,
            selected_bg: None,
            font: None,
            custom: Map::empty(),
        },
        section: Seq::empty(),
    }
}

/// `s` without its leading `#` characters.
pub open spec fn strip_hashes(s: Seq<char>) -> Seq<char>
    decreases s.len(),
{
    if s.len() > 0 && s[0] == '#' {
        strip_hashes(s.drop_first())
    } else {
        s
    }
}

/// `strip_hashes` drops exactly the leading run of `#`.
pub proof fn lemma_strip_hashes_at(s: Seq<char>, k: int)
    requires
        0 <= k <= s.len(),
        forall|j: int| 0 <= j < k ==> s[j] == '#',
        k < s.len() ==> s[k] != '#',
    ensures
        strip_hashes(s) == s.subrange(k, s.len() as int),
    decreases k,
{
    if k == 0 {
        assert(s.subrange(0, s.len() as int) =~= s);
    } else {
        lemma_strip_hashes_at(s.drop_first(), k - 1);
        assert(s.drop_first().subrange(k - 1, s.drop_first().len() as int)
            =~= s.subrange(k, s.len() as int));
    }
}

/// The value of a hexadecimal digit.
pub open spec fn hex_digit_val(c: char) -> Option<int> {
    if '0' <= c && c <= '9' {
        Some(c as u32 - '0' as u32)
    } else if 'a' <= c && c <= 'f' {
        Some(c as u32 - 'a' as u32 + 10)
    } else if 'A' <= c && c <= 'F' {
        Some(c as u32 - 'A' as u32 + 10)
    } else {
        None
    }
}

/// The value of a two-character hexadecimal field as the standard parser
/// reads it: a leading `+` may stand in for the first digit.
pub open spec fn hex_pair_val(c1: char, c2: char) -> Option<int> {
    if c1 == '+' {
        hex_digit_val(c2)
    } else {
        match hex_digit_val(c1) {
            None => None,
            Some(h) => match hex_digit_val(c2) {
                None => None,
                Some(l) => Some(h * 16 + l),
            },
        }
    }
}

/// The color read from a six-digit hexadecimal field (leading `#` allowed),
/// or the message of the violation it holds.
pub open spec fn hex_color_spec(s: Seq<char>) -> Result<RgbColor, Seq<char>> {
    let h = strip_hashes(s);
    if h.len() != 6 {
        Err("Invalid hex color format: '"@ + h + "'"@)
    } else {
        match hex_pair_val(h[0], h[1]) {
            None => Err("Invalid hex value for red: '"@ + h.subrange(0, 2) + "'"@),
            Some(r) => match hex_pair_val(h[2], h[3]) {
                None => Err("Invalid hex value for green: '"@ + h.subrange(2, 4) + "'"@),
                Some(g) => match hex_pair_val(h[4], h[5]) {
                    None => Err("Invalid hex value for blue: '"@ + h.subrange(4, 6) + "'"@),
                    Some(b) => Ok(RgbColor { r: r as u8, g: g as u8, b: b as u8 }),
                },
            },
        }
    }
}

/// Reads one hexadecimal digit.
fn hex_digit(c: char) -> (r: Option<u32>)
    ensures
        match r {
            Some(v) => hex_digit_val(c) == Some(v as int),
            None => hex_digit_val(c) is None,
        },
{
    if '0' <= c && c <= '9' {
        Some(c as u32 - 48)
    } else if 'a' <= c && c <= 'f' {
        Some(c as u32 - 97 + 10)
    } else if 'A' <= c && c <= 'F' {
        Some(c as u32 - 65 + 10)
    } else {
        None
    }
}

/// Reads one two-character hexadecimal field of `s`.
fn hex_pair(s: &str, at: usize) -> (r: Option<u32>)
    requires
        at + 2 <= s@.len(),
        s@.len() <= usize::MAX,
    ensures
        match r {
            Some(v) => hex_pair_val(s@[at as int], s@[at as int + 1]) == Some(v as int),
            None => hex_pair_val(s@[at as int], s@[at as int + 1]) is None,
        },
{
    let c1 = s.get_char(at);
    let c2 = s.get_char(at + 1);
    if c1 == '+' {
        hex_digit(c2)
    } else {
        match hex_digit(c1) {
            None => None,
            Some(h) => match hex_digit(c2) {
                None => None,
                Some(l) => Some(h * 16 + l),
            },
        }
    }
}

/// Parses a six-digit hexadecimal color, with an optional `#` prefix. A
/// violation yields its message; the caller reports it at the value's line.
#[verifier::loop_isolation(false)]
fn parse_hex_color(hex: &str) -> (r: Result<RgbColor, String>)
    ensures
        match r {
            Ok(c) => hex_color_spec(hex@) == Ok::<_, Seq<char>>(c),
            Err(m) => hex_color_spec(hex@) == Err::<RgbColor, _>(m@),
        },
{
    let n = hex.unicode_len();
    let mut k: usize = 0;
    while k < n && hex.get_char(k) == '#'
        invariant
            0 <= k <= n,
            n == hex@.len(),
            forall|j: int| 0 <= j < k ==> hex@[j] == '#',
        decreases n - k,
    {
        k = k + 1;
    }
    proof {
        lemma_strip_hashes_at(hex@, k as int);
    }
    let ghost h = strip_hashes(hex@);
    if n - k != 6 {
        return Err(String::from_str("Invalid hex color format: '")
            .concat(hex.substring_char(k, n))
            .concat("'"));
    }
    proof {
        assert forall|j: int| 0 <= j < 6 implies h[j] == hex@[k + j] by {}
    }
    let r = match hex_pair(hex, k) {
        Some(v) => v,
        None => {
            proof {
                assert(h.subrange(0, 2) =~= hex@.subrange(k as int, k as int + 2));
            }
            return Err(String::from_str("Invalid hex value for red: '")
                .concat(hex.substring_char(k, k + 2))
                .concat("'"));
        },
    };
    let g = match hex_pair(hex, k + 2) {
        Some(v) => v,
        None => {
            proof {
                assert(h.subrange(2, 4) =~= hex@.subrange(k as int + 2, k as int + 4));
            }
            return Err(String::from_str("Invalid hex value for green: '")
                .concat(hex.substring_char(k + 2, k + 4))
                .concat("'"));
        },
    };
    let b = match hex_pair(hex, k + 4) {
        Some(v) => v,
        None => {
            proof {
                assert(h.subrange(4, 6) =~= hex@.subrange(k as int + 4, k as int + 6));
            }
            return Err(String::from_str("Invalid hex value for blue: '")
                .concat(hex.substring_char(k + 4, k + 6))
                .concat("'"));
        },
    };
    proof {
        assert(hex_digit_val(h[0]) is Some || h[0] == '+');
        assert(hex_pair_val(h[0], h[1]) is Some);
    }
    Ok(RgbColor { r: r as u8, g: g as u8, b: b as u8 })
}

/// What one settings line does to the parser state.
pub ghost enum PleditLineOut {
    /// The state after the line.
    Keep(PleditState),
    /// A grammar violation reported at this line, with its message.
    Here(Seq<char>),
}

/// Processes one line: blank lines and `;` comments are skipped,
/// `[Section]` switches context, recognized `Text` keys get typed values,
/// anything else is kept verbatim; a `key=value` pair before any header and
/// a line that is neither header nor pair are violations.
pub open spec fn pledit_line(st: PleditState, line: Seq<char>) -> PleditLineOut {
    let t = trim_spec(line);
    if t.len() == 0 {
        PleditLineOut::Keep(st)
    } else if t[0] == ';' {
        PleditLineOut::Keep(st)
    } else if t[0] == '[' && t.last() == ']' {
        PleditLineOut::Keep(PleditState {
            section: t.subrange(1, t.len() - 1),
            ..st
        })
    } else if contains_eq(t) {
        let p = first_eq(t);
        let key = trim_spec(t.subrange(0, p));
        let value = trim_spec(t.subrange(p + 1, t.len() as int));
        if st.section == "Text"@ {
            if eq_ignore_ascii_case(key, "normal"@) {
                match hex_color_spec(value) {
                    Ok(c) => PleditLineOut::Keep(PleditState {
                        settings: PleditModel { normal: Some(c), ..st.settings },
                        ..st
                    }),
                    Err(m) => PleditLineOut::Here(m),
                }
            } else if eq_ignore_ascii_case(key, "current"@) {
                match hex_color_spec(value) {
                    Ok(c) => PleditLineOut::Keep(PleditState {
                        settings: PleditModel { current: Some(c), ..st.settings },
                        ..st
                    }),
                    Err(m) => PleditLineOut::Here(m),
                }
            } else if eq_ignore_ascii_case(key, "normalbg"@) {
                match hex_color_spec(value) {
                    Ok(c) => PleditLineOut::Keep(PleditState {
                        settings: PleditModel { normal_bg: Some(c), ..st.settings },
                        ..st
                    }),
                    Err(m) => PleditLineOut::Here(m),
                }
            } else if eq_ignore_ascii_case(key, "selectedbg"@) {
                match hex_color_spec(value) {
                    Ok(c) => PleditLineOut::Keep(PleditState {
                        settings: PleditModel { selected_bg: Some(c), ..st.settings },
                        ..st
                    }),
                    Err(m) => PleditLineOut::Here(m),
                }
            } else if eq_ignore_ascii_case(key, "font"@) {
                PleditLineOut::Keep(PleditState {
                    settings: PleditModel { font: Some(value), ..st.settings },
                    ..st
                })
            } else {
                PleditLineOut::Keep(PleditState {
                    settings: PleditModel {
                        custom: st.settings.custom.insert(key, value),
                        ..st.settings
                    },
                    ..st
                })
            }
        } else if st.section.len() > 0 {
            PleditLineOut::Keep(PleditState {
                settings: PleditModel {
                    custom: st.settings.custom.insert(st.section + "."@ + key, value),
                    ..st.settings
                },
                ..st
            })
        } else {
            PleditLineOut::Here("Key-value pair outside of any section"@)
        }
    } else {
        PleditLineOut::Here("Invalid line format: '"@ + t + "'"@)
    }
}

/// Whether the line holds an `=`.
pub open spec fn contains_eq(t: Seq<char>) -> bool {
    exists|i: int| 0 <= i < t.len() && t[i] == '='
}

/// The position of the first `=`.
pub open spec fn first_eq(t: Seq<char>) -> int {
    choose|i: int| 0 <= i < t.len() && t[i] == '='
        && (forall|j: int| 0 <= j < i ==> t[j] != '=')
}

/// The state after lines `ln` onward, or the first violation with its
/// 1-based line number.
pub open spec fn pledit_from(lines: Seq<Seq<char>>, ln: int, st: PleditState)
    -> Result<PleditState, (int, Seq<char>)>
    decreases lines.len() - ln,
{
    if ln < 0 || ln >= lines.len() {
        Ok(st)
    } else {
        match pledit_line(st, lines[ln]) {
            PleditLineOut::Keep(st2) => pledit_from(lines, ln + 1, st2),
            PleditLineOut::Here(m) => Err((ln + 1, m)),
        }
    }
}

/// The settings parsed from the text, or its first grammar violation.
pub open spec fn pledit_spec(s: Seq<char>) -> Result<PleditModel, (int, Seq<char>)> {
    match pledit_from(split_char(s, '\n'), 0, pledit_init()) {
        Ok(st) => Ok(st.settings),
        Err(e) => Err(e),
    }
}

/// A qualified-text map reduced to its mathematical content.
pub open spec fn string_map(m: Map<Seq<char>, String>) -> Map<Seq<char>, Seq<char>> {
    Map::new(|k: Seq<char>| m.contains_key(k), |k: Seq<char>| m[k]@)
}

/// Playlist editor settings: colors, font and any unrecognized entries.
#[derive(Debug, Clone)]
pub struct PleditSettings {
    /// Normal text color.
    pub normal: Option<RgbColor>,
    /// Current text color.
    pub current: Option<RgbColor>,
    /// Normal background color.
    pub normal_bg: Option<RgbColor>,
    /// Selected background color.
    pub selected_bg: Option<RgbColor>,
    /// Font name.
    pub font: Option<String>,
    /// Settings not defined in the standard, kept verbatim under a
    /// qualified name.
    pub custom: NameMap<String>,
}

impl PleditSettings {
    /// The settings' mathematical content.
    pub open spec fn model(self) -> PleditModel {
        PleditModel {
            normal: self.normal,
            current: self.current,
            normal_bg: self.normal_bg,
            selected_bg: self.selected_bg,
            font: match self.font {
                Some(f) => Some(f@),
                None => None,
            },
            custom: string_map(self.custom.map_view()),
        }
    }

    /// Well-formed: the qualified-text table has unique keys.
    pub open spec fn wf(self) -> bool {
        self.custom.wf()
    }

    /// Creates empty settings.
    pub fn new() -> (r: PleditSettings)
        ensures
            r.wf(),
            r.model() == pledit_init().settings,
    {
        let r = PleditSettings {
            normal: None,
            current: None,
            normal_bg: None,
            selected_bg: None,
            font: None,
            custom: NameMap::new(),
        };
        proof {
            assert(string_map(r.custom.map_view()) =~= Map::<Seq<char>, Seq<char>>::empty());
        }
        r
    }

    /// Parses the settings file found in the archive by its base name; a
    /// missing file is a `NotFound` error the caller may treat as default
    /// settings.
    pub fn from_archive(archive: &WszArchive) -> (r: Result<PleditSettings, WszError>)
        requires
            archive.wf(),
        ensures
            match r {
                Ok(p) => p.wf() && exists|i: int| 0 <= i < archive.len_spec()
                    && #[trigger] matches_basename(archive.key_at(i), "pledit.txt"@)
                    && pledit_spec(utf8_lossy(archive.val_at(i)@))
                        == Ok::<_, (int, Seq<char>)>(p.model()),
                Err(e) => match e {
                    WszError::NotFound(m) => m@ == "pledit.txt"@
                        && forall|i: int| 0 <= i < archive.len_spec()
                            ==> !(#[trigger] matches_basename(archive.key_at(i), "pledit.txt"@)),
                    WszError::InvalidFormat { line, error } => exists|i: int|
                        0 <= i < archive.len_spec()
                        && #[trigger] matches_basename(archive.key_at(i), "pledit.txt"@)
                        && pledit_spec(utf8_lossy(archive.val_at(i)@))
                            == Err::<PleditModel, _>((line as int, error@)),
                    _ => false,
                },
            },
    {
        let bytes = match find_archive_file(archive, "pledit.txt") {
            Some(bytes) => bytes,
            None => {
                return Err(WszError::NotFound(String::from_str("pledit.txt")));
            },
        };
        let content = bytes_to_string_lossy(bytes);
        PleditSettings::from_string(content.as_str())
    }

    /// Parses settings from text: `[Section]` headers, `;` comments,
    /// `key=value` pairs. Recognized keys of the `Text` section are typed;
    /// unrecognized keys and foreign sections are kept verbatim. The first
    /// violation is an error with its 1-based line number.
    #[verifier::loop_isolation(false)]
    #[verifier::rlimit(80)]
    pub fn from_string(content: &str) -> (r: Result<PleditSettings, WszError>)
        ensures
            match r {
                Ok(p) => p.wf()
                    && pledit_spec(content@) == Ok::<_, (int, Seq<char>)>(p.model()),
                Err(e) => {
                    &&& pledit_spec(content@) is Err
                    &&& (e matches WszError::InvalidFormat { line, error }
                        && pledit_spec(content@)
                            == Err::<PleditModel, _>((line as int, error@)))
                },
            },
    {
        let ghost whole = content@;
        let ghost glines = split_char(whole, '\n');
        let ghost target = pledit_from(glines, 0, pledit_init());
        let n = content.unicode_len();
        proof {
            assert(whole.subrange(0, n as int) =~= whole);
        }
        let lines = split_ranges(content, 0, n, '\n');
        let mut settings = PleditSettings::new();
        let mut section = String::new();
        let mut k: usize = 0;
        while k < lines.len()
            invariant
                k <= lines@.len(),
                settings.wf(),
                pledit_from(glines, k as int,
                    PleditState { settings: settings.model(), section: section@ }) == target,
            decreases lines@.len() - k,
        {
            let ghost st = PleditState { settings: settings.model(), section: section@ };
            let (ls, le) = lines[k];
            let ghost line = glines[k as int];
            let (a, b) = trim_range(content, ls, le);
            let ghost t = trim_spec(line);
            proof {
                assert(whole.subrange(a as int, b as int) == t);
            }
            if a == b {
                proof {
                    assert(pledit_line(st, line) == PleditLineOut::Keep(st));
                }
            } else if content.get_char(a) == ';' {
                proof {
                    assert(t[0] == ';');
                    assert(pledit_line(st, line) == PleditLineOut::Keep(st));
                }
            } else if content.get_char(a) == '[' && content.get_char(b - 1) == ']' {
                section = content.substring_char(a + 1, b - 1).to_owned();
                proof {
                    assert(t[0] == '[' && t.last() == ']');
                    assert(section@ =~= t.subrange(1, t.len() - 1));
                }
            } else {
                let eq_pos = match find_char_in_range(content, a, b, '=') {
                    Some(p) => p,
                    None => {
                        proof {
                            assert(!contains_eq(t)) by {
                                assert forall|i: int| 0 <= i < t.len() implies t[i] != '=' by {
                                    assert(t[i] == whole[a + i]);
                                }
                            }
                            assert(pledit_line(st, line)
                                == PleditLineOut::Here("Invalid line format: '"@ + t + "'"@));
                        }
                        return Err(WszError::InvalidFormat {
                            line: k + 1,
                            error: String::from_str("Invalid line format: '")
                                .concat(content.substring_char(a, b))
                                .concat("'"),
                        });
                    },
                };
                proof {
                    assert(t[eq_pos - a] == '=');
                    assert(contains_eq(t));
                    assert forall|j: int| 0 <= j < eq_pos - a implies t[j] != '=' by {
                        assert(t[j] == whole[a + j]);
                    }
                    lemma_first_eq(t, eq_pos - a);
                }
                let (ka, kb) = trim_range(content, a, eq_pos);
                let (va, vb) = trim_range(content, eq_pos + 1, b);
                let ghost key = trim_spec(t.subrange(0, eq_pos - a));
                let ghost value = trim_spec(t.subrange(eq_pos - a + 1, t.len() as int));
                proof {
                    assert(whole.subrange(a as int, eq_pos as int)
                        =~= t.subrange(0, eq_pos - a));
                    assert(whole.subrange(eq_pos as int + 1, b as int)
                        =~= t.subrange(eq_pos - a + 1, t.len() as int));
                    assert(whole.subrange(ka as int, kb as int) == key);
                    assert(whole.subrange(va as int, vb as int) == value);
                }
                let in_text = range_eq(&section, "Text");
                if in_text && range_eq_ignore_case(content, ka, kb, "normal") {
                    match parse_hex_color(content.substring_char(va, vb)) {
                        Ok(c) => {
                            settings.normal = Some(c);
                        },
                        Err(m) => {
                            return Err(WszError::InvalidFormat { line: k + 1, error: m });
                        },
                    }
                } else if in_text && range_eq_ignore_case(content, ka, kb, "current") {
                    match parse_hex_color(content.substring_char(va, vb)) {
                        Ok(c) => {
                            settings.current = Some(c);
                        },
                        Err(m) => {
                            return Err(WszError::InvalidFormat { line: k + 1, error: m });
                        },
                    }
                } else if in_text && range_eq_ignore_case(content, ka, kb, "normalbg") {
                    match parse_hex_color(content.substring_char(va, vb)) {
                        Ok(c) => {
                            settings.normal_bg = Some(c);
                        },
                        Err(m) => {
                            return Err(WszError::InvalidFormat { line: k + 1, error: m });
                        },
                    }
                } else if in_text && range_eq_ignore_case(content, ka, kb, "selectedbg") {
                    match parse_hex_color(content.substring_char(va, vb)) {
                        Ok(c) => {
                            settings.selected_bg = Some(c);
                        },
                        Err(m) => {
                            return Err(WszError::InvalidFormat { line: k + 1, error: m });
                        },
                    }
                } else if in_text && range_eq_ignore_case(content, ka, kb, "font") {
                    settings.font = Some(content.substring_char(va, vb).to_owned());
                } else if in_text {
                    let key_owned = content.substring_char(ka, kb).to_owned();
                    let value_owned = content.substring_char(va, vb).to_owned();
                    let ghost prev_custom = settings.custom.map_view();
                    settings.custom.insert(key_owned, value_owned);
                    proof {
                        assert(string_map(settings.custom.map_view())
                            =~= string_map(prev_custom).insert(key, value));
                    }
                } else if section.as_str().unicode_len() > 0 {
                    let full_key = section.clone().concat(".").concat(
                        content.substring_char(ka, kb));
                    let value_owned = content.substring_char(va, vb).to_owned();
                    let ghost prev_custom = settings.custom.map_view();
                    proof {
                        reveal_strlit(".");
                        reveal_strlit("Text");
                    }
                    settings.custom.insert(full_key, value_owned);
                    proof {
                        assert(string_map(settings.custom.map_view())
                            =~= string_map(prev_custom).insert(st.section + "."@ + key, value));
                    }
                } else {
                    proof {
                        reveal_strlit("Text");
                        assert(st.section.len() == 0);
                        assert(st.section != "Text"@);
                    }
                    return Err(WszError::InvalidFormat {
                        line: k + 1,
                        error: String::from_str("Key-value pair outside of any section"),
                    });
                }
            }
            k = k + 1;
        }
        Ok(settings)
    }
}

/// A helper for `range_eq` over a `String`.
fn range_eq(s: &String, t: &str) -> (r: bool)
    ensures
        r == (s@ == t@),
{
    crate::strutil::str_eq(s.as_str(), t)
}

/// The first `=` found by a scan is `first_eq`.
pub proof fn lemma_first_eq(t: Seq<char>, p: int)
    requires
        0 <= p < t.len(),
        t[p] == '=',
        forall|j: int| 0 <= j < p ==> t[j] != '=',
    ensures
        first_eq(t) == p,
{
    assert(0 <= p < t.len() && t[p] == '=' && (forall|j: int| 0 <= j < p ==> t[j] != '='));
    let q = first_eq(t);
    assert(0 <= q < t.len() && t[q] == '=' && (forall|j: int| 0 <= j < q ==> t[j] != '='));
    if q < p {
        assert(t[q] != '=');
    } else if p < q {
        assert(t[p] != '=');
    }
}

impl Default for PleditSettings {
    /// Empty settings.
    fn default() -> (r: PleditSettings)
        ensures
            r.wf(),
            r.model() == pledit_init().settings,
    {
        PleditSettings::new()
    }
}

} // verus!
