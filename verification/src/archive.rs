//! The skin archive as an in-memory, byte-addressable container: a mapping
//! from file names to file contents.

use vstd::prelude::*;

use crate::error::WszError;
use crate::namemap::NameMap;
use crate::strutil::{
    eq_ignore_ascii_case, lemma_split_char_len, range_eq_ignore_case, split_char,
};

verus! {

/// Contents of a skin archive: file name to raw bytes.
pub type WszArchive = NameMap<Vec<u8>>;

/// What the archive reader yields for the given bytes: the name and
/// contents of each stored file, in archive order; nothing when the bytes
/// are not a readable archive.
pub uninterp spec fn zip_entries(data: Seq<u8>) -> Option<Seq<(Seq<char>, Seq<u8>)>>;

/// Relies on `zip::ZipArchive` (`new`, `len`, `by_index`, and `ZipFile`'s
/// `name`, `is_dir` and `Read`): yields the name and decompressed contents
/// of every stored file, in index order, skipping directory entries; fails
/// exactly when the bytes cannot be read as an archive.
#[verifier::external_body]
fn read_zip_entries(data: &[u8]) -> (r: Result<Vec<(String, Vec<u8>)>, WszError>)
    ensures
        match r {
            Ok(entries) => {
                &&& zip_entries(data@) is Some
                &&& entries@.len() == zip_entries(data@).unwrap().len()
                &&& forall|i: int| 0 <= i < entries@.len()
                    ==> (#[trigger] entries@[i]).0@ == zip_entries(data@).unwrap()[i].0
                        && entries@[i].1@ == zip_entries(data@).unwrap()[i].1
            },
            Err(e) => {
                &&& zip_entries(data@) is None
                &&& (e matches WszError::Zip(_) || e matches WszError::Io(_))
            },
        },
{
    let cursor = std::io::Cursor::new(data);
    let mut archive = zip::ZipArchive::new(cursor).map_err(|e| WszError::Zip(e.to_string()))?;
    let mut entries = Vec::new();
    for i in 0..archive.len() {
        let mut file = archive.by_index(i).map_err(|e| WszError::Zip(e.to_string()))?;
        if file.is_dir() {
            continue;
        }
        let name = file.name().to_string();
        let mut contents = Vec::new();
        std::io::Read::read_to_end(&mut file, &mut contents)
            .map_err(|e| WszError::Io(e.to_string()))?;
        entries.push((name, contents));
    }
    Ok(entries)
}

/// A name-to-bytes map reduced to its mathematical content.
pub open spec fn byte_map(m: Map<Seq<char>, Vec<u8>>) -> Map<Seq<char>, Seq<u8>> {
    Map::new(|k: Seq<char>| m.contains_key(k), |k: Seq<char>| m[k]@)
}

/// Folds archive entries into a map, front to back; a later entry with the
/// same name replaces an earlier one.
pub open spec fn entries_map(
    entries: Seq<(Seq<char>, Seq<u8>)>,
    acc: Map<Seq<char>, Seq<u8>>,
) -> Map<Seq<char>, Seq<u8>>
    decreases entries.len(),
{
    if entries.len() == 0 {
        acc
    } else {
        entries_map(entries.drop_first(), acc.insert(entries[0].0, entries[0].1))
    }
}

/// The contents of an archive read from `data`.
pub open spec fn archive_spec(data: Seq<u8>) -> Map<Seq<char>, Seq<u8>> {
    entries_map(zip_entries(data).unwrap(), Map::empty())
}

/// Unpacks a skin archive from bytes in memory into a name-to-bytes map.
/// Directory entries are skipped; of files stored under one name, the last
/// wins.
#[verifier::loop_isolation(false)]
pub fn unpack_wsz_bytes(data: &[u8]) -> (r: Result<WszArchive, WszError>)
    ensures
        match r {
            Ok(archive) => {
                &&& zip_entries(data@) is Some
                &&& archive.wf()
                &&& byte_map(archive.map_view()) == archive_spec(data@)
            },
            Err(e) => {
                &&& zip_entries(data@) is None
                &&& (e matches WszError::Zip(_) || e matches WszError::Io(_))
            },
        },
{
    let entries = match read_zip_entries(data) {
        Ok(entries) => entries,
        Err(e) => {
            return Err(e);
        },
    };
    let mut archive = NameMap::<Vec<u8>>::new();
    proof {
        assert(byte_map(archive.map_view()) =~= Map::<Seq<char>, Seq<u8>>::empty());
    }
    let mut rest = entries;
    proof {
        assert(rest@.map_values(|p: (String, Vec<u8>)| (p.0@, p.1@))
            =~= zip_entries(data@).unwrap());
    }
    while rest.len() > 0
        invariant
            archive.wf(),
            entries_map(
                rest@.map_values(|p: (String, Vec<u8>)| (p.0@, p.1@)),
                byte_map(archive.map_view()),
            ) == archive_spec(data@),
        decreases rest@.len(),
    {
        let ghost prev_rest = rest@;
        let ghost prev_map = archive.map_view();
        let (name, contents) = rest.remove(0);
        let ghost gname = name@;
        let ghost gbytes = contents@;
        archive.insert(name, contents);
        proof {
            let f = |p: (String, Vec<u8>)| (p.0@, p.1@);
            assert(rest@ =~= prev_rest.drop_first());
            assert(rest@.map_values(f) =~= prev_rest.map_values(f).drop_first());
            assert(prev_rest.map_values(f)[0] == (gname, gbytes));
            assert(byte_map(prev_map.insert(gname, archive.map_view()[gname]))
                =~= byte_map(prev_map).insert(gname, gbytes));
            assert(byte_map(archive.map_view()) =~= byte_map(prev_map).insert(gname, gbytes));
        }
    }
    proof {
        assert(rest@.map_values(|p: (String, Vec<u8>)| (p.0@, p.1@))
            =~= Seq::<(Seq<char>, Seq<u8>)>::empty());
    }
    Ok(archive)
}

/// What lossy UTF-8 decoding yields for the given bytes; the result depends
/// on the bytes alone.
pub uninterp spec fn utf8_lossy(bytes: Seq<u8>) -> Seq<char>;

/// Relies on `String::from_utf8_lossy`: decodes the bytes as UTF-8,
/// replacing invalid sequences with the replacement character.
#[verifier::external_body]
pub fn bytes_to_string_lossy(bytes: &Vec<u8>) -> (r: String)
    ensures
        r@ == utf8_lossy(bytes@),
{
    String::from_utf8_lossy(bytes.as_slice()).to_string()
}

/// The part of a file name after its last `/`.
pub open spec fn basename_of(name: Seq<char>) -> Seq<char> {
    split_char(name, '/').last()
}

/// The last segment of a split is the suffix after the last separator.
pub proof fn lemma_split_char_last(s: Seq<char>, sep: char, k: int)
    requires
        0 <= k <= s.len(),
        forall|j: int| k <= j < s.len() ==> s[j] != sep,
        k > 0 ==> s[k - 1] == sep,
    ensures
        split_char(s, sep).last() == s.subrange(k, s.len() as int),
    decreases s.len(),
{
    lemma_split_char_len(s, sep);
    if k == 0 {
        crate::strutil::lemma_split_char_no_sep(s, sep);
        assert(s.subrange(0, s.len() as int) =~= s);
    } else if s[0] == sep {
        let t = s.drop_first();
        lemma_split_char_last(t, sep, k - 1);
        lemma_split_char_len(t, sep);
        assert(split_char(s, sep).last() == split_char(t, sep).last());
        assert(t.subrange(k - 1, t.len() as int) =~= s.subrange(k, s.len() as int));
    } else {
        let t = s.drop_first();
        assert(k >= 2) by {
            assert(s[k - 1] == sep);
            assert(s[0] != sep);
        }
        lemma_split_char_last(t, sep, k - 1);
        lemma_split_char_len(t, sep);
        let rest = split_char(t, sep);
        assert(rest.len() >= 2) by {
            assert(t[k - 2] == sep);
            lemma_first_occurrence(t, sep, k - 2);
            let fj = choose|j: int| 0 <= j < t.len() && t[j] == sep
                && (forall|m: int| 0 <= m < j ==> t[m] != sep);
            crate::strutil::lemma_split_char_first_sep(t, sep, fj);
            lemma_split_char_len(t.subrange(fj + 1, t.len() as int), sep);
        }
        assert(split_char(s, sep).last() == rest.last());
        assert(t.subrange(k - 1, t.len() as int) =~= s.subrange(k, s.len() as int));
    }
}

/// A character that occurs has a first occurrence.
pub proof fn lemma_first_occurrence(s: Seq<char>, sep: char, at: int)
    requires
        0 <= at < s.len(),
        s[at] == sep,
    ensures
        exists|j: int| 0 <= j < s.len() && s[j] == sep
            && (forall|m: int| 0 <= m < j ==> s[m] != sep),
    decreases at,
{
    if forall|m: int| 0 <= m < at ==> s[m] != sep {
        assert(0 <= at < s.len() && s[at] == sep
            && (forall|m: int| 0 <= m < at ==> s[m] != sep));
    } else {
        let e = choose|m: int| 0 <= m < at && s[m] == sep;
        lemma_first_occurrence(s, sep, e);
    }
}

/// The base name of a path without its extension: everything after the
/// last `/`, cut before its last `.` when one stands after the first
/// character; an empty base name yields `unknown`.
pub open spec fn stem_of(path: Seq<char>) -> Seq<char> {
    let base = basename_of(path);
    if base.len() == 0 {
        "unknown"@
    } else if exists|k: int| 0 < k < base.len() && base[k] == '.'
        && (forall|j: int| k < j < base.len() ==> base[j] != '.') {
        let k = choose|k: int| 0 < k < base.len() && base[k] == '.'
            && (forall|j: int| k < j < base.len() ==> base[j] != '.');
        base.subrange(0, k)
    } else {
        base
    }
}

/// Extracts the name of a file without its extension.
#[verifier::loop_isolation(false)]
pub fn get_filename_without_extension(path: &str) -> (r: String)
    ensures
        r@ == stem_of(path@),
{
    let n = path.unicode_len();
    let bstart = basename_start(path);
    let ghost base = basename_of(path@);
    if bstart == n {
        proof {
            reveal_strlit("unknown");
        }
        return String::from_str("unknown");
    }
    let mut k: usize = n;
    while k > bstart + 1 && path.get_char(k - 1) != '.'
        invariant
            bstart < k <= n,
            n == path@.len(),
            forall|j: int| k <= j < n ==> path@[j] != '.',
        decreases k,
    {
        k = k - 1;
    }
    if k > bstart + 1 && path.get_char(k - 1) == '.' {
        proof {
            let kb = k - 1 - bstart;
            assert(base[kb] == '.');
            assert(0 < kb < base.len());
            assert forall|j: int| kb < j < base.len() implies base[j] != '.' by {
                assert(base[j] == path@[bstart + j]);
            }
            let w = choose|w: int| 0 < w < base.len() && base[w] == '.'
                && (forall|j: int| w < j < base.len() ==> base[j] != '.');
            if w != kb {
                if w < kb {
                    assert(base[kb] != '.');
                } else {
                    assert(base[w] == path@[bstart + w]);
                }
            }
            assert(path@.subrange(bstart as int, k as int - 1) =~= base.subrange(0, kb));
        }
        path.substring_char(bstart, k - 1).to_owned()
    } else {
        proof {
            assert forall|w: int| 0 < w < base.len() implies
                !(base[w] == '.' && (forall|j: int| w < j < base.len() ==> base[j] != '.')) by {
                assert(base[w] == path@[bstart + w]);
            }
            assert(path@.subrange(bstart as int, n as int) =~= base);
        }
        path.substring_char(bstart, n).to_owned()
    }
}

/// Whether an archive key refers to `target` as its base name, matched
/// without regard to ASCII case and ignoring any directory prefix.
pub open spec fn matches_basename(name: Seq<char>, target: Seq<char>) -> bool {
    eq_ignore_ascii_case(basename_of(name), target)
}

/// Finds the start of the base name: the position after the last `/`.
#[verifier::loop_isolation(false)]
fn basename_start(s: &str) -> (r: usize)
    ensures
        r <= s@.len(),
        s@.subrange(r as int, s@.len() as int) == basename_of(s@),
{
    let n = s.unicode_len();
    let mut k: usize = n;
    while k > 0 && s.get_char(k - 1) != '/'
        invariant
            0 <= k <= n,
            n == s@.len(),
            forall|j: int| k <= j < n ==> s@[j] != '/',
        decreases k,
    {
        k = k - 1;
    }
    proof {
        lemma_split_char_last(s@, '/', k as int);
    }
    k
}

/// Looks a file up by its base name, ignoring ASCII case and any directory
/// prefix on the stored names. When several stored names match, one of them
/// is returned.
#[verifier::loop_isolation(false)]
pub fn find_archive_file<'a>(archive: &'a WszArchive, target: &str) -> (r: Option<&'a Vec<u8>>)
    requires
        archive.wf(),
    ensures
        match r {
            Some(bytes) => exists|i: int| 0 <= i < archive.len_spec()
                && #[trigger] matches_basename(archive.key_at(i), target@)
                && *bytes == archive.val_at(i)
                && (forall|j: int| 0 <= j < i ==> !matches_basename(archive.key_at(j), target@)),
            None => forall|i: int| 0 <= i < archive.len_spec()
                ==> !(#[trigger] matches_basename(archive.key_at(i), target@)),
        },
{
    let n = archive.len();
    let mut i: usize = 0;
    while i < n
        invariant
            0 <= i <= n,
            forall|j: int| 0 <= j < i ==> !matches_basename(archive.key_at(j), target@),
        decreases n - i,
    {
        let key = archive.key_ref(i);
        let ks = key.as_str();
        let bstart = basename_start(ks);
        let blen = ks.unicode_len();
        if range_eq_ignore_case(ks, bstart, blen, target) {
            proof {
                assert(matches_basename(archive.key_at(i as int), target@));
            }
            return Some(archive.val_ref(i));
        }
        i = i + 1;
    }
    None
}

/// Looks a file up whose whole stored name matches `target`, ignoring
/// ASCII case. When several stored names match, one of them is returned.
#[verifier::loop_isolation(false)]
pub fn find_archive_file_exact<'a>(archive: &'a WszArchive, target: &str)
    -> (r: Option<&'a Vec<u8>>)
    requires
        archive.wf(),
    ensures
        match r {
            Some(bytes) => exists|i: int| 0 <= i < archive.len_spec()
                && #[trigger] eq_ignore_ascii_case(archive.key_at(i), target@)
                && *bytes == archive.val_at(i)
                && (forall|j: int| 0 <= j < i
                    ==> !eq_ignore_ascii_case(archive.key_at(j), target@)),
            None => forall|i: int| 0 <= i < archive.len_spec()
                ==> !(#[trigger] eq_ignore_ascii_case(archive.key_at(i), target@)),
        },
{
    let n = archive.len();
    let mut i: usize = 0;
    while i < n
        invariant
            0 <= i <= n,
            forall|j: int| 0 <= j < i ==> !eq_ignore_ascii_case(archive.key_at(j), target@),
        decreases n - i,
    {
        let key = archive.key_ref(i);
        let ks = key.as_str();
        let blen = ks.unicode_len();
        if range_eq_ignore_case(ks, 0, blen, target) {
            proof {
                assert(ks@.subrange(0, ks@.len() as int) =~= archive.key_at(i as int));
            }
            return Some(archive.val_ref(i));
        }
        i = i + 1;
    }
    None
}

} // verus!
