//! Character-level helpers for strings, shared by the configuration parsers
//! and the name-keyed containers.
//!
//! Whitespace and case folding cover the ASCII range only: the grammar
//! markers and the file and key names being matched are all ASCII, so
//! blank-trimming and case-insensitive comparison treat exactly the ASCII
//! whitespace characters and letters; other characters pass through
//! unchanged.

use vstd::prelude::*;
use vstd::string::StringExecFns;

verus! {

/// The character for one decimal digit.
pub open spec fn digit_char(d: int) -> char {
    if d == 0 { '0' }
    else if d == 1 { '1' }
    else if d == 2 { '2' }
    else if d == 3 { '3' }
    else if d == 4 { '4' }
    else if d == 5 { '5' }
    else if d == 6 { '6' }
    else if d == 7 { '7' }
    else if d == 8 { '8' }
    else { '9' }
}

/// The decimal representation of `n`, most significant digit first.
pub open spec fn dec_digits(n: int) -> Seq<char>
    decreases n,
{
    if n < 10 {
        seq![digit_char(n)]
    } else {
        dec_digits(n / 10) + seq![digit_char(n % 10)]
    }
}

/// One decimal digit as a string slice.
pub fn digit_str(d: u32) -> (r: &'static str)
    requires
        d < 10,
    ensures
        r@ == seq![digit_char(d as int)],
{
    proof {
        reveal_strlit("0");
        reveal_strlit("1");
        reveal_strlit("2");
        reveal_strlit("3");
        reveal_strlit("4");
        reveal_strlit("5");
        reveal_strlit("6");
        reveal_strlit("7");
        reveal_strlit("8");
        reveal_strlit("9");
    }
    if d == 0 { "0" }
    else if d == 1 { "1" }
    else if d == 2 { "2" }
    else if d == 3 { "3" }
    else if d == 4 { "4" }
    else if d == 5 { "5" }
    else if d == 6 { "6" }
    else if d == 7 { "7" }
    else if d == 8 { "8" }
    else { "9" }
}

/// Writes `n` in decimal.
pub fn u32_to_decimal(n: u32) -> (r: String)
    ensures
        r@ == dec_digits(n as int),
    decreases n,
{
    if n < 10 {
        String::from_str(digit_str(n))
    } else {
        u32_to_decimal(n / 10).concat(digit_str(n % 10))
    }
}

/// The whitespace characters the configuration grammars ignore.
pub open spec fn is_space(c: char) -> bool {
    c == ' ' || c == '\t' || c == '\r' || c == '\n' || c == '\u{b}' || c == '\u{c}'
}

/// Whether `c` is a whitespace character.
pub fn is_space_char(c: char) -> (r: bool)
    ensures
        r == is_space(c),
{
    c == ' ' || c == '\t' || c == '\r' || c == '\n' || c == '\u{b}' || c == '\u{c}'
}

/// `s` without its leading whitespace.
pub open spec fn trim_front(s: Seq<char>) -> Seq<char>
    decreases s.len(),
{
    if s.len() > 0 && is_space(s[0]) {
        trim_front(s.drop_first())
    } else {
        s
    }
}

/// `s` without its trailing whitespace.
pub open spec fn trim_back(s: Seq<char>) -> Seq<char>
    decreases s.len(),
{
    if s.len() > 0 && is_space(s.last()) {
        trim_back(s.drop_last())
    } else {
        s
    }
}

/// `s` without leading and trailing whitespace.
pub open spec fn trim_spec(s: Seq<char>) -> Seq<char> {
    trim_back(trim_front(s))
}

/// `trim_front` drops exactly the leading run of whitespace.
pub proof fn lemma_trim_front_at(s: Seq<char>, k: int)
    requires
        0 <= k <= s.len(),
        forall|j: int| 0 <= j < k ==> is_space(s[j]),
        k < s.len() ==> !is_space(s[k]),
    ensures
        trim_front(s) == s.subrange(k, s.len() as int),
    decreases k,
{
    if k == 0 {
        assert(s.subrange(0, s.len() as int) =~= s);
    } else {
        assert(is_space(s[0]));
        lemma_trim_front_at(s.drop_first(), k - 1);
        assert(s.drop_first().subrange(k - 1, s.drop_first().len() as int)
            =~= s.subrange(k, s.len() as int));
    }
}

/// `trim_back` drops exactly the trailing run of whitespace.
pub proof fn lemma_trim_back_at(s: Seq<char>, k: int)
    requires
        0 <= k <= s.len(),
        forall|j: int| k <= j < s.len() ==> is_space(s[j]),
        k > 0 ==> !is_space(s[k - 1]),
    ensures
        trim_back(s) == s.subrange(0, k),
    decreases s.len() - k,
{
    if k == s.len() {
        if s.len() > 0 {
            assert(!is_space(s.last()));
        }
        assert(s.subrange(0, k) =~= s);
    } else {
        assert(is_space(s.last()));
        lemma_trim_back_at(s.drop_last(), k);
        assert(s.drop_last().subrange(0, k) =~= s.subrange(0, k));
    }
}

/// Narrows `[start, end)` to the trimmed span of that range of `s`.
#[verifier::loop_isolation(false)]
pub fn trim_range(s: &str, start: usize, end: usize) -> (r: (usize, usize))
    requires
        start <= end <= s@.len(),
    ensures
        start <= r.0 <= r.1 <= end,
        s@.subrange(r.0 as int, r.1 as int) == trim_spec(s@.subrange(start as int, end as int)),
{
    let ghost sub = s@.subrange(start as int, end as int);
    let mut a: usize = start;
    while a < end && is_space_char(s.get_char(a))
        invariant
            start <= a <= end,
            forall|j: int| start <= j < a ==> is_space(s@[j]),
        decreases end - a,
    {
        a = a + 1;
    }
    let mut b: usize = end;
    while b > a && is_space_char(s.get_char(b - 1))
        invariant
            a <= b <= end,
            forall|j: int| b <= j < end ==> is_space(s@[j]),
        decreases b,
    {
        b = b - 1;
    }
    proof {
        lemma_trim_front_at(sub, a - start);
        assert(trim_front(sub) =~= s@.subrange(a as int, end as int));
        let tf = trim_front(sub);
        lemma_trim_back_at(tf, b - a);
        assert(tf.subrange(0, b - a) =~= s@.subrange(a as int, b as int));
    }
    (a, b)
}

/// `s` divided at every occurrence of `sep`. The result always has one
/// segment more than `s` has separators; an empty `s` gives one empty
/// segment.
pub open spec fn split_char(s: Seq<char>, sep: char) -> Seq<Seq<char>>
    decreases s.len(),
{
    if s.len() == 0 {
        seq![Seq::<char>::empty()]
    } else if s[0] == sep {
        seq![Seq::<char>::empty()] + split_char(s.drop_first(), sep)
    } else {
        let rest = split_char(s.drop_first(), sep);
        seq![seq![s[0]] + rest[0]] + rest.subrange(1, rest.len() as int)
    }
}

/// Splitting yields at least one segment.
pub proof fn lemma_split_char_len(s: Seq<char>, sep: char)
    ensures
        split_char(s, sep).len() >= 1,
    decreases s.len(),
{
    if s.len() > 0 {
        lemma_split_char_len(s.drop_first(), sep);
    }
}

/// A string without the separator is one segment.
pub proof fn lemma_split_char_no_sep(s: Seq<char>, sep: char)
    requires
        forall|j: int| 0 <= j < s.len() ==> s[j] != sep,
    ensures
        split_char(s, sep) == seq![s],
    decreases s.len(),
{
    if s.len() == 0 {
        assert(split_char(s, sep) =~~= seq![s]);
    } else {
        lemma_split_char_no_sep(s.drop_first(), sep);
        assert(seq![s[0]] + s.drop_first() =~= s);
        assert(split_char(s, sep) =~~= seq![s]);
    }
}

/// Splitting at the first separator position `k` peels off one segment.
pub proof fn lemma_split_char_first_sep(s: Seq<char>, sep: char, k: int)
    requires
        0 <= k < s.len(),
        s[k] == sep,
        forall|j: int| 0 <= j < k ==> s[j] != sep,
    ensures
        split_char(s, sep) == seq![s.subrange(0, k)]
            + split_char(s.subrange(k + 1, s.len() as int), sep),
    decreases k,
{
    if k == 0 {
        assert(s.subrange(0, 0) =~= Seq::<char>::empty());
        assert(s.subrange(1, s.len() as int) =~= s.drop_first());
        assert(split_char(s, sep) =~~= seq![s.subrange(0, k)]
            + split_char(s.subrange(k + 1, s.len() as int), sep));
    } else {
        let t = s.drop_first();
        lemma_split_char_first_sep(t, sep, k - 1);
        lemma_split_char_len(t.subrange(k, t.len() as int), sep);
        assert(t.subrange(0, k - 1) =~= s.subrange(1, k));
        assert(t.subrange(k, t.len() as int) =~= s.subrange(k + 1, s.len() as int));
        assert(seq![s[0]] + s.subrange(1, k) =~= s.subrange(0, k));
        assert(split_char(s, sep) =~~= seq![s.subrange(0, k)]
            + split_char(s.subrange(k + 1, s.len() as int), sep));
    }
}

/// The spans of the segments of `[start, end)` of `s`, divided at `sep`.
#[verifier::loop_isolation(false)]
pub fn split_ranges(s: &str, start: usize, end: usize, sep: char) -> (r: Vec<(usize, usize)>)
    requires
        start <= end <= s@.len(),
    ensures
        ({
            let segs = split_char(s@.subrange(start as int, end as int), sep);
            &&& r@.len() == segs.len()
            &&& forall|i: int| 0 <= i < r@.len()
                ==> start <= #[trigger] r@[i].0 <= r@[i].1 <= end
                    && s@.subrange(r@[i].0 as int, r@[i].1 as int) == segs[i]
        }),
{
    let ghost segs = split_char(s@.subrange(start as int, end as int), sep);
    let mut out: Vec<(usize, usize)> = Vec::new();
    let mut seg_start: usize = start;
    let mut i: usize = start;
    loop
        invariant
            start <= seg_start <= i <= end <= s@.len(),
            forall|j: int| seg_start <= j < i ==> s@[j] != sep,
            segs =~= out@.map_values(|p: (usize, usize)| s@.subrange(p.0 as int, p.1 as int))
                + split_char(s@.subrange(seg_start as int, end as int), sep),
            forall|j: int| 0 <= j < out@.len()
                ==> start <= #[trigger] out@[j].0 <= out@[j].1 <= end,
        decreases end - i,
    {
        if i == end {
            proof {
                lemma_split_char_no_sep(s@.subrange(seg_start as int, end as int), sep);
                let f = |p: (usize, usize)| s@.subrange(p.0 as int, p.1 as int);
                assert(out@.push((seg_start, end)).map_values(f)
                    =~= out@.map_values(f) + seq![s@.subrange(seg_start as int, end as int)]);
            }
            out.push((seg_start, end));
            break;
        }
        let c = s.get_char(i);
        if c == sep {
            proof {
                let whole = s@.subrange(seg_start as int, end as int);
                lemma_split_char_first_sep(whole, sep, i - seg_start);
                assert(whole.subrange(0, i - seg_start)
                    =~= s@.subrange(seg_start as int, i as int));
                assert(whole.subrange(i - seg_start + 1, whole.len() as int)
                    =~= s@.subrange(i as int + 1, end as int));
                let f = |p: (usize, usize)| s@.subrange(p.0 as int, p.1 as int);
                assert(out@.push((seg_start, i)).map_values(f)
                    =~= out@.map_values(f) + seq![s@.subrange(seg_start as int, i as int)]);
            }
            out.push((seg_start, i));
            seg_start = i + 1;
        }
        i = i + 1;
    }
    proof {
        let f = |p: (usize, usize)| s@.subrange(p.0 as int, p.1 as int);
        assert(segs =~= out@.map_values(f));
        assert forall|j: int| 0 <= j < out@.len()
            implies s@.subrange(#[trigger] out@[j].0 as int, out@[j].1 as int) == segs[j] by {
            assert(segs[j] == out@.map_values(f)[j]);
        }
    }
    out
}

/// Whether `c` separates point-list tokens: whitespace or a comma.
pub open spec fn is_wsc(c: char) -> bool {
    is_space(c) || c == ','
}

/// `s` divided at every whitespace or comma character.
pub open spec fn split_wsc(s: Seq<char>) -> Seq<Seq<char>>
    decreases s.len(),
{
    if s.len() == 0 {
        seq![Seq::<char>::empty()]
    } else if is_wsc(s[0]) {
        seq![Seq::<char>::empty()] + split_wsc(s.drop_first())
    } else {
        let rest = split_wsc(s.drop_first());
        seq![seq![s[0]] + rest[0]] + rest.subrange(1, rest.len() as int)
    }
}

/// Splitting yields at least one segment.
pub proof fn lemma_split_wsc_len(s: Seq<char>)
    ensures
        split_wsc(s).len() >= 1,
    decreases s.len(),
{
    if s.len() > 0 {
        lemma_split_wsc_len(s.drop_first());
    }
}

/// A string without separators is one segment.
pub proof fn lemma_split_wsc_no_sep(s: Seq<char>)
    requires
        forall|j: int| 0 <= j < s.len() ==> !is_wsc(s[j]),
    ensures
        split_wsc(s) == seq![s],
    decreases s.len(),
{
    if s.len() == 0 {
        assert(split_wsc(s) =~~= seq![s]);
    } else {
        lemma_split_wsc_no_sep(s.drop_first());
        assert(seq![s[0]] + s.drop_first() =~= s);
        assert(split_wsc(s) =~~= seq![s]);
    }
}

/// Splitting at the first separator position `k` peels off one segment.
pub proof fn lemma_split_wsc_first_sep(s: Seq<char>, k: int)
    requires
        0 <= k < s.len(),
        is_wsc(s[k]),
        forall|j: int| 0 <= j < k ==> !is_wsc(s[j]),
    ensures
        split_wsc(s) == seq![s.subrange(0, k)]
            + split_wsc(s.subrange(k + 1, s.len() as int)),
    decreases k,
{
    if k == 0 {
        assert(s.subrange(0, 0) =~= Seq::<char>::empty());
        assert(s.subrange(1, s.len() as int) =~= s.drop_first());
        assert(split_wsc(s) =~~= seq![s.subrange(0, k)]
            + split_wsc(s.subrange(k + 1, s.len() as int)));
    } else {
        let t = s.drop_first();
        lemma_split_wsc_first_sep(t, k - 1);
        lemma_split_wsc_len(t.subrange(k, t.len() as int));
        assert(t.subrange(0, k - 1) =~= s.subrange(1, k));
        assert(t.subrange(k, t.len() as int) =~= s.subrange(k + 1, s.len() as int));
        assert(seq![s[0]] + s.subrange(1, k) =~= s.subrange(0, k));
        assert(split_wsc(s) =~~= seq![s.subrange(0, k)]
            + split_wsc(s.subrange(k + 1, s.len() as int)));
    }
}

/// The spans of the segments of `[start, end)` of `s`, divided at every
/// whitespace or comma character.
#[verifier::loop_isolation(false)]
pub fn split_wsc_ranges(s: &str, start: usize, end: usize) -> (r: Vec<(usize, usize)>)
    requires
        start <= end <= s@.len(),
    ensures
        ({
            let segs = split_wsc(s@.subrange(start as int, end as int));
            &&& r@.len() == segs.len()
            &&& forall|i: int| 0 <= i < r@.len()
                ==> start <= #[trigger] r@[i].0 <= r@[i].1 <= end
                    && s@.subrange(r@[i].0 as int, r@[i].1 as int) == segs[i]
        }),
{
    let ghost segs = split_wsc(s@.subrange(start as int, end as int));
    let mut out: Vec<(usize, usize)> = Vec::new();
    let mut seg_start: usize = start;
    let mut i: usize = start;
    loop
        invariant
            start <= seg_start <= i <= end <= s@.len(),
            forall|j: int| seg_start <= j < i ==> !is_wsc(s@[j]),
            segs =~= out@.map_values(|p: (usize, usize)| s@.subrange(p.0 as int, p.1 as int))
                + split_wsc(s@.subrange(seg_start as int, end as int)),
            forall|j: int| 0 <= j < out@.len()
                ==> start <= #[trigger] out@[j].0 <= out@[j].1 <= end,
        decreases end - i,
    {
        if i == end {
            proof {
                lemma_split_wsc_no_sep(s@.subrange(seg_start as int, end as int));
                let f = |p: (usize, usize)| s@.subrange(p.0 as int, p.1 as int);
                assert(out@.push((seg_start, end)).map_values(f)
                    =~= out@.map_values(f) + seq![s@.subrange(seg_start as int, end as int)]);
            }
            out.push((seg_start, end));
            break;
        }
        let c = s.get_char(i);
        if is_space_char(c) || c == ',' {
            proof {
                let whole = s@.subrange(seg_start as int, end as int);
                lemma_split_wsc_first_sep(whole, i - seg_start);
                assert(whole.subrange(0, i - seg_start)
                    =~= s@.subrange(seg_start as int, i as int));
                assert(whole.subrange(i - seg_start + 1, whole.len() as int)
                    =~= s@.subrange(i as int + 1, end as int));
                let f = |p: (usize, usize)| s@.subrange(p.0 as int, p.1 as int);
                assert(out@.push((seg_start, i)).map_values(f)
                    =~= out@.map_values(f) + seq![s@.subrange(seg_start as int, i as int)]);
            }
            out.push((seg_start, i));
            seg_start = i + 1;
        }
        i = i + 1;
    }
    proof {
        let f = |p: (usize, usize)| s@.subrange(p.0 as int, p.1 as int);
        assert(segs =~= out@.map_values(f));
        assert forall|j: int| 0 <= j < out@.len()
            implies s@.subrange(#[trigger] out@[j].0 as int, out@[j].1 as int) == segs[j] by {
            assert(segs[j] == out@.map_values(f)[j]);
        }
    }
    out
}

/// The prefix of `s` before its first `//`; all of `s` when it has none.
pub open spec fn strip_line_comment(s: Seq<char>) -> Seq<char>
    decreases s.len(),
{
    if s.len() >= 2 && s[0] == '/' && s[1] == '/' {
        Seq::empty()
    } else if s.len() == 0 {
        s
    } else {
        seq![s[0]] + strip_line_comment(s.drop_first())
    }
}

/// Stripping at the first `//` position `k` keeps exactly the prefix.
pub proof fn lemma_strip_comment_at(s: Seq<char>, k: int)
    requires
        0 <= k <= s.len(),
        forall|j: int| 0 <= j < k ==> !((#[trigger] s[j]) == '/' && j + 1 < s.len() && s[j + 1] == '/'),
        k + 1 < s.len() ==> (s[k] == '/' && s[k + 1] == '/'),
        k < s.len() ==> k + 1 < s.len(),
    ensures
        strip_line_comment(s) == s.subrange(0, k),
    decreases k,
{
    if k == 0 {
        if s.len() >= 2 && s[0] == '/' && s[1] == '/' {
            assert(s.subrange(0, 0) =~= Seq::<char>::empty());
        } else {
            assert(k < s.len() ==> k + 1 < s.len());
            assert(s.len() == 0 || s.len() == 1 || !(s[0] == '/' && s[1] == '/'));
            if s.len() > 0 {
                assert(!(s[0] == '/' && 1 < s.len() && s[1] == '/'));
                assert(false);
            }
            assert(s.subrange(0, 0) =~= s);
        }
    } else {
        assert(!(s[0] == '/' && 1 < s.len() && s[1] == '/'));
        let t = s.drop_first();
        lemma_strip_comment_at(t, k - 1);
        assert(seq![s[0]] + t.subrange(0, k - 1) =~= s.subrange(0, k));
    }
}

/// Narrows `[start, end)` of `s` to the prefix before the first `//`.
#[verifier::loop_isolation(false)]
pub fn strip_comment_range(s: &str, start: usize, end: usize) -> (r: usize)
    requires
        start <= end <= s@.len(),
    ensures
        start <= r <= end,
        s@.subrange(start as int, r as int)
            == strip_line_comment(s@.subrange(start as int, end as int)),
{
    let ghost sub = s@.subrange(start as int, end as int);
    let mut i: usize = start;
    while end - i > 1 && !(s.get_char(i) == '/' && s.get_char(i + 1) == '/')
        invariant
            start <= i <= end,
            forall|j: int| start <= j < i
                ==> !((#[trigger] s@[j]) == '/' && j + 1 < end && s@[j + 1] == '/'),
        decreases end - i,
    {
        i = i + 1;
    }
    if end - i > 1 {
        proof {
            lemma_strip_comment_at(sub, i - start);
            assert(sub.subrange(0, i - start) =~= s@.subrange(start as int, i as int));
        }
        i
    } else {
        proof {
            lemma_strip_comment_at(sub, end - start);
            assert(sub.subrange(0, end - start) =~= s@.subrange(start as int, end as int));
        }
        end
    }
}

/// Whether `c` occurs in `s`.
pub open spec fn contains_char(s: Seq<char>, c: char) -> bool {
    exists|i: int| 0 <= i < s.len() && s[i] == c
}

/// Whether `c` occurs in `[start, end)` of `s`.
#[verifier::loop_isolation(false)]
pub fn range_contains_char(s: &str, start: usize, end: usize, c: char) -> (r: bool)
    requires
        start <= end <= s@.len(),
    ensures
        r == contains_char(s@.subrange(start as int, end as int), c),
{
    let ghost sub = s@.subrange(start as int, end as int);
    let mut i: usize = start;
    while i < end
        invariant
            start <= i <= end,
            forall|j: int| start <= j < i ==> s@[j] != c,
        decreases end - i,
    {
        if s.get_char(i) == c {
            proof {
                assert(sub[i - start] == c);
            }
            return true;
        }
        i = i + 1;
    }
    proof {
        assert forall|j: int| 0 <= j < sub.len() implies sub[j] != c by {
            assert(sub[j] == s@[start + j]);
        }
    }
    false
}

/// The index of the first `c` in `[start, end)` of `s`, if any.
#[verifier::loop_isolation(false)]
pub fn find_char_in_range(s: &str, start: usize, end: usize, c: char) -> (r: Option<usize>)
    requires
        start <= end <= s@.len(),
    ensures
        match r {
            Some(i) => start <= i < end && s@[i as int] == c
                && forall|j: int| start <= j < i ==> s@[j] != c,
            None => forall|j: int| start <= j < end ==> s@[j] != c,
        },
{
    let mut i: usize = start;
    while i < end
        invariant
            start <= i <= end,
            forall|j: int| start <= j < i ==> s@[j] != c,
        decreases end - i,
    {
        if s.get_char(i) == c {
            return Some(i);
        }
        i = i + 1;
    }
    None
}

/// The numeric value of a decimal digit, if `c` is one.
pub open spec fn digit_val(c: char) -> Option<int> {
    if '0' <= c && c <= '9' {
        Some(c as u32 - '0' as u32)
    } else {
        None
    }
}

/// The value of a nonempty all-digit string; `None` otherwise.
pub open spec fn digits_val(s: Seq<char>) -> Option<int>
    decreases s.len(),
{
    if s.len() == 0 {
        None
    } else if s.len() == 1 {
        digit_val(s[0])
    } else {
        match digits_val(s.drop_last()) {
            None => None,
            Some(v) => match digit_val(s.last()) {
                None => None,
                Some(d) => Some(v * 10 + d),
            },
        }
    }
}

/// The value of a decimal integer as the standard parser reads it: an
/// optional leading `+`, then one or more digits.
pub open spec fn uint_val(s: Seq<char>) -> Option<int> {
    if s.len() > 0 && s[0] == '+' {
        digits_val(s.drop_first())
    } else {
        digits_val(s)
    }
}

/// A digit string's value never shrinks as more characters are read.
proof fn lemma_digits_val_monotone(s: Seq<char>, i: int, v: int)
    requires
        0 < i <= s.len(),
        digits_val(s.subrange(0, i)) == Some(v),
    ensures
        digits_val(s) is None || digits_val(s).unwrap() >= v,
    decreases s.len() - i,
{
    if i == s.len() {
        assert(s.subrange(0, i) =~= s);
    } else {
        let next = s.subrange(0, i + 1);
        assert(next.drop_last() =~= s.subrange(0, i));
        assert(next.len() > 1);
        match digit_val(next.last()) {
            None => {
                lemma_digits_none_extends(s, i + 1);
            },
            Some(d) => {
                assert(digits_val(next) == Some(v * 10 + d));
                assert(v >= 0) by {
                    lemma_digits_val_nonneg(s.subrange(0, i));
                }
                assert(0 <= d <= 9);
                assert(v * 10 + d >= v) by (nonlinear_arith)
                    requires
                        v >= 0,
                        d >= 0,
                {}
                lemma_digits_val_monotone(s, i + 1, v * 10 + d);
            },
        }
    }
}

/// A digit string's value is never negative.
proof fn lemma_digits_val_nonneg(s: Seq<char>)
    requires
        digits_val(s) is Some,
    ensures
        digits_val(s).unwrap() >= 0,
    decreases s.len(),
{
    if s.len() > 1 {
        lemma_digits_val_nonneg(s.drop_last());
        let v = digits_val(s.drop_last()).unwrap();
        let d = digit_val(s.last()).unwrap();
        assert(v * 10 + d >= 0) by (nonlinear_arith)
            requires
                v >= 0,
                d >= 0,
        {}
    }
}

/// Once a prefix fails to parse, the whole string fails.
proof fn lemma_digits_none_extends(s: Seq<char>, i: int)
    requires
        0 < i <= s.len(),
        digits_val(s.subrange(0, i)) is None,
    ensures
        digits_val(s) is None,
    decreases s.len() - i,
{
    if i == s.len() {
        assert(s.subrange(0, i) =~= s);
    } else {
        let next = s.subrange(0, i + 1);
        assert(next.drop_last() =~= s.subrange(0, i));
        assert(next.len() > 1);
        assert(digits_val(next) is None);
        lemma_digits_none_extends(s, i + 1);
    }
}

/// Reads the decimal integer in `[start, end)` of `s`. Returns its value
/// when the range parses and the value is at most `max`; `None` when the
/// range does not parse or the value exceeds `max`.
#[verifier::loop_isolation(false)]
pub fn parse_uint_range(s: &str, start: usize, end: usize, max: u64) -> (r: Option<u64>)
    requires
        start <= end <= s@.len(),
    ensures
        ({
            let v = uint_val(s@.subrange(start as int, end as int));
            match r {
                Some(n) => v == Some(n as int) && n <= max,
                None => v is None || v.unwrap() > max,
            }
        }),
{
    let ghost whole = s@.subrange(start as int, end as int);
    let digits_start: usize = if start < end && s.get_char(start) == '+' {
        start + 1
    } else {
        start
    };
    let ghost digits = s@.subrange(digits_start as int, end as int);
    proof {
        if start < end && whole[0] == '+' {
            assert(whole.drop_first() =~= digits);
        } else {
            assert(whole =~= digits);
        }
        assert(uint_val(whole) == digits_val(digits));
    }
    if digits_start == end {
        return None;
    }
    let mut value: u64 = 0;
    let mut i: usize = digits_start;
    while i < end
        invariant
            digits_start <= i <= end,
            digits_start < end,
            i > digits_start ==> digits_val(s@.subrange(digits_start as int, i as int))
                == Some(value as int),
            i == digits_start ==> value == 0,
            value <= max,
        decreases end - i,
    {
        let c = s.get_char(i);
        if c < '0' || c > '9' {
            proof {
                let bad = s@.subrange(digits_start as int, i as int + 1);
                assert(bad.last() == c);
                assert(digit_val(c) is None);
                if i == digits_start {
                    assert(bad.len() == 1);
                    assert(digits_val(bad) is None);
                } else {
                    assert(bad.drop_last() =~= s@.subrange(digits_start as int, i as int));
                    assert(digits_val(bad) is None);
                }
                lemma_digits_none_extends(digits, i + 1 - digits_start);
            }
            return None;
        }
        let d: u64 = (c as u64) - 48;
        proof {
            assert(digit_val(c) == Some(d as int));
        }
        let ghost pre = s@.subrange(digits_start as int, i as int + 1);
        let ghost newv: int = if i == digits_start { d as int } else { value as int * 10 + d as int };
        proof {
            if i == digits_start {
                assert(pre.len() == 1);
                assert(pre[0] == c);
                assert(digits_val(pre) == Some(newv));
            } else {
                assert(pre.drop_last() =~= s@.subrange(digits_start as int, i as int));
                assert(digits_val(pre) == Some(newv));
            }
            assert(pre =~= digits.subrange(0, i + 1 - digits_start));
        }
        let wide: u128 = (value as u128) * 10 + (d as u128);
        proof {
            if i != digits_start {
                assert(wide == value as int * 10 + d as int);
            }
        }
        if wide > max as u128 {
            proof {
                if i == digits_start {
                    assert(newv == d as int);
                    assert(wide == d as int);
                }
                assert(newv >= wide || newv == d as int);
                assert(newv > max);
                lemma_digits_val_monotone(digits, i + 1 - digits_start, newv);
            }
            return None;
        }
        value = if i == digits_start { d } else { wide as u64 };
        proof {
            assert(value as int == newv);
        }
        i = i + 1;
    }
    proof {
        assert(s@.subrange(digits_start as int, end as int) =~= digits);
    }
    Some(value)
}

/// The lower-case form of an ASCII letter's code; other characters are
/// unchanged.
pub open spec fn lower_code(c: char) -> int {
    if 'A' <= c && c <= 'Z' {
        c as u32 + 32
    } else {
        c as u32 as int
    }
}

/// Two strings match ignoring ASCII case.
pub open spec fn eq_ignore_ascii_case(a: Seq<char>, b: Seq<char>) -> bool {
    a.len() == b.len() && forall|i: int| 0 <= i < a.len() ==> lower_code(a[i]) == lower_code(b[i])
}

/// Whether `[start, end)` of `s` matches `t`, ignoring ASCII case.
#[verifier::loop_isolation(false)]
pub fn range_eq_ignore_case(s: &str, start: usize, end: usize, t: &str) -> (r: bool)
    requires
        start <= end <= s@.len(),
    ensures
        r == eq_ignore_ascii_case(s@.subrange(start as int, end as int), t@),
{
    let ghost sub = s@.subrange(start as int, end as int);
    let tl = t.unicode_len();
    if end - start != tl {
        return false;
    }
    let mut i: usize = 0;
    while i < tl
        invariant
            0 <= i <= tl,
            tl == t@.len(),
            end - start == tl,
            forall|j: int| 0 <= j < i ==> lower_code(s@[start + j]) == lower_code(t@[j]),
        decreases tl - i,
    {
        let a = s.get_char(start + i);
        let b = t.get_char(i);
        let la: u32 = if 'A' <= a && a <= 'Z' { a as u32 + 32 } else { a as u32 };
        let lb: u32 = if 'A' <= b && b <= 'Z' { b as u32 + 32 } else { b as u32 };
        if la != lb {
            proof {
                assert(sub[i as int] == s@[start + i]);
            }
            return false;
        }
        i = i + 1;
    }
    proof {
        assert forall|j: int| 0 <= j < sub.len()
            implies lower_code(sub[j]) == lower_code(t@[j]) by {
            assert(sub[j] == s@[start + j]);
        }
    }
    true
}

/// Compares two string slices character by character.
pub fn str_eq(a: &str, b: &str) -> (r: bool)
    ensures
        r == (a@ == b@),
{
    let la = a.unicode_len();
    let lb = b.unicode_len();
    if la != lb {
        return false;
    }
    let mut i: usize = 0;
    while i < la
        invariant
            la == a@.len(),
            la == b@.len(),
            i <= la,
            forall|j: int| 0 <= j < i ==> a@[j] == b@[j],
        decreases la - i,
    {
        if a.get_char(i) != b.get_char(i) {
            return false;
        }
        i = i + 1;
    }
    proof {
        assert(a@ =~= b@);
    }
    true
}

} // verus!
