//! Character-level helpers shared by the loaders and parsers: prefix tests,
//! separator search and splitting, stated over `Seq<char>`.
use vstd::prelude::*;
use vstd::string::StrSliceExecFns;
use vstd::string::StringExecFns;

verus! {

/// `true` when `pattern` occurs in `s` starting at index `at`.
pub open spec fn occurs_at(s: Seq<char>, pattern: Seq<char>, at: int) -> bool {
    &&& 0 <= at
    &&& at + pattern.len() <= s.len()
    &&& s.subrange(at, at + pattern.len()) == pattern
}

/// `true` when `s` begins with `prefix`.
pub open spec fn has_prefix(s: Seq<char>, prefix: Seq<char>) -> bool {
    occurs_at(s, prefix, 0)
}

/// `true` when `s` ends with `suffix`.
pub open spec fn has_suffix(s: Seq<char>, suffix: Seq<char>) -> bool {
    occurs_at(s, suffix, s.len() - suffix.len())
}

/// The least index `i >= from` at which `pattern` occurs in `s`, or
/// `s.len()` when there is none.
pub open spec fn find_from(s: Seq<char>, pattern: Seq<char>, from: int) -> int
    decreases s.len() - from,
{
    if from < 0 || from >= s.len() {
        s.len() as int
    } else if occurs_at(s, pattern, from) {
        from
    } else {
        find_from(s, pattern, from + 1)
    }
}

/// The pieces of `s` between occurrences of `separator`, scanning from the
/// left; a text without the separator, and any text where the separator is
/// empty, is its own single piece.
pub open spec fn split(s: Seq<char>, separator: Seq<char>) -> Seq<Seq<char>>
    decreases s.len(),
{
    let at = find_from(s, separator, 0);
    if separator.len() == 0 || !occurs_at(s, separator, at) {
        seq![s]
    } else {
        seq![s.subrange(0, at)] + split(s.subrange(at + separator.len(), s.len() as int), separator)
    }
}

pub proof fn lemma_find_from_bounds(s: Seq<char>, pattern: Seq<char>, from: int)
    requires
        0 <= from <= s.len(),
    ensures
        from <= find_from(s, pattern, from) <= s.len(),
        find_from(s, pattern, from) < s.len() ==> occurs_at(s, pattern, find_from(s, pattern, from)),
        forall|i: int| from <= i < find_from(s, pattern, from) ==> !occurs_at(s, pattern, i),
    decreases s.len() - from,
{
    if from < s.len() && !occurs_at(s, pattern, from) {
        lemma_find_from_bounds(s, pattern, from + 1);
    }
}

/// The lower-case form of a text, as `str::to_lowercase` gives it.
pub uninterp spec fn lowercase(s: Seq<char>) -> Seq<char>;

/// `str::to_lowercase`: the text with each character replaced by its
/// lower-case form.
#[verifier::external_body]
pub(crate) fn to_lowercase(s: &str) -> (lower: String)
    ensures
        lower@ == lowercase(s@),
{
    s.to_lowercase()
}

/// `std::str::from_utf8`: the text that the bytes encode, or `None` where
/// they are no valid UTF-8.
#[verifier::external_body]
pub(crate) fn text_of_bytes(bytes: &[u8]) -> (text: Option<String>)
    ensures
        match text {
            Some(decoded) => vstd::utf8::valid_utf8(bytes@) && decoded@ == vstd::utf8::decode_utf8(
                bytes@,
            ),
            None => !vstd::utf8::valid_utf8(bytes@),
        },
{
    std::str::from_utf8(bytes).ok().map(String::from)
}

/// `String::from_utf8_lossy`: the text that the bytes encode, with what is no
/// valid UTF-8 replaced.
#[verifier::external_body]
pub(crate) fn lossy_text(bytes: &[u8]) -> (text: String)
    ensures
        vstd::utf8::valid_utf8(bytes@) ==> text@ == vstd::utf8::decode_utf8(bytes@),
{
    String::from_utf8_lossy(bytes).to_string()
}

/// A text in quotes, with what stands out escaped, as the `Debug` form of
/// `str` gives it.
pub uninterp spec fn debug_text(s: Seq<char>) -> Seq<char>;

/// The `Debug` form of a text.
#[verifier::external_body]
pub(crate) fn quoted(s: &str) -> (text: String)
    ensures
        text@ == debug_text(s@),
{
    format!("{s:?}")
}

/// A text without the white space at its two ends, as `str::trim` gives it.
pub uninterp spec fn trimmed(s: Seq<char>) -> Seq<char>;

/// `str::trim`: the text without the white space at its two ends.
#[verifier::external_body]
pub(crate) fn trim(s: &str) -> (text: String)
    ensures
        text@ == trimmed(s@),
{
    s.trim().to_string()
}

/// The characters of `s`, in order.
pub fn chars_of(s: &str) -> (v: Vec<char>)
    ensures
        v@ == s@,
{
    let mut v: Vec<char> = Vec::new();
    for c in it: s.chars()
        invariant
            v@ == it.seq().take(it.index()),
            it.seq() == s@,
    {
        v.push(c);
    }
    v
}

/// Tells whether `pattern` occurs in `s` at index `at`.
pub fn matches_at(s: &Vec<char>, pattern: &Vec<char>, at: usize) -> (b: bool)
    ensures
        b == occurs_at(s@, pattern@, at as int),
{
    let n = s.len();
    let m = pattern.len();
    if at > n || m > n - at {
        return false;
    }
    let mut i: usize = 0;
    while i < m
        invariant
            i <= m,
            m == pattern@.len(),
            n == s@.len(),
            at + m <= n,
            forall|j: int| 0 <= j < i ==> s@[at + j] == pattern@[j],
        decreases m - i,
    {
        if s[at + i] != pattern[i] {
            proof {
                assert(s@.subrange(at as int, at + m)[i as int] == s@[at + i]);
            }
            return false;
        }
        i += 1;
    }
    proof {
        assert(s@.subrange(at as int, at + m) =~= pattern@);
    }
    true
}

/// The least index at or after `from` where `pattern` occurs in `s`, or the
/// length of `s` when it occurs nowhere from there on.
pub fn find(s: &Vec<char>, pattern: &Vec<char>, from: usize) -> (at: usize)
    requires
        from <= s@.len(),
    ensures
        at == find_from(s@, pattern@, from as int),
        from <= at <= s@.len(),
{
    let n = s.len();
    let mut i: usize = from;
    while i < n
        invariant
            from <= i <= n,
            n == s@.len(),
            find_from(s@, pattern@, from as int) == find_from(s@, pattern@, i as int),
        decreases n - i,
    {
        if matches_at(s, pattern, i) {
            return i;
        }
        i += 1;
    }
    i
}

/// An occurrence in a suffix is an occurrence in the whole text, moved by
/// the length of what was cut off.
pub proof fn lemma_occurs_in_suffix(s: Seq<char>, pattern: Seq<char>, start: int, at: int)
    requires
        0 <= start <= s.len(),
        0 <= at,
    ensures
        occurs_at(s.subrange(start, s.len() as int), pattern, at) <==> occurs_at(
            s,
            pattern,
            start + at,
        ),
{
    let suffix = s.subrange(start, s.len() as int);
    if at + pattern.len() <= suffix.len() {
        assert(suffix.subrange(at, at + pattern.len()) =~= s.subrange(
            start + at,
            start + at + pattern.len(),
        ));
    }
}

/// Searching a suffix finds what searching the whole text from the cut finds.
pub proof fn lemma_find_in_suffix(s: Seq<char>, pattern: Seq<char>, start: int, from: int)
    requires
        0 <= start <= s.len(),
        0 <= from <= s.len() - start,
    ensures
        find_from(s.subrange(start, s.len() as int), pattern, from) + start == find_from(
            s,
            pattern,
            start + from,
        ),
    decreases s.len() - start - from,
{
    if from < s.len() - start {
        lemma_occurs_in_suffix(s, pattern, start, from);
        lemma_find_in_suffix(s, pattern, start, from + 1);
    }
}

/// The index of the first text of `list` equal to `text`, if there is one.
pub fn position_of(list: &[String], text: &String) -> (found: Option<usize>)
    ensures
        match found {
            Some(i) => i < list@.len() && list@[i as int]@ == text@ && forall|j: int|
                0 <= j < i ==> (#[trigger] list@[j])@ != text@,
            None => forall|j: int| 0 <= j < list@.len() ==> (#[trigger] list@[j])@ != text@,
        },
{
    let mut i: usize = 0;
    while i < list.len()
        invariant
            i <= list@.len(),
            forall|j: int| 0 <= j < i ==> (#[trigger] list@[j])@ != text@,
        decreases list@.len() - i,
    {
        if list[i] == *text {
            return Some(i);
        }
        i += 1;
    }
    None
}

/// `true` when `list` holds a text equal to `text`.
pub fn holds(list: &[String], text: &String) -> (found: bool)
    ensures
        found == list.deep_view().contains(text@),
{
    match position_of(list, text) {
        Some(i) => {
            proof {
                assert(list.deep_view()[i as int] == text@);
            }
            true
        },
        None => {
            proof {
                if list.deep_view().contains(text@) {
                    let j = choose|j: int|
                        0 <= j < list.deep_view().len() && list.deep_view()[j] == text@;
                    assert(list@[j]@ == text@);
                }
            }
            false
        },
    }
}

/// Splits `s` at each occurrence of `separator`: see [`split`]. With an
/// empty separator the text stays whole.
pub fn split_text(s: &str, separator: &str) -> (parts: Vec<String>)
    ensures
        parts.deep_view() == split(s@, separator@),
{
    let chars = chars_of(s);
    let pattern = chars_of(separator);
    let n = chars.len();
    let m = pattern.len();
    let mut parts: Vec<String> = Vec::new();
    if m == 0 {
        parts.push(s.to_owned());
        proof {
            assert(parts.deep_view() =~= seq![s@]);
        }
        return parts;
    }
    let mut start: usize = 0;
    proof {
        assert(s@.subrange(0, n as int) =~= s@);
        assert(parts.deep_view() + split(s@, separator@) =~= split(s@, separator@));
    }
    loop
        invariant
            start <= n,
            n == chars@.len(),
            m == pattern@.len(),
            m > 0,
            chars@ == s@,
            pattern@ == separator@,
            parts.deep_view() + split(s@.subrange(start as int, n as int), separator@) == split(
                s@,
                separator@,
            ),
        decreases n - start,
    {
        let at = find(&chars, &pattern, start);
        let ghost suffix = s@.subrange(start as int, n as int);
        let ghost before = parts.deep_view();
        proof {
            lemma_find_in_suffix(s@, separator@, start as int, 0);
            lemma_find_from_bounds(s@, separator@, start as int);
            lemma_occurs_in_suffix(s@, separator@, start as int, at - start);
        }
        if at >= n {
            parts.push(s.substring_char(start, n).to_owned());
            proof {
                assert(split(suffix, separator@) == seq![suffix]);
                assert(parts.deep_view() =~= before + seq![suffix]);
            }
            return parts;
        }
        parts.push(s.substring_char(start, at).to_owned());
        proof {
            let rest = suffix.subrange(at - start + m, suffix.len() as int);
            assert(rest =~= s@.subrange(at + m, n as int));
            assert(suffix.subrange(0, at - start) =~= s@.subrange(start as int, at as int));
            assert(split(suffix, separator@) == seq![suffix.subrange(0, at - start)] + split(
                rest,
                separator@,
            ));
            assert(parts.deep_view() =~= before + seq![suffix.subrange(0, at - start)]);
            assert(parts.deep_view() + split(rest, separator@) =~= before + split(
                suffix,
                separator@,
            ));
        }
        start = at + m;
    }
}

/// `true` when the two texts are the same.
pub fn same_text(a: &str, b: &str) -> (same: bool)
    ensures
        same == (a@ == b@),
{
    a.to_owned() == b.to_owned()
}

/// `true` when `s` begins with `prefix`: see [`has_prefix`].
pub fn starts_with(s: &str, prefix: &str) -> (yes: bool)
    ensures
        yes == has_prefix(s@, prefix@),
{
    let chars = chars_of(s);
    let pattern = chars_of(prefix);
    matches_at(&chars, &pattern, 0)
}

/// `true` when `s` ends with `suffix`: see [`has_suffix`].
pub fn ends_with(s: &str, suffix: &str) -> (yes: bool)
    ensures
        yes == has_suffix(s@, suffix@),
{
    let chars = chars_of(s);
    let pattern = chars_of(suffix);
    if pattern.len() > chars.len() {
        return false;
    }
    matches_at(&chars, &pattern, chars.len() - pattern.len())
}

/// The part of `s` before the first occurrence of `separator` and the part
/// after it, or `None` where the separator is empty or occurs nowhere.
pub open spec fn split_first(s: Seq<char>, separator: Seq<char>) -> Option<(Seq<char>, Seq<char>)> {
    let at = find_from(s, separator, 0);
    if separator.len() == 0 || !occurs_at(s, separator, at) {
        None
    } else {
        Some((s.subrange(0, at), s.subrange(at + separator.len(), s.len() as int)))
    }
}

/// Parts `s` at the first occurrence of `separator`: see [`split_first`].
pub fn split_once(s: &str, separator: &str) -> (parts: Option<(String, String)>)
    ensures
        parts.deep_view() == split_first(s@, separator@),
{
    let chars = chars_of(s);
    let pattern = chars_of(separator);
    if pattern.len() == 0 {
        return None;
    }
    let at = find(&chars, &pattern, 0);
    proof {
        lemma_find_from_bounds(s@, separator@, 0);
    }
    if at >= chars.len() {
        return None;
    }
    let head = s.substring_char(0, at).to_owned();
    let tail = s.substring_char(at + pattern.len(), chars.len()).to_owned();
    Some((head, tail))
}

/// A copy of a list of texts.
pub fn copy_texts(list: &[String]) -> (copy: Vec<String>)
    ensures
        copy.deep_view() == list.deep_view(),
{
    let mut copy: Vec<String> = Vec::new();
    let mut i: usize = 0;
    while i < list.len()
        invariant
            i <= list@.len(),
            copy@.len() == i,
            forall|j: int| 0 <= j < i ==> (#[trigger] copy@[j])@ == list@[j]@,
        decreases list@.len() - i,
    {
        copy.push(list[i].clone());
        i += 1;
    }
    proof {
        assert(copy.deep_view() =~= list.deep_view());
    }
    copy
}

} // verus!
