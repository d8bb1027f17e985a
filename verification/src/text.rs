//! Character-level text primitives: whitespace, trimming, searching, line
//! splitting and UTF-8 byte lengths, each with a specification over `Seq<char>`.
use vstd::prelude::*;
use vstd::slice::slice_subrange;
use vstd::slice::slice_to_vec;

verus! {

// ---------------------------------------------------------------------------
// Conversions between `str`/`String` and character vectors
// ---------------------------------------------------------------------------

/// The characters of a string slice, in order.
pub fn chars_of(s: &str) -> (v: Vec<char>)
    ensures
        v@ == s@,
{
    let mut v: Vec<char> = Vec::new();
    for c in it: s.chars()
        invariant
            v@ == it.seq().take(it.index() as int),
    {
        v.push(c);
    }
    v
}

/// `String::from_iter` over characters (`String: FromIterator<&char>`): the
/// string holds exactly the given characters, in order.
#[verifier::external_body]
pub fn string_from_chars(v: &[char]) -> (s: String)
    ensures
        s@ == v@,
{
    String::from_iter(v)
}

/// `char::is_alphanumeric`: whether `c` has the Unicode `Alphabetic` or
/// `Numeric` property.
pub uninterp spec fn char_is_alphanumeric(c: char) -> bool;

/// `char::is_alphanumeric`; its result is named `char_is_alphanumeric`.
#[verifier::external_body]
pub(crate) fn is_alphanumeric(c: char) -> (r: bool)
    ensures
        r == char_is_alphanumeric(c),
{
    c.is_alphanumeric()
}

/// `str::to_lowercase`: the Unicode lowercase mapping of a text.
pub uninterp spec fn lowercase(s: Seq<char>) -> Seq<char>;

/// Whether every character of `s` is ASCII.
pub open spec fn all_ascii(s: Seq<char>) -> bool {
    forall|i: int| 0 <= i < s.len() ==> (#[trigger] s[i] as u32) < 0x80
}

/// The ASCII lowercase of a character: `A`..`Z` become `a`..`z`, every other
/// character stays.
pub open spec fn ascii_lower(c: char) -> char {
    if 'A' <= c && c <= 'Z' {
        ((c as u32) + 32) as char
    } else {
        c
    }
}

/// The ASCII lowercase of a text, character by character.
pub open spec fn ascii_lowercase(s: Seq<char>) -> Seq<char> {
    s.map_values(|c: char| ascii_lower(c))
}

/// `str::to_lowercase`; its result is named `lowercase`. On ASCII text the
/// mapping lowers `A`..`Z` and keeps every other character, one for one, as
/// the Unicode lowercase mapping does on that range.
#[verifier::external_body]
pub(crate) fn to_lowercase(s: &str) -> (r: String)
    ensures
        r@ == lowercase(s@),
        all_ascii(s@) ==> r@ == ascii_lowercase(s@),
{
    s.to_lowercase()
}

// ---------------------------------------------------------------------------
// Whitespace (`char::is_whitespace`: the Unicode `White_Space` property)
// ---------------------------------------------------------------------------

pub open spec fn is_ws(c: char) -> bool {
    ||| ('\u{9}' <= c && c <= '\u{d}')
    ||| c == ' '
    ||| c == '\u{85}'
    ||| c == '\u{a0}'
    ||| c == '\u{1680}'
    ||| ('\u{2000}' <= c && c <= '\u{200a}')
    ||| c == '\u{2028}'
    ||| c == '\u{2029}'
    ||| c == '\u{202f}'
    ||| c == '\u{205f}'
    ||| c == '\u{3000}'
}

pub fn is_whitespace(c: char) -> (r: bool)
    ensures
        r == is_ws(c),
{
    ('\u{9}' <= c && c <= '\u{d}') || c == ' ' || c == '\u{85}' || c == '\u{a0}' || c
        == '\u{1680}' || ('\u{2000}' <= c && c <= '\u{200a}') || c == '\u{2028}' || c
        == '\u{2029}' || c == '\u{202f}' || c == '\u{205f}' || c == '\u{3000}'
}

/// `s` without its leading whitespace (`str::trim_start`).
pub open spec fn trim_start(s: Seq<char>) -> Seq<char>
    decreases s.len(),
{
    if s.len() > 0 && is_ws(s[0]) {
        trim_start(s.drop_first())
    } else {
        s
    }
}

/// `s` without its trailing whitespace (`str::trim_end`).
pub open spec fn trim_end(s: Seq<char>) -> Seq<char>
    decreases s.len(),
{
    if s.len() > 0 && is_ws(s.last()) {
        trim_end(s.drop_last())
    } else {
        s
    }
}

/// `s` without leading and trailing whitespace (`str::trim`).
pub open spec fn trim(s: Seq<char>) -> Seq<char> {
    trim_end(trim_start(s))
}

/// `s` without leading characters that belong to `set` (`trim_start_matches`).
pub open spec fn strip_start(s: Seq<char>, set: Seq<char>) -> Seq<char>
    decreases s.len(),
{
    if s.len() > 0 && set.contains(s[0]) {
        strip_start(s.drop_first(), set)
    } else {
        s
    }
}

/// `s` without trailing characters that belong to `set` (`trim_end_matches`).
pub open spec fn strip_end(s: Seq<char>, set: Seq<char>) -> Seq<char>
    decreases s.len(),
{
    if s.len() > 0 && set.contains(s.last()) {
        strip_end(s.drop_last(), set)
    } else {
        s
    }
}

/// `s` without leading and trailing characters of `set` (`trim_matches`).
pub open spec fn strip_both(s: Seq<char>, set: Seq<char>) -> Seq<char> {
    strip_end(strip_start(s, set), set)
}

/// The two TOML quote characters.
pub open spec fn quote_chars() -> Seq<char> {
    seq!['"', '\'']
}

proof fn lemma_trim_start_step(s: Seq<char>, i: int)
    requires
        0 <= i < s.len(),
        is_ws(s[i]),
    ensures
        trim_start(s.subrange(i, s.len() as int)) == trim_start(s.subrange(i + 1, s.len() as int)),
{
    assert(s.subrange(i, s.len() as int).drop_first() =~= s.subrange(i + 1, s.len() as int));
}

proof fn lemma_strip_start_step(s: Seq<char>, set: Seq<char>, i: int)
    requires
        0 <= i < s.len(),
        set.contains(s[i]),
    ensures
        strip_start(s.subrange(i, s.len() as int), set) == strip_start(
            s.subrange(i + 1, s.len() as int),
            set,
        ),
{
    assert(s.subrange(i, s.len() as int).drop_first() =~= s.subrange(i + 1, s.len() as int));
}

/// Index of the first character of `s` that is not whitespace, or `s.len()`.
pub fn trim_start_index(s: &[char]) -> (i: usize)
    ensures
        i <= s@.len(),
        trim_start(s@) == s@.subrange(i as int, s@.len() as int),
{
    let mut i: usize = 0;
    assert(s@.subrange(0, s@.len() as int) =~= s@);
    while i < s.len() && is_whitespace(s[i])
        invariant
            i <= s@.len(),
            trim_start(s@) == trim_start(s@.subrange(i as int, s@.len() as int)),
        decreases s@.len() - i,
    {
        proof {
            lemma_trim_start_step(s@, i as int);
        }
        i = i + 1;
    }
    i
}

/// One past the index of the last character of `s` that is not whitespace, or 0.
pub fn trim_end_index(s: &[char]) -> (j: usize)
    ensures
        j <= s@.len(),
        trim_end(s@) == s@.subrange(0, j as int),
{
    let mut j: usize = s.len();
    assert(s@.subrange(0, s@.len() as int) =~= s@);
    while j > 0 && is_whitespace(s[j - 1])
        invariant
            j <= s@.len(),
            trim_end(s@) == trim_end(s@.subrange(0, j as int)),
        decreases j,
    {
        assert(s@.subrange(0, j as int).drop_last() =~= s@.subrange(0, j - 1));
        j = j - 1;
    }
    j
}

/// Bounds `(a, b)` such that `s[a..b]` is `s` trimmed of whitespace on both ends.
pub fn trim_bounds(s: &[char]) -> (r: (usize, usize))
    ensures
        r.0 <= r.1 <= s@.len(),
        trim(s@) == s@.subrange(r.0 as int, r.1 as int),
{
    let a = trim_start_index(s);
    let rest = slice_subrange(s, a, s.len());
    let b = trim_end_index(rest);
    assert(rest@.subrange(0, b as int) =~= s@.subrange(a as int, a + b));
    (a, a + b)
}

/// `s` trimmed of whitespace on both ends, as a new vector.
pub fn trimmed(s: &[char]) -> (r: Vec<char>)
    ensures
        r@ == trim(s@),
{
    let (a, b) = trim_bounds(s);
    slice_to_vec(slice_subrange(s, a, b))
}

/// `s` without leading whitespace, as a new vector.
pub fn trimmed_start(s: &[char]) -> (r: Vec<char>)
    ensures
        r@ == trim_start(s@),
{
    let a = trim_start_index(s);
    slice_to_vec(slice_subrange(s, a, s.len()))
}

/// `s` without trailing whitespace, as a new vector.
pub fn trimmed_end(s: &[char]) -> (r: Vec<char>)
    ensures
        r@ == trim_end(s@),
{
    let b = trim_end_index(s);
    slice_to_vec(slice_subrange(s, 0, b))
}

fn set_contains(set: &[char], c: char) -> (r: bool)
    ensures
        r == set@.contains(c),
{
    let mut k: usize = 0;
    while k < set.len()
        invariant
            k <= set@.len(),
            forall|j: int| 0 <= j < k ==> set@[j] != c,
        decreases set@.len() - k,
    {
        if set[k] == c {
            return true;
        }
        k = k + 1;
    }
    false
}

/// `s` with leading characters of `set` removed.
pub fn stripped_start(s: &[char], set: &[char]) -> (r: Vec<char>)
    ensures
        r@ == strip_start(s@, set@),
{
    let mut i: usize = 0;
    assert(s@.subrange(0, s@.len() as int) =~= s@);
    while i < s.len() && set_contains(set, s[i])
        invariant
            i <= s@.len(),
            strip_start(s@, set@) == strip_start(s@.subrange(i as int, s@.len() as int), set@),
        decreases s@.len() - i,
    {
        proof {
            lemma_strip_start_step(s@, set@, i as int);
        }
        i = i + 1;
    }
    slice_to_vec(slice_subrange(s, i, s.len()))
}

/// `s` with trailing characters of `set` removed.
pub fn stripped_end(s: &[char], set: &[char]) -> (r: Vec<char>)
    ensures
        r@ == strip_end(s@, set@),
{
    let mut j: usize = s.len();
    assert(s@.subrange(0, s@.len() as int) =~= s@);
    while j > 0 && set_contains(set, s[j - 1])
        invariant
            j <= s@.len(),
            strip_end(s@, set@) == strip_end(s@.subrange(0, j as int), set@),
        decreases j,
    {
        assert(s@.subrange(0, j as int).drop_last() =~= s@.subrange(0, j - 1));
        j = j - 1;
    }
    slice_to_vec(slice_subrange(s, 0, j))
}

/// `s` with characters of `set` removed from both ends.
pub fn stripped_both(s: &[char], set: &[char]) -> (r: Vec<char>)
    ensures
        r@ == strip_both(s@, set@),
{
    let a = stripped_start(s, set);
    stripped_end(a.as_slice(), set)
}

/// `s` with the TOML quote characters `"` and `'` removed from both ends.
pub fn strip_quotes(s: &[char]) -> (r: Vec<char>)
    ensures
        r@ == strip_both(s@, quote_chars()),
{
    let q = vec!['"', '\''];
    assert(q@ =~= quote_chars());
    stripped_both(s, q.as_slice())
}

// ---------------------------------------------------------------------------
// Searching
// ---------------------------------------------------------------------------

/// First index `>= i` at which `c` occurs in `s` (`str::find` from `i`).
pub open spec fn find_char_from(s: Seq<char>, c: char, i: int) -> Option<int>
    decreases s.len() - i,
{
    if i < 0 || i >= s.len() {
        None
    } else if s[i] == c {
        Some(i)
    } else {
        find_char_from(s, c, i + 1)
    }
}

/// First index at which `c` occurs in `s` (`str::find` with a `char`).
pub open spec fn find_char(s: Seq<char>, c: char) -> Option<int> {
    find_char_from(s, c, 0)
}

/// Last index `< i` at which `c` occurs in `s`.
pub open spec fn rfind_char_before(s: Seq<char>, c: char, i: int) -> Option<int>
    decreases i,
{
    if i <= 0 || i > s.len() {
        None
    } else if s[i - 1] == c {
        Some(i - 1)
    } else {
        rfind_char_before(s, c, i - 1)
    }
}

/// Last index at which `c` occurs in `s` (`str::rfind` with a `char`).
pub open spec fn rfind_char(s: Seq<char>, c: char) -> Option<int> {
    rfind_char_before(s, c, s.len() as int)
}

/// Whether `pat` occurs in `s` starting at index `i`.
pub open spec fn occurs_at(s: Seq<char>, pat: Seq<char>, i: int) -> bool {
    0 <= i && i + pat.len() <= s.len() && s.subrange(i, i + pat.len()) == pat
}

/// First index `>= i` at which `pat` occurs in `s`.
pub open spec fn find_seq_from(s: Seq<char>, pat: Seq<char>, i: int) -> Option<int>
    decreases s.len() + 1 - i,
{
    if i < 0 || i + pat.len() > s.len() {
        None
    } else if occurs_at(s, pat, i) {
        Some(i)
    } else {
        find_seq_from(s, pat, i + 1)
    }
}

/// First index at which `pat` occurs in `s` (`str::find` with a `&str`).
pub open spec fn find_seq(s: Seq<char>, pat: Seq<char>) -> Option<int> {
    find_seq_from(s, pat, 0)
}

/// Whether `pat` occurs in `s` (`str::contains` with a `&str`).
pub open spec fn contains_seq(s: Seq<char>, pat: Seq<char>) -> bool {
    find_seq(s, pat) is Some
}

/// Whether `s` starts with `pat` (`str::starts_with`).
pub open spec fn starts_with(s: Seq<char>, pat: Seq<char>) -> bool {
    pat.len() <= s.len() && s.subrange(0, pat.len() as int) == pat
}

pub proof fn lemma_find_char_from_none(s: Seq<char>, c: char, i: int)
    requires
        0 <= i <= s.len(),
        find_char_from(s, c, i) is None,
    ensures
        forall|j: int| i <= j < s.len() ==> s[j] != c,
    decreases s.len() - i,
{
    if i < s.len() {
        lemma_find_char_from_none(s, c, i + 1);
    }
}

pub proof fn lemma_find_char_from_some(s: Seq<char>, c: char, i: int)
    requires
        0 <= i <= s.len(),
        find_char_from(s, c, i) is Some,
    ensures
        i <= find_char_from(s, c, i)->0 < s.len(),
        s[find_char_from(s, c, i)->0] == c,
        forall|j: int| i <= j < find_char_from(s, c, i)->0 ==> s[j] != c,
    decreases s.len() - i,
{
    if i < s.len() && s[i] != c {
        lemma_find_char_from_some(s, c, i + 1);
    }
}

/// Whether `c` occurs in `s` (`str::contains` with a `char`).
pub open spec fn contains_char(s: Seq<char>, c: char) -> bool {
    find_char(s, c) is Some
}

/// `find_char_from(s, c, i)`, computed.
pub fn find_char_in(s: &[char], c: char, i: usize) -> (r: Option<usize>)
    ensures
        r matches Some(k) ==> find_char_from(s@, c, i as int) == Some(k as int),
        r is None ==> find_char_from(s@, c, i as int) is None,
{
    let mut k: usize = i;
    if k > s.len() {
        return None;
    }
    while k < s.len()
        invariant
            i <= k <= s@.len(),
            find_char_from(s@, c, i as int) == find_char_from(s@, c, k as int),
        decreases s@.len() - k,
    {
        if s[k] == c {
            return Some(k);
        }
        k = k + 1;
    }
    None
}

/// `find_char(s, c)`, computed.
pub fn find_char_exec(s: &[char], c: char) -> (r: Option<usize>)
    ensures
        r matches Some(k) ==> find_char(s@, c) == Some(k as int),
        r is None ==> find_char(s@, c) is None,
{
    find_char_in(s, c, 0)
}

/// `rfind_char(s, c)`, computed.
pub fn rfind_char_exec(s: &[char], c: char) -> (r: Option<usize>)
    ensures
        r matches Some(k) ==> rfind_char(s@, c) == Some(k as int),
        r is None ==> rfind_char(s@, c) is None,
{
    let mut k: usize = s.len();
    while k > 0
        invariant
            k <= s@.len(),
            rfind_char(s@, c) == rfind_char_before(s@, c, k as int),
        decreases k,
    {
        if s[k - 1] == c {
            return Some(k - 1);
        }
        k = k - 1;
    }
    None
}

/// Whether `pat` occurs in `s` at index `i`, computed.
pub fn occurs_at_exec(s: &[char], pat: &[char], i: usize) -> (r: bool)
    ensures
        r == occurs_at(s@, pat@, i as int),
{
    if i > s.len() || pat.len() > s.len() - i {
        return false;
    }
    let mut k: usize = 0;
    while k < pat.len()
        invariant
            s@.len() <= usize::MAX,
            i + pat@.len() <= s@.len(),
            k <= pat@.len(),
            forall|j: int| 0 <= j < k ==> s@[i + j] == pat@[j],
        decreases pat@.len() - k,
    {
        if s[i + k] != pat[k] {
            assert(s@.subrange(i as int, i + pat@.len())[k as int] != pat@[k as int]);
            return false;
        }
        k = k + 1;
    }
    assert(s@.subrange(i as int, i + pat@.len()) =~= pat@);
    true
}

/// `find_seq(s, pat)`, computed.
pub fn find_seq_exec(s: &[char], pat: &[char]) -> (r: Option<usize>)
    ensures
        r matches Some(k) ==> find_seq(s@, pat@) == Some(k as int),
        r is None ==> find_seq(s@, pat@) is None,
{
    if pat.len() > s.len() {
        return None;
    }
    let limit = s.len() - pat.len();
    let mut k: usize = 0;
    loop
        invariant
            limit == s@.len() - pat@.len(),
            k <= limit,
            find_seq(s@, pat@) == find_seq_from(s@, pat@, k as int),
        decreases limit - k,
    {
        if occurs_at_exec(s, pat, k) {
            return Some(k);
        }
        if k == limit {
            assert(find_seq_from(s@, pat@, k + 1) is None);
            return None;
        }
        k = k + 1;
    }
}

/// `starts_with(s, pat)`, computed.
pub fn starts_with_exec(s: &[char], pat: &[char]) -> (r: bool)
    ensures
        r == starts_with(s@, pat@),
{
    occurs_at_exec(s, pat, 0)
}

/// `contains_seq(s, pat)`, computed.
pub fn contains_seq_exec(s: &[char], pat: &[char]) -> (r: bool)
    ensures
        r == contains_seq(s@, pat@),
{
    find_seq_exec(s, pat).is_some()
}

/// `contains_char(s, c)`, computed.
pub fn contains_char_exec(s: &[char], c: char) -> (r: bool)
    ensures
        r == contains_char(s@, c),
{
    find_char_exec(s, c).is_some()
}

/// Whether two character sequences are equal, computed.
pub fn chars_eq(a: &[char], b: &[char]) -> (r: bool)
    ensures
        r == (a@ == b@),
{
    if a.len() != b.len() {
        return false;
    }
    let r = occurs_at_exec(a, b, 0);
    proof {
        if r {
            assert(a@ =~= a@.subrange(0, b@.len() as int));
        } else {
            if a@ == b@ {
                assert(a@.subrange(0, b@.len() as int) =~= b@);
            }
        }
    }
    r
}

// ---------------------------------------------------------------------------
// Lines (`str::lines`)
// ---------------------------------------------------------------------------

/// `s` without one trailing `'\r'`, if it has one.
pub open spec fn strip_cr(s: Seq<char>) -> Seq<char> {
    if s.len() > 0 && s.last() == '\r' {
        s.drop_last()
    } else {
        s
    }
}

/// The lines of `s` from index `i` on: split at each `'\n'`, a `'\r'`
/// directly before the `'\n'` dropped, no empty line after a final `'\n'`.
pub open spec fn lines_from(s: Seq<char>, i: int) -> Seq<Seq<char>>
    decreases s.len() - i,
{
    if i < 0 || i >= s.len() {
        seq![]
    } else {
        match find_char_from(s, '\n', i) {
            None => seq![s.subrange(i, s.len() as int)],
            Some(j) => if i <= j < s.len() {
                seq![strip_cr(s.subrange(i, j))] + lines_from(s, j + 1)
            } else {
                seq![]
            },
        }
    }
}

/// The lines of `s`, as `str::lines` yields them.
pub open spec fn lines_of(s: Seq<char>) -> Seq<Seq<char>> {
    lines_from(s, 0)
}

/// The views of a sequence of character vectors.
pub open spec fn views(v: Seq<Vec<char>>) -> Seq<Seq<char>> {
    v.map_values(|x: Vec<char>| x@)
}

pub proof fn lemma_find_char_from_ge(s: Seq<char>, c: char, i: int)
    requires
        0 <= i,
    ensures
        find_char_from(s, c, i) matches Some(j) ==> i <= j < s.len() && s[j] == c,
    decreases s.len() - i,
{
    if i < s.len() && s[i] != c {
        lemma_find_char_from_ge(s, c, i + 1);
    }
}

/// Splits a character sequence into lines, as `str::lines` does.
pub fn split_lines(s: &[char]) -> (r: Vec<Vec<char>>)
    ensures
        views(r@) == lines_of(s@),
{
    let mut r: Vec<Vec<char>> = Vec::new();
    let mut i: usize = 0;
    while i < s.len()
        invariant
            i <= s@.len(),
            lines_of(s@) == views(r@) + lines_from(s@, i as int),
        decreases s@.len() - i,
    {
        let ghost before = views(r@);
        proof {
            lemma_find_char_from_ge(s@, '\n', i as int);
        }
        match find_char_in(s, '\n', i) {
            None => {
                r.push(slice_to_vec(slice_subrange(s, i, s.len())));
                assert(views(r@) =~= before + lines_from(s@, i as int));
                assert(lines_from(s@, s@.len() as int) =~= Seq::<Seq<char>>::empty());
                i = s.len();
            },
            Some(j) => {
                let mut end = j;
                if end > i && s[end - 1] == '\r' {
                    end = end - 1;
                }
                assert(s@.subrange(i as int, end as int) =~= strip_cr(s@.subrange(i as int, j as int)));
                r.push(slice_to_vec(slice_subrange(s, i, end)));
                assert(views(r@) =~= before + seq![strip_cr(s@.subrange(i as int, j as int))]);
                i = j + 1;
            },
        }
    }
    assert(lines_from(s@, i as int) =~= Seq::<Seq<char>>::empty());
    r
}

// ---------------------------------------------------------------------------
// UTF-8 byte lengths (`char::len_utf8`, `str::len`)
// ---------------------------------------------------------------------------

/// The number of bytes of the UTF-8 encoding of `c` (`char::len_utf8`).
pub open spec fn char_width(c: char) -> nat {
    if (c as u32) < 0x80 {
        1
    } else if (c as u32) < 0x800 {
        2
    } else if (c as u32) < 0x10000 {
        3
    } else {
        4
    }
}

/// The number of bytes of the UTF-8 encoding of `s` (`str::len`).
pub open spec fn utf8_len(s: Seq<char>) -> nat
    decreases s.len(),
{
    if s.len() == 0 {
        0
    } else {
        char_width(s[0]) + utf8_len(s.drop_first())
    }
}

pub fn char_len_utf8(c: char) -> (n: usize)
    ensures
        n == char_width(c),
{
    let u = c as u32;
    if u < 0x80 {
        1
    } else if u < 0x800 {
        2
    } else if u < 0x10000 {
        3
    } else {
        4
    }
}

pub proof fn lemma_utf8_len_concat(a: Seq<char>, b: Seq<char>)
    ensures
        utf8_len(a + b) == utf8_len(a) + utf8_len(b),
    decreases a.len(),
{
    if a.len() == 0 {
        assert(a + b =~= b);
    } else {
        assert((a + b).drop_first() =~= a.drop_first() + b);
        lemma_utf8_len_concat(a.drop_first(), b);
    }
}

/// Adding one character to a prefix adds that character's width.
pub proof fn lemma_utf8_len_take_step(s: Seq<char>, k: int)
    requires
        0 <= k < s.len(),
    ensures
        utf8_len(s.take(k + 1)) == utf8_len(s.take(k)) + char_width(s[k]),
{
    assert(s.take(k + 1) =~= s.take(k) + seq![s[k]]);
    lemma_utf8_len_concat(s.take(k), seq![s[k]]);
    assert(seq![s[k]].drop_first() =~= Seq::<char>::empty());
    assert(utf8_len(seq![s[k]]) == char_width(s[k]) + utf8_len(Seq::<char>::empty()));
}

/// A prefix is never longer, in bytes, than the whole.
pub proof fn lemma_utf8_len_take_le(s: Seq<char>, k: int)
    requires
        0 <= k <= s.len(),
    ensures
        utf8_len(s.take(k)) <= utf8_len(s),
{
    assert(s =~= s.take(k) + s.skip(k));
    lemma_utf8_len_concat(s.take(k), s.skip(k));
}

/// Longer prefixes have strictly more bytes.
pub proof fn lemma_utf8_len_take_mono(s: Seq<char>, j: int, k: int)
    requires
        0 <= j <= k <= s.len(),
    ensures
        utf8_len(s.take(j)) <= utf8_len(s.take(k)),
        j < k ==> utf8_len(s.take(j)) < utf8_len(s.take(k)),
    decreases k - j,
{
    if j < k {
        lemma_utf8_len_take_mono(s, j, k - 1);
        lemma_utf8_len_take_step(s, k - 1);
    }
}

/// `utf8_len` is the length of vstd's UTF-8 encoding.
pub proof fn lemma_utf8_len_encode(s: Seq<char>)
    ensures
        utf8_len(s) == vstd::utf8::encode_utf8(s).len(),
    decreases s.len(),
{
    if s.len() > 0 {
        lemma_utf8_len_encode(s.drop_first());
        let u = s[0] as u32;
        vstd::utf8::char_is_scalar(s[0]);
    }
}

/// The number of bytes of the UTF-8 encoding of `s` (what `str::len` gives).
pub fn str_utf8_len(s: &str) -> (n: usize)
    ensures
        n == utf8_len(s@),
{
    proof {
        lemma_utf8_len_encode(s@);
    }
    s.as_bytes().len()
}

} // verus!

verus! {

/// First index `>= i` at which a character of `set` occurs in `s`.
pub open spec fn find_in_set_from(s: Seq<char>, set: Seq<char>, i: int) -> Option<int>
    decreases s.len() - i,
{
    if i < 0 || i >= s.len() {
        None
    } else if set.contains(s[i]) {
        Some(i)
    } else {
        find_in_set_from(s, set, i + 1)
    }
}

/// `find_in_set_from(s, set, i)`, computed.
pub fn find_in_set_in(s: &[char], set: &[char], i: usize) -> (r: Option<usize>)
    ensures
        r matches Some(k) ==> find_in_set_from(s@, set@, i as int) == Some(k as int),
        r is None ==> find_in_set_from(s@, set@, i as int) is None,
{
    let mut k: usize = i;
    if k > s.len() {
        return None;
    }
    while k < s.len()
        invariant
            i <= k <= s@.len(),
            find_in_set_from(s@, set@, i as int) == find_in_set_from(s@, set@, k as int),
        decreases s@.len() - k,
    {
        if set_contains(set, s[k]) {
            return Some(k);
        }
        k = k + 1;
    }
    None
}

pub proof fn lemma_find_in_set_from_ge(s: Seq<char>, set: Seq<char>, i: int)
    requires
        0 <= i,
    ensures
        find_in_set_from(s, set, i) matches Some(j) ==> i <= j < s.len() && set.contains(s[j]),
    decreases s.len() - i,
{
    if i < s.len() && !set.contains(s[i]) {
        lemma_find_in_set_from_ge(s, set, i + 1);
    }
}

/// Every line of `lines_from(s, i)` is no longer than `s`.
pub proof fn lemma_lines_from_len(s: Seq<char>, i: int)
    ensures
        forall|k: int| 0 <= k < lines_from(s, i).len() ==> #[trigger] lines_from(s, i)[k].len() <= s.len(),
    decreases s.len() - i,
{
    if 0 <= i < s.len() {
        lemma_find_char_from_ge(s, '\n', i);
        match find_char_from(s, '\n', i) {
            None => {},
            Some(j) => {
                if i <= j < s.len() {
                    lemma_lines_from_len(s, j + 1);
                    let rest = lines_from(s, j + 1);
                    let first = strip_cr(s.subrange(i, j));
                    assert forall|k: int| 0 <= k < lines_from(s, i).len() implies #[trigger] lines_from(s, i)[k].len() <= s.len() by {
                        if k > 0 {
                            assert(lines_from(s, i)[k] == rest[k - 1]);
                        }
                    }
                }
            },
        }
    }
}

/// There are no more lines than characters.
pub proof fn lemma_lines_from_count(s: Seq<char>, i: int)
    requires
        0 <= i,
    ensures
        lines_from(s, i).len() <= if i <= s.len() { s.len() - i } else { 0 },
    decreases s.len() - i,
{
    if 0 <= i < s.len() {
        lemma_find_char_from_ge(s, '\n', i);
        match find_char_from(s, '\n', i) {
            None => {},
            Some(j) => {
                if i <= j < s.len() {
                    lemma_lines_from_count(s, j + 1);
                }
            },
        }
    }
}

} // verus!

verus! {

proof fn lemma_find_seq_from_bound(s: Seq<char>, pat: Seq<char>, i: int)
    requires
        0 <= i,
    ensures
        find_seq_from(s, pat, i) matches Some(j) ==> i <= j && j + pat.len() <= s.len()
            && occurs_at(s, pat, j),
    decreases s.len() + 1 - i,
{
    if i + pat.len() <= s.len() && !occurs_at(s, pat, i) {
        lemma_find_seq_from_bound(s, pat, i + 1);
    }
}

/// Where `find_seq` finds `pat`, it occurs.
pub proof fn lemma_find_seq_bound(s: Seq<char>, pat: Seq<char>)
    ensures
        find_seq(s, pat) matches Some(j) ==> 0 <= j && j + pat.len() <= s.len() && occurs_at(
            s,
            pat,
            j,
        ),
{
    lemma_find_seq_from_bound(s, pat, 0);
}

} // verus!

verus! {

/// The total number of characters of a sequence of lines.
pub open spec fn total_len(ls: Seq<Seq<char>>) -> int
    decreases ls.len(),
{
    if ls.len() == 0 {
        0
    } else {
        ls[0].len() + total_len(ls.drop_first())
    }
}

pub proof fn lemma_total_len_concat(a: Seq<Seq<char>>, b: Seq<Seq<char>>)
    ensures
        total_len(a + b) == total_len(a) + total_len(b),
    decreases a.len(),
{
    if a.len() == 0 {
        assert(a + b =~= b);
    } else {
        assert((a + b).drop_first() =~= a.drop_first() + b);
        lemma_total_len_concat(a.drop_first(), b);
    }
}

pub proof fn lemma_total_len_take_step(ls: Seq<Seq<char>>, k: int)
    requires
        0 <= k < ls.len(),
    ensures
        total_len(ls.take(k + 1)) == total_len(ls.take(k)) + ls[k].len(),
{
    assert(ls.take(k + 1) =~= ls.take(k) + seq![ls[k]]);
    lemma_total_len_concat(ls.take(k), seq![ls[k]]);
    assert(seq![ls[k]].drop_first() =~= Seq::<Seq<char>>::empty());
    assert(total_len(seq![ls[k]]) == ls[k].len() + total_len(Seq::<Seq<char>>::empty()));
}

pub proof fn lemma_total_len_nonneg(ls: Seq<Seq<char>>)
    ensures
        total_len(ls) >= 0,
    decreases ls.len(),
{
    if ls.len() > 0 {
        lemma_total_len_nonneg(ls.drop_first());
    }
}

pub proof fn lemma_total_len_take_le(ls: Seq<Seq<char>>, k: int)
    requires
        0 <= k <= ls.len(),
    ensures
        total_len(ls.take(k)) <= total_len(ls),
{
    assert(ls =~= ls.take(k) + ls.skip(k));
    lemma_total_len_concat(ls.take(k), ls.skip(k));
    lemma_total_len_nonneg(ls.skip(k));
}

/// The lines of a text hold no more characters than the text.
pub proof fn lemma_lines_from_total(s: Seq<char>, i: int)
    requires
        0 <= i,
    ensures
        total_len(lines_from(s, i)) <= if i <= s.len() { s.len() - i } else { 0 },
    decreases s.len() - i,
{
    if 0 <= i < s.len() {
        lemma_find_char_from_ge(s, '\n', i);
        match find_char_from(s, '\n', i) {
            None => {
                let x = s.subrange(i, s.len() as int);
                assert(seq![x].drop_first() =~= Seq::<Seq<char>>::empty());
                assert(total_len(seq![x]) == x.len() + total_len(Seq::<Seq<char>>::empty()));
            },
            Some(j) => {
                if i <= j < s.len() {
                    lemma_lines_from_total(s, j + 1);
                    let first = strip_cr(s.subrange(i, j));
                    let rest = lines_from(s, j + 1);
                    assert((seq![first] + rest).drop_first() =~= rest);
                    assert(first.len() <= j - i);
                    assert(total_len(seq![first] + rest) == first.len() + total_len(rest));
                }
            },
        }
    }
}

} // verus!

verus! {

/// Each character takes at most four bytes.
pub proof fn lemma_utf8_len_le(s: Seq<char>)
    ensures
        utf8_len(s) <= 4 * s.len(),
    decreases s.len(),
{
    if s.len() > 0 {
        lemma_utf8_len_le(s.drop_first());
    }
}

/// `utf8_len(s)`, computed.
pub fn utf8_len_exec(s: &[char]) -> (n: u128)
    ensures
        n == utf8_len(s@),
        n <= 4 * s@.len(),
        s@.len() <= usize::MAX,
{
    let len = s.len();
    let mut k: usize = 0;
    let mut acc: u128 = 0;
    assert(s@.take(0) =~= Seq::<char>::empty());
    while k < len
        invariant
            len == s@.len(),
            k <= len,
            acc == utf8_len(s@.take(k as int)),
            acc <= 4 * k,
        decreases len - k,
    {
        proof {
            lemma_utf8_len_take_step(s@, k as int);
        }
        acc = acc + char_len_utf8(s[k]) as u128;
        k = k + 1;
    }
    assert(s@.take(len as int) =~= s@);
    acc
}

} // verus!

verus! {

pub proof fn lemma_rfind_char_before_bound(s: Seq<char>, c: char, i: int)
    ensures
        rfind_char_before(s, c, i) matches Some(j) ==> 0 <= j < i && j < s.len() && s[j] == c,
    decreases i,
{
    if 0 < i <= s.len() && s[i - 1] != c {
        lemma_rfind_char_before_bound(s, c, i - 1);
    }
}

/// Where `rfind_char` finds `c`, it stands.
pub proof fn lemma_rfind_char_bound(s: Seq<char>, c: char)
    ensures
        rfind_char(s, c) matches Some(j) ==> 0 <= j < s.len() && s[j] == c,
{
    lemma_rfind_char_before_bound(s, c, s.len() as int);
}

} // verus!

verus! {

/// Append the characters of `s` to `v`.
pub fn push_str(v: &mut Vec<char>, s: &str)
    ensures
        final(v)@ == old(v)@ + s@,
{
    let mut w = chars_of(s);
    v.append(&mut w);
}

/// Append the characters `s` to `v`.
pub fn push_chars(v: &mut Vec<char>, s: &[char])
    ensures
        final(v)@ == old(v)@ + s@,
{
    let mut w = slice_to_vec(s);
    v.append(&mut w);
}

/// The pieces of `s` from index `i` on, split at each `c` (`str::split`).
pub open spec fn split_from(s: Seq<char>, c: char, i: int) -> Seq<Seq<char>>
    decreases s.len() + 1 - i,
{
    if i < 0 || i > s.len() {
        seq![]
    } else {
        match find_char_from(s, c, i) {
            None => seq![s.subrange(i, s.len() as int)],
            Some(j) => if i <= j < s.len() {
                seq![s.subrange(i, j)] + split_from(s, c, j + 1)
            } else {
                seq![]
            },
        }
    }
}

/// The pieces of `s` split at each `c`.
pub open spec fn split_on(s: Seq<char>, c: char) -> Seq<Seq<char>> {
    split_from(s, c, 0)
}

/// Split `s` at each `c`, as `str::split` does.
pub fn split_exec(s: &[char], c: char) -> (r: Vec<Vec<char>>)
    ensures
        views(r@) == split_on(s@, c),
{
    let mut r: Vec<Vec<char>> = Vec::new();
    let mut i: usize = 0;
    let len = s.len();
    loop
        invariant
            len == s@.len(),
            i <= len,
            split_on(s@, c) == views(r@) + split_from(s@, c, i as int),
        decreases len - i,
    {
        proof {
            lemma_find_char_from_ge(s@, c, i as int);
        }
        let ghost before = views(r@);
        match find_char_in(s, c, i) {
            None => {
                r.push(slice_to_vec(slice_subrange(s, i, len)));
                assert(views(r@) =~= before + split_from(s@, c, i as int));
                return r;
            },
            Some(j) => {
                r.push(slice_to_vec(slice_subrange(s, i, j)));
                assert(views(r@) + split_from(s@, c, j + 1) =~= before + split_from(s@, c, i as int));
                i = j + 1;
            },
        }
    }
}

} // verus!
