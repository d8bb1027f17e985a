//! Conversion between byte offsets into a text and (line, column) positions,
//! where a column counts characters.
use vstd::prelude::*;
use vstd::slice::slice_subrange;
use crate::position::{Position, pos};
use crate::text::{
    chars_of, utf8_len, utf8_len_exec, char_len_utf8, str_utf8_len, lemma_utf8_len_take_step,
    lemma_utf8_len_take_le, lemma_utf8_len_take_mono,
};
use crate::toml_model::{chars_within_from, is_byte_boundary};

verus! {

/// The byte offsets just after each `'\n'` of `s` at or after character `k`.
pub open spec fn newline_starts_from(s: Seq<char>, k: int) -> Seq<int>
    decreases s.len() - k,
{
    if k < 0 || k >= s.len() {
        seq![]
    } else if s[k] == '\n' {
        seq![utf8_len(s.take(k + 1)) as int] + newline_starts_from(s, k + 1)
    } else {
        newline_starts_from(s, k + 1)
    }
}

/// The byte offset at which each line of `s` starts.
pub open spec fn line_starts(s: Seq<char>) -> Seq<int> {
    seq![0int] + newline_starts_from(s, 0)
}

/// The first index from `i` on whose line start lies after byte `o`.
pub open spec fn first_after_from(starts: Seq<int>, o: int, i: int) -> int
    decreases starts.len() - i,
{
    if i < 0 || i >= starts.len() {
        starts.len() as int
    } else if starts[i] > o {
        i
    } else {
        first_after_from(starts, o, i + 1)
    }
}

/// The line that byte offset `o` lies on: the last one that starts at or before it.
pub open spec fn line_of(starts: Seq<int>, o: int) -> int {
    first_after_from(starts, o, 0) - 1
}

/// The number of characters of `s` before byte offset `b`.
pub open spec fn chars_before(s: Seq<char>, b: int) -> int {
    chars_within_from(s, b, 0)
}

/// `min(a, b)`.
pub open spec fn min_int(a: int, b: int) -> int {
    if a <= b {
        a
    } else {
        b
    }
}

/// The position of byte offset `offset` (clamped to the text's end) in `s`.
pub open spec fn position_of(s: Seq<char>, offset: int) -> Position {
    let starts = line_starts(s);
    let o = min_int(offset, utf8_len(s) as int);
    let l = line_of(starts, o);
    pos(l, chars_before(s, o) - chars_before(s, starts[l]))
}

/// The byte offset of position `p` in `s`: the start of its line plus the
/// bytes of its first `p.character` characters, at most the whole line (with
/// its line break); past the last line, the end of the text.
pub open spec fn offset_of(s: Seq<char>, p: Position) -> int {
    let starts = line_starts(s);
    let total = utf8_len(s) as int;
    if p.line >= starts.len() {
        total
    } else {
        let ls = starts[p.line as int];
        let le = if p.line + 1 < starts.len() {
            starts[p.line + 1]
        } else {
            total
        };
        let line = s.subrange(chars_before(s, ls), chars_before(s, le));
        let col = if p.character < line.len() {
            utf8_len(line.take(p.character as int)) as int
        } else {
            utf8_len(line) as int
        };
        min_int(ls + col, total)
    }
}

/// A map from line numbers to the byte offsets at which lines start.
#[derive(Debug)]
pub struct LineIndex {
    line_offsets: Vec<usize>,
}

impl View for LineIndex {
    type V = Seq<int>;

    closed spec fn view(&self) -> Seq<int> {
        self.line_offsets@.map_values(|x: usize| x as int)
    }
}

proof fn lemma_newline_starts_bounds(s: Seq<char>, k: int)
    requires
        0 <= k <= s.len(),
    ensures
        forall|i: int|
            0 <= i < newline_starts_from(s, k).len() ==> utf8_len(s.take(k)) < #[trigger] newline_starts_from(s, k)[i]
                <= utf8_len(s),
        forall|i: int, j: int|
            0 <= i < j < newline_starts_from(s, k).len() ==> #[trigger] newline_starts_from(s, k)[i]
                < #[trigger] newline_starts_from(s, k)[j],
    decreases s.len() - k,
{
    if k < s.len() {
        lemma_newline_starts_bounds(s, k + 1);
        lemma_utf8_len_take_mono(s, k, k + 1);
        lemma_utf8_len_take_le(s, k + 1);
        let rest = newline_starts_from(s, k + 1);
        if s[k] == '\n' {
            let all = seq![utf8_len(s.take(k + 1)) as int] + rest;
            assert forall|i: int| 0 <= i < all.len() implies utf8_len(s.take(k)) < #[trigger] all[i]
                <= utf8_len(s) by {
                if i > 0 {
                    assert(all[i] == rest[i - 1]);
                }
            }
            assert forall|i: int, j: int| 0 <= i < j < all.len() implies #[trigger] all[i]
                < #[trigger] all[j] by {
                assert(all[j] == rest[j - 1]);
                if i > 0 {
                    assert(all[i] == rest[i - 1]);
                }
            }
        }
    }
}

/// The line starts of a text rise strictly, from 0, and stay within the text.
pub proof fn lemma_line_starts_sorted(s: Seq<char>)
    ensures
        line_starts(s).len() >= 1,
        line_starts(s)[0] == 0,
        forall|i: int| 0 <= i < line_starts(s).len() ==> 0 <= #[trigger] line_starts(s)[i] <= utf8_len(s),
        forall|i: int, j: int|
            0 <= i < j < line_starts(s).len() ==> #[trigger] line_starts(s)[i] < #[trigger] line_starts(s)[j],
{
    lemma_newline_starts_bounds(s, 0);
    let rest = newline_starts_from(s, 0);
    let all = line_starts(s);
    assert(s.take(0) =~= Seq::<char>::empty());
    assert forall|i: int| 0 <= i < all.len() implies 0 <= #[trigger] all[i] <= utf8_len(s) by {
        if i > 0 {
            assert(all[i] == rest[i - 1]);
        }
    }
    assert forall|i: int, j: int| 0 <= i < j < all.len() implies #[trigger] all[i] < #[trigger] all[j] by {
        assert(all[j] == rest[j - 1]);
        if i > 0 {
            assert(all[i] == rest[i - 1]);
        }
    }
}

proof fn lemma_first_after_is(starts: Seq<int>, o: int, m: int)
    requires
        0 <= m <= starts.len(),
        forall|i: int| 0 <= i < m ==> starts[i] <= o,
        m < starts.len() ==> starts[m] > o,
    ensures
        first_after_from(starts, o, 0) == m,
{
    lemma_first_after_from_is(starts, o, m, 0);
}

proof fn lemma_first_after_from_is(starts: Seq<int>, o: int, m: int, i: int)
    requires
        0 <= i <= m <= starts.len(),
        forall|k: int| 0 <= k < m ==> starts[k] <= o,
        m < starts.len() ==> starts[m] > o,
    ensures
        first_after_from(starts, o, i) == m,
    decreases m - i,
{
    if i < m {
        lemma_first_after_from_is(starts, o, m, i + 1);
    }
}

/// The byte offset of the `k`-th character of `s` (`k <= s.len()`).
fn byte_offset_of(s: &[char], k: usize) -> (r: u128)
    requires
        k <= s@.len(),
    ensures
        r == utf8_len(s@.take(k as int)),
{
    utf8_len_exec(slice_subrange(s, 0, k))
}

/// The number of characters of `s` before byte offset `b`, computed.
fn chars_before_exec(s: &[char], b: u128) -> (r: usize)
    requires
        b <= 0x1_0000_0000_0000_0000_0000,
    ensures
        r == chars_before(s@, b as int),
        r <= s@.len(),
{
    let len = s.len();
    let mut k: usize = 0;
    let mut acc: u128 = 0;
    let mut done = false;
    assert(s@.take(0) =~= Seq::<char>::empty());
    while k < len && !done
        invariant
            b <= 0x1_0000_0000_0000_0000_0000,
            len == s@.len(),
            k <= len,
            acc == utf8_len(s@.take(k as int)),
            acc <= b,
            done ==> chars_within_from(s@, b as int, 0) == k,
            !done ==> chars_within_from(s@, b as int, 0) == chars_within_from(s@, b as int, k as int),
        decreases len - k, if done { 0int } else { 1int },
    {
        proof {
            lemma_utf8_len_take_step(s@, k as int);
        }
        let w = char_len_utf8(s[k]) as u128;
        if acc + w > b {
            done = true;
        } else {
            acc = acc + w;
            k = k + 1;
        }
    }
    k
}

impl Clone for LineIndex {
    fn clone(&self) -> (r: Self)
        ensures
            r@ == self@,
    {
        let mut offs: Vec<usize> = Vec::new();
        let mut k: usize = 0;
        while k < self.line_offsets.len()
            invariant
                k <= self.line_offsets@.len(),
                offs@ == self.line_offsets@.take(k as int),
            decreases self.line_offsets@.len() - k,
        {
            offs.push(self.line_offsets[k]);
            k = k + 1;
        }
        assert(self.line_offsets@.take(k as int) =~= self.line_offsets@);
        LineIndex { line_offsets: offs }
    }
}

impl LineIndex {
    /// Whether this index was built from `text`.
    pub open spec fn indexes(&self, text: &str) -> bool {
        self@ == line_starts(text@)
    }

    /// Index the lines of `text`.
    pub fn new(text: &str) -> (r: Self)
        ensures
            r.indexes(text),
    {
        let total = str_utf8_len(text);
        let chars = chars_of(text);
        let len = chars.len();
        let mut offs: Vec<usize> = vec![0];
        let mut k: usize = 0;
        let mut acc: u128 = 0;
        assert(chars@.take(0) =~= Seq::<char>::empty());
        assert(offs@.map_values(|x: usize| x as int) =~= seq![0int]);
        while k < len
            invariant
                len == chars@.len(),
                chars@ == text@,
                total == utf8_len(text@),
                k <= len,
                acc == utf8_len(chars@.take(k as int)),
                line_starts(text@) == offs@.map_values(|x: usize| x as int) + newline_starts_from(
                    text@,
                    k as int,
                ),
            decreases len - k,
        {
            proof {
                lemma_utf8_len_take_step(chars@, k as int);
                lemma_utf8_len_take_le(chars@, k + 1);
            }
            let c = chars[k];
            let ghost before = offs@.map_values(|x: usize| x as int);
            acc = acc + char_len_utf8(c) as u128;
            if c == '\n' {
                offs.push(acc as usize);
                assert(offs@.map_values(|x: usize| x as int) =~= before + seq![acc as int]);
                assert(before + seq![acc as int] + newline_starts_from(text@, k + 1) =~= before
                    + newline_starts_from(text@, k as int));
            }
            k = k + 1;
        }
        LineIndex { line_offsets: offs }
    }

    /// The position of a byte offset of `text`: its line, and the number of
    /// characters between the line's start and the offset. An offset past the
    /// end stands for the end. The offset must fall on a character boundary.
    pub fn offset_to_position(&self, offset: usize, text: &str) -> (r: Position)
        requires
            self.indexes(text),
            is_byte_boundary(text@, min_int(offset as int, utf8_len(text@) as int)),
        ensures
            r == position_of(text@, offset as int),
    {
        let total = str_utf8_len(text);
        let chars = chars_of(text);
        let o: usize = if offset <= total {
            offset
        } else {
            total
        };
        let ghost starts = line_starts(text@);
        proof {
            lemma_line_starts_sorted(text@);
        }
        let n = self.line_offsets.len();
        assert(self@.len() == n);
        // binary search for the first line start after `o`
        let mut lo: usize = 0;
        let mut hi: usize = n;
        while lo < hi
            invariant
                self@ == starts,
                starts == line_starts(text@),
                n == starts.len(),
                lo <= hi <= n,
                forall|i: int| 0 <= i < lo ==> starts[i] <= o,
                forall|i: int| hi <= i < n ==> starts[i] > o,
                forall|i: int, j: int| 0 <= i < j < starts.len() ==> #[trigger] starts[i] < #[trigger] starts[j],
            decreases hi - lo,
        {
            let mid = lo + (hi - lo) / 2;
            assert(self@[mid as int] == self.line_offsets@[mid as int] as int);
            if self.line_offsets[mid] <= o {
                assert forall|i: int| 0 <= i < mid + 1 implies starts[i] <= o by {
                    if i < mid {
                        assert(starts[i] < starts[mid as int]);
                    }
                }
                lo = mid + 1;
            } else {
                assert forall|i: int| mid <= i < n implies starts[i] > o by {
                    if i > mid {
                        assert(starts[mid as int] < starts[i]);
                    }
                }
                hi = mid;
            }
        }
        proof {
            lemma_first_after_is(starts, o as int, lo as int);
            assert(starts[0] == 0);
        }
        let line = lo - 1;
        assert(self@[line as int] == self.line_offsets@[line as int] as int);
        let ls = self.line_offsets[line];
        let kc = chars_before_exec(chars.as_slice(), o as u128);
        let ks = chars_before_exec(chars.as_slice(), ls as u128);
        proof {
            lemma_chars_before_mono(text@, ls as int, o as int);
        }
        Position { line: line as u32, character: (kc - ks) as u32 }
    }

    /// The byte offset of a position of `text`: the start of its line plus the
    /// bytes of its first `pos.character` characters (at most the whole line);
    /// past the last line, the end of the text.
    pub fn position_to_offset(&self, pos: &Position, text: &str) -> (r: usize)
        requires
            self.indexes(text),
        ensures
            r == offset_of(text@, *pos),
    {
        let total = str_utf8_len(text);
        let chars = chars_of(text);
        let ghost starts = line_starts(text@);
        proof {
            lemma_line_starts_sorted(text@);
        }
        let line = pos.line as usize;
        if line >= self.line_offsets.len() {
            return total;
        }
        assert(self@[line as int] == self.line_offsets@[line as int] as int);
        let ls = self.line_offsets[line];
        let le: usize = if line + 1 < self.line_offsets.len() {
            assert(self@[line + 1] == self.line_offsets@[line + 1] as int);
            self.line_offsets[line + 1]
        } else {
            total
        };
        let a = chars_before_exec(chars.as_slice(), ls as u128);
        let b = chars_before_exec(chars.as_slice(), le as u128);
        proof {
            lemma_chars_before_mono(text@, ls as int, le as int);
        }
        let slice = slice_subrange(chars.as_slice(), a, b);
        let count = b - a;
        let col: u128 = if (pos.character as usize) < count {
            byte_offset_of(slice, pos.character as usize)
        } else {
            utf8_len_exec(slice)
        };
        proof {
            lemma_subrange_utf8_le(text@, a as int, b as int, pos.character as int);
        }
        let sum: u128 = ls as u128 + col;
        if sum <= total as u128 {
            sum as usize
        } else {
            total
        }
    }
}

/// More bytes never hold fewer characters.
pub proof fn lemma_chars_before_mono(s: Seq<char>, a: int, b: int)
    requires
        a <= b,
    ensures
        chars_before(s, a) <= chars_before(s, b),
{
    lemma_chars_within_mono(s, a, b, 0);
}

proof fn lemma_chars_within_mono(s: Seq<char>, a: int, b: int, k: int)
    requires
        a <= b,
    ensures
        chars_within_from(s, a, k) <= chars_within_from(s, b, k),
    decreases s.len() - k,
{
    if 0 <= k < s.len() {
        lemma_chars_within_mono(s, a, b, k + 1);
        if utf8_len(s.take(k + 1)) <= a {
        } else {
            crate::toml_model::lemma_chars_within_from_bounds(s, b, k);
        }
    }
}

proof fn lemma_subrange_utf8_le(s: Seq<char>, a: int, b: int, c: int)
    requires
        0 <= a <= b <= s.len(),
    ensures
        0 <= c < b - a ==> utf8_len(s.subrange(a, b).take(c)) <= utf8_len(s),
        utf8_len(s.subrange(a, b)) <= utf8_len(s),
{
    let sub = s.subrange(a, b);
    assert(s =~= s.take(a) + sub + s.skip(b));
    crate::text::lemma_utf8_len_concat(s.take(a) + sub, s.skip(b));
    crate::text::lemma_utf8_len_concat(s.take(a), sub);
    if 0 <= c < b - a {
        lemma_utf8_len_take_le(sub, c);
    }
}

} // verus!

verus! {

/// The characters before a whole prefix's byte length are that prefix.
proof fn lemma_chars_before_prefix(s: Seq<char>, m: int)
    requires
        0 <= m <= s.len(),
    ensures
        chars_before(s, utf8_len(s.take(m)) as int) == m,
{
    lemma_chars_within_prefix_from(s, m, 0);
}

proof fn lemma_chars_within_prefix_from(s: Seq<char>, m: int, k: int)
    requires
        0 <= k <= m <= s.len(),
    ensures
        chars_within_from(s, utf8_len(s.take(m)) as int, k) == m,
    decreases m - k,
{
    let b = utf8_len(s.take(m)) as int;
    if k < m {
        lemma_utf8_len_take_mono(s, k + 1, m);
        lemma_chars_within_prefix_from(s, m, k + 1);
    } else if k < s.len() {
        lemma_utf8_len_take_mono(s, m, m + 1);
    }
}

/// Whether `x` is the byte length of a prefix of `s`.
spec fn is_prefix_len(s: Seq<char>, x: int) -> bool {
    exists|m: int| 0 <= m <= s.len() && x == utf8_len(#[trigger] s.take(m))
}

proof fn lemma_newline_starts_are_prefixes(s: Seq<char>, k: int)
    requires
        0 <= k <= s.len(),
    ensures
        forall|i: int|
            0 <= i < newline_starts_from(s, k).len() ==> is_prefix_len(
                s,
                #[trigger] newline_starts_from(s, k)[i],
            ),
    decreases s.len() - k,
{
    if k < s.len() {
        lemma_newline_starts_are_prefixes(s, k + 1);
        let rest = newline_starts_from(s, k + 1);
        if s[k] == '\n' {
            let all = newline_starts_from(s, k);
            assert forall|i: int| 0 <= i < all.len() implies is_prefix_len(s, #[trigger] all[i]) by {
                if i == 0 {
                    assert(all[0] == utf8_len(s.take(k + 1)));
                } else {
                    assert(all[i] == rest[i - 1]);
                }
            }
        }
    }
}

/// Every line start is the byte length of a prefix of the text.
proof fn lemma_line_starts_are_prefixes(s: Seq<char>)
    ensures
        forall|i: int| 0 <= i < line_starts(s).len() ==> is_prefix_len(s, #[trigger] line_starts(s)[i]),
{
    lemma_newline_starts_are_prefixes(s, 0);
    let all = line_starts(s);
    let rest = newline_starts_from(s, 0);
    assert forall|i: int| 0 <= i < all.len() implies is_prefix_len(s, #[trigger] all[i]) by {
        if i == 0 {
            assert(s.take(0) =~= Seq::<char>::empty());
            assert(all[0] == utf8_len(s.take(0)));
        } else {
            assert(all[i] == rest[i - 1]);
        }
    }
}

proof fn lemma_utf8_len_between(s: Seq<char>, a: int, b: int)
    requires
        0 <= a <= b <= s.len(),
    ensures
        utf8_len(s.subrange(a, b)) == utf8_len(s.take(b)) - utf8_len(s.take(a)),
{
    assert(s.take(b) =~= s.take(a) + s.subrange(a, b));
    crate::text::lemma_utf8_len_concat(s.take(a), s.subrange(a, b));
}

proof fn lemma_first_after_facts(starts: Seq<int>, o: int, i: int)
    requires
        0 <= i <= starts.len(),
    ensures
        i <= first_after_from(starts, o, i) <= starts.len(),
        forall|k: int| i <= k < first_after_from(starts, o, i) ==> starts[k] <= o,
        first_after_from(starts, o, i) < starts.len() ==> starts[first_after_from(starts, o, i)] > o,
    decreases starts.len() - i,
{
    if i < starts.len() && starts[i] <= o {
        lemma_first_after_facts(starts, o, i + 1);
    }
}

/// Whether the position of byte offset `o` fits a `Position`: its line and
/// its column are at most `u32::MAX`.
pub open spec fn position_fits(s: Seq<char>, o: int) -> bool {
    let starts = line_starts(s);
    let l = line_of(starts, o);
    &&& l <= u32::MAX
    &&& 0 <= l < starts.len() ==> chars_before(s, o) - chars_before(s, starts[l]) <= u32::MAX
}

/// Converting a byte offset (on a character boundary, within the text) to a
/// position and back gives the offset again, wherever the position fits.
pub proof fn law_offset_position_round_trip(s: Seq<char>, o: int)
    requires
        0 <= o <= utf8_len(s),
        is_byte_boundary(s, o),
        position_fits(s, o),
    ensures
        offset_of(s, position_of(s, o)) == o,
{
    let starts = line_starts(s);
    let total = utf8_len(s) as int;
    lemma_line_starts_sorted(s);
    lemma_line_starts_are_prefixes(s);
    lemma_first_after_facts(starts, o, 0);
    crate::text::lemma_lines_from_count(s, 0);
    lemma_newline_count(s, 0);
    let fa = first_after_from(starts, o, 0);
    assert(fa >= 1) by {
        if fa == 0 {
            assert(starts[0] == 0);
        }
    }
    let l = fa - 1;
    assert(starts[l] <= o);
    let ls = starts[l];
    assert(is_prefix_len(s, starts[l]));
    let m_ls = choose|m: int| 0 <= m <= s.len() && starts[l] == utf8_len(#[trigger] s.take(m));
    lemma_chars_before_prefix(s, m_ls);
    let ks = chars_before(s, ls);
    assert(ks == m_ls);
    let kc = chars_before(s, o);
    crate::toml_model::lemma_chars_within_from_bounds(s, o, 0);
    assert(utf8_len(s.take(kc)) == o);
    lemma_chars_before_mono(s, ls, o);
    let p = position_of(s, o);
    assert(min_int(o, total) == o);
    assert(p.line == l);
    assert(p.character == kc - ks);
    let le = if l + 1 < starts.len() {
        starts[l + 1]
    } else {
        total
    };
    let kle: int = if l + 1 < starts.len() {
        assert(is_prefix_len(s, starts[l + 1]));
        let m_le = choose|m: int| 0 <= m <= s.len() && starts[l + 1] == utf8_len(#[trigger] s.take(m));
        lemma_chars_before_prefix(s, m_le);
        m_le
    } else {
        assert(s.take(s.len() as int) =~= s);
        lemma_chars_before_prefix(s, s.len() as int);
        s.len() as int
    };
    assert(chars_before(s, le) == kle);
    assert(utf8_len(s.take(kle)) == le);
    lemma_chars_before_mono(s, o, le);
    assert(kc <= kle);
    let line = s.subrange(ks, kle);
    if kc < kle {
        assert(line.take(kc - ks) =~= s.subrange(ks, kc));
        lemma_utf8_len_between(s, ks, kc);
        assert(utf8_len(s.take(ks)) == ls);
    } else {
        assert(kc == kle);
        assert(l + 1 >= starts.len());
        lemma_utf8_len_between(s, ks, kle);
    }
}

proof fn lemma_newline_count(s: Seq<char>, k: int)
    requires
        0 <= k <= s.len(),
    ensures
        newline_starts_from(s, k).len() <= s.len() - k,
    decreases s.len() - k,
{
    if k < s.len() {
        lemma_newline_count(s, k + 1);
    }
}

} // verus!

verus! {

/// A byte offset that is the length of a prefix lies on a character boundary.
pub proof fn lemma_prefix_boundary(s: Seq<char>, m: int)
    requires
        0 <= m <= s.len(),
    ensures
        is_byte_boundary(s, utf8_len(s.take(m)) as int),
        chars_before(s, utf8_len(s.take(m)) as int) == m,
{
    lemma_chars_before_prefix(s, m);
}

/// The character indices of the `'\n'` of `s` at or after character `k`.
pub open spec fn newline_indices_from(s: Seq<char>, k: int) -> Seq<int>
    decreases s.len() - k,
{
    if k < 0 || k >= s.len() {
        seq![]
    } else if s[k] == '\n' {
        seq![k] + newline_indices_from(s, k + 1)
    } else {
        newline_indices_from(s, k + 1)
    }
}

proof fn lemma_newline_starts_are_after_newlines(s: Seq<char>, k: int)
    requires
        0 <= k <= s.len(),
    ensures
        newline_starts_from(s, k).len() == newline_indices_from(s, k).len(),
        forall|i: int|
            0 <= i < newline_indices_from(s, k).len() ==> {
                let j = #[trigger] newline_indices_from(s, k)[i];
                &&& 0 <= j < s.len()
                &&& s[j] == '\n'
                &&& newline_starts_from(s, k)[i] == utf8_len(s.take(j)) + 1
            },
    decreases s.len() - k,
{
    if k < s.len() {
        lemma_newline_starts_are_after_newlines(s, k + 1);
        if s[k] == '\n' {
            crate::text::lemma_utf8_len_take_step(s, k);
            let a = newline_indices_from(s, k);
            let b = newline_starts_from(s, k);
            assert forall|i: int| 0 <= i < a.len() implies {
                let j = #[trigger] a[i];
                &&& 0 <= j < s.len()
                &&& s[j] == '\n'
                &&& b[i] == utf8_len(s.take(j)) + 1
            } by {
                if i > 0 {
                    assert(a[i] == newline_indices_from(s, k + 1)[i - 1]);
                    assert(b[i] == newline_starts_from(s, k + 1)[i - 1]);
                }
            }
        }
    }
}

/// Where each line of a text starts (what `LineIndex::new` records): the
/// first at 0, each other one byte after a line break, one line more than
/// there are line breaks; and the offset of column 0 of a line is its start
/// (the end of the text past the last line).
pub proof fn law_line_starts(s: Seq<char>)
    ensures
        line_starts(s).len() == newline_indices_from(s, 0).len() + 1,
        line_starts(s)[0] == 0,
        forall|k: int|
            1 <= k < line_starts(s).len() ==> {
                let j = #[trigger] newline_indices_from(s, 0)[k - 1];
                &&& s[j] == '\n'
                &&& line_starts(s)[k] == utf8_len(s.take(j)) + 1
            },
        forall|p: Position|
            p.character == 0 ==> #[trigger] offset_of(s, p) == if p.line < line_starts(s).len() {
                line_starts(s)[p.line as int]
            } else {
                utf8_len(s) as int
            },
{
    lemma_newline_starts_are_after_newlines(s, 0);
    lemma_line_starts_sorted(s);
    lemma_line_starts_are_prefixes(s);
    let starts = line_starts(s);
    let idx = newline_indices_from(s, 0);
    assert forall|k: int| 1 <= k < starts.len() implies {
        let j = #[trigger] idx[k - 1];
        &&& s[j] == '\n'
        &&& starts[k] == utf8_len(s.take(j)) + 1
    } by {
        assert(starts[k] == newline_starts_from(s, 0)[k - 1]);
    }
    assert forall|p: Position| p.character == 0 implies #[trigger] offset_of(s, p) == if p.line
        < starts.len() {
        starts[p.line as int]
    } else {
        utf8_len(s) as int
    } by {
        if p.line < starts.len() {
            let l = p.line as int;
            let ls = starts[l];
            let le = if l + 1 < starts.len() {
                starts[l + 1]
            } else {
                utf8_len(s) as int
            };
            let line = s.subrange(chars_before(s, ls), chars_before(s, le));
            if 0 < line.len() {
                assert(line.take(0) =~= Seq::<char>::empty());
            } else {
                assert(line =~= Seq::<char>::empty());
            }
        }
    }
}

/// The number of characters of line `l` of `s`, without its line break.
pub open spec fn line_width(s: Seq<char>, l: int) -> int {
    let starts = line_starts(s);
    let ks = chars_before(s, starts[l]);
    if l + 1 < starts.len() {
        chars_before(s, starts[l + 1]) - 1 - ks
    } else {
        s.len() - ks
    }
}

/// The character index where line `l` starts and where the next one does
/// (or the text's end).
proof fn lemma_line_bounds(s: Seq<char>, l: int) -> (r: (int, int))
    requires
        0 <= l < line_starts(s).len(),
    ensures
        0 <= r.0 <= r.1 <= s.len(),
        utf8_len(s.take(r.0)) == line_starts(s)[l],
        chars_before(s, line_starts(s)[l]) == r.0,
        r.1 == chars_before(s, if l + 1 < line_starts(s).len() {
            line_starts(s)[l + 1]
        } else {
            utf8_len(s) as int
        }),
        utf8_len(s.take(r.1)) == (if l + 1 < line_starts(s).len() {
            line_starts(s)[l + 1]
        } else {
            utf8_len(s) as int
        }),
        l + 1 >= line_starts(s).len() ==> r.1 == s.len(),
{
    let starts = line_starts(s);
    lemma_line_starts_sorted(s);
    lemma_line_starts_are_prefixes(s);
    assert(is_prefix_len(s, starts[l]));
    let ks = choose|m: int| 0 <= m <= s.len() && starts[l] == utf8_len(#[trigger] s.take(m));
    lemma_chars_before_prefix(s, ks);
    let kle: int = if l + 1 < starts.len() {
        assert(is_prefix_len(s, starts[l + 1]));
        let m = choose|m: int| 0 <= m <= s.len() && starts[l + 1] == utf8_len(#[trigger] s.take(m));
        lemma_chars_before_prefix(s, m);
        m
    } else {
        assert(s.take(s.len() as int) =~= s);
        lemma_chars_before_prefix(s, s.len() as int);
        s.len() as int
    };
    let le = if l + 1 < starts.len() {
        starts[l + 1]
    } else {
        utf8_len(s) as int
    };
    lemma_chars_before_mono(s, starts[l], le);
    (ks, kle)
}

/// Every offset that `position_to_offset` gives lies within the text and on
/// a character boundary.
pub proof fn law_offsets_on_boundaries(s: Seq<char>, p: Position)
    ensures
        0 <= offset_of(s, p) <= utf8_len(s),
        is_byte_boundary(s, offset_of(s, p)),
{
    let starts = line_starts(s);
    assert(s.take(s.len() as int) =~= s);
    lemma_prefix_boundary(s, s.len() as int);
    if p.line < starts.len() {
        let l = p.line as int;
        let (ks, kle) = lemma_line_bounds(s, l);
        let line = s.subrange(ks, kle);
        let c: int = if p.character < line.len() {
            p.character as int
        } else {
            line.len() as int
        };
        assert(line.take(c) =~= s.subrange(ks, ks + c));
        lemma_utf8_len_between(s, ks, ks + c);
        lemma_utf8_len_take_mono(s, ks + c, s.len() as int);
        lemma_prefix_boundary(s, ks + c);
        if c == line.len() {
            assert(line.take(c) =~= line);
        }
    }
}

/// Converting a position on a line (within the line's characters) to a byte
/// offset and back gives the position again; and offsets past the end of
/// the text give the position of its end.
pub proof fn law_position_offset_round_trip(s: Seq<char>, p: Position, o: int)
    requires
        p.line < line_starts(s).len(),
        p.character <= line_width(s, p.line as int),
    ensures
        position_of(s, offset_of(s, p)) == p,
        o >= utf8_len(s) ==> position_of(s, o) == position_of(s, utf8_len(s) as int),
{
    let starts = line_starts(s);
    lemma_line_starts_sorted(s);
    let l = p.line as int;
    let (ks, kle) = lemma_line_bounds(s, l);
    let line = s.subrange(ks, kle);
    let c = p.character as int;
    assert(line_width(s, l) <= kle - ks);
    assert(c <= line.len());
    let m = ks + c;
    if c < line.len() {
        assert(line.take(c) =~= s.subrange(ks, m));
    } else {
        assert(line.take(c) =~= line);
    }
    lemma_utf8_len_between(s, ks, m);
    lemma_prefix_boundary(s, m);
    let o2 = utf8_len(s.take(m)) as int;
    assert(s.take(s.len() as int) =~= s);
    lemma_utf8_len_take_mono(s, m, s.len() as int);
    assert(offset_of(s, p) == o2);
    lemma_utf8_len_take_mono(s, ks, m);
    if l + 1 < starts.len() {
        assert(m < kle);
        lemma_utf8_len_take_mono(s, m, kle);
    }
    assert forall|i: int| 0 <= i < l + 1 implies starts[i] <= o2 by {
        if i < l {
            assert(starts[i] < starts[l]);
        }
    }
    lemma_first_after_is(starts, o2, l + 1);
    assert(min_int(o2, utf8_len(s) as int) == o2);
}

} // verus!
