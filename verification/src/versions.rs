//! Crate versions: parsing with `semver`, ordering the versions of the
//! sparse index, and deciding whether a requirement is up to date.
use std::collections::HashMap;
use vstd::prelude::*;

use crate::text::{
    chars_of, string_from_chars, trim, strip_both, strip_start, trimmed, stripped_both,
    stripped_start, chars_eq,
};

verus! {

// ---------------------------------------------------------------------------
// semver
// ---------------------------------------------------------------------------

/// What `semver::Version::parse` makes of a text: major, minor and patch
/// numbers, pre-release and build metadata (as their texts), or nothing
/// when the text is not a version.
pub uninterp spec fn semver_parse(s: Seq<char>) -> Option<(u64, u64, u64, Seq<char>, Seq<char>)>;

/// The order (`Ord`) of the versions that two texts parse to: -1, 0 or 1.
pub uninterp spec fn semver_order(a: Seq<char>, b: Seq<char>) -> i8;

/// The major, minor and patch numbers of a parse outcome (zeros for none).
pub open spec fn numbers(p: Option<(u64, u64, u64, Seq<char>, Seq<char>)>) -> (u64, u64, u64) {
    match p {
        Some((ma, mi, pa, _, _)) => (ma, mi, pa),
        None => (0, 0, 0),
    }
}

/// The pre-release text of a parse outcome (empty for none).
pub open spec fn prerelease(p: Option<(u64, u64, u64, Seq<char>, Seq<char>)>) -> Seq<char> {
    match p {
        Some((_, _, _, pre, _)) => pre,
        None => Seq::<char>::empty(),
    }
}

/// -1 or 1 when the numbers of two versions already order them: by major,
/// then minor, then patch number.
pub open spec fn numeric_order(
    a: Option<(u64, u64, u64, Seq<char>, Seq<char>)>,
    b: Option<(u64, u64, u64, Seq<char>, Seq<char>)>,
) -> Option<i8> {
    let (x0, x1, x2) = numbers(a);
    let (y0, y1, y2) = numbers(b);
    if x0 < y0 {
        Some(-1i8)
    } else if x0 > y0 {
        Some(1i8)
    } else if x1 < y1 {
        Some(-1i8)
    } else if x1 > y1 {
        Some(1i8)
    } else if x2 < y2 {
        Some(-1i8)
    } else if x2 > y2 {
        Some(1i8)
    } else {
        None
    }
}

/// Whether `s` holds at least two dots.
pub open spec fn has_two_dots(s: Seq<char>) -> bool {
    exists|i: int, j: int| #![trigger s[i], s[j]] 0 <= i < j < s.len() && s[i] == '.' && s[j] == '.'
}

/// `semver::Version::parse`, its result taken apart into plain values; the
/// outcome is named `semver_parse`. A text that parses reads
/// `major.minor.patch` first, so it holds at least two dots.
#[verifier::external_body]
fn semver_parse_text(s: &str) -> (r: Option<(u64, u64, u64, String, String)>)
    ensures
        match r {
            Some((ma, mi, pa, pre, build)) => semver_parse(s@) == Some((ma, mi, pa, pre@, build@)),
            None => semver_parse(s@) is None,
        },
        r is Some ==> has_two_dots(s@),
{
    match semver::Version::parse(s) {
        Ok(v) => Some((v.major, v.minor, v.patch, v.pre.as_str().to_string(), v.build.as_str().to_string())),
        Err(_) => None,
    }
}

/// `Ord::cmp` on the versions that `a` and `b` parse to (both must parse).
/// `semver::Version` derives `Ord`, so versions are ordered by major, then
/// minor, then patch number before pre-release and build metadata; `Ord`
/// makes the order a total order, antisymmetric and transitive (stated here
/// against every third text that parses). The order of pre-release and build
/// metadata themselves is left to the name `semver_order`.
#[verifier::external_body]
fn semver_order_of(a: &str, b: &str) -> (r: i8)
    requires
        semver_parse(a@) is Some,
        semver_parse(b@) is Some,
    ensures
        r == semver_order(a@, b@),
        -1 <= r <= 1,
        semver_order(b@, a@) == -r,
        numeric_order(semver_parse(a@), semver_parse(b@)) matches Some(o) ==> r == o,
        forall|c: Seq<char>|
            semver_parse(c) is Some && r <= 0 && #[trigger] semver_order(b@, c) <= 0 ==> semver_order(
                a@,
                c,
            ) <= 0,
        forall|c: Seq<char>|
            semver_parse(c) is Some && #[trigger] semver_order(c, a@) <= 0 && r <= 0 ==> semver_order(
                c,
                b@,
            ) <= 0,
{
    let x = semver::Version::parse(a).unwrap();
    let y = semver::Version::parse(b).unwrap();
    match x.cmp(&y) {
        std::cmp::Ordering::Less => -1,
        std::cmp::Ordering::Equal => 0,
        std::cmp::Ordering::Greater => 1,
    }
}

/// A version that parses under Semantic Versioning.
#[derive(Debug)]
pub struct ParsedVersion {
    source: String,
    major: u64,
    minor: u64,
    patch: u64,
    pre: String,
    build: String,
}

impl ParsedVersion {
    #[verifier::type_invariant]
    spec fn well_formed(self) -> bool {
        semver_parse(self.source@) == Some(
            (self.major, self.minor, self.patch, self.pre@, self.build@),
        )
    }

    /// The text the version was parsed from.
    pub closed spec fn text(&self) -> Seq<char> {
        self.source@
    }

    /// Parse a version (`semver::Version::parse`).
    pub fn parse(s: &str) -> (r: Option<ParsedVersion>)
        ensures
            r is Some <==> semver_parse(s@) is Some,
            r matches Some(v) ==> v.text() == s@,
            r is Some ==> has_two_dots(s@),
    {
        match semver_parse_text(s) {
            Some((major, minor, patch, pre, build)) => Some(
                ParsedVersion { source: String::from_str(s), major, minor, patch, pre, build },
            ),
            None => None,
        }
    }

    pub fn major(&self) -> (r: u64)
        ensures
            r == numbers(semver_parse(self.text())).0,
    {
        proof {
            use_type_invariant(self);
        }
        self.major
    }

    pub fn minor(&self) -> (r: u64)
        ensures
            r == numbers(semver_parse(self.text())).1,
    {
        proof {
            use_type_invariant(self);
        }
        self.minor
    }

    pub fn patch(&self) -> (r: u64)
        ensures
            r == numbers(semver_parse(self.text())).2,
    {
        proof {
            use_type_invariant(self);
        }
        self.patch
    }

    /// Whether the version carries a pre-release part (`1.0.0-rc.1`).
    pub fn is_prerelease(&self) -> (r: bool)
        ensures
            r == (prerelease(semver_parse(self.text())).len() > 0),
    {
        proof {
            use_type_invariant(self);
        }
        !self.pre.as_str().is_empty()
    }

    /// The text the version was parsed from.
    pub fn as_str(&self) -> (r: &str)
        ensures
            r@ == self.text(),
    {
        self.source.as_str()
    }

    /// The order of two versions: -1, 0 or 1. It is antisymmetric, and
    /// transitive through any third text that parses.
    pub fn order(&self, other: &ParsedVersion) -> (r: i8)
        ensures
            r == semver_order(self.text(), other.text()),
            semver_order(other.text(), self.text()) == -r,
            -1 <= r <= 1,
            semver_parse(self.text()) is Some,
            semver_parse(other.text()) is Some,
            forall|c: Seq<char>|
                semver_parse(c) is Some && r <= 0 && #[trigger] semver_order(other.text(), c) <= 0
                    ==> semver_order(self.text(), c) <= 0,
            forall|c: Seq<char>|
                semver_parse(c) is Some && #[trigger] semver_order(c, self.text()) <= 0 && r <= 0
                    ==> semver_order(c, other.text()) <= 0,
    {
        proof {
            use_type_invariant(self);
            use_type_invariant(other);
        }
        semver_order_of(self.source.as_str(), other.source.as_str())
    }
}

impl Clone for ParsedVersion {
    fn clone(&self) -> (r: Self)
        ensures
            r.text() == self.text(),
    {
        proof {
            use_type_invariant(self);
        }
        ParsedVersion {
            source: self.source.clone(),
            major: self.major,
            minor: self.minor,
            patch: self.patch,
            pre: self.pre.clone(),
            build: self.build.clone(),
        }
    }
}

} // verus!

verus! {

// ---------------------------------------------------------------------------
// Versions of the sparse index
// ---------------------------------------------------------------------------

/// One line of the crates.io sparse index: a published version.
#[derive(Debug)]
pub struct SparseIndexLine {
    pub name: String,
    pub vers: String,
    pub yanked: bool,
    pub pubtime: Option<String>,
    pub features: HashMap<String, Vec<String>>,
}

/// A published version of a crate.
#[derive(Debug)]
pub struct CrateVersionInfo {
    pub version: String,
    pub parsed: Option<ParsedVersion>,
    pub yanked: bool,
    pub pubtime: Option<String>,
    pub is_prerelease: bool,
}

/// A published version, as plain values: the parsed version is given by its text.
pub struct SpecVersionInfo {
    pub version: Seq<char>,
    pub parsed: Option<Seq<char>>,
    pub yanked: bool,
    pub pubtime: Option<Seq<char>>,
    pub is_prerelease: bool,
}

pub open spec fn str_opt_view(o: Option<String>) -> Option<Seq<char>> {
    match o {
        Some(s) => Some(s@),
        None => None,
    }
}

impl View for CrateVersionInfo {
    type V = SpecVersionInfo;

    open spec fn view(&self) -> SpecVersionInfo {
        SpecVersionInfo {
            version: self.version@,
            parsed: match self.parsed {
                Some(p) => Some(p.text()),
                None => None,
            },
            yanked: self.yanked,
            pubtime: str_opt_view(self.pubtime),
            is_prerelease: self.is_prerelease,
        }
    }
}

fn clone_opt_str(o: &Option<String>) -> (r: Option<String>)
    ensures
        str_opt_view(r) == str_opt_view(*o),
{
    match o {
        Some(s) => Some(s.clone()),
        None => None,
    }
}

impl Clone for CrateVersionInfo {
    fn clone(&self) -> (r: Self)
        ensures
            r@ == self@,
    {
        CrateVersionInfo {
            version: self.version.clone(),
            parsed: match &self.parsed {
                Some(p) => Some(p.clone()),
                None => None,
            },
            yanked: self.yanked,
            pubtime: clone_opt_str(&self.pubtime),
            is_prerelease: self.is_prerelease,
        }
    }
}

/// The views of a sequence of versions.
pub open spec fn infos_view(s: Seq<CrateVersionInfo>) -> Seq<SpecVersionInfo> {
    s.map_values(|v: CrateVersionInfo| v@)
}

/// The version that an index line describes: its text parsed, and whether it is a pre-release.
pub open spec fn info_of(vers: Seq<char>, yanked: bool, pubtime: Option<Seq<char>>) -> SpecVersionInfo {
    SpecVersionInfo {
        version: vers,
        parsed: if semver_parse(vers) is Some {
            Some(vers)
        } else {
            None
        },
        yanked: yanked,
        pubtime: pubtime,
        is_prerelease: semver_parse(vers) is Some && prerelease(semver_parse(vers)).len() > 0,
    }
}

impl CrateVersionInfo {
    /// The version that a line of the sparse index describes.
    pub fn from_index_line(entry: SparseIndexLine) -> (r: CrateVersionInfo)
        ensures
            r@ == info_of(entry.vers@, entry.yanked, str_opt_view(entry.pubtime)),
    {
        let parsed = ParsedVersion::parse(entry.vers.as_str());
        let is_prerelease = match &parsed {
            Some(v) => v.is_prerelease(),
            None => false,
        };
        CrateVersionInfo {
            version: entry.vers,
            parsed,
            yanked: entry.yanked,
            pubtime: entry.pubtime,
            is_prerelease,
        }
    }
}

/// The lexicographic order of two character sequences (`Ord` on `str`): -1, 0 or 1.
pub open spec fn lex_order(a: Seq<char>, b: Seq<char>) -> int
    decreases a.len(),
{
    if a.len() == 0 {
        if b.len() == 0 {
            0
        } else {
            -1
        }
    } else if b.len() == 0 {
        1
    } else if (a[0] as u32) < (b[0] as u32) {
        -1
    } else if (a[0] as u32) > (b[0] as u32) {
        1
    } else {
        lex_order(a.drop_first(), b.drop_first())
    }
}

pub proof fn lemma_lex_order_antisymmetric(a: Seq<char>, b: Seq<char>)
    ensures
        lex_order(a, b) == -lex_order(b, a),
    decreases a.len(),
{
    if a.len() > 0 && b.len() > 0 && a[0] == b[0] {
        lemma_lex_order_antisymmetric(a.drop_first(), b.drop_first());
    } else if a.len() > 0 && b.len() > 0 && (a[0] as u32) == (b[0] as u32) {
        lemma_lex_order_antisymmetric(a.drop_first(), b.drop_first());
    }
}

pub proof fn lemma_lex_order_transitive(a: Seq<char>, b: Seq<char>, c: Seq<char>)
    requires
        lex_order(a, b) <= 0,
        lex_order(b, c) <= 0,
    ensures
        lex_order(a, c) <= 0,
    decreases a.len(),
{
    if a.len() > 0 && b.len() > 0 && c.len() > 0 && (a[0] as u32) == (b[0] as u32) && (b[0] as u32)
        == (c[0] as u32) {
        lemma_lex_order_transitive(a.drop_first(), b.drop_first(), c.drop_first());
    }
}

/// `lex_order(a, b)`, computed.
pub fn lex_order_exec(a: &[char], b: &[char]) -> (r: i8)
    ensures
        r == lex_order(a@, b@),
{
    let mut k: usize = 0;
    assert(a@.skip(0) =~= a@);
    assert(b@.skip(0) =~= b@);
    while k < a.len() && k < b.len()
        invariant
            k <= a@.len(),
            k <= b@.len(),
            lex_order(a@, b@) == lex_order(a@.skip(k as int), b@.skip(k as int)),
        decreases a@.len() - k,
    {
        let x = a[k] as u32;
        let y = b[k] as u32;
        if x < y {
            return -1;
        }
        if x > y {
            return 1;
        }
        assert(a@.skip(k as int).drop_first() =~= a@.skip(k + 1));
        assert(b@.skip(k as int).drop_first() =~= b@.skip(k + 1));
        k = k + 1;
    }
    if k == a.len() {
        if k == b.len() {
            0
        } else {
            -1
        }
    } else {
        1
    }
}

/// The order in which the versions of a crate are listed: versions that are
/// not yanked first; then versions that parse, newest first; then the rest,
/// by their text in reverse.
pub open spec fn entry_order(a: SpecVersionInfo, b: SpecVersionInfo) -> int {
    if a.yanked != b.yanked {
        if !a.yanked {
            -1
        } else {
            1
        }
    } else {
        match (a.parsed, b.parsed) {
            (Some(x), Some(y)) => semver_order(y, x) as int,
            (Some(_), None) => -1,
            (None, Some(_)) => 1,
            (None, None) => lex_order(b.version, a.version),
        }
    }
}

/// Whether the parsed text of a version, if it has one, parses.
pub open spec fn parse_consistent(v: SpecVersionInfo) -> bool {
    v.parsed matches Some(t) ==> semver_parse(t) is Some
}

/// A version whose parsed part came from `ParsedVersion` parses.
fn check_parse_consistent(v: &CrateVersionInfo)
    ensures
        parse_consistent(v@),
{
    match &v.parsed {
        Some(p) => {
            proof {
                use_type_invariant(p);
            }
        },
        None => {},
    }
}

/// `entry_order(a, b)`, computed; it is antisymmetric on the pair, and
/// transitive through any third version whose parsed text parses.
fn entry_order_exec(a: &CrateVersionInfo, b: &CrateVersionInfo) -> (r: i8)
    ensures
        r == entry_order(a@, b@),
        entry_order(b@, a@) == -r,
        forall|z: SpecVersionInfo|
            parse_consistent(z) && r <= 0 && #[trigger] entry_order(b@, z) <= 0 ==> entry_order(
                a@,
                z,
            ) <= 0,
{
    if a.yanked != b.yanked {
        return if !a.yanked {
            -1
        } else {
            1
        };
    }
    match (&a.parsed, &b.parsed) {
        (Some(x), Some(y)) => y.order(x),
        (Some(_), None) => -1,
        (None, Some(_)) => 1,
        (None, None) => {
            proof {
                lemma_lex_order_antisymmetric(b.version@, a.version@);
            }
            let bc = chars_of(b.version.as_str());
            let ac = chars_of(a.version.as_str());
            let r = lex_order_exec(bc.as_slice(), ac.as_slice());
            proof {
                assert forall|z: SpecVersionInfo|
                    parse_consistent(z) && r <= 0 && #[trigger] entry_order(b@, z) <= 0 implies entry_order(
                    a@,
                    z,
                ) <= 0 by {
                    if z.yanked == a.yanked && z.parsed is None {
                        lemma_lex_order_transitive(z.version, b.version@, a.version@);
                    }
                }
            }
            r
        },
    }
}

/// Whether each version comes no later than every version after it in the
/// listing order.
pub open spec fn listed_in_order(s: Seq<SpecVersionInfo>) -> bool {
    forall|i: int, j: int| 0 <= i < j < s.len() ==> entry_order(#[trigger] s[i], #[trigger] s[j]) <= 0
}

proof fn lemma_multiset_insert_at<A>(s: Seq<A>, p: int, x: A)
    requires
        0 <= p <= s.len(),
    ensures
        s.insert(p, x).to_multiset() =~= s.to_multiset().insert(x),
{
    broadcast use vstd::seq_lib::group_to_multiset_ensures;

    let t = s.insert(p, x);
    assert(t.remove(p) =~= s);
    assert(t.remove(p).to_multiset() =~= t.to_multiset().remove(t[p]));
    assert(t.to_multiset().count(x) > 0) by {
        assert(t.contains(x)) by {
            assert(t[p] == x);
        }
    }
}

/// Sort versions in listing order; equal versions keep their order.
pub fn sort_versions(v: &Vec<CrateVersionInfo>) -> (r: Vec<CrateVersionInfo>)
    ensures
        infos_view(r@).to_multiset() == infos_view(v@).to_multiset(),
        listed_in_order(infos_view(r@)),
{
    broadcast use vstd::seq_lib::group_to_multiset_ensures;

    let mut res: Vec<CrateVersionInfo> = Vec::new();
    let mut i: usize = 0;
    assert(infos_view(v@).take(0) =~= Seq::<SpecVersionInfo>::empty());
    assert(infos_view(res@) =~= Seq::<SpecVersionInfo>::empty());
    while i < v.len()
        invariant
            i <= v@.len(),
            infos_view(res@).to_multiset() == infos_view(v@).take(i as int).to_multiset(),
            listed_in_order(infos_view(res@)),
            forall|k: int| 0 <= k < res@.len() ==> parse_consistent(#[trigger] infos_view(res@)[k]),
        decreases v@.len() - i,
    {
        let x = v[i].clone();
        check_parse_consistent(&x);
        let ghost rv = infos_view(res@);
        // the first place where `x` comes strictly before the version there
        let mut p: usize = 0;
        let mut found = false;
        while p < res.len() && !found
            invariant
                rv == infos_view(res@),
                p <= res@.len(),
                forall|k: int| 0 <= k < p ==> entry_order(#[trigger] rv[k], x@) <= 0,
                found ==> p < res@.len() && entry_order(x@, rv[p as int]) < 0,
                found ==> forall|z: SpecVersionInfo|
                    parse_consistent(z) && #[trigger] entry_order(rv[p as int], z) <= 0 ==> entry_order(
                        x@,
                        z,
                    ) <= 0,
            decreases res@.len() - p, if found { 0int } else { 1int },
        {
            let o = entry_order_exec(&x, &res[p]);
            assert(rv[p as int] == res@[p as int]@);
            if o < 0 {
                found = true;
            } else {
                p = p + 1;
            }
        }
        let ghost xv = x@;
        res.insert(p, x);
        proof {
            assert(infos_view(res@) =~= rv.insert(p as int, xv));
            lemma_multiset_insert_at(rv, p as int, xv);
            assert(infos_view(v@)[i as int] == v@[i as int]@);
            assert(infos_view(v@).take(i + 1) =~= infos_view(v@).take(i as int).push(xv));
            vstd::seq_lib::to_multiset_build(infos_view(v@).take(i as int), xv);
            assert(infos_view(res@).to_multiset() =~= rv.to_multiset().insert(xv));
            let nv = infos_view(res@);
            assert forall|a: int, b: int| 0 <= a < b < nv.len() implies entry_order(
                #[trigger] nv[a],
                #[trigger] nv[b],
            ) <= 0 by {
                if b < p {
                    assert(nv[a] == rv[a] && nv[b] == rv[b]);
                } else if b == p {
                    assert(nv[a] == rv[a] && nv[b] == xv);
                } else if a < p {
                    assert(nv[a] == rv[a] && nv[b] == rv[b - 1]);
                } else if a == p {
                    assert(nv[a] == xv && nv[b] == rv[b - 1]);
                    if b - 1 > p {
                        assert(entry_order(rv[p as int], rv[b - 1]) <= 0);
                        assert(parse_consistent(rv[b - 1]));
                    }
                } else {
                    assert(nv[a] == rv[a - 1] && nv[b] == rv[b - 1]);
                }
            }
            assert forall|k: int| 0 <= k < nv.len() implies parse_consistent(#[trigger] nv[k]) by {
                if k < p {
                    assert(nv[k] == rv[k]);
                } else if k > p {
                    assert(nv[k] == rv[k - 1]);
                }
            }
        }
        i = i + 1;
    }
    assert(infos_view(v@).take(v@.len() as int) =~= infos_view(v@));
    res
}

} // verus!

verus! {

// ---------------------------------------------------------------------------
// Decimal numbers (`Display` for `u64`)
// ---------------------------------------------------------------------------

/// The decimal digit `d` (0 to 9).
pub open spec fn digit_char(d: int) -> char {
    if d == 0 {
        '0'
    } else if d == 1 {
        '1'
    } else if d == 2 {
        '2'
    } else if d == 3 {
        '3'
    } else if d == 4 {
        '4'
    } else if d == 5 {
        '5'
    } else if d == 6 {
        '6'
    } else if d == 7 {
        '7'
    } else if d == 8 {
        '8'
    } else {
        '9'
    }
}

/// The decimal notation of `n`, without leading zeros.
pub open spec fn decimal(n: nat) -> Seq<char>
    decreases n,
{
    if n < 10 {
        seq![digit_char(n as int)]
    } else {
        decimal(n / 10).push(digit_char((n % 10) as int))
    }
}

pub(crate) fn digit_exec(d: u64) -> (c: char)
    requires
        d < 10,
    ensures
        c == digit_char(d as int),
{
    if d == 0 {
        '0'
    } else if d == 1 {
        '1'
    } else if d == 2 {
        '2'
    } else if d == 3 {
        '3'
    } else if d == 4 {
        '4'
    } else if d == 5 {
        '5'
    } else if d == 6 {
        '6'
    } else if d == 7 {
        '7'
    } else if d == 8 {
        '8'
    } else {
        '9'
    }
}

/// The decimal digit `d`, for a byte.
pub(crate) fn digit_char_exec(d: u8) -> (c: char)
    requires
        d < 10,
    ensures
        c == digit_char(d as int),
{
    digit_exec(d as u64)
}

/// The decimal notation of `n`, as characters.
pub fn decimal_chars(n: u64) -> (r: Vec<char>)
    ensures
        r@ == decimal(n as nat),
    decreases n,
{
    if n < 10 {
        vec![digit_exec(n)]
    } else {
        let mut v = decimal_chars(n / 10);
        v.push(digit_exec(n % 10));
        v
    }
}

// ---------------------------------------------------------------------------
// Whether a requirement is up to date
// ---------------------------------------------------------------------------

/// How a version requirement compares with the latest release.
#[derive(Debug, PartialEq, Eq)]
pub enum VersionStatus {
    UpToDate { current: String, latest: String },
    Outdated { current: String, latest: String, newer_versions_count: usize },
    PreRelease { current: String, latest_stable: String },
    NotFound { current: String },
    Invalid { current: String },
}

pub enum SpecVersionStatus {
    UpToDate { current: Seq<char>, latest: Seq<char> },
    Outdated { current: Seq<char>, latest: Seq<char>, newer_versions_count: int },
    PreRelease { current: Seq<char>, latest_stable: Seq<char> },
    NotFound { current: Seq<char> },
    Invalid { current: Seq<char> },
}

impl View for VersionStatus {
    type V = SpecVersionStatus;

    open spec fn view(&self) -> SpecVersionStatus {
        match self {
            VersionStatus::UpToDate { current, latest } => SpecVersionStatus::UpToDate {
                current: current@,
                latest: latest@,
            },
            VersionStatus::Outdated { current, latest, newer_versions_count } =>
                SpecVersionStatus::Outdated {
                current: current@,
                latest: latest@,
                newer_versions_count: *newer_versions_count as int,
            },
            VersionStatus::PreRelease { current, latest_stable } => SpecVersionStatus::PreRelease {
                current: current@,
                latest_stable: latest_stable@,
            },
            VersionStatus::NotFound { current } => SpecVersionStatus::NotFound { current: current@ },
            VersionStatus::Invalid { current } => SpecVersionStatus::Invalid { current: current@ },
        }
    }
}

/// Whether a version is released (not yanked) and, when `stable_only`, no pre-release.
pub open spec fn is_candidate(v: SpecVersionInfo, stable_only: bool) -> bool {
    !v.yanked && (!stable_only || !v.is_prerelease)
}

/// The first candidate version from index `i` on.
pub open spec fn first_candidate_from(vs: Seq<SpecVersionInfo>, stable_only: bool, i: int) -> Option<
    int,
>
    decreases vs.len() - i,
{
    if i < 0 || i >= vs.len() {
        None
    } else if is_candidate(vs[i], stable_only) {
        Some(i)
    } else {
        first_candidate_from(vs, stable_only, i + 1)
    }
}

/// The latest version: the first stable, released one; else the first
/// released one; else the first one.
pub open spec fn latest_index(vs: Seq<SpecVersionInfo>) -> Option<int> {
    match first_candidate_from(vs, true, 0) {
        Some(i) => Some(i),
        None => match first_candidate_from(vs, false, 0) {
            Some(i) => Some(i),
            None => if vs.len() > 0 {
                Some(0)
            } else {
                None
            },
        },
    }
}

/// The number of released versions that parse and are newer than `cur`.
pub open spec fn count_newer(vs: Seq<SpecVersionInfo>, cur: Seq<char>) -> int
    decreases vs.len(),
{
    if vs.len() == 0 {
        0
    } else {
        let v = vs.last();
        count_newer(vs.drop_last(), cur) + if !v.yanked && v.parsed is Some && semver_order(
            v.parsed->0,
            cur,
        ) > 0 {
            1int
        } else {
            0int
        }
    }
}

/// The number of released versions.
pub open spec fn count_released(vs: Seq<SpecVersionInfo>) -> int
    decreases vs.len(),
{
    if vs.len() == 0 {
        0
    } else {
        count_released(vs.drop_last()) + if !vs.last().yanked {
            1int
        } else {
            0int
        }
    }
}

/// `n`, or 1 if it is less.
pub open spec fn at_least_one(n: int) -> int {
    if n < 1 {
        1
    } else {
        n
    }
}

/// The requirement trimmed of whitespace, then of double quotes.
pub open spec fn clean_requirement(req: Seq<char>) -> Seq<char> {
    strip_both(trim(req), seq!['"'])
}

/// The requirement without a leading `^` and then `=` operators.
pub open spec fn without_operator(clean: Seq<char>) -> Seq<char> {
    strip_start(strip_start(clean, seq!['^']), seq!['='])
}

/// Whether `clean` names the latest version by its major (`1`) or major and minor (`1.0`).
pub open spec fn is_shorthand_of(clean: Seq<char>, latest: Seq<char>) -> bool {
    let (ma, mi, _) = numbers(semver_parse(latest));
    clean == decimal(ma as nat) || clean == decimal(ma as nat) + seq!['.'] + decimal(mi as nat)
}

/// The decimal notation of a number is made of digits only.
pub proof fn lemma_decimal_digits(n: nat)
    ensures
        decimal(n).len() >= 1,
        forall|i: int| 0 <= i < decimal(n).len() ==> '0' <= #[trigger] decimal(n)[i] <= '9',
    decreases n,
{
    if n >= 10 {
        lemma_decimal_digits(n / 10);
        let d = decimal(n / 10);
        assert forall|i: int| 0 <= i < decimal(n).len() implies '0' <= #[trigger] decimal(n)[i]
            <= '9' by {
            if i < d.len() {
                assert(decimal(n)[i] == d[i]);
            }
        }
    }
}

/// A major version number alone (`1`), or a major and minor number (`1.2`),
/// as a requirement: what is left once the operators `^` and `=` are taken off
/// is the text itself, and it holds fewer than two dots.
proof fn lemma_shorthand_text(ma: nat, mi: nat, clean: Seq<char>)
    requires
        clean == decimal(ma) || clean == decimal(ma) + seq!['.'] + decimal(mi),
    ensures
        without_operator(clean) == clean,
        !has_two_dots(clean),
{
    lemma_decimal_digits(ma);
    lemma_decimal_digits(mi);
    let a = decimal(ma);
    assert(clean[0] == a[0]);
    assert(!seq!['^'].contains(clean[0])) by {
        if seq!['^'].contains(clean[0]) {
            let k = choose|k: int| 0 <= k < 1 && seq!['^'][k] == clean[0];
        }
    }
    assert(!seq!['='].contains(clean[0])) by {
        if seq!['='].contains(clean[0]) {
            let k = choose|k: int| 0 <= k < 1 && seq!['='][k] == clean[0];
        }
    }
    assert(strip_start(clean, seq!['^']) == clean);
    assert(strip_start(clean, seq!['=']) == clean);
    if has_two_dots(clean) {
        let (i, j) = choose|i: int, j: int|
            #![trigger clean[i], clean[j]]
            0 <= i < j < clean.len() && clean[i] == '.' && clean[j] == '.';
        if clean == a {
            assert(a[i] == '.');
        } else {
            let b = decimal(mi);
            if i < a.len() {
                assert(a[i] == clean[i]);
            } else {
                assert(j > a.len());
                assert(b[j - a.len() - 1] == clean[j]);
            }
        }
    }
}

/// A requirement that gives only the major number of the latest release
/// (`1` for 1.2.0), or its major and minor numbers (`1.2`), and that is not
/// itself a full version, is up to date with that release.
pub proof fn law_shorthand_requirement_is_up_to_date(req: Seq<char>, vs: Seq<SpecVersionInfo>, i: int)
    requires
        latest_index(vs) == Some(i),
        vs[i].parsed is Some,
        semver_parse(vs[i].parsed->0) is Some,
        ({
            let (ma, mi, _) = numbers(semver_parse(vs[i].parsed->0));
            clean_requirement(req) == decimal(ma as nat) || clean_requirement(req) == decimal(
                ma as nat,
            ) + seq!['.'] + decimal(mi as nat)
        }),
        semver_parse(clean_requirement(req)) is None,
    ensures
        version_status(req, vs) == (SpecVersionStatus::UpToDate {
            current: clean_requirement(req),
            latest: vs[i].version,
        }),
{
    let (ma, mi, _) = numbers(semver_parse(vs[i].parsed->0));
    lemma_shorthand_text(ma as nat, mi as nat, clean_requirement(req));
    lemma_decimal_digits(ma as nat);
}

/// How the requirement `req` compares with the published versions `vs`
/// (listed latest first).
pub open spec fn version_status(req: Seq<char>, vs: Seq<SpecVersionInfo>) -> SpecVersionStatus {
    let clean = clean_requirement(req);
    if clean.len() == 0 {
        SpecVersionStatus::Invalid { current: clean }
    } else {
        match latest_index(vs) {
            None => SpecVersionStatus::NotFound { current: clean },
            Some(li) => {
                let latest = vs[li].version;
                if clean == latest {
                    SpecVersionStatus::UpToDate { current: clean, latest: latest }
                } else {
                    match vs[li].parsed {
                        None => SpecVersionStatus::Outdated {
                            current: clean,
                            latest: latest,
                            newer_versions_count: 1,
                        },
                        Some(lt) => {
                            let nc = without_operator(clean);
                            if semver_parse(nc) is Some {
                                let o = semver_order(nc, lt);
                                if o < 0 {
                                    SpecVersionStatus::Outdated {
                                        current: clean,
                                        latest: latest,
                                        newer_versions_count: at_least_one(count_newer(vs, nc)),
                                    }
                                } else if o == 0 {
                                    SpecVersionStatus::UpToDate { current: clean, latest: latest }
                                } else {
                                    SpecVersionStatus::PreRelease {
                                        current: clean,
                                        latest_stable: latest,
                                    }
                                }
                            } else if is_shorthand_of(clean, lt) {
                                SpecVersionStatus::UpToDate { current: clean, latest: latest }
                            } else {
                                SpecVersionStatus::Outdated {
                                    current: clean,
                                    latest: latest,
                                    newer_versions_count: at_least_one(count_released(vs)),
                                }
                            }
                        },
                    }
                }
            },
        }
    }
}

pub(crate) fn first_candidate_exec(vs: &[CrateVersionInfo], stable_only: bool) -> (r: Option<usize>)
    ensures
        match r {
            Some(i) => i < vs@.len() && first_candidate_from(infos_view(vs@), stable_only, 0) == Some(
                i as int,
            ),
            None => first_candidate_from(infos_view(vs@), stable_only, 0) is None,
        },
{
    let ghost iv = infos_view(vs@);
    let mut i: usize = 0;
    while i < vs.len()
        invariant
            iv == infos_view(vs@),
            i <= vs@.len(),
            first_candidate_from(iv, stable_only, 0) == first_candidate_from(iv, stable_only, i as int),
        decreases vs@.len() - i,
    {
        assert(iv[i as int] == vs@[i as int]@);
        if !vs[i].yanked && (!stable_only || !vs[i].is_prerelease) {
            return Some(i);
        }
        i = i + 1;
    }
    None
}

fn count_newer_exec(vs: &[CrateVersionInfo], cur: &ParsedVersion) -> (r: usize)
    ensures
        r == count_newer(infos_view(vs@), cur.text()),
        r <= vs@.len(),
{
    let ghost iv = infos_view(vs@);
    let mut n: usize = 0;
    let mut i: usize = 0;
    assert(iv.take(0) =~= Seq::<SpecVersionInfo>::empty());
    while i < vs.len()
        invariant
            iv == infos_view(vs@),
            i <= vs@.len(),
            n <= i,
            n == count_newer(iv.take(i as int), cur.text()),
        decreases vs@.len() - i,
    {
        assert(iv[i as int] == vs@[i as int]@);
        assert(iv.take(i + 1).drop_last() =~= iv.take(i as int));
        if !vs[i].yanked {
            if let Some(p) = &vs[i].parsed {
                if p.order(cur) > 0 {
                    n = n + 1;
                }
            }
        }
        i = i + 1;
    }
    assert(iv.take(vs@.len() as int) =~= iv);
    n
}

fn count_released_exec(vs: &[CrateVersionInfo]) -> (r: usize)
    ensures
        r == count_released(infos_view(vs@)),
{
    let ghost iv = infos_view(vs@);
    let mut n: usize = 0;
    let mut i: usize = 0;
    assert(iv.take(0) =~= Seq::<SpecVersionInfo>::empty());
    while i < vs.len()
        invariant
            iv == infos_view(vs@),
            i <= vs@.len(),
            n <= i,
            n == count_released(iv.take(i as int)),
        decreases vs@.len() - i,
    {
        assert(iv[i as int] == vs@[i as int]@);
        assert(iv.take(i + 1).drop_last() =~= iv.take(i as int));
        if !vs[i].yanked {
            n = n + 1;
        }
        i = i + 1;
    }
    assert(iv.take(vs@.len() as int) =~= iv);
    n
}

/// Whether a requirement is up to date, outdated (with how many newer
/// versions were released), ahead of the latest stable release, unknown to the
/// registry, or empty.
pub fn version_status_of(current_req_str: &str, versions: &[CrateVersionInfo]) -> (r: VersionStatus)
    ensures
        r@ == version_status(current_req_str@, infos_view(versions@)),
        latest_index(infos_view(versions@)) matches Some(i) ==> (versions@[i].parsed matches Some(
            lt,
        ) ==> (({
            let (ma, mi, _) = numbers(semver_parse(lt.text()));
            let clean = clean_requirement(current_req_str@);
            clean == decimal(ma as nat) || clean == decimal(ma as nat) + seq!['.'] + decimal(
                mi as nat,
            )
        }) ==> r@ == (SpecVersionStatus::UpToDate {
            current: clean_requirement(current_req_str@),
            latest: versions@[i].version@,
        }))),
{
    let ghost iv = infos_view(versions@);
    let req = chars_of(current_req_str);
    let t = trimmed(req.as_slice());
    let dq = vec!['"'];
    assert(dq@ =~= seq!['"']);
    let clean = stripped_both(t.as_slice(), dq.as_slice());
    if clean.len() == 0 {
        return VersionStatus::Invalid { current: string_from_chars(clean.as_slice()) };
    }
    let li = match first_candidate_exec(versions, true) {
        Some(i) => i,
        None => match first_candidate_exec(versions, false) {
            Some(i) => i,
            None => {
                if versions.len() > 0 {
                    0
                } else {
                    return VersionStatus::NotFound { current: string_from_chars(clean.as_slice()) };
                }
            },
        },
    };
    assert(iv[li as int] == versions@[li as int]@);
    let lv = &versions[li];
    let latest = lv.version.clone();
    let latest_chars = chars_of(latest.as_str());
    if chars_eq(clean.as_slice(), latest_chars.as_slice()) {
        return VersionStatus::UpToDate { current: string_from_chars(clean.as_slice()), latest };
    }
    match &lv.parsed {
        None => VersionStatus::Outdated {
            current: string_from_chars(clean.as_slice()),
            latest,
            newer_versions_count: 1,
        },
        Some(latest_v) => {
            let caret = vec!['^'];
            let eqs = vec!['='];
            assert(caret@ =~= seq!['^']);
            assert(eqs@ =~= seq!['=']);
            let c1 = stripped_start(clean.as_slice(), caret.as_slice());
            let nc = stripped_start(c1.as_slice(), eqs.as_slice());
            let nc_str = string_from_chars(nc.as_slice());
            let parsed_nc = ParsedVersion::parse(nc_str.as_str());
            proof {
                let (ma, mi, _) = numbers(semver_parse(latest_v.text()));
                let cl = clean_requirement(current_req_str@);
                if cl == decimal(ma as nat) || cl == decimal(ma as nat) + seq!['.'] + decimal(
                    mi as nat,
                ) {
                    lemma_shorthand_text(ma as nat, mi as nat, cl);
                }
            }
            match parsed_nc {
                Some(current_v) => {
                    let o = current_v.order(latest_v);
                    if o < 0 {
                        let n = count_newer_exec(versions, &current_v);
                        VersionStatus::Outdated {
                            current: string_from_chars(clean.as_slice()),
                            latest,
                            newer_versions_count: if n < 1 {
                                1
                            } else {
                                n
                            },
                        }
                    } else if o == 0 {
                        VersionStatus::UpToDate { current: string_from_chars(clean.as_slice()), latest }
                    } else {
                        VersionStatus::PreRelease {
                            current: string_from_chars(clean.as_slice()),
                            latest_stable: latest,
                        }
                    }
                },
                None => {
                    let ma = decimal_chars(latest_v.major());
                    let mut mm = decimal_chars(latest_v.major());
                    mm.push('.');
                    let mut mi = decimal_chars(latest_v.minor());
                    mm.append(&mut mi);
                    assert(mm@ =~= decimal(numbers(semver_parse(latest_v.text())).0 as nat) + seq!['.']
                        + decimal(numbers(semver_parse(latest_v.text())).1 as nat));
                    if chars_eq(clean.as_slice(), ma.as_slice()) || chars_eq(
                        clean.as_slice(),
                        mm.as_slice(),
                    ) {
                        VersionStatus::UpToDate { current: string_from_chars(clean.as_slice()), latest }
                    } else {
                        let n = count_released_exec(versions);
                        VersionStatus::Outdated {
                            current: string_from_chars(clean.as_slice()),
                            latest,
                            newer_versions_count: if n < 1 {
                                1
                            } else {
                                n
                            },
                        }
                    }
                },
            }
        },
    }
}

} // verus!
