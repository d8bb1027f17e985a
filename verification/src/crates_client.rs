//! The decisions of the crates.io client: where a crate's index file lives,
//! how queries are encoded, how search results merge, how the index is read
//! and whether a requirement is up to date. The network and the caches
//! themselves are driven by the application.
use vstd::prelude::*;
use vstd::slice::slice_subrange;
use vstd::slice::slice_to_vec;
use crate::text::{
    all_ascii, ascii_lower, ascii_lowercase, chars_of, string_from_chars, lowercase, to_lowercase, utf8_len, utf8_len_exec, trim, trimmed,
    lines_of, views, split_lines, chars_eq,
};
use crate::toml_model::{byte_prefix, is_byte_boundary, chars_within_from};
use crate::popular_crates::{popular_view, popular_search, search_popular_crates};
use crate::versions::{
    CrateVersionInfo, SparseIndexLine, VersionStatus, SpecVersionInfo, infos_view, info_of,
    str_opt_view, listed_in_order, sort_versions, version_status, version_status_of,
};

verus! {

// ---------------------------------------------------------------------------
// Data of the crates.io API
// ---------------------------------------------------------------------------

/// The answer of `GET /api/v1/crates/{name}`.
#[derive(Debug)]
pub struct CrateMetaResponse {
    pub krate: CrateMeta,
}

/// A crate's metadata on crates.io.
#[derive(Debug)]
pub struct CrateMeta {
    pub id: String,
    pub name: String,
    pub max_version: String,
    pub description: Option<String>,
    pub homepage: Option<String>,
    pub documentation: Option<String>,
    pub repository: Option<String>,
    pub downloads: Option<u64>,
}

/// The answer of `GET /api/v1/crates?q=...`.
#[derive(Debug)]
pub struct SearchApiResponse {
    pub crates: Vec<SearchCrateItem>,
}

/// A crate found by a search.
#[derive(Debug)]
pub struct SearchCrateItem {
    pub name: String,
    pub max_version: String,
    pub description: Option<String>,
}

/// A search result, as plain values.
pub struct SpecItem {
    pub name: Seq<char>,
    pub max_version: Seq<char>,
    pub description: Option<Seq<char>>,
}

impl View for SearchCrateItem {
    type V = SpecItem;

    open spec fn view(&self) -> SpecItem {
        SpecItem {
            name: self.name@,
            max_version: self.max_version@,
            description: str_opt_view(self.description),
        }
    }
}

pub open spec fn items_view(s: Seq<SearchCrateItem>) -> Seq<SpecItem> {
    s.map_values(|x: SearchCrateItem| x@)
}

// ---------------------------------------------------------------------------
// Specifications
// ---------------------------------------------------------------------------

/// Bytes `a..b` of `s`.
pub open spec fn byte_slice(s: Seq<char>, a: int, b: int) -> Seq<char> {
    byte_prefix(s, b).skip(byte_prefix(s, a).len() as int)
}

/// Whether the sparse-index path of a lowercase name can be formed: the name is
/// not empty and the byte offsets it is cut at fall on character boundaries.
pub open spec fn sparse_path_defined(lower: Seq<char>) -> bool {
    let n = utf8_len(lower);
    &&& n >= 1
    &&& n == 3 ==> is_byte_boundary(lower, 1)
    &&& n >= 4 ==> is_byte_boundary(lower, 2) && is_byte_boundary(lower, 4)
}

/// The path of a crate's file in the sparse index (RFC 2789), from its lowercase name.
pub open spec fn sparse_path(lower: Seq<char>) -> Seq<char> {
    let n = utf8_len(lower);
    if n == 1 {
        "1/"@ + lower
    } else if n == 2 {
        "2/"@ + lower
    } else if n == 3 {
        "3/"@ + byte_prefix(lower, 1) + "/"@ + lower
    } else {
        byte_prefix(lower, 2) + "/"@ + byte_slice(lower, 2, 4) + "/"@ + lower
    }
}

/// The ASCII lowercase of ASCII text is ASCII text of the same length, and
/// lowering it again changes nothing.
pub proof fn lemma_ascii_lowercase(s: Seq<char>)
    requires
        all_ascii(s),
    ensures
        all_ascii(ascii_lowercase(s)),
        ascii_lowercase(s).len() == s.len(),
        ascii_lowercase(ascii_lowercase(s)) == ascii_lowercase(s),
{
    let l = ascii_lowercase(s);
    assert forall|i: int| 0 <= i < l.len() implies (#[trigger] l[i] as u32) < 0x80
        && ascii_lower(l[i]) == l[i] by {
        assert((s[i] as u32) < 0x80);
    }
    assert(ascii_lowercase(l) =~= l);
}

/// In ASCII text, the first `b` bytes are the first `b` characters.
pub proof fn lemma_ascii_byte_prefix(s: Seq<char>, b: int)
    requires
        all_ascii(s),
        0 <= b <= s.len(),
    ensures
        byte_prefix(s, b) == s.take(b),
        is_byte_boundary(s, b),
        utf8_len(s) == s.len(),
{
    crate::edit_laws::lemma_ascii_boundary(s, b);
    let m = chars_within_from(s, b, 0);
    crate::toml_model::lemma_chars_within_from_bounds(s, b, 0);
    crate::edit_laws::lemma_ascii_lengths(s, m);
}

/// The sparse-index path of an ASCII name is cut by characters (RFC 2789):
/// `1/a`, `2/ab`, `3/a/abc`, and otherwise the first two characters, the next
/// two and the name, each part lowercased.
pub proof fn law_ascii_sparse_path(name: Seq<char>)
    requires
        all_ascii(name),
        name.len() >= 1,
    ensures
        sparse_path_defined(ascii_lowercase(name)),
        ({
            let l = ascii_lowercase(name);
            sparse_path(l) == if l.len() == 1 {
                "1/"@ + l
            } else if l.len() == 2 {
                "2/"@ + l
            } else if l.len() == 3 {
                "3/"@ + l.take(1) + "/"@ + l
            } else {
                l.take(2) + "/"@ + l.subrange(2, 4) + "/"@ + l
            }
        }),
{
    let l = ascii_lowercase(name);
    lemma_ascii_lowercase(name);
    lemma_ascii_byte_prefix(l, 1);
    if l.len() >= 2 {
        lemma_ascii_byte_prefix(l, 2);
    }
    if l.len() >= 4 {
        lemma_ascii_byte_prefix(l, 4);
        assert(byte_slice(l, 2, 4) =~= l.subrange(2, 4));
    }
}

/// Whether a byte is sent as itself in a query string.
pub open spec fn is_unreserved(b: u8) -> bool {
    (97 <= b <= 122) || (65 <= b <= 90) || (48 <= b <= 57) || b == 45 || b == 95 || b == 46
}

/// The upper-case hexadecimal digit `d` (0 to 15).
pub open spec fn hex_digit(d: int) -> char {
    if d < 10 {
        crate::versions::digit_char(d)
    } else if d == 10 {
        'A'
    } else if d == 11 {
        'B'
    } else if d == 12 {
        'C'
    } else if d == 13 {
        'D'
    } else if d == 14 {
        'E'
    } else {
        'F'
    }
}

/// How one byte is written in a query string: itself, `+` for a space, else `%XX`.
pub open spec fn encode_byte(b: u8) -> Seq<char> {
    if is_unreserved(b) {
        seq![b as char]
    } else if b == 32 {
        seq!['+']
    } else {
        seq!['%', hex_digit((b / 16) as int), hex_digit((b % 16) as int)]
    }
}

/// A text's UTF-8 bytes, encoded for a query string.
pub open spec fn query_encoding(bytes: Seq<u8>) -> Seq<char>
    decreases bytes.len(),
{
    if bytes.len() == 0 {
        seq![]
    } else {
        query_encoding(bytes.drop_last()) + encode_byte(bytes.last())
    }
}

/// The API results that are not yet among the names seen, in order; each
/// added name is seen from then on.
pub open spec fn new_results(seen: Seq<Seq<char>>, api: Seq<SpecItem>) -> Seq<SpecItem>
    decreases api.len(),
{
    if api.len() == 0 {
        seq![]
    } else if seen.contains(api[0].name) {
        new_results(seen, api.drop_first())
    } else {
        seq![api[0]] + new_results(seen.push(api[0].name), api.drop_first())
    }
}

/// The names of search results.
pub open spec fn names_of(s: Seq<SpecItem>) -> Seq<Seq<char>> {
    s.map_values(|x: SpecItem| x.name)
}

/// The search results for the popular crates that match a query.
pub open spec fn popular_items(q: Seq<char>) -> Seq<SpecItem> {
    popular_search(q).map_values(
        |c: (Seq<char>, Seq<char>)|
            SpecItem { name: c.0, max_version: Seq::<char>::empty(), description: Some(c.1) },
    )
}

/// The non-blank lines of an index file, trimmed.
pub open spec fn index_entries(lines: Seq<Seq<char>>) -> Seq<Seq<char>>
    decreases lines.len(),
{
    if lines.len() == 0 {
        seq![]
    } else if trim(lines.last()).len() == 0 {
        index_entries(lines.drop_last())
    } else {
        index_entries(lines.drop_last()).push(trim(lines.last()))
    }
}

// ---------------------------------------------------------------------------
// The client's decisions
// ---------------------------------------------------------------------------

/// The crates.io client's own state: how long answers stay cached.
pub struct CratesClient {
    cache_ttl_nanos: u128,
}

/// A character for an unreserved byte.
fn byte_char(b: u8) -> (c: char)
    requires
        is_unreserved(b),
    ensures
        c == b as char,
{
    b as char
}

fn hex_digit_exec(d: u8) -> (c: char)
    requires
        d < 16,
    ensures
        c == hex_digit(d as int),
{
    if d < 10 {
        crate::versions::digit_char_exec(d)
    } else if d == 10 {
        'A'
    } else if d == 11 {
        'B'
    } else if d == 12 {
        'C'
    } else if d == 13 {
        'D'
    } else if d == 14 {
        'E'
    } else {
        'F'
    }
}

/// Encode a text for a query string: bytes `a-z A-Z 0-9 - _ .` as themselves,
/// a space as `+`, every other byte as `%XX`.
pub fn urlencoding_query(s: &str) -> (r: String)
    ensures
        r@ == query_encoding(vstd::utf8::encode_utf8(s@)),
{
    let bytes = s.as_bytes();
    let mut out: Vec<char> = Vec::new();
    let mut i: usize = 0;
    assert(bytes@.take(0) =~= Seq::<u8>::empty());
    while i < bytes.len()
        invariant
            i <= bytes@.len(),
            out@ == query_encoding(bytes@.take(i as int)),
        decreases bytes@.len() - i,
    {
        let b = bytes[i];
        assert(bytes@.take(i + 1).drop_last() =~= bytes@.take(i as int));
        let ghost before = out@;
        if (b >= 97 && b <= 122) || (b >= 65 && b <= 90) || (b >= 48 && b <= 57) || b == 45 || b
            == 95 || b == 46 {
            out.push(byte_char(b));
        } else if b == 32 {
            out.push('+');
        } else {
            out.push('%');
            out.push(hex_digit_exec(b / 16));
            out.push(hex_digit_exec(b % 16));
        }
        assert(out@ =~= before + encode_byte(b));
        i = i + 1;
    }
    assert(bytes@.take(bytes@.len() as int) =~= bytes@);
    string_from_chars(out.as_slice())
}

fn lit(s: &str) -> (v: Vec<char>)
    ensures
        v@ == s@,
{
    chars_of(s)
}

fn concat(a: &[char], b: &[char]) -> (r: Vec<char>)
    ensures
        r@ == a@ + b@,
{
    let mut v = slice_to_vec(a);
    let mut w = slice_to_vec(b);
    v.append(&mut w);
    v
}

/// The characters of `s` that fit in `b` bytes, as a vector.
fn byte_prefix_vec(s: &[char], b: u128) -> (r: Vec<char>)
    requires
        b <= 4,
    ensures
        r@ == byte_prefix(s@, b as int),
{
    let len = s.len();
    let mut k: usize = 0;
    let mut acc: u128 = 0;
    let mut done = false;
    assert(s@.take(0) =~= Seq::<char>::empty());
    while k < len && !done
        invariant
            b <= 4,
            len == s@.len(),
            k <= len,
            acc == utf8_len(s@.take(k as int)),
            acc <= b,
            done ==> chars_within_from(s@, b as int, 0) == k,
            !done ==> chars_within_from(s@, b as int, 0) == chars_within_from(s@, b as int, k as int),
        decreases len - k, if done { 0int } else { 1int },
    {
        proof {
            crate::text::lemma_utf8_len_take_step(s@, k as int);
        }
        let w = crate::text::char_len_utf8(s[k]) as u128;
        if acc + w > b {
            done = true;
        } else {
            acc = acc + w;
            k = k + 1;
        }
    }
    slice_to_vec(slice_subrange(s, 0, k))
}

fn byte_boundary_exec(s: &[char], b: u128) -> (r: bool)
    requires
        b <= 4,
    ensures
        r == is_byte_boundary(s@, b as int),
{
    let p = byte_prefix_vec(s, b);
    utf8_len_exec(p.as_slice()) == b
}

impl CratesClient {
    /// A client whose answers stay cached for ten minutes.
    pub fn new() -> (r: Self)
        ensures
            r.cache_ttl() == 600_000_000_000,
    {
        CratesClient { cache_ttl_nanos: 600_000_000_000 }
    }

    /// How long answers stay cached, in nanoseconds.
    pub closed spec fn cache_ttl(&self) -> u128 {
        self.cache_ttl_nanos
    }

    /// Whether a cached answer of the given age (in nanoseconds) may still be used.
    pub fn is_fresh(&self, elapsed_nanos: u128) -> (r: bool)
        ensures
            r == (elapsed_nanos < self.cache_ttl()),
    {
        elapsed_nanos < self.cache_ttl_nanos
    }

    /// Convert a crate name to its sparse index path (RFC 2789): `1/a`,
    /// `2/ab`, `3/a/abc`, `se/rd/serde`.
    pub fn sparse_index_path(name: &str) -> (r: String)
        requires
            sparse_path_defined(lowercase(name@)),
        ensures
            r@ == sparse_path(lowercase(name@)),
            all_ascii(name@) ==> r@ == sparse_path(ascii_lowercase(name@)),
    {
        let lower_s = to_lowercase(name);
        let lower = chars_of(lower_s.as_str());
        proof {
            crate::text::lemma_utf8_len_le(lower@);
        }
        let n = utf8_len_exec(lower.as_slice());
        if n == 1 {
            string_from_chars(concat(lit("1/").as_slice(), lower.as_slice()).as_slice())
        } else if n == 2 {
            string_from_chars(concat(lit("2/").as_slice(), lower.as_slice()).as_slice())
        } else if n == 3 {
            let first = byte_prefix_vec(lower.as_slice(), 1);
            let a = concat(lit("3/").as_slice(), first.as_slice());
            let b = concat(a.as_slice(), lit("/").as_slice());
            string_from_chars(concat(b.as_slice(), lower.as_slice()).as_slice())
        } else {
            let p2 = byte_prefix_vec(lower.as_slice(), 2);
            let p4 = byte_prefix_vec(lower.as_slice(), 4);
            proof {
                crate::toml_model::lemma_chars_within_from_bounds(lower@, 2, 0);
                crate::toml_model::lemma_chars_within_from_bounds(lower@, 4, 0);
                crate::line_index::lemma_chars_before_mono(lower@, 2, 4);
            }
            let mid = slice_subrange(p4.as_slice(), p2.len(), p4.len());
            assert(mid@ == byte_slice(lower@, 2, 4));
            let a = concat(p2.as_slice(), lit("/").as_slice());
            let b = concat(a.as_slice(), mid);
            let c = concat(b.as_slice(), lit("/").as_slice());
            string_from_chars(concat(c.as_slice(), lower.as_slice()).as_slice())
        }
    }

    /// The sparse index path of a crate name, or `None` where the name cannot
    /// be cut into one (it is empty, or its lowercase form is cut inside a character).
    pub fn try_sparse_index_path(name: &str) -> (r: Option<String>)
        ensures
            sparse_path_defined(lowercase(name@)) ==> (r matches Some(p) && p@ == sparse_path(
                lowercase(name@),
            )),
            !sparse_path_defined(lowercase(name@)) ==> r is None,
            all_ascii(name@) ==> (r is Some <==> name@.len() >= 1),
            all_ascii(name@) && name@.len() >= 1 ==> (r matches Some(p) && p@ == sparse_path(
                ascii_lowercase(name@),
            )),
    {
        proof {
            if all_ascii(name@) && name@.len() >= 1 {
                law_ascii_sparse_path(name@);
            }
            if all_ascii(name@) && name@.len() == 0 {
                assert(utf8_len(ascii_lowercase(name@)) == 0);
            }
        }
        let lower_s = to_lowercase(name);
        let lower = chars_of(lower_s.as_str());
        proof {
            crate::text::lemma_utf8_len_le(lower@);
        }
        let n = utf8_len_exec(lower.as_slice());
        let ok = n >= 1 && (n != 3 || byte_boundary_exec(lower.as_slice(), 1)) && (n < 4 || (
        byte_boundary_exec(lower.as_slice(), 2) && byte_boundary_exec(lower.as_slice(), 4)));
        if ok {
            Some(Self::sparse_index_path(name))
        } else {
            None
        }
    }

    /// The URL of a crate's file in the sparse index, or `None` where its name
    /// has no sparse index path.
    pub fn index_url(crate_name: &str) -> (r: Option<String>)
        ensures
            sparse_path_defined(lowercase(lowercase(crate_name@))) ==> (r matches Some(u) && u@
                == "https://index.crates.io/"@ + sparse_path(lowercase(lowercase(crate_name@)))),
            !sparse_path_defined(lowercase(lowercase(crate_name@))) ==> r is None,
            all_ascii(crate_name@) ==> (r is Some <==> crate_name@.len() >= 1),
            all_ascii(crate_name@) && crate_name@.len() >= 1 ==> (r matches Some(u) && u@
                == "https://index.crates.io/"@ + sparse_path(ascii_lowercase(crate_name@))),
    {
        let lower = to_lowercase(crate_name);
        proof {
            if all_ascii(crate_name@) {
                lemma_ascii_lowercase(crate_name@);
            }
        }
        match Self::try_sparse_index_path(lower.as_str()) {
            Some(p) => {
                let u = concat(lit("https://index.crates.io/").as_slice(), chars_of(p.as_str()).as_slice());
                Some(string_from_chars(u.as_slice()))
            },
            None => None,
        }
    }

    /// The URL of a crate's metadata on crates.io.
    pub fn metadata_url(crate_name: &str) -> (r: String)
        ensures
            r@ == "https://crates.io/api/v1/crates/"@ + lowercase(crate_name@),
            all_ascii(crate_name@) ==> r@ == "https://crates.io/api/v1/crates/"@ + ascii_lowercase(
                crate_name@,
            ),
    {
        let lower = to_lowercase(crate_name);
        let u = concat(lit("https://crates.io/api/v1/crates/").as_slice(), chars_of(lower.as_str()).as_slice());
        string_from_chars(u.as_slice())
    }

    /// The URL of a crates.io search for a query (ten results).
    pub fn search_url(query: &str) -> (r: String)
        ensures
            r@ == "https://crates.io/api/v1/crates?q="@ + query_encoding(vstd::utf8::encode_utf8(query@))
                + "&per_page=10"@,
    {
        let q = urlencoding_query(query);
        let a = concat(lit("https://crates.io/api/v1/crates?q=").as_slice(), chars_of(q.as_str()).as_slice());
        let b = concat(a.as_slice(), lit("&per_page=10").as_slice());
        string_from_chars(b.as_slice())
    }

    /// Whether a search asks crates.io too: when the query is not blank.
    pub fn should_search_api(query: &str) -> (r: bool)
        ensures
            r == (trim(query@).len() > 0),
    {
        let q = chars_of(query);
        trimmed(q.as_slice()).len() > 0
    }

    /// The search results that the popular crates give for a query.
    pub fn popular_search_items(query: &str) -> (r: Vec<SearchCrateItem>)
        ensures
            items_view(r@) == popular_items(query@),
    {
        let found = search_popular_crates(query);
        let ghost fv = popular_view(found@);
        let mut out: Vec<SearchCrateItem> = Vec::new();
        let mut i: usize = 0;
        while i < found.len()
            invariant
                fv == popular_view(found@),
                fv == popular_search(query@),
                i <= found@.len(),
                items_view(out@) == popular_items(query@).take(i as int),
            decreases found@.len() - i,
        {
            let c = found[i];
            assert(fv[i as int] == c@);
            let ghost before = items_view(out@);
            out.push(
                SearchCrateItem {
                    name: String::from_str(c.name),
                    max_version: String::new(),
                    description: Some(String::from_str(c.description)),
                },
            );
            assert(items_view(out@) =~= before.push(popular_items(query@)[i as int]));
            assert(popular_items(query@).take(i + 1) =~= popular_items(query@).take(i as int).push(
                popular_items(query@)[i as int],
            ));
            i = i + 1;
        }
        assert(popular_items(query@).take(found@.len() as int) =~= popular_items(query@));
        out
    }

    /// Add the crates.io results to the popular ones, skipping names already listed.
    pub fn merge_search_results(results: Vec<SearchCrateItem>, api: Vec<SearchCrateItem>) -> (r: Vec<
        SearchCrateItem,
    >)
        ensures
            items_view(r@) == items_view(results@) + new_results(
                names_of(items_view(results@)),
                items_view(api@),
            ),
    {
        let ghost rv = items_view(results@);
        let ghost av = items_view(api@);
        let mut seen: Vec<Vec<char>> = Vec::new();
        let mut k: usize = 0;
        while k < results.len()
            invariant
                rv == items_view(results@),
                k <= results@.len(),
                views(seen@) == names_of(rv).take(k as int),
            decreases results@.len() - k,
        {
            assert(rv[k as int] == results@[k as int]@);
            let ghost before = views(seen@);
            seen.push(chars_of(results[k].name.as_str()));
            assert(views(seen@) =~= before.push(rv[k as int].name));
            assert(names_of(rv).take(k + 1) =~= names_of(rv).take(k as int).push(rv[k as int].name));
            k = k + 1;
        }
        assert(names_of(rv).take(results@.len() as int) =~= names_of(rv));
        let mut out = results;
        let mut rest: Vec<SearchCrateItem> = Vec::new();
        let taken = api;
        assert(items_view(taken@) =~= av);
        let ghost names0 = names_of(rv);
        let mut j: usize = 0;
        assert(av.skip(0) =~= av);
        while j < taken.len()
            invariant
                av == items_view(taken@),
                j <= taken@.len(),
                new_results(names0, av) == items_view(rest@) + new_results(views(seen@), av.skip(j as int)),
            decreases taken@.len() - j,
        {
            assert(av[j as int] == taken@[j as int]@);
            assert(av.skip(j as int).drop_first() =~= av.skip(j + 1));
            assert(av.skip(j as int)[0] == av[j as int]);
            let name = chars_of(taken[j].name.as_str());
            let mut found = false;
            let mut s: usize = 0;
            while s < seen.len()
                invariant
                    s <= seen@.len(),
                    found <==> exists|x: int| 0 <= x < s && seen@[x]@ == name@,
                decreases seen@.len() - s,
            {
                if chars_eq(seen[s].as_slice(), name.as_slice()) {
                    found = true;
                }
                s = s + 1;
            }
            proof {
                if found {
                    let x = choose|x: int| 0 <= x < seen@.len() && seen@[x]@ == name@;
                    assert(views(seen@)[x] == name@);
                } else {
                    assert forall|x: int| 0 <= x < views(seen@).len() implies views(seen@)[x] != name@ by {
                        assert(views(seen@)[x] == seen@[x]@);
                    }
                }
            }
            if !found {
                let ghost sv = views(seen@);
                let ghost r0 = items_view(rest@);
                seen.push(name);
                assert(views(seen@) =~= sv.push(av[j as int].name));
                let it = SearchCrateItem {
                    name: taken[j].name.clone(),
                    max_version: taken[j].max_version.clone(),
                    description: crate::toml_parser::clone_opt_string(&taken[j].description),
                };
                rest.push(it);
                assert(items_view(rest@) =~= r0.push(av[j as int]));
                assert(r0 + (seq![av[j as int]] + new_results(views(seen@), av.skip(j + 1))) =~= r0.push(
                    av[j as int],
                ) + new_results(views(seen@), av.skip(j + 1)));
            }
            j = j + 1;
        }
        assert(new_results(views(seen@), av.skip(j as int)) =~= Seq::<SpecItem>::empty());
        let ghost o0 = items_view(out@);
        let ghost r0 = items_view(rest@);
        out.append(&mut rest);
        assert(items_view(out@) =~= o0 + r0);
        out
    }

    /// The entries of an index file: its lines, trimmed, blank ones left out.
    pub fn index_lines(body: &str) -> (r: Vec<String>)
        ensures
            r@.map_values(|s: String| s@) == index_entries(lines_of(body@)),
    {
        let chars = chars_of(body);
        let lines = split_lines(chars.as_slice());
        let ghost ls = views(lines@);
        let mut out: Vec<String> = Vec::new();
        let mut i: usize = 0;
        assert(ls.take(0) =~= Seq::<Seq<char>>::empty());
        while i < lines.len()
            invariant
                ls == views(lines@),
                i <= lines@.len(),
                out@.map_values(|s: String| s@) == index_entries(ls.take(i as int)),
            decreases lines@.len() - i,
        {
            assert(ls[i as int] == lines@[i as int]@);
            assert(ls.take(i + 1).drop_last() =~= ls.take(i as int));
            let t = trimmed(lines[i].as_slice());
            if t.len() > 0 {
                let ghost before = out@.map_values(|s: String| s@);
                out.push(string_from_chars(t.as_slice()));
                assert(out@.map_values(|s: String| s@) =~= before.push(t@));
            }
            i = i + 1;
        }
        assert(ls.take(lines@.len() as int) =~= ls);
        out
    }

    /// The versions that index lines describe, in listing order: released
    /// before yanked, parsed versions newest first, the rest by text in reverse.
    pub fn versions_from_entries(entries: Vec<SparseIndexLine>) -> (r: Vec<CrateVersionInfo>)
        ensures
            infos_view(r@).to_multiset() == entries@.map_values(
                |e: SparseIndexLine| info_of(e.vers@, e.yanked, str_opt_view(e.pubtime)),
            ).to_multiset(),
            listed_in_order(infos_view(r@)),
    {
        let ghost ev = entries@.map_values(
            |e: SparseIndexLine| info_of(e.vers@, e.yanked, str_opt_view(e.pubtime)),
        );
        let mut infos: Vec<CrateVersionInfo> = Vec::new();
        let mut entries = entries;
        let mut rev: Vec<CrateVersionInfo> = Vec::new();
        // consume the entries from the back, then restore their order
        while entries.len() > 0
            invariant
                infos_view(rev@) + entries@.map_values(
                    |e: SparseIndexLine| info_of(e.vers@, e.yanked, str_opt_view(e.pubtime)),
                ).reverse() == ev.reverse(),
            decreases entries@.len(),
        {
            let ghost before = entries@;
            let e = entries.pop().unwrap();
            let ghost f = |e: SparseIndexLine| info_of(e.vers@, e.yanked, str_opt_view(e.pubtime));
            let ghost iv = f(e);
            assert(entries@ =~= before.drop_last());
            assert(before.map_values(f) =~= entries@.map_values(f).push(iv));
            assert(before.map_values(f).reverse() =~= seq![iv] + entries@.map_values(f).reverse());
            let ghost r0 = infos_view(rev@);
            let info = CrateVersionInfo::from_index_line(e);
            rev.push(info);
            assert(infos_view(rev@) =~= r0.push(iv));
            assert(infos_view(rev@) + entries@.map_values(f).reverse() =~= r0 + before.map_values(
                f,
            ).reverse());
        }
        assert(infos_view(rev@) =~= ev.reverse());
        while rev.len() > 0
            invariant
                infos_view(infos@) + infos_view(rev@).reverse() == ev,
            decreases rev@.len(),
        {
            let ghost before = infos_view(rev@);
            let x = rev.pop().unwrap();
            assert(infos_view(rev@) =~= before.drop_last());
            assert(before =~= infos_view(rev@).push(x@));
            assert(before.reverse() =~= seq![x@] + infos_view(rev@).reverse());
            let ghost i0 = infos_view(infos@);
            infos.push(x);
            assert(infos_view(infos@) =~= i0.push(x@));
            assert(infos_view(infos@) + infos_view(rev@).reverse() =~= i0 + before.reverse());
        }
        assert(infos_view(rev@).reverse() =~= Seq::<SpecVersionInfo>::empty());
        assert(infos_view(infos@) =~= ev);
        sort_versions(&infos)
    }

    /// Check if the current version requirement is up to date or backdated.
    pub fn check_version_status(current_req_str: &str, versions: &[CrateVersionInfo]) -> (r:
        VersionStatus)
        ensures
            r@ == version_status(current_req_str@, infos_view(versions@)),
    {
        version_status_of(current_req_str, versions)
    }
}

} // verus!
