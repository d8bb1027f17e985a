//! The small web endpoint behind the version links of a hover: how a
//! request is read, which edit it asks for, and what is answered.
use vstd::prelude::*;
use vstd::slice::{slice_subrange, slice_to_vec};
use vstd::utf8::{valid_utf8, decode_utf8};
use crate::position::Range;
use crate::text::{
    chars_of, string_from_chars, lines_of, find_char, find_seq, find_char_in, find_char_exec,
    find_seq_exec, split_on, split_exec, views, chars_eq, push_str, push_chars, str_utf8_len,
    utf8_len, lemma_find_char_from_ge, lemma_find_char_from_some, lemma_find_seq_bound,
};
use crate::percent::{url_decode, url_decoded};
use crate::toml_model::{SpecDependency, dependencies_of};
use crate::toml_parser::{CargoTomlParser, opt_view, deps_view};
use crate::versions::{decimal, decimal_chars};

verus! {

// ---------------------------------------------------------------------------
// Outside calls
// ---------------------------------------------------------------------------

/// The text that `String::from_utf8_lossy` makes of some bytes.
pub uninterp spec fn lossy_utf8(bytes: Seq<u8>) -> Seq<char>;

/// `String::from_utf8_lossy`: the text of the bytes, each invalid sequence
/// replaced by U+FFFD. Stated: the result is `lossy_utf8` of the bytes, and
/// bytes that are valid UTF-8 give the text they encode; how invalid
/// sequences are replaced is left unsaid.
#[verifier::external_body]
fn request_text(bytes: &[u8]) -> (r: String)
    ensures
        r@ == lossy_utf8(bytes@),
        valid_utf8(bytes@) ==> r@ == decode_utf8(bytes@),
{
    String::from_utf8_lossy(bytes).into_owned()
}

/// The serialization of the URL that a text parses as, if it parses.
pub uninterp spec fn parsed_url(s: Seq<char>) -> Option<Seq<char>>;

/// `Url::parse` (of the `url` crate, re-exported by `tower_lsp`): the URL's
/// serialization when the text parses as a URL, else `None`. Which texts
/// parse and how they are normalized is the `url` crate's: it is only named.
#[verifier::external_body]
fn parse_url(s: &str) -> (r: Option<String>)
    ensures
        opt_view(r) == parsed_url(s@),
{
    match tower_lsp::lsp_types::Url::parse(s) {
        Ok(u) => Some(String::from(u.as_str())),
        Err(_) => None,
    }
}

// ---------------------------------------------------------------------------
// Reading a request
// ---------------------------------------------------------------------------

/// The first line of a text (empty for an empty text).
pub open spec fn first_line(t: Seq<char>) -> Seq<char> {
    if lines_of(t).len() > 0 {
        lines_of(t)[0]
    } else {
        Seq::empty()
    }
}

/// The query of a request whose first line asks for `/replace?`: from after
/// the `?` to the first space after it, or to the end of the line.
pub open spec fn replace_query(t: Seq<char>) -> Option<Seq<char>> {
    let line = first_line(t);
    match find_seq(line, "/replace?"@) {
        None => None,
        Some(s) => {
            let end = match find_char(line.subrange(s, line.len() as int), ' ') {
                Some(e) => s + e,
                None => line.len() as int,
            };
            Some(line.subrange(s + 9, end))
        },
    }
}

/// The parameters read so far.
pub struct SpecFields {
    pub uri: Option<Seq<char>>,
    pub crate_name: Option<Seq<char>>,
    pub version: Option<Seq<char>>,
}

/// A parameter's value, decoded (empty when it does not decode).
pub open spec fn decoded_or_empty(v: Seq<char>) -> Seq<char> {
    match url_decoded(v) {
        Some(d) => d,
        None => Seq::empty(),
    }
}

/// The parameters after one more `key=value` pair: `uri` (a URL), `crate`
/// and `version` are taken, the last one of each key wins; a pair without
/// `=` or with another key changes nothing.
pub open spec fn with_pair(f: SpecFields, pair: Seq<char>) -> SpecFields {
    match find_char(pair, '=') {
        None => f,
        Some(i) => {
            let k = pair.subrange(0, i);
            let v = decoded_or_empty(pair.subrange(i + 1, pair.len() as int));
            if k == "uri"@ {
                SpecFields { uri: parsed_url(v), crate_name: f.crate_name, version: f.version }
            } else if k == "crate"@ {
                SpecFields { uri: f.uri, crate_name: Some(v), version: f.version }
            } else if k == "version"@ {
                SpecFields { uri: f.uri, crate_name: f.crate_name, version: Some(v) }
            } else {
                f
            }
        },
    }
}

/// The parameters of a sequence of `key=value` pairs, read in order.
pub open spec fn fields_of(pairs: Seq<Seq<char>>) -> SpecFields
    decreases pairs.len(),
{
    if pairs.len() == 0 {
        SpecFields { uri: None, crate_name: None, version: None }
    } else {
        with_pair(fields_of(pairs.drop_last()), pairs.last())
    }
}

/// A request to put `version` as the version of `crate_name` in the
/// document at `uri`.
pub struct SpecReplaceRequest {
    pub uri: Seq<char>,
    pub crate_name: Seq<char>,
    pub version: Seq<char>,
}

/// The replacement a request asks for: one when its first line holds a
/// `/replace?` query with a `uri` that parses as a URL, a `crate` and a
/// `version`.
pub open spec fn request_of(t: Seq<char>) -> Option<SpecReplaceRequest> {
    match replace_query(t) {
        None => None,
        Some(q) => {
            let f = fields_of(split_on(q, '&'));
            if f.uri is Some && f.crate_name is Some && f.version is Some {
                Some(
                    SpecReplaceRequest {
                        uri: f.uri->0,
                        crate_name: f.crate_name->0,
                        version: f.version->0,
                    },
                )
            } else {
                None
            }
        },
    }
}

/// A replacement asked for by a click on a version link.
pub struct ReplaceRequest {
    /// The document, as the serialization of its URL.
    pub uri: String,
    pub crate_name: String,
    pub version: String,
}

impl View for ReplaceRequest {
    type V = SpecReplaceRequest;

    open spec fn view(&self) -> SpecReplaceRequest {
        SpecReplaceRequest { uri: self.uri@, crate_name: self.crate_name@, version: self.version@ }
    }
}

fn first_line_exec(t: &[char]) -> (r: Vec<char>)
    ensures
        r@ == first_line(t@),
{
    if t.len() == 0 {
        return Vec::new();
    }
    proof {
        lemma_find_char_from_ge(t@, '\n', 0);
    }
    match find_char_in(t, '\n', 0) {
        None => {
            assert(t@.subrange(0, t@.len() as int) =~= t@);
            slice_to_vec(t)
        },
        Some(j) => {
            let mut end = j;
            if end > 0 && t[end - 1] == '\r' {
                end = end - 1;
            }
            assert(t@.subrange(0, end as int) =~= crate::text::strip_cr(t@.subrange(0, j as int)));
            slice_to_vec(slice_subrange(t, 0, end))
        },
    }
}

fn query_exec(t: &[char]) -> (r: Option<Vec<char>>)
    ensures
        match r {
            Some(q) => replace_query(t@) == Some(q@),
            None => replace_query(t@) is None,
        },
{
    let line = first_line_exec(t);
    let pat = chars_of("/replace?");
    proof {
        reveal_strlit("/replace?");
        lemma_find_seq_bound(line@, pat@);
    }
    match find_seq_exec(line.as_slice(), pat.as_slice()) {
        None => None,
        Some(s) => {
            let len = line.len();
            let rest = slice_to_vec(slice_subrange(line.as_slice(), s, len));
            let end = match find_char_exec(rest.as_slice(), ' ') {
                Some(e) => {
                    proof {
                        lemma_find_char_from_some(rest@, ' ', 0);
                        if e < 9 {
                            assert(rest@[e as int] == line@.subrange(s as int, s + 9)[e as int]);
                        }
                    }
                    s + e
                },
                None => len,
            };
            Some(slice_to_vec(slice_subrange(line.as_slice(), s + 9, end)))
        },
    }
}

/// The parameters of the `&`-separated pairs of a query.
fn fields_exec(q: &[char]) -> (r: (Option<String>, Option<String>, Option<String>))
    ensures
        fields_of(split_on(q@, '&')) == (SpecFields {
            uri: opt_view(r.0),
            crate_name: opt_view(r.1),
            version: opt_view(r.2),
        }),
{
    let pairs = split_exec(q, '&');
    let ghost ps = views(pairs@);
    let key_uri = chars_of("uri");
    let key_crate = chars_of("crate");
    let key_version = chars_of("version");
    let mut uri: Option<String> = None;
    let mut crate_name: Option<String> = None;
    let mut version: Option<String> = None;
    let mut i: usize = 0;
    assert(ps.take(0) =~= Seq::<Seq<char>>::empty());
    while i < pairs.len()
        invariant
            ps == views(pairs@),
            ps == split_on(q@, '&'),
            i <= pairs@.len(),
            key_uri@ == "uri"@,
            key_crate@ == "crate"@,
            key_version@ == "version"@,
            fields_of(ps.take(i as int)) == (SpecFields {
                uri: opt_view(uri),
                crate_name: opt_view(crate_name),
                version: opt_view(version),
            }),
        decreases pairs@.len() - i,
    {
        let pair = pairs[i].as_slice();
        assert(ps[i as int] == pair@);
        assert(ps.take(i + 1).drop_last() =~= ps.take(i as int));
        assert(ps.take(i + 1).last() == pair@);
        proof {
            lemma_find_char_from_ge(pair@, '=', 0);
        }
        match find_char_exec(pair, '=') {
            None => {},
            Some(e) => {
                let key = slice_subrange(pair, 0, e);
                let raw = string_from_chars(slice_subrange(pair, e + 1, pair.len()));
                let value = match url_decode(raw.as_str()) {
                    Some(d) => d,
                    None => String::new(),
                };
                assert(value@ == decoded_or_empty(pair@.subrange(e + 1, pair@.len() as int)));
                if chars_eq(key, key_uri.as_slice()) {
                    uri = parse_url(value.as_str());
                } else if chars_eq(key, key_crate.as_slice()) {
                    crate_name = Some(value);
                } else if chars_eq(key, key_version.as_slice()) {
                    version = Some(value);
                }
            },
        }
        i = i + 1;
    }
    assert(ps.take(ps.len() as int) =~= ps);
    (uri, crate_name, version)
}

/// Reads the request that a click on a version link sends: the document,
/// crate and version it asks for, or `None` when the request asks for no
/// replacement (then it is answered with `400 Bad Request`). The bytes are
/// read as `String::from_utf8_lossy` reads them.
pub fn replace_request(request: &[u8]) -> (r: Option<ReplaceRequest>)
    ensures
        match r {
            Some(q) => request_of(lossy_utf8(request@)) == Some(q@),
            None => request_of(lossy_utf8(request@)) is None,
        },
        valid_utf8(request@) ==> lossy_utf8(request@) == decode_utf8(request@),
{
    let text = request_text(request);
    let chars = chars_of(text.as_str());
    match query_exec(chars.as_slice()) {
        None => None,
        Some(q) => {
            let (uri, crate_name, version) = fields_exec(q.as_slice());
            match (uri, crate_name, version) {
                (Some(u), Some(c), Some(v)) => Some(
                    ReplaceRequest { uri: u, crate_name: c, version: v },
                ),
                _ => None,
            }
        },
    }
}

// ---------------------------------------------------------------------------
// Finding the edit
// ---------------------------------------------------------------------------

/// The first dependency from index `i` on whose crate name or key is `name`.
pub open spec fn first_named_from(deps: Seq<SpecDependency>, name: Seq<char>, i: int) -> Option<int>
    decreases deps.len() - i,
{
    if i < 0 || i >= deps.len() {
        None
    } else if deps[i].crate_name == name || deps[i].alias_name == name {
        Some(i)
    } else {
        first_named_from(deps, name, i + 1)
    }
}

/// What a replacement for `name` rewrites in a manifest: the inside of the
/// version string of the first dependency of that crate name or key.
pub open spec fn replacement_range_of(text: Seq<char>, name: Seq<char>) -> Option<Range> {
    let deps = dependencies_of(text);
    match first_named_from(deps, name, 0) {
        Some(i) => deps[i].version_val_range,
        None => None,
    }
}

/// The range that a replacement for `crate_name` rewrites in a manifest:
/// `None` when no dependency has that crate name or key, or when the first
/// that has it gives no version string.
pub fn replacement_range(text: &str, crate_name: &str) -> (r: Option<Range>)
    requires
        text@.len() <= i32::MAX,
    ensures
        r == replacement_range_of(text@, crate_name@),
{
    let deps = CargoTomlParser::parse_dependencies(text);
    let ghost dv = deps_view(deps@);
    let name = String::from_str(crate_name);
    let mut i: usize = 0;
    while i < deps.len()
        invariant
            dv == deps_view(deps@),
            dv == dependencies_of(text@),
            name@ == crate_name@,
            i <= deps@.len(),
            first_named_from(dv, crate_name@, 0) == first_named_from(dv, crate_name@, i as int),
        decreases deps@.len() - i,
    {
        let d = &deps[i];
        assert(dv[i as int] == d@);
        if d.crate_name == name || d.alias_name == name {
            return d.version_val_range;
        }
        i = i + 1;
    }
    None
}

// ---------------------------------------------------------------------------
// Answers
// ---------------------------------------------------------------------------

/// The page shown once `crate_name` was set to `version`.
pub open spec fn updated_page(crate_name: Seq<char>, version: Seq<char>) -> Seq<char> {
    "<!DOCTYPE html><html><head><meta charset=\"utf-8\"><title>Version Updated</title></head><body style=\"background:#18181b;color:#f4f4f5;font-family:system-ui,-apple-system,sans-serif;display:flex;align-items:center;justify-content:center;height:100vh;margin:0;\"><div style=\"text-align:center;padding:24px 32px;border:1px solid #3f3f46;border-radius:12px;background:#27272a;box-shadow:0 4px 16px rgba(0,0,0,0.5);\"><h2>&#10004; Updated <code>"@ + crate_name + "</code> to <code>"@ + version + "</code></h2><p style=\"color:#a1a1aa;margin-top:8px;\">Applied to Cargo.toml in Zed.<br>Closing this tab...</p></div><script>setTimeout(function(){ window.close(); }, 400);</script></body></html>"@
}

/// The answer to a request that asked for a replacement: `200 OK` with the
/// page, its length in bytes given.
pub open spec fn updated_response_of(crate_name: Seq<char>, version: Seq<char>) -> Seq<char> {
    let page = updated_page(crate_name, version);
    "HTTP/1.1 200 OK\r\nContent-Type: text/html; charset=utf-8\r\nContent-Length: "@ + decimal(
        utf8_len(page),
    ) + "\r\nConnection: close\r\n\r\n"@ + page
}

/// The answer to a request that asked for the replacement of `crate_name`'s
/// version by `version`.
pub fn updated_response(crate_name: &str, version: &str) -> (r: String)
    ensures
        r@ == updated_response_of(crate_name@, version@),
{
    let mut page: Vec<char> = Vec::new();
    push_str(&mut page, "<!DOCTYPE html><html><head><meta charset=\"utf-8\"><title>Version Updated</title></head><body style=\"background:#18181b;color:#f4f4f5;font-family:system-ui,-apple-system,sans-serif;display:flex;align-items:center;justify-content:center;height:100vh;margin:0;\"><div style=\"text-align:center;padding:24px 32px;border:1px solid #3f3f46;border-radius:12px;background:#27272a;box-shadow:0 4px 16px rgba(0,0,0,0.5);\"><h2>&#10004; Updated <code>");
    push_str(&mut page, crate_name);
    push_str(&mut page, "</code> to <code>");
    push_str(&mut page, version);
    push_str(&mut page, "</code></h2><p style=\"color:#a1a1aa;margin-top:8px;\">Applied to Cargo.toml in Zed.<br>Closing this tab...</p></div><script>setTimeout(function(){ window.close(); }, 400);</script></body></html>");
    let page = string_from_chars(page.as_slice());
    let n = str_utf8_len(page.as_str());
    let mut out: Vec<char> = Vec::new();
    push_str(
        &mut out,
        "HTTP/1.1 200 OK\r\nContent-Type: text/html; charset=utf-8\r\nContent-Length: ",
    );
    push_chars(&mut out, decimal_chars(n as u64).as_slice());
    push_str(&mut out, "\r\nConnection: close\r\n\r\n");
    push_str(&mut out, page.as_str());
    string_from_chars(out.as_slice())
}

/// The answer to any other request.
pub open spec fn bad_request_of() -> Seq<char> {
    "HTTP/1.1 400 Bad Request\r\nContent-Length: 0\r\nConnection: close\r\n\r\n"@
}

/// The answer to a request that asks for no replacement: `400 Bad Request`.
pub fn bad_request_response() -> (r: String)
    ensures
        r@ == bad_request_of(),
{
    String::from_str("HTTP/1.1 400 Bad Request\r\nContent-Length: 0\r\nConnection: close\r\n\r\n")
}

} // verus!
