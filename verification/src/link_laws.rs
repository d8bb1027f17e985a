//! The version links of a hover do what they show: a click on the link of a
//! version asks the local endpoint to put exactly that version in place.
use vstd::prelude::*;
use vstd::utf8::encode_utf8;
use crate::text::{
    find_char_from, find_char, find_seq_from, occurs_at, split_from, split_on, lines_of,
    lines_from, strip_cr,
};
use crate::percent::{
    percent_encoding, is_encoded_char, lemma_percent_encoding_chars, lemma_url_round_trip,
};
use crate::replacer::{
    SpecFields, SpecReplaceRequest, first_line, replace_query, with_pair, fields_of, request_of,
    decoded_or_empty, parsed_url,
};
use crate::hover::link_query;

verus! {

/// Whether no character of `s` is `c`.
pub open spec fn lacks(s: Seq<char>, c: char) -> bool {
    forall|j: int| 0 <= j < s.len() ==> s[j] != c
}

proof fn lemma_find_char_at(s: Seq<char>, c: char, i: int, k: int)
    requires
        0 <= i <= k < s.len(),
        s[k] == c,
        forall|j: int| i <= j < k ==> s[j] != c,
    ensures
        find_char_from(s, c, i) == Some(k),
    decreases k - i,
{
    if i < k {
        lemma_find_char_at(s, c, i + 1, k);
    }
}

proof fn lemma_find_char_absent(s: Seq<char>, c: char, i: int)
    requires
        0 <= i <= s.len(),
        forall|j: int| i <= j < s.len() ==> s[j] != c,
    ensures
        find_char_from(s, c, i) is None,
    decreases s.len() - i,
{
    if i < s.len() {
        lemma_find_char_absent(s, c, i + 1);
    }
}

proof fn lemma_find_seq_at(s: Seq<char>, pat: Seq<char>, i: int, k: int)
    requires
        0 <= i <= k,
        occurs_at(s, pat, k),
        forall|j: int| i <= j < k ==> !occurs_at(s, pat, j),
    ensures
        find_seq_from(s, pat, i) == Some(k),
    decreases k - i,
{
    if i < k {
        lemma_find_seq_at(s, pat, i + 1, k);
    }
}

/// Percent-encoded text holds no newline, carriage return, space, `&` or `=`.
proof fn lemma_encoded_lacks(bytes: Seq<u8>)
    ensures
        lacks(percent_encoding(bytes), '\n'),
        lacks(percent_encoding(bytes), '\r'),
        lacks(percent_encoding(bytes), ' '),
        lacks(percent_encoding(bytes), '&'),
        lacks(percent_encoding(bytes), '='),
{
    lemma_percent_encoding_chars(bytes);
    let e = percent_encoding(bytes);
    assert forall|j: int| 0 <= j < e.len() implies e[j] != '\n' && e[j] != '\r' && e[j] != ' '
        && e[j] != '&' && e[j] != '=' by {
        assert(is_encoded_char(e[j]));
    }
}

/// The pieces of three `&`-free pairs joined by `&`.
proof fn lemma_three_pairs(p1: Seq<char>, p2: Seq<char>, p3: Seq<char>)
    requires
        lacks(p1, '&'),
        lacks(p2, '&'),
        lacks(p3, '&'),
    ensures
        split_on(p1 + seq!['&'] + p2 + seq!['&'] + p3, '&') == seq![p1, p2, p3],
{
    let q = p1 + seq!['&'] + p2 + seq!['&'] + p3;
    let a = p1.len() as int;
    let b = a + 1 + p2.len();
    assert(q.subrange(0, a) =~= p1);
    assert(q.subrange(a + 1, b) =~= p2);
    assert(q.subrange(b + 1, q.len() as int) =~= p3);
    assert forall|j: int| 0 <= j < a implies q[j] != '&' by {
        assert(q[j] == p1[j]);
    }
    assert forall|j: int| a + 1 <= j < b implies q[j] != '&' by {
        assert(q[j] == p2[j - a - 1]);
    }
    assert forall|j: int| b + 1 <= j < q.len() implies q[j] != '&' by {
        assert(q[j] == p3[j - b - 1]);
    }
    lemma_find_char_at(q, '&', 0, a);
    lemma_find_char_at(q, '&', a + 1, b);
    lemma_find_char_absent(q, '&', b + 1);
    assert(split_from(q, '&', b + 1) =~= seq![p3]);
    assert(split_from(q, '&', a + 1) =~= seq![p2, p3]);
    assert(split_from(q, '&', 0) =~= seq![p1, p2, p3]);
}

/// A pair `key=value` whose key holds no `=` splits at that `=`.
proof fn lemma_pair(key: Seq<char>, e: Seq<char>)
    requires
        lacks(key, '='),
    ensures
        find_char(key + seq!['='] + e, '=') == Some(key.len() as int),
        (key + seq!['='] + e).subrange(0, key.len() as int) == key,
        (key + seq!['='] + e).subrange(key.len() + 1int, (key + seq!['='] + e).len() as int) == e,
{
    let p = key + seq!['='] + e;
    assert forall|j: int| 0 <= j < key.len() implies p[j] != '=' by {
        assert(p[j] == key[j]);
    }
    lemma_find_char_at(p, '=', 0, key.len() as int);
    assert(p.subrange(0, key.len() as int) =~= key);
    assert(p.subrange(key.len() + 1int, p.len() as int) =~= e);
}

/// The first line of a request whose first line ends in `\r\n`.
proof fn lemma_first_line(line: Seq<char>, headers: Seq<char>)
    requires
        lacks(line, '\n'),
    ensures
        first_line(line + seq!['\r', '\n'] + headers) == line,
{
    let t = line + seq!['\r', '\n'] + headers;
    let n = line.len() as int;
    assert forall|j: int| 0 <= j < n + 1 implies t[j] != '\n' by {
        if j < n {
            assert(t[j] == line[j]);
        }
    }
    lemma_find_char_at(t, '\n', 0, n + 1);
    assert(t.subrange(0, n + 1) =~= line.push('\r'));
    assert(strip_cr(line.push('\r')) =~= line);
    assert(lines_of(t) =~= seq![line] + lines_from(t, n + 2));
}

/// The query of a request whose first line asks for `/replace?` and a query
/// without spaces or line breaks.
proof fn lemma_request_query(q: Seq<char>, headers: Seq<char>)
    requires
        lacks(q, '\n'),
        lacks(q, ' '),
    ensures
        replace_query("GET /replace?"@ + q + " HTTP/1.1\r\n"@ + headers) == Some(q),
{
    reveal_strlit("GET /replace?");
    reveal_strlit(" HTTP/1.1\r\n");
    reveal_strlit(" HTTP/1.1");
    reveal_strlit("/replace?");
    let line = "GET /replace?"@ + q + " HTTP/1.1"@;
    let t = "GET /replace?"@ + q + " HTTP/1.1\r\n"@ + headers;
    assert(t =~= line + seq!['\r', '\n'] + headers);
    assert forall|j: int| 0 <= j < line.len() implies line[j] != '\n' by {
        if 13 <= j < 13 + q.len() {
            assert(line[j] == q[j - 13]);
        }
    }
    lemma_first_line(line, headers);
    let pat = "/replace?"@;
    assert(line.subrange(4, 13) =~= pat);
    assert forall|j: int| 0 <= j < 4 implies !occurs_at(line, pat, j) by {
        assert(line.subrange(j, j + 9)[0] == line[j]);
    }
    lemma_find_seq_at(line, pat, 0, 4);
    let rest = line.subrange(4, line.len() as int);
    assert forall|j: int| 0 <= j < 9 + q.len() implies rest[j] != ' ' by {
        if j >= 9 {
            assert(rest[j] == q[j - 9]);
        }
    }
    assert(rest[9 + q.len() as int] == ' ');
    lemma_find_char_at(rest, ' ', 0, 9 + q.len() as int);
    assert(line.subrange(13, 13 + q.len() as int) =~= q);
}

/// The parameters that a link's query sets.
proof fn lemma_link_fields(uri: Seq<char>, crate_name: Seq<char>, version: Seq<char>)
    ensures
        fields_of(split_on(link_query(uri, crate_name, version), '&')) == (SpecFields {
            uri: parsed_url(uri),
            crate_name: Some(crate_name),
            version: Some(version),
        }),
        lacks(link_query(uri, crate_name, version), '\n'),
        lacks(link_query(uri, crate_name, version), ' '),
{
    let e1 = percent_encoding(encode_utf8(uri));
    let e2 = percent_encoding(encode_utf8(crate_name));
    let e3 = percent_encoding(encode_utf8(version));
    lemma_encoded_lacks(encode_utf8(uri));
    lemma_encoded_lacks(encode_utf8(crate_name));
    lemma_encoded_lacks(encode_utf8(version));
    lemma_url_round_trip(uri);
    lemma_url_round_trip(crate_name);
    lemma_url_round_trip(version);
    reveal_strlit("uri=");
    reveal_strlit("&crate=");
    reveal_strlit("&version=");
    reveal_strlit("uri");
    reveal_strlit("crate");
    reveal_strlit("version");
    let k1 = "uri"@;
    let k2 = "crate"@;
    let k3 = "version"@;
    let p1 = k1 + seq!['='] + e1;
    let p2 = k2 + seq!['='] + e2;
    let p3 = k3 + seq!['='] + e3;
    let q = link_query(uri, crate_name, version);
    assert(q =~= p1 + seq!['&'] + p2 + seq!['&'] + p3);
    assert forall|j: int| 0 <= j < q.len() implies q[j] != '\n' && q[j] != ' ' by {
        if j < 4 {
        } else if j < 4 + e1.len() {
            assert(q[j] == e1[j - 4]);
        } else if j < 4 + e1.len() + 7 {
        } else if j < 4 + e1.len() + 7 + e2.len() {
            assert(q[j] == e2[j - 4 - e1.len() - 7]);
        } else if j < 4 + e1.len() + 7 + e2.len() + 9 {
        } else {
            assert(q[j] == e3[j - 4 - e1.len() - 7 - e2.len() - 9]);
        }
    }
    assert(lacks(p1, '&')) by {
        assert forall|j: int| 0 <= j < p1.len() implies p1[j] != '&' by {
            if j >= 4 {
                assert(p1[j] == e1[j - 4]);
            }
        }
    }
    assert(lacks(p2, '&')) by {
        assert forall|j: int| 0 <= j < p2.len() implies p2[j] != '&' by {
            if j >= 6 {
                assert(p2[j] == e2[j - 6]);
            }
        }
    }
    assert(lacks(p3, '&')) by {
        assert forall|j: int| 0 <= j < p3.len() implies p3[j] != '&' by {
            if j >= 8 {
                assert(p3[j] == e3[j - 8]);
            }
        }
    }
    lemma_three_pairs(p1, p2, p3);
    lemma_pair(k1, e1);
    lemma_pair(k2, e2);
    lemma_pair(k3, e3);
    let pairs = seq![p1, p2, p3];
    let none = SpecFields { uri: None, crate_name: None, version: None };
    assert(pairs.drop_last().drop_last().drop_last() =~= Seq::<Seq<char>>::empty());
    assert(pairs.drop_last().drop_last() =~= seq![p1]);
    assert(pairs.drop_last() =~= seq![p1, p2]);
    assert(decoded_or_empty(e1) == uri);
    assert(decoded_or_empty(e2) == crate_name);
    assert(decoded_or_empty(e3) == version);
    let f1 = with_pair(none, p1);
    assert(f1 == SpecFields { uri: parsed_url(uri), crate_name: None, version: None });
    let f2 = with_pair(f1, p2);
    assert(k2 != k1);
    assert(f2 == SpecFields { uri: parsed_url(uri), crate_name: Some(crate_name), version: None });
    let f3 = with_pair(f2, p3);
    assert(k3 != k1 && k3 != k2);
    assert(fields_of(pairs.drop_last().drop_last().drop_last()) == none);
    assert(pairs.drop_last().drop_last().last() == p1);
    assert(fields_of(pairs.drop_last().drop_last()) == f1);
    assert(pairs.drop_last().last() == p2);
    assert(fields_of(pairs.drop_last()) == f2);
    assert(pairs.last() == p3);
}

/// A click on a version link asks for exactly the replacement the link
/// shows: the request for the link's path (`/replace?` and its query) reads
/// back the document, the crate and the version, whatever headers follow,
/// provided the document's address is a URL as its parser writes it.
pub proof fn law_version_link_asks_for_its_version(
    uri: Seq<char>,
    crate_name: Seq<char>,
    version: Seq<char>,
    headers: Seq<char>,
)
    requires
        parsed_url(uri) == Some(uri),
    ensures
        request_of(
            "GET /replace?"@ + link_query(uri, crate_name, version) + " HTTP/1.1\r\n"@ + headers,
        ) == Some(SpecReplaceRequest { uri, crate_name, version }),
{
    lemma_link_fields(uri, crate_name, version);
    lemma_request_query(link_query(uri, crate_name, version), headers);
}

} // verus!
