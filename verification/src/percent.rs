//! Percent-encoding of link parameters, as the `urlencoding` crate does it,
//! and the fact that decoding gives back what was encoded.
use vstd::prelude::*;
use vstd::utf8::{encode_utf8, decode_utf8, valid_utf8};
use crate::crates_client::hex_digit;
use crate::toml_parser::opt_view;

verus! {

/// Whether `urlencoding` writes a byte as itself: ASCII letters and digits,
/// `-`, `.`, `_` and `~`.
pub open spec fn is_url_safe(b: u8) -> bool {
    (97 <= b <= 122) || (65 <= b <= 90) || (48 <= b <= 57) || b == 45 || b == 46 || b == 95 || b
        == 126
}

/// How `urlencoding` writes one byte: itself when safe, else `%XX` in upper case.
pub open spec fn percent_byte(b: u8) -> Seq<char> {
    if is_url_safe(b) {
        seq![b as char]
    } else {
        seq!['%', hex_digit((b / 16) as int), hex_digit((b % 16) as int)]
    }
}

/// The percent-encoding of a byte sequence.
pub open spec fn percent_encoding(bytes: Seq<u8>) -> Seq<char>
    decreases bytes.len(),
{
    if bytes.len() == 0 {
        seq![]
    } else {
        percent_byte(bytes[0]) + percent_encoding(bytes.drop_first())
    }
}

/// Whether a byte is a hexadecimal digit, in either case.
pub open spec fn is_hex_byte(b: u8) -> bool {
    (48 <= b <= 57) || (65 <= b <= 70) || (97 <= b <= 102)
}

/// The value of a hexadecimal digit byte.
pub open spec fn hex_value(b: u8) -> int {
    if b <= 57 {
        b - 48
    } else if b <= 70 {
        b - 55
    } else {
        b - 87
    }
}

/// Percent-decoding: each `%` followed by two hexadecimal digits becomes the
/// byte they spell; every other byte stays as it is.
pub open spec fn percent_decode(b: Seq<u8>) -> Seq<u8>
    decreases b.len(),
{
    if b.len() == 0 {
        seq![]
    } else if b.len() >= 3 && b[0] == 37 && is_hex_byte(b[1]) && is_hex_byte(b[2]) {
        seq![(hex_value(b[1]) * 16 + hex_value(b[2])) as u8] + percent_decode(
            b.subrange(3, b.len() as int),
        )
    } else {
        seq![b[0]] + percent_decode(b.drop_first())
    }
}

/// What `urlencoding::decode` gives for a text: the text its percent-decoded
/// bytes spell, or `None` when they are no UTF-8.
pub open spec fn url_decoded(s: Seq<char>) -> Option<Seq<char>> {
    let d = percent_decode(encode_utf8(s));
    if valid_utf8(d) {
        Some(decode_utf8(d))
    } else {
        None
    }
}

/// `urlencoding::encode`: the percent-encoding of the text's UTF-8 bytes,
/// every byte but ASCII letters, digits, `-`, `.`, `_` and `~` written as `%XX`.
#[verifier::external_body]
pub(crate) fn url_encode(s: &str) -> (r: String)
    ensures
        r@ == percent_encoding(encode_utf8(s@)),
{
    urlencoding::encode(s).into_owned()
}

/// `urlencoding::decode`: the text is percent-decoded byte by byte (a `%`
/// followed by two hexadecimal digits of either case becomes that byte, any
/// other byte stays); the call fails, here `None`, when the bytes decoded are
/// no UTF-8.
#[verifier::external_body]
pub(crate) fn url_decode(s: &str) -> (r: Option<String>)
    ensures
        opt_view(r) == url_decoded(s@),
{
    match urlencoding::decode(s) {
        Ok(d) => Some(d.into_owned()),
        Err(_) => None,
    }
}

// ---------------------------------------------------------------------------
// Decoding undoes encoding
// ---------------------------------------------------------------------------

/// The characters that percent-encoding writes.
pub open spec fn is_encoded_char(c: char) -> bool {
    ('a' <= c <= 'z') || ('A' <= c <= 'Z') || ('0' <= c <= '9') || c == '-' || c == '.' || c
        == '_' || c == '~' || c == '%'
}

proof fn lemma_hex_digit(d: int)
    requires
        0 <= d < 16,
    ensures
        ('0' <= hex_digit(d) <= '9') || ('A' <= hex_digit(d) <= 'F'),
        is_hex_byte(hex_digit(d) as u8),
        hex_value(hex_digit(d) as u8) == d,
        (hex_digit(d) as u32) < 0x80,
        hex_digit(d) as u8 as char == hex_digit(d),
{
    reveal_with_fuel(crate::versions::digit_char, 1);
}

/// Every character of a percent-encoding is an ASCII character that
/// percent-encoding writes.
pub proof fn lemma_percent_encoding_chars(bytes: Seq<u8>)
    ensures
        forall|k: int|
            0 <= k < percent_encoding(bytes).len() ==> is_encoded_char(
                #[trigger] percent_encoding(bytes)[k],
            ) && (percent_encoding(bytes)[k] as u32) < 0x80,
    decreases bytes.len(),
{
    if bytes.len() > 0 {
        let b = bytes[0];
        let head = percent_byte(b);
        let rest = percent_encoding(bytes.drop_first());
        lemma_percent_encoding_chars(bytes.drop_first());
        lemma_hex_digit((b / 16) as int);
        lemma_hex_digit((b % 16) as int);
        assert(is_url_safe(b) ==> is_encoded_char(b as char) && ((b as char) as u32) < 0x80);
        assert forall|k: int| 0 <= k < head.len() implies is_encoded_char(#[trigger] head[k]) && (
        head[k] as u32) < 0x80 by {}
        assert forall|k: int|
            0 <= k < percent_encoding(bytes).len() implies is_encoded_char(
            #[trigger] percent_encoding(bytes)[k],
        ) && (percent_encoding(bytes)[k] as u32) < 0x80 by {
            if k < head.len() {
                assert(percent_encoding(bytes)[k] == head[k]);
            } else {
                assert(percent_encoding(bytes)[k] == rest[k - head.len()]);
            }
        }
    }
}

proof fn lemma_encode_utf8_concat(a: Seq<char>, b: Seq<char>)
    ensures
        encode_utf8(a + b) == encode_utf8(a) + encode_utf8(b),
    decreases a.len(),
{
    if a.len() == 0 {
        assert(a + b =~= b);
    } else {
        assert((a + b).drop_first() =~= a.drop_first() + b);
        lemma_encode_utf8_concat(a.drop_first(), b);
        assert(encode_utf8(a + b) =~= encode_utf8(a) + encode_utf8(b));
    }
}

proof fn lemma_encode_ascii_char(c: char)
    requires
        (c as u32) < 0x80,
    ensures
        encode_utf8(seq![c]) == seq![(c as u32) as u8],
{
    let u = c as u32;
    assert(seq![c].drop_first() =~= Seq::<char>::empty());
    assert(u < 0x80 ==> (u & 0x7F) as u8 == u as u8) by (bit_vector);
    assert(encode_utf8(seq![c]) =~= vstd::utf8::encode_scalar(u) + encode_utf8(Seq::<char>::empty()));
}

/// The bytes of a percent-encoding, decoded, are the bytes encoded.
proof fn lemma_decode_encoding(bytes: Seq<u8>)
    ensures
        percent_decode(encode_utf8(percent_encoding(bytes))) == bytes,
    decreases bytes.len(),
{
    if bytes.len() == 0 {
        assert(encode_utf8(percent_encoding(bytes)) =~= Seq::<u8>::empty());
    } else {
        let b = bytes[0];
        let rest = bytes.drop_first();
        let tail = encode_utf8(percent_encoding(rest));
        lemma_decode_encoding(rest);
        lemma_encode_utf8_concat(percent_byte(b), percent_encoding(rest));
        if is_url_safe(b) {
            assert((b as char) as u32 == b as u32);
            lemma_encode_ascii_char(b as char);
            assert((b as char) as u8 == b);
            let all = seq![b] + tail;
            assert(encode_utf8(percent_encoding(bytes)) =~= all);
            assert(all.drop_first() =~= tail);
            assert(!(all[0] == 37));
            assert(percent_decode(all) =~= seq![b] + percent_decode(tail));
            assert(bytes =~= seq![b] + rest);
        } else {
            let hi = hex_digit((b / 16) as int);
            let lo = hex_digit((b % 16) as int);
            lemma_hex_digit((b / 16) as int);
            lemma_hex_digit((b % 16) as int);
            assert(seq!['%', hi, lo] =~= seq!['%'] + seq![hi] + seq![lo]);
            lemma_encode_utf8_concat(seq!['%'] + seq![hi], seq![lo]);
            lemma_encode_utf8_concat(seq!['%'], seq![hi]);
            lemma_encode_ascii_char('%');
            lemma_encode_ascii_char(hi);
            lemma_encode_ascii_char(lo);
            let all = seq![37u8, hi as u8, lo as u8] + tail;
            assert(encode_utf8(percent_encoding(bytes)) =~= all);
            assert(all.subrange(3, all.len() as int) =~= tail);
            assert((hex_value(hi as u8) * 16 + hex_value(lo as u8)) as u8 == b);
            assert(percent_decode(all) =~= seq![b] + percent_decode(tail));
            assert(bytes =~= seq![b] + rest);
        }
    }
}

/// Decoding the percent-encoding of a text gives back the text.
pub proof fn lemma_url_round_trip(t: Seq<char>)
    ensures
        url_decoded(percent_encoding(encode_utf8(t))) == Some(t),
{
    broadcast use vstd::utf8::encode_utf8_valid_utf8, vstd::utf8::encode_utf8_decode_utf8;

    lemma_decode_encoding(encode_utf8(t));
}

} // verus!
