//! What the encodings of a link promise: base64 and percent encoding can be undone, and what
//! they write holds none of the characters that separate the parts of a link.

use crate::foreign::{
    base64_char, base64_decode, base64_text, hex_value, percent_byte, percent_decoded, percent_text,
    string_from_utf8, unreserved, upper_hex, url_decode, url_decoded, url_encoded, utf8_text,
};
use crate::text::alphanumeric;
use vstd::prelude::*;
use vstd::utf8::{
    decode_utf8_encode_utf8, encode_utf8, encode_utf8_decode_utf8, encode_utf8_valid_utf8,
    is_ascii_chars_encode_utf8, valid_utf8,
};

verus! {

// ---------------------------------------------------------------------------------------------
// Base64
// ---------------------------------------------------------------------------------------------

/// The bytes that a base64 text encodes, if it is one.
pub open spec fn base64_bytes(t: Seq<char>) -> Option<Seq<u8>> {
    if exists|b: Seq<u8>| t == base64_text(b) {
        Some(choose|b: Seq<u8>| t == base64_text(b))
    } else {
        None
    }
}

/// The text whose UTF-8 bytes a base64 text encodes, if there is one.
pub open spec fn base64_content(t: Seq<char>) -> Option<Seq<char>> {
    match base64_bytes(t) {
        Some(b) => utf8_text(b),
        None => None,
    }
}

/// Different groups of six bits have different characters.
proof fn lemma_base64_char(v: int, w: int)
    requires
        0 <= v < 64,
        0 <= w < 64,
    ensures
        base64_char(v) == base64_char(w) ==> v == w,
        base64_char(v) != '=',
        alphanumeric(base64_char(v)) || base64_char(v) == '+' || base64_char(v) == '/',
{
}

/// Different bytes have different base64 texts.
pub proof fn law_base64_injective(a: Seq<u8>, b: Seq<u8>)
    requires
        base64_text(a) == base64_text(b),
    ensures
        a == b,
    decreases a.len(),
{
    let t = base64_text(a);
    lemma_base64_shape(a);
    lemma_base64_shape(b);
    if a.len() == 0 {
    } else {
        let a0 = a[0] as int;
        let b0 = b[0] as int;
        let a1 = if a.len() > 1 { a[1] as int } else { 0 };
        let b1 = if b.len() > 1 { b[1] as int } else { 0 };
        let a2 = if a.len() > 2 { a[2] as int } else { 0 };
        let b2 = if b.len() > 2 { b[2] as int } else { 0 };
        lemma_base64_char(a0 / 4, b0 / 4);
        lemma_base64_char(a0 % 4 * 16 + a1 / 16, b0 % 4 * 16 + b1 / 16);
        lemma_base64_char(a1 % 16 * 4 + a2 / 64, b1 % 16 * 4 + b2 / 64);
        lemma_base64_char(a2 % 64, b2 % 64);
        assert(t[0] == base64_char(a0 / 4));
        assert(t[0] == base64_char(b0 / 4));
        assert(t[1] == base64_char(a0 % 4 * 16 + a1 / 16));
        assert(t[1] == base64_char(b0 % 4 * 16 + b1 / 16));
        if a.len() == 1 {
            assert(t[2] == '=');
            assert(b.len() == 1);
            assert(a =~= b);
        } else if a.len() == 2 {
            assert(t[3] == '=');
            assert(b.len() == 2);
            assert(a =~= b);
        } else {
            assert(t[2] == base64_char(a1 % 16 * 4 + a2 / 64));
            assert(t[3] == base64_char(a2 % 64));
            assert(b.len() >= 3);
            assert(t.skip(4) =~= base64_text(a.skip(3)));
            assert(t.skip(4) =~= base64_text(b.skip(3)));
            law_base64_injective(a.skip(3), b.skip(3));
            assert(a =~= seq![a[0], a[1], a[2]] + a.skip(3));
            assert(b =~= seq![b[0], b[1], b[2]] + b.skip(3));
        }
    }
}

/// The length of a base64 text, and where its padding stands.
proof fn lemma_base64_shape(a: Seq<u8>)
    ensures
        a.len() == 0 <==> base64_text(a).len() == 0,
        a.len() > 0 ==> base64_text(a).len() >= 4,
        a.len() == 1 ==> base64_text(a)[2] == '=' && base64_text(a)[3] == '=',
        a.len() == 2 ==> base64_text(a)[2] != '=' && base64_text(a)[3] == '=',
        a.len() > 2 ==> base64_text(a)[2] != '=' && base64_text(a)[3] != '=',
{
    if a.len() == 2 {
        lemma_base64_char(a[1] as int % 16 * 4, 0);
    } else if a.len() > 2 {
        lemma_base64_char(a[1] as int % 16 * 4 + a[2] as int / 64, 0);
        lemma_base64_char(a[2] as int % 64, 0);
    }
}

/// The characters of base64: letters, digits, `+`, `/` and `=`.
pub open spec fn base64_alphabet(c: char) -> bool {
    alphanumeric(c) || c == '+' || c == '/' || c == '='
}

/// A base64 text holds no character outside its alphabet.
pub proof fn law_base64_alphabet(b: Seq<u8>)
    ensures
        forall|i: int|
            0 <= i < base64_text(b).len() ==> base64_alphabet(#[trigger] base64_text(b)[i]),
    decreases b.len(),
{
    if b.len() > 0 {
        let b0 = b[0] as int;
        let b1 = if b.len() > 1 { b[1] as int } else { 0 };
        let b2 = if b.len() > 2 { b[2] as int } else { 0 };
        lemma_base64_char(b0 / 4, 0);
        lemma_base64_char(b0 % 4 * 16 + b1 / 16, 0);
        lemma_base64_char(b1 % 16 * 4 + b2 / 64, 0);
        lemma_base64_char(b2 % 64, 0);
        if b.len() > 2 {
            law_base64_alphabet(b.skip(3));
            let rest = base64_text(b.skip(3));
            assert forall|i: int| 0 <= i < base64_text(b).len() implies base64_alphabet(
                #[trigger] base64_text(b)[i],
            ) by {
                if i >= 4 {
                    assert(base64_text(b)[i] == rest[i - 4]);
                }
            }
        }
    }
}

/// Decoding a base64 text gives back the bytes that were encoded.
pub proof fn law_base64_round_trip(b: Seq<u8>)
    ensures
        base64_bytes(base64_text(b)) == Some(b),
{
    let t = base64_text(b);
    let c = choose|c: Seq<u8>| t == base64_text(c);
    assert(t == base64_text(b));
    law_base64_injective(b, c);
}

/// Decoding the base64 text of a text gives back the text.
pub proof fn law_base64_content_round_trip(s: Seq<char>)
    ensures
        base64_content(base64_text(encode_utf8(s))) == Some(s),
{
    law_base64_round_trip(encode_utf8(s));
    encode_utf8_valid_utf8(s);
    encode_utf8_decode_utf8(s);
}

/// Decodes a base64 text whose bytes are UTF-8.
pub fn decode_base64(t: &str) -> (r: Option<String>)
    ensures
        match r {
            Some(s) => base64_content(t@) == Some(s@),
            None => base64_content(t@) is None,
        },
{
    match base64_decode(t) {
        Some(bytes) => {
            proof {
                law_base64_round_trip(bytes@);
            }
            string_from_utf8(bytes)
        },
        None => None,
    }
}

// ---------------------------------------------------------------------------------------------
// Percent encoding
// ---------------------------------------------------------------------------------------------

/// The characters that percent encoding writes: letters, digits, `-`, `_`, `.`, `~` and `%`.
pub open spec fn percent_alphabet(c: char) -> bool {
    alphanumeric(c) || c == '-' || c == '_' || c == '.' || c == '~' || c == '%'
}

/// A percent-encoded text holds no character outside the alphabet of the encoding.
pub proof fn law_percent_alphabet(b: Seq<u8>)
    ensures
        forall|i: int|
            0 <= i < percent_text(b).len() ==> percent_alphabet(#[trigger] percent_text(b)[i]),
    decreases b.len(),
{
    if b.len() > 0 {
        law_percent_alphabet(b.skip(1));
        let head = percent_byte(b[0]);
        let rest = percent_text(b.skip(1));
        assert forall|i: int| 0 <= i < percent_text(b).len() implies percent_alphabet(
            #[trigger] percent_text(b)[i],
        ) by {
            if i < head.len() {
                assert(percent_text(b)[i] == head[i]);
            } else {
                assert(percent_text(b)[i] == rest[i - head.len()]);
            }
        }
    }
}

/// The bytes of a percent-encoded text, which is ASCII.
spec fn percent_bytes(b: Seq<u8>) -> Seq<u8> {
    percent_text(b).map_values(|c: char| c as u8)
}

proof fn lemma_percent_bytes(b: Seq<u8>)
    ensures
        encode_utf8(percent_text(b)) == percent_bytes(b),
{
    law_percent_alphabet(b);
    is_ascii_chars_encode_utf8(percent_text(b));
    assert(encode_utf8(percent_text(b)) =~= percent_bytes(b));
}

proof fn lemma_percent_decoded(b: Seq<u8>)
    ensures
        percent_decoded(percent_bytes(b)) == b,
    decreases b.len(),
{
    if b.len() == 0 {
        assert(percent_bytes(b) =~= seq![]);
        assert(percent_decoded(percent_bytes(b)) =~= b);
    } else {
        let x = b[0];
        let rest = percent_bytes(b.skip(1));
        let all = percent_bytes(b);
        lemma_percent_decoded(b.skip(1));
        if unreserved(x) {
            assert(all =~= seq![x] + rest);
            assert(all.skip(1) =~= rest);
        } else {
            let high = upper_hex(x as int / 16) as u8;
            let low = upper_hex(x as int % 16) as u8;
            assert(all =~= seq![37u8, high, low] + rest);
            assert(all.skip(3) =~= rest);
            assert(hex_value(all[1]) == Some(x as int / 16));
            assert(hex_value(all[2]) == Some(x as int % 16));
        }
        assert(percent_decoded(all) =~= seq![x] + b.skip(1));
        assert(b =~= seq![x] + b.skip(1));
    }
}

/// Decoding a percent-encoded text gives back the text that was encoded.
pub proof fn law_url_round_trip(s: Seq<char>)
    ensures
        url_decoded(url_encoded(s)) == Some(s),
{
    let bytes = encode_utf8(s);
    lemma_percent_bytes(bytes);
    lemma_percent_decoded(bytes);
    encode_utf8_valid_utf8(s);
    encode_utf8_decode_utf8(s);
}

/// What a percent-encoded text stands for, or the empty text where it stands for none.
pub open spec fn url_content(s: Seq<char>) -> Seq<char> {
    match url_decoded(s) {
        Some(t) => t,
        None => seq![],
    }
}

/// A text whose decoding is no UTF-8 counts as empty; every other one is what it decodes to.
pub proof fn law_url_content(s: Seq<char>)
    ensures
        ({
            let bytes = percent_decoded(encode_utf8(s));
            &&& valid_utf8(bytes) ==> encode_utf8(url_content(s)) == bytes
            &&& !valid_utf8(bytes) ==> url_content(s).len() == 0
        }),
{
    let bytes = percent_decoded(encode_utf8(s));
    if valid_utf8(bytes) {
        decode_utf8_encode_utf8(bytes);
    }
}

/// Decodes a percent-encoded text, to the empty text where it cannot be decoded.
pub fn decode_url(s: &str) -> (r: String)
    ensures
        r@ == url_content(s@),
{
    match url_decode(s) {
        Some(t) => t,
        None => String::new(),
    }
}

} // verus!
