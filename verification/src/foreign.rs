//! The functions of other crates, and of the standard library, that the logic calls, each with
//! the contract that the rest of the crate relies on.
//!
//! None of these contracts is proved here: each states what the documentation or the source of
//! the function shows.

use crate::cut::leading;
use crate::text::texts;
use rand::SeedableRng;
use rand::seq::SliceRandom;
use vstd::prelude::*;
use vstd::utf8::{decode_utf8, encode_utf8, is_ascii_chars, valid_utf8};

verus! {

// ---------------------------------------------------------------------------------------------
// Base64
// ---------------------------------------------------------------------------------------------

/// The character that stands for a group of six bits in the standard alphabet of base64.
pub open spec fn base64_char(v: int) -> char {
    if v < 26 {
        ('A' as int + v) as char
    } else if v < 52 {
        ('a' as int + (v - 26)) as char
    } else if v < 62 {
        ('0' as int + (v - 52)) as char
    } else if v == 62 {
        '+'
    } else {
        '/'
    }
}

/// The standard base64 text of some bytes, padded to a multiple of four characters.
pub open spec fn base64_text(b: Seq<u8>) -> Seq<char>
    decreases b.len(),
{
    if b.len() == 0 {
        seq![]
    } else if b.len() == 1 {
        seq![base64_char(b[0] as int / 4), base64_char(b[0] as int % 4 * 16), '=', '=']
    } else if b.len() == 2 {
        seq![
            base64_char(b[0] as int / 4),
            base64_char(b[0] as int % 4 * 16 + b[1] as int / 16),
            base64_char(b[1] as int % 16 * 4),
            '=',
        ]
    } else {
        seq![
            base64_char(b[0] as int / 4),
            base64_char(b[0] as int % 4 * 16 + b[1] as int / 16),
            base64_char(b[1] as int % 16 * 4 + b[2] as int / 64),
            base64_char(b[2] as int % 64),
        ] + base64_text(b.skip(3))
    }
}

/// `Engine::encode` of the engine `base64::engine::general_purpose::STANDARD`: the standard
/// alphabet, with padding.
#[verifier::external_body]
pub(crate) fn base64_encode(bytes: &[u8]) -> (r: String)
    ensures
        r@ == base64_text(bytes@),
{
    base64::Engine::encode(&base64::engine::general_purpose::STANDARD, bytes)
}

/// `Engine::decode` of the engine `base64::engine::general_purpose::STANDARD`. The engine asks
/// for canonical padding and refuses set bits after the last byte, so a text decodes to some
/// bytes if and only if it is what those bytes encode to.
#[verifier::external_body]
pub(crate) fn base64_decode(text: &str) -> (r: Option<Vec<u8>>)
    ensures
        match r {
            Some(b) => text@ == base64_text(b@),
            None => forall|b: Seq<u8>| text@ != #[trigger] base64_text(b),
        },
{
    base64::Engine::decode(&base64::engine::general_purpose::STANDARD, text).ok()
}

// ---------------------------------------------------------------------------------------------
// Percent encoding
// ---------------------------------------------------------------------------------------------

/// The bytes that percent encoding leaves as they are: letters, digits and `-`, `_`, `.`, `~`.
pub open spec fn unreserved(b: u8) -> bool {
    ||| 48 <= b <= 57
    ||| 65 <= b <= 90
    ||| 97 <= b <= 122
    ||| b == 45
    ||| b == 95
    ||| b == 46
    ||| b == 126
}

/// The upper-case hexadecimal digit of a value below sixteen.
pub open spec fn upper_hex(v: int) -> char {
    if v < 10 {
        ('0' as int + v) as char
    } else {
        ('A' as int + (v - 10)) as char
    }
}

/// A byte as percent encoding writes it.
pub open spec fn percent_byte(b: u8) -> Seq<char> {
    if unreserved(b) {
        seq![b as char]
    } else {
        seq!['%', upper_hex(b as int / 16), upper_hex(b as int % 16)]
    }
}

/// Some bytes as percent encoding writes them.
pub open spec fn percent_text(b: Seq<u8>) -> Seq<char>
    decreases b.len(),
{
    if b.len() == 0 {
        seq![]
    } else {
        percent_byte(b[0]) + percent_text(b.skip(1))
    }
}

/// The value of a hexadecimal digit, in either case.
pub open spec fn hex_value(b: u8) -> Option<int> {
    if 48 <= b <= 57 {
        Some(b - 48)
    } else if 65 <= b <= 70 {
        Some(b - 55)
    } else if 97 <= b <= 102 {
        Some(b - 87)
    } else {
        None
    }
}

/// Some bytes with every `%` that two hexadecimal digits follow replaced, together with the
/// digits, by the byte that the digits write; every other byte stands for itself.
pub open spec fn percent_decoded(b: Seq<u8>) -> Seq<u8>
    decreases b.len(),
{
    if b.len() == 0 {
        seq![]
    } else if b[0] == 37 && b.len() >= 3 && hex_value(b[1]) is Some && hex_value(b[2]) is Some {
        seq![(hex_value(b[1])->0 * 16 + hex_value(b[2])->0) as u8] + percent_decoded(b.skip(3))
    } else {
        seq![b[0]] + percent_decoded(b.skip(1))
    }
}

/// A text as percent encoding writes it.
pub open spec fn url_encoded(s: Seq<char>) -> Seq<char> {
    percent_text(encode_utf8(s))
}

/// What a percent-encoded text stands for; nothing where the decoded bytes are not UTF-8.
pub open spec fn url_decoded(s: Seq<char>) -> Option<Seq<char>> {
    let bytes = percent_decoded(encode_utf8(s));
    if valid_utf8(bytes) {
        Some(decode_utf8(bytes))
    } else {
        None
    }
}

/// `urlencoding::encode`: writes every byte of the UTF-8 text as `%` and two upper-case
/// hexadecimal digits, except letters, digits and `-`, `_`, `.`, `~`.
#[verifier::external_body]
pub(crate) fn url_encode(s: &str) -> (r: String)
    ensures
        r@ == url_encoded(s@),
{
    urlencoding::encode(s).into_owned()
}

/// `urlencoding::decode`: replaces each `%` with two hexadecimal digits after it, leaves every
/// other byte alone, and fails where the result is not UTF-8.
#[verifier::external_body]
pub(crate) fn url_decode(s: &str) -> (r: Option<String>)
    ensures
        match r {
            Some(t) => url_decoded(s@) == Some(t@),
            None => url_decoded(s@) is None,
        },
{
    urlencoding::decode(s).ok().map(|t| t.into_owned())
}

// ---------------------------------------------------------------------------------------------
// UTF-8 and letter case
// ---------------------------------------------------------------------------------------------

/// The text that some bytes spell, if they are UTF-8.
pub open spec fn utf8_text(b: Seq<u8>) -> Option<Seq<char>> {
    if valid_utf8(b) {
        Some(decode_utf8(b))
    } else {
        None
    }
}

/// `String::from_utf8`: the string that the bytes encode, if they are UTF-8.
#[verifier::external_body]
pub(crate) fn string_from_utf8(bytes: Vec<u8>) -> (r: Option<String>)
    ensures
        match r {
            Some(t) => utf8_text(bytes@) == Some(t@),
            None => utf8_text(bytes@) is None,
        },
{
    String::from_utf8(bytes).ok()
}

/// What `String::from_utf8_lossy` makes of bytes that are not UTF-8.
pub uninterp spec fn repaired_utf8(b: Seq<u8>) -> Seq<char>;

/// `String::from_utf8_lossy`: the string that the bytes encode, with replacement characters
/// where they are not UTF-8. Where exactly those stand is left to the name [`repaired_utf8`].
#[verifier::external_body]
pub(crate) fn string_from_utf8_lossy(bytes: &[u8]) -> (r: String)
    ensures
        valid_utf8(bytes@) ==> r@ == decode_utf8(bytes@),
        !valid_utf8(bytes@) ==> r@ == repaired_utf8(bytes@),
{
    String::from_utf8_lossy(bytes).into_owned()
}

/// The text that some bytes spell, with replacement characters where they are not UTF-8.
pub open spec fn utf8_lossy(b: Seq<u8>) -> Seq<char> {
    if valid_utf8(b) {
        decode_utf8(b)
    } else {
        repaired_utf8(b)
    }
}

/// The characters of ASCII.
pub open spec fn ascii(c: char) -> bool {
    '\0' <= c <= '\u{7f}'
}

/// An ASCII letter in lower case; any other character as it is.
pub open spec fn ascii_lower(c: char) -> char {
    if 'A' <= c <= 'Z' {
        (c as int + 32) as char
    } else {
        c
    }
}

/// What stands in a text before its first character that is not ASCII, in lower case.
pub open spec fn lowered_start(s: Seq<char>) -> Seq<char> {
    leading(s, |c: char| ascii(c)).map_values(|c: char| ascii_lower(c))
}

/// What `str::to_lowercase` makes of a text from its first character on that is not ASCII.
pub uninterp spec fn unicode_lowercase(s: Seq<char>) -> Seq<char>;

/// `str::to_lowercase`: the text in lower case. Each ASCII letter is lowered by itself up to the
/// first character that is not ASCII; from there on the text is lowered by the tables of Unicode,
/// which is left to the name [`unicode_lowercase`].
#[verifier::external_body]
pub(crate) fn to_lowercase(s: &str) -> (r: String)
    ensures
        is_ascii_chars(s@) ==> r@ == s@.map_values(|c: char| ascii_lower(c)),
        !is_ascii_chars(s@) ==> r@ == lowered_start(s@) + unicode_lowercase(s@),
{
    s.to_lowercase()
}

/// A text in lower case.
pub open spec fn lowercase(s: Seq<char>) -> Seq<char> {
    if is_ascii_chars(s) {
        s.map_values(|c: char| ascii_lower(c))
    } else {
        lowered_start(s) + unicode_lowercase(s)
    }
}

// ---------------------------------------------------------------------------------------------
// Regular expressions
// ---------------------------------------------------------------------------------------------

/// A compiled regular expression.
#[verifier::external_type_specification]
#[verifier::external_body]
pub struct ExRegex(regex::Regex);

/// The texts in which a compiled expression finds a match.
pub uninterp spec fn regex_language(re: regex::Regex) -> Set<Seq<char>>;

/// The texts in which an expression, given by its source, finds a match.
pub uninterp spec fn pattern_language(pattern: Seq<char>) -> Set<Seq<char>>;

/// An expression, given by its source, compiles within the given limits on a machine whose
/// pointers have the given number of bits.
pub uninterp spec fn regex_builds(
    pattern: Seq<char>,
    size_limit: nat,
    cache_limit: nat,
    pointer_bits: nat,
) -> bool;

/// `regex::RegexBuilder::build` after `size_limit` and `dfa_size_limit`. What is built matches
/// as the pattern says, whatever the limits are. Whether building succeeds follows from the
/// pattern, the limits and the width of a pointer: the size that the first limit bounds is a
/// count of states times the size of a state in memory, and the width enters there. Which
/// expressions those are is left to the name [`regex_builds`].
#[verifier::external_body]
pub(crate) fn build_regex(pattern: &str, size_limit: usize, dfa_size_limit: usize) -> (r: Option<
    regex::Regex,
>)
    ensures
        r is Some == regex_builds(
            pattern@,
            size_limit as nat,
            dfa_size_limit as nat,
            usize::BITS as nat,
        ),
        r matches Some(re) ==> regex_language(re) == pattern_language(pattern@),
{
    regex::RegexBuilder::new(pattern).size_limit(size_limit).dfa_size_limit(
        dfa_size_limit,
    ).build().ok()
}

/// `regex::Regex::is_match`: tells whether the expression finds a match anywhere in the text.
#[verifier::external_body]
pub(crate) fn regex_is_match(re: &regex::Regex, text: &str) -> (r: bool)
    ensures
        r == regex_language(*re).contains(text@),
{
    re.is_match(text)
}

// ---------------------------------------------------------------------------------------------
// Shuffling
// ---------------------------------------------------------------------------------------------

/// The order into which a seeded shuffle brings some texts.
pub uninterp spec fn seeded_order(items: Seq<Seq<char>>, seed: u64) -> Seq<Seq<char>>;

/// `rand::seq::SliceRandom::shuffle` with `rand::rngs::StdRng::seed_from_u64`: swaps items by
/// index alone, so the items stay the same and their order follows from the seed.
#[verifier::external_body]
pub(crate) fn shuffle_seeded(items: &mut [String], seed: u64)
    ensures
        texts(final(items)@) == seeded_order(texts(old(items)@), seed),
        texts(final(items)@).to_multiset() == texts(old(items)@).to_multiset(),
{
    let mut rng = rand::rngs::StdRng::seed_from_u64(seed);
    items.shuffle(&mut rng);
}

/// `rand::seq::SliceRandom::shuffle` with `rand::thread_rng`: the items stay the same, in an
/// order that no two calls need share.
#[verifier::external_body]
pub(crate) fn shuffle_randomly(items: &mut [String])
    ensures
        texts(final(items)@).to_multiset() == texts(old(items)@).to_multiset(),
{
    let mut rng = rand::thread_rng();
    items.shuffle(&mut rng);
}

// ---------------------------------------------------------------------------------------------
// JSON
// ---------------------------------------------------------------------------------------------

/// A member of a JSON object, as far as the crate reads it.
pub enum JsonScalar {
    /// A string.
    Text(String),
    /// A number: its text, and its value where it is an integer that fits.
    Number { text: String, integer: Option<i64> },
    /// Anything else, or no member at all.
    Other,
}

/// The model of a [`JsonScalar`].
pub enum JsonView {
    Text(Seq<char>),
    Number { text: Seq<char>, integer: Option<i64> },
    Other,
}

impl View for JsonScalar {
    type V = JsonView;

    open spec fn view(&self) -> JsonView {
        match *self {
            JsonScalar::Text(t) => JsonView::Text(t@),
            JsonScalar::Number { text, integer } => JsonView::Number { text: text@, integer },
            JsonScalar::Other => JsonView::Other,
        }
    }
}

/// A JSON value.
#[verifier::external_type_specification]
#[verifier::external_body]
pub struct ExJsonValue(serde_json::Value);

/// The members of a JSON object under construction.
#[verifier::external_type_specification]
#[verifier::external_body]
#[verifier::reject_recursive_types(K)]
#[verifier::reject_recursive_types(V)]
pub struct ExJsonMap<K, V>(serde_json::Map<K, V>);

/// The members of a JSON value: those of the object that it is, or none.
pub uninterp spec fn json_members(v: serde_json::Value) -> Map<Seq<char>, JsonView>;

/// The members of an object under construction.
pub uninterp spec fn object_members(m: serde_json::Map<String, serde_json::Value>) -> Map<
    Seq<char>,
    JsonView,
>;

/// The members of the JSON document that a text is; nothing where it is no JSON document.
pub uninterp spec fn json_document(text: Seq<char>) -> Option<Map<Seq<char>, JsonView>>;

/// The text of the JSON object that has the given members, strings all of them.
pub uninterp spec fn json_object_text(members: Map<Seq<char>, JsonView>) -> Seq<char>;

/// The member of the given name, or [`JsonView::Other`] where there is none.
pub open spec fn member_of(members: Map<Seq<char>, JsonView>, key: Seq<char>) -> JsonView {
    if members.contains_key(key) {
        members[key]
    } else {
        JsonView::Other
    }
}

/// Every member is a string.
pub open spec fn all_text(members: Map<Seq<char>, JsonView>) -> bool {
    forall|k: Seq<char>| #[trigger] members.contains_key(k) ==> members[k] is Text
}

/// `serde_json::from_str` into a `serde_json::Value`: the value that the text writes, if it is
/// one JSON document.
#[verifier::external_body]
pub(crate) fn parse_json(text: &str) -> (r: Option<serde_json::Value>)
    ensures
        match r {
            Some(v) => json_document(text@) == Some(json_members(v)),
            None => json_document(text@) is None,
        },
{
    serde_json::from_str::<serde_json::Value>(text).ok()
}

/// Indexing a `serde_json::Value` by a string: the member of that name, or null where there is
/// none or where the value is no object.
#[verifier::external_body]
pub(crate) fn json_member(v: &serde_json::Value, key: &str) -> (r: JsonScalar)
    ensures
        r@ == member_of(json_members(*v), key@),
{
    match &v[key] {
        serde_json::Value::String(t) => JsonScalar::Text(t.clone()),
        serde_json::Value::Number(n) => JsonScalar::Number {
            text: n.to_string(),
            integer: n.as_i64(),
        },
        _ => JsonScalar::Other,
    }
}

/// `serde_json::Map::new`: an object without members.
#[verifier::external_body]
pub(crate) fn json_object() -> (r: serde_json::Map<String, serde_json::Value>)
    ensures
        object_members(r).is_empty(),
{
    serde_json::Map::new()
}

/// `serde_json::Map::insert` of a string: the object then has that member, whatever it had
/// under the name before.
#[verifier::external_body]
pub(crate) fn json_insert(
    m: &mut serde_json::Map<String, serde_json::Value>,
    key: &str,
    value: &str,
)
    ensures
        object_members(*final(m)) == object_members(*old(m)).insert(key@, JsonView::Text(value@)),
{
    m.insert(key.to_string(), serde_json::Value::String(value.to_string()));
}

/// `serde_json::Value::to_string` of an object whose members are strings: one text for one set
/// of members, from which reading gives the same members back. An object with a member of the one
/// name that marks a raw value is left out, since reading such an object gives the value that the
/// member writes.
#[verifier::external_body]
pub(crate) fn json_to_text(m: serde_json::Map<String, serde_json::Value>) -> (r: String)
    requires
        all_text(object_members(m)),
        !object_members(m).contains_key("$serde_json::private::RawValue"@),
    ensures
        r@ == json_object_text(object_members(m)),
        json_document(r@) == Some(object_members(m)),
{
    serde_json::Value::Object(m).to_string()
}

} // verus!
