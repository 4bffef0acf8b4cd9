//! Reading a subscription: a list of links, the same in base64, or a YAML configuration.

use crate::codec::{base64_content, decode_base64};
use crate::cut::{
    all_by, contains, keep_by, line_list, lines, occurs_in, starts_with, trim, trimmed,
};
use crate::foreign::{string_from_utf8_lossy, utf8_lossy};
use crate::link_reader::{scheme_and_rest, split_scheme};
use crate::seen::{fresh, met, push_fresh, Seen};
use crate::text::{
    alphanumeric, chars_of, is_alphanumeric, is_white_space, slices, spells, text_of, texts,
    white_space,
};
use crate::yaml_reader::{links_of, parse_yaml, yaml_nodes};
use vstd::prelude::*;
use vstd::utf8::encode_utf8;

verus! {

/// The schemes of links that are kept.
pub open spec fn valid_proto(p: Seq<char>) -> bool {
    ||| p == "vless"@
    ||| p == "vmess"@
    ||| p == "trojan"@
    ||| p == "ss"@
    ||| p == "ssr"@
    ||| p == "hysteria"@
    ||| p == "hysteria2"@
    ||| p == "hy2"@
    ||| p == "tuic"@
    ||| p == "snell"@
    ||| p == "wireguard"@
    ||| p == "wg"@
    ||| p == "socks"@
    ||| p == "socks5"@
    ||| p == "http"@
    ||| p == "https"@
    ||| p == "ssh"@
}

fn spells_proto(p: &[char]) -> (r: bool)
    ensures
        r == valid_proto(p@),
{
    spells(p, "vless") || spells(p, "vmess") || spells(p, "trojan") || spells(p, "ss") || spells(
        p,
        "ssr",
    ) || spells(p, "hysteria") || spells(p, "hysteria2") || spells(p, "hy2") || spells(p, "tuic")
        || spells(p, "snell") || spells(p, "wireguard") || spells(p, "wg") || spells(p, "socks")
        || spells(p, "socks5") || spells(p, "http") || spells(p, "https") || spells(p, "ssh")
}

/// Tells whether links of a scheme are kept.
pub fn is_valid_proto(proto: &str) -> (r: bool)
    ensures
        r == valid_proto(proto@),
{
    let chars = chars_of(proto);
    spells_proto(chars.as_slice())
}

// ---------------------------------------------------------------------------------------------
// Base64
// ---------------------------------------------------------------------------------------------

/// The characters that a text in base64 may hold, white space between them among these.
pub open spec fn base64_like(c: char) -> bool {
    alphanumeric(c) || c == '+' || c == '/' || c == '=' || white_space(c)
}

fn is_base64_like(c: char) -> (r: bool)
    ensures
        r == base64_like(c),
{
    is_alphanumeric(c) || c == '+' || c == '/' || c == '=' || is_white_space(c)
}

fn is_no_white_space(c: char) -> (r: bool)
    ensures
        r == !white_space(c),
{
    !is_white_space(c)
}

/// What a text in base64 encodes; white space in it does not count.
pub open spec fn loose_base64(s: Seq<char>) -> Option<Seq<char>> {
    base64_content(s.filter(|c: char| !white_space(c)))
}

/// Decodes a text in base64, whatever white space it holds.
pub fn try_decode_base64(s: &str) -> (r: Option<String>)
    ensures
        match r {
            Some(t) => loose_base64(s@) == Some(t@),
            None => loose_base64(s@) is None,
        },
{
    let chars = chars_of(s);
    let clean = keep_by(chars.as_slice(), is_no_white_space, Ghost(|c: char| !white_space(c)));
    decode_base64(text_of(clean.as_slice()).as_str())
}

/// A text after up to `rounds` rounds of decoding. A text that holds a link, that does not look
/// like base64 or that cannot be decoded is left as it is.
pub open spec fn decoded(s: Seq<char>, rounds: nat) -> Seq<char>
    decreases rounds,
{
    if rounds == 0 || occurs_in(s, "://"@) || !s.all(|c: char| base64_like(c)) {
        s
    } else {
        match loose_base64(s) {
            Some(t) => decoded(t, (rounds - 1) as nat),
            None => s,
        }
    }
}

/// Decodes a text that looks like base64, three times at most.
pub fn maybe_decode(text: String) -> (r: String)
    ensures
        r@ == decoded(text@, 3),
{
    let mark = chars_of("://");
    let mut cur = text;
    let mut left: usize = 3;
    while left > 0
        invariant
            left <= 3,
            mark@ == "://"@,
            decoded(text@, 3) == decoded(cur@, left as nat),
        decreases left,
    {
        let chars = chars_of(cur.as_str());
        if contains(chars.as_slice(), mark.as_slice()) {
            return cur;
        }
        if !all_by(chars.as_slice(), is_base64_like, Ghost(|c: char| base64_like(c))) {
            return cur;
        }
        match try_decode_base64(cur.as_str()) {
            Some(t) => {
                cur = t;
            },
            None => {
                return cur;
            },
        }
        left -= 1;
    }
    cur
}

// ---------------------------------------------------------------------------------------------
// Links
// ---------------------------------------------------------------------------------------------

/// A line is a link if it has a scheme that is kept.
pub open spec fn is_link(line: Seq<char>) -> bool {
    match scheme_and_rest(line) {
        Some((scheme, _)) => valid_proto(scheme),
        None => false,
    }
}

/// The links among some lines, without white space around them.
pub open spec fn links_among(lines: Seq<Seq<char>>) -> Seq<Seq<char>>
    decreases lines.len(),
{
    if lines.len() == 0 {
        seq![]
    } else {
        let rest = links_among(lines.drop_last());
        let line = trimmed(lines.last());
        if is_link(line) {
            rest.push(line)
        } else {
            rest
        }
    }
}

/// The links that a text lists, one to a line.
pub open spec fn listed_links(text: Seq<char>) -> Seq<Seq<char>> {
    links_among(line_list(text))
}

/// Returns the links that a text lists, without those that were seen before; all of them are
/// then remembered.
pub fn parse_uris(text: &str, seen: &mut Seen) -> (r: Vec<String>)
    ensures
        texts(r@) == fresh(listed_links(text@), old(seen)@),
        final(seen)@ == met(listed_links(text@), old(seen)@),
{
    let ghost start = seen@;
    let chars = chars_of(text);
    let rows = lines(chars.as_slice());
    let ghost list = slices(rows@);
    let mut results: Vec<String> = Vec::new();
    let mut i: usize = 0;
    assert(list.take(0) =~= seq![]);
    assert(texts(results@) =~= fresh(links_among(list.take(0)), start));
    assert(seen@ =~= met(links_among(list.take(0)), start));
    while i < rows.len()
        invariant
            list == slices(rows@),
            i <= rows@.len(),
            texts(results@) == fresh(links_among(list.take(i as int)), start),
            seen@ == met(links_among(list.take(i as int)), start),
        decreases rows@.len() - i,
    {
        assert(list.take(i + 1).drop_last() =~= list.take(i as int));
        let line = trim(rows[i]);
        if let Some((scheme, _)) = split_scheme(line) {
            if spells_proto(scheme) {
                push_fresh(
                    &mut results,
                    text_of(line),
                    seen,
                    Ghost(links_among(list.take(i as int))),
                    Ghost(start),
                );
            }
        }
        i += 1;
    }
    assert(list.take(i as int) =~= list);
    results
}

// ---------------------------------------------------------------------------------------------
// Subscriptions
// ---------------------------------------------------------------------------------------------

/// A text looks like base64 if it is longer than twenty bytes and holds nothing else.
pub open spec fn looks_like_base64(text: Seq<char>) -> bool {
    encode_utf8(text).len() > 20 && text.all(|c: char| base64_like(c))
}

/// A text is a YAML configuration if it has a list of proxies.
pub open spec fn has_proxies(text: Seq<char>) -> bool {
    "proxies:"@.is_prefix_of(text) || occurs_in(text, "\nproxies:"@)
}

/// The links of a subscription, by what it looks like: a list of links, a YAML configuration, a
/// text in base64 that decodes to a list of links, or again a list of links.
pub open spec fn content_links(text: Seq<char>) -> Seq<Seq<char>> {
    let core = trimmed(text);
    if occurs_in(core, "://"@) {
        listed_links(text)
    } else if has_proxies(core) {
        links_of(yaml_nodes(text))
    } else if looks_like_base64(core) {
        listed_links(decoded(core, 3))
    } else {
        listed_links(text)
    }
}

/// Returns the links of a subscription, without those that were seen before; all of them are
/// then remembered.
pub fn parse_content(text: &str, seen: &mut Seen) -> (r: Vec<String>)
    ensures
        texts(r@) == fresh(content_links(text@), old(seen)@),
        final(seen)@ == met(content_links(text@), old(seen)@),
{
    let chars = chars_of(text);
    let core = trim(chars.as_slice());
    let mark = chars_of("://");
    if contains(core, mark.as_slice()) {
        return parse_uris(text, seen);
    }
    let section = chars_of("proxies:");
    let inner_section = chars_of("\nproxies:");
    if starts_with(core, section.as_slice()) || contains(core, inner_section.as_slice()) {
        return parse_yaml(text, seen);
    }
    let core_text = text_of(core);
    if core_text.as_str().as_bytes().len() > 20 && all_by(
        core,
        is_base64_like,
        Ghost(|c: char| base64_like(c)),
    ) {
        let plain = maybe_decode(core_text);
        return parse_uris(plain.as_str(), seen);
    }
    parse_uris(text, seen)
}

/// The largest body of a subscription that is read, in bytes.
pub const MAX_BODY: usize = 104857600;

/// The links of the body of a response; none where the body is too large.
pub open spec fn body_links(body: Seq<u8>) -> Seq<Seq<char>> {
    if body.len() > MAX_BODY {
        seq![]
    } else {
        content_links(utf8_lossy(body))
    }
}

/// Tells whether the body of a response is worth reading: the response reports success, and
/// does not announce a body that is too large.
pub fn accepts_response(success: bool, content_length: Option<u64>) -> (r: bool)
    ensures
        r == (success && !(content_length matches Some(n) && n > MAX_BODY)),
{
    match content_length {
        Some(n) => success && n <= MAX_BODY as u64,
        None => success,
    }
}

/// Returns the links of the body of a response, without those that were seen before; all of
/// them are then remembered.
pub fn parse_body(body: &[u8], seen: &mut Seen) -> (r: Vec<String>)
    ensures
        texts(r@) == fresh(body_links(body@), old(seen)@),
        final(seen)@ == met(body_links(body@), old(seen)@),
{
    if body.len() > MAX_BODY {
        let none: Vec<String> = Vec::new();
        assert(texts(none@) =~= seq![]);
        assert(seen@ =~= met(seq![], seen@));
        return none;
    }
    let text = string_from_utf8_lossy(body);
    parse_content(text.as_str(), seen)
}

} // verus!
