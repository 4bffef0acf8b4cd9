//! Refusing to fetch from addresses inside a private network.

use crate::address::{
    digit_value, hex_groups, ipv4_address, ipv6_address, is_refused_ipv4, is_refused_ipv6,
    law_eight_groups, number, numeral, octet, parse_ipv4, parse_ipv6, quad, refused_ipv4,
    refused_ipv6, side_groups,
};
use crate::codec::{decode_url, url_content};
use crate::cut::{
    after_last, before, first_at, head, keep_by, law_joined_pieces, leading, leading_by,
    lemma_cut_join, lemma_cut_last_join, lemma_cut_none, lemma_position, lemma_position_is,
    occurs_at, pieces, position, starts_with, tail, trim_start_by, trimmed_start,
};
use crate::foreign::{ascii, ascii_lower, lowercase, lowered_start, to_lowercase};
use crate::link_laws::{law_scheme, lemma_join_lacks, lemma_nothing_to_decode};
use crate::link_reader::{scheme_and_rest, split_scheme};
use crate::text::{chars_of, lemma_filter_among, spells, text_of};
use vstd::prelude::*;
use vstd::slice::slice_subrange;
use vstd::utf8::is_ascii_chars;

verus! {

// ---------------------------------------------------------------------------------------------
// Hosts that are refused
// ---------------------------------------------------------------------------------------------

/// The hosts that are refused by name.
pub open spec fn blocked_name(host: Seq<char>) -> bool {
    ||| host == "localhost"@
    ||| host == "metadata.google.internal"@
}

/// A host without the dot that may end it.
pub open spec fn without_dot(host: Seq<char>) -> Seq<char> {
    if host.len() > 0 && host.last() == '.' {
        host.drop_last()
    } else {
        host
    }
}

/// A host as it is looked up: percent-decoded and in lower case.
pub open spec fn canonical_host(host: Seq<char>) -> Seq<char> {
    lowercase(url_content(host))
}

/// The hosts in lower case that are refused: some names, and the addresses of private networks, of
/// the host itself and of the local link, in any writing.
pub open spec fn refused_canonical(host: Seq<char>) -> bool {
    ||| blocked_name(without_dot(host))
    ||| ipv4_address(without_dot(host)) matches Some(v) && refused_ipv4(v)
    ||| ipv6_address(host) matches Some(g) && refused_ipv6(g)
}

/// The hosts that are refused, as a URL writes them.
pub open spec fn refused_host(host: Seq<char>) -> bool {
    refused_canonical(canonical_host(host))
}

fn drop_dot<'a>(host: &'a [char]) -> (r: &'a [char])
    ensures
        r@ == without_dot(host@),
{
    if host.len() > 0 && host[host.len() - 1] == '.' {
        slice_subrange(host, 0, host.len() - 1)
    } else {
        host
    }
}

fn is_refused_canonical(host: &[char]) -> (r: bool)
    ensures
        r == refused_canonical(host@),
{
    let name = drop_dot(host);
    if spells(name, "localhost") || spells(name, "metadata.google.internal") {
        return true;
    }
    if let Some(v) = parse_ipv4(name) {
        if is_refused_ipv4(v) {
            return true;
        }
    }
    proof {
        law_eight_groups(host@);
    }
    match parse_ipv6(host) {
        Some(g) => is_refused_ipv6(&g),
        None => false,
    }
}

fn is_refused_host(host: &[char]) -> (r: bool)
    ensures
        r == refused_host(host@),
{
    let decoded = decode_url(text_of(host).as_str());
    let lowered = to_lowercase(decoded.as_str());
    let chars = chars_of(lowered.as_str());
    is_refused_canonical(chars.as_slice())
}

// ---------------------------------------------------------------------------------------------
// The host of a URL
// ---------------------------------------------------------------------------------------------

/// The characters that count for nothing wherever they stand in a URL.
pub open spec fn ignored(c: char) -> bool {
    c == '\t' || c == '\n' || c == '\r'
}

/// A text without the characters that count for nothing.
pub open spec fn stripped(s: Seq<char>) -> Seq<char> {
    s.filter(|c: char| !ignored(c))
}

/// A slash, in either direction.
pub open spec fn slash(c: char) -> bool {
    c == '/' || c == '\\'
}

/// The characters at which the part of a URL that holds the host ends.
pub open spec fn ends_host(c: char) -> bool {
    slash(c) || c == '?' || c == '#'
}

/// What stands after the first `://`.
pub open spec fn after_scheme(url: Seq<char>) -> Seq<char> {
    match scheme_and_rest(url) {
        Some((_, rest)) => rest,
        None => seq![],
    }
}

/// The part of a URL that holds the host: what stands after the scheme and any more slashes, up to
/// where the host ends.
pub open spec fn authority(rest: Seq<char>) -> Seq<char> {
    leading(
        trimmed_start(stripped(rest), |c: char| slash(c)),
        |c: char| !ends_host(c),
    )
}

/// The host in that part: after the user part, without the port, and without the brackets of an
/// IPv6 address.
pub open spec fn host_within(authority: Seq<char>) -> Seq<char> {
    let host = after_last(authority, '@');
    if host.len() > 0 && host[0] == '[' {
        trimmed_start(before(host, ']'), |c: char| c == '[')
    } else {
        before(host, ':')
    }
}

/// The host of a URL, as it is fetched.
pub open spec fn host_of(url: Seq<char>) -> Seq<char> {
    host_within(authority(after_scheme(url)))
}

/// What stands between the first `://` and the second, or the end.
pub open spec fn between_marks(url: Seq<char>) -> Seq<char> {
    let rest = after_scheme(url);
    match scheme_and_rest(rest) {
        Some((piece, _)) => piece,
        None => rest,
    }
}

/// The host of a URL for a reader to whom only a slash, or a second `://`, ends it.
pub open spec fn slash_host(url: Seq<char>) -> Seq<char> {
    host_within(before(between_marks(url), '/'))
}

/// A URL in lower case may be fetched if its scheme is `http` or `https` and its host is not
/// refused, in either reading.
pub open spec fn safe_lower(lower: Seq<char>) -> bool {
    &&& "http://"@.is_prefix_of(lower) || "https://"@.is_prefix_of(lower)
    &&& !refused_host(host_of(lower))
    &&& !refused_host(slash_host(lower))
}

/// A URL may be fetched if, letter case aside, its scheme is `http` or `https` and its host is
/// not refused.
pub open spec fn safe_url(url: Seq<char>) -> bool {
    safe_lower(lowercase(url))
}

fn is_bracket(c: char) -> (r: bool)
    ensures
        r == (c == '['),
{
    c == '['
}

fn is_kept(c: char) -> (r: bool)
    ensures
        r == !ignored(c),
{
    c != '\t' && c != '\n' && c != '\r'
}

fn is_slash(c: char) -> (r: bool)
    ensures
        r == slash(c),
{
    c == '/' || c == '\\'
}

fn is_in_host(c: char) -> (r: bool)
    ensures
        r == !ends_host(c),
{
    !(c == '/' || c == '\\' || c == '?' || c == '#')
}

fn find_host<'a>(authority: &'a [char]) -> (r: &'a [char])
    ensures
        r@ == host_within(authority@),
{
    let host = tail(authority, '@');
    if host.len() > 0 && host[0] == '[' {
        trim_start_by(head(host, ']'), is_bracket, Ghost(|c: char| c == '['))
    } else {
        head(host, ':')
    }
}

/// Tells whether a URL that is in lower case may be fetched.
pub fn is_safe_lower(lower: &str) -> (r: bool)
    ensures
        r == safe_lower(lower@),
{
    let chars = chars_of(lower);
    let http = chars_of("http://");
    let https = chars_of("https://");
    if !starts_with(chars.as_slice(), http.as_slice()) && !starts_with(
        chars.as_slice(),
        https.as_slice(),
    ) {
        return false;
    }
    let rest = match split_scheme(chars.as_slice()) {
        Some((_, rest)) => rest,
        None => slice_subrange(chars.as_slice(), 0, 0),
    };
    assert(rest@ =~= after_scheme(lower@));
    let kept = keep_by(rest, is_kept, Ghost(|c: char| !ignored(c)));
    let start = trim_start_by(kept.as_slice(), is_slash, Ghost(|c: char| slash(c)));
    let part = leading_by(start, is_in_host, Ghost(|c: char| !ends_host(c)));
    if is_refused_host(find_host(part)) {
        return false;
    }
    let piece = match split_scheme(rest) {
        Some((piece, _)) => piece,
        None => rest,
    };
    assert(piece@ =~= between_marks(lower@));
    !is_refused_host(find_host(head(piece, '/')))
}

/// Tells whether a URL may be fetched.
pub fn is_safe_url(url: &str) -> (r: bool)
    ensures
        r == safe_url(url@),
{
    let lower = to_lowercase(url);
    is_safe_lower(lower.as_str())
}

// ---------------------------------------------------------------------------------------------
// Laws of hosts
// ---------------------------------------------------------------------------------------------

/// What may stand before the host of a URL: nothing, or a user part that an `@` ends.
pub open spec fn before_host(user: Seq<char>) -> bool {
    (user.len() > 0 ==> user.last() == '@') && user.all(|c: char| !ends_host(c))
}

/// What may follow the host of a URL: nothing, or a port, a path, a query or a fragment.
pub open spec fn after_host(rest: Seq<char>) -> bool {
    &&& rest.len() > 0 ==> rest[0] == ':' || ends_host(rest[0])
    &&& !leading(rest, |c: char| !ends_host(c)).contains('@')
}

/// A name or an address that can stand as it is: with none of the characters that part a URL, and
/// none that count for nothing.
pub open spec fn plain_char(c: char) -> bool {
    !ends_host(c) && !ignored(c) && c != '@'
}

pub(crate) proof fn lemma_stripped_same(s: Seq<char>)
    requires
        s.all(|c: char| !ignored(c)),
    ensures
        stripped(s) == s,
    decreases s.len(),
{
    reveal(Seq::filter);
    let f = |c: char| !ignored(c);
    if s.len() > 0 {
        let front = s.drop_last();
        assert forall|i: int| 0 <= i < front.len() implies #[trigger] f(front[i]) by {
            assert(f(s[i]));
        }
        lemma_stripped_same(front);
        assert(f(s[s.len() - 1]));
        assert(front.push(s.last()) =~= s);
    }
}

proof fn lemma_stripped_user(user: Seq<char>)
    requires
        before_host(user),
    ensures
        before_host(stripped(user)),
        user.len() > 0 ==> stripped(user).len() > 0,
{
    let f = |c: char| !ignored(c);
    let g = |c: char| !ends_host(c);
    let s = stripped(user);
    assert forall|i: int| 0 <= i < s.len() implies #[trigger] g(s[i]) by {
        lemma_filter_among(user, f, s[i]);
        let j = choose|j: int| 0 <= j < user.len() && user[j] == s[i];
        assert(g(user[j]));
    }
    if user.len() > 0 {
        reveal(Seq::filter);
        assert(f(user.last()));
        assert(s.last() == '@');
    }
}

proof fn lemma_leading_cons(c: char, s: Seq<char>, f: spec_fn(char) -> bool)
    ensures
        leading(seq![c] + s, f) == (if f(c) {
            seq![c] + leading(s, f)
        } else {
            seq![]
        }),
{
    assert((seq![c] + s).skip(1) =~= s);
}

proof fn lemma_leading_join(a: Seq<char>, b: Seq<char>, f: spec_fn(char) -> bool)
    requires
        a.all(f),
    ensures
        leading(a + b, f) == a + leading(b, f),
    decreases a.len(),
{
    if a.len() == 0 {
        assert(a + b =~= b);
        assert(a + leading(b, f) =~= leading(b, f));
    } else {
        let rest = a.skip(1);
        assert(f(a[0]));
        assert forall|i: int| 0 <= i < rest.len() implies #[trigger] f(rest[i]) by {
            assert(f(a[i + 1]));
        }
        lemma_leading_join(rest, b, f);
        assert(a + b =~= seq![a[0]] + (rest + b));
        lemma_leading_cons(a[0], rest + b, f);
        assert(seq![a[0]] + (rest + leading(b, f)) =~= a + leading(b, f));
    }
}

proof fn lemma_filter_cons(c: char, s: Seq<char>)
    ensures
        stripped(seq![c] + s) == (if ignored(c) {
            stripped(s)
        } else {
            seq![c] + stripped(s)
        }),
{
    let f = |c: char| !ignored(c);
    let one = seq![c];
    Seq::filter_distributes_over_add(one, s, f);
    reveal_with_fuel(Seq::filter, 2);
    assert(one.drop_last() =~= seq![]);
    if ignored(c) {
        assert(one.filter(f) =~= seq![]);
        assert(one.filter(f) + s.filter(f) =~= s.filter(f));
    } else {
        assert(one.filter(f) =~= one);
    }
}

/// What stands before the end of the host holds an `@` after stripping only if it did before.
proof fn lemma_stripped_leading(rest: Seq<char>)
    requires
        !leading(rest, |c: char| !ends_host(c)).contains('@'),
    ensures
        !leading(stripped(rest), |c: char| !ends_host(c)).contains('@'),
    decreases rest.len(),
{
    let f = |c: char| !ends_host(c);
    if rest.len() == 0 {
        reveal(Seq::filter);
        assert(stripped(rest) =~= rest);
    } else {
        let c = rest[0];
        let tail = rest.skip(1);
        assert(rest =~= seq![c] + tail);
        lemma_leading_cons(c, tail, f);
        lemma_filter_cons(c, tail);
        if f(c) {
            let part = leading(tail, f);
            assert(!part.contains('@')) by {
                if part.contains('@') {
                    let j = choose|j: int| 0 <= j < part.len() && part[j] == '@';
                    assert(leading(rest, f)[j + 1] == '@');
                }
            }
            assert(c != '@') by {
                assert(leading(rest, f)[0] == c);
            }
            lemma_stripped_leading(tail);
            if !ignored(c) {
                lemma_leading_cons(c, stripped(tail), f);
                assert(!seq![c].contains('@'));
                lemma_join_lacks(seq![c], leading(stripped(tail), f), '@');
            }
        } else {
            lemma_leading_cons(c, stripped(tail), f);
        }
    }
}

/// The part of a URL that holds the host, where it is known what stands in it.
proof fn lemma_authority(user: Seq<char>, host: Seq<char>, rest: Seq<char>) -> (port: Seq<char>)
    requires
        before_host(user),
        host.len() > 0,
        host.all(|c: char| plain_char(c)),
        after_host(rest),
    ensures
        port.len() > 0 ==> port[0] == ':',
        after_last(authority(user + host + rest), '@') == host + port,
        trimmed_start(stripped(user + host + rest), |c: char| slash(c)) == stripped(user) + host
            + stripped(rest),
        authority(user + host + rest) == stripped(user) + host + leading(
            stripped(rest),
            |c: char| !ends_host(c),
        ),
{
    let kept = |c: char| !ignored(c);
    let inside = |c: char| !ends_host(c);
    let edge = |c: char| slash(c);
    let plain = |c: char| plain_char(c);
    let u = stripped(user);
    let r = stripped(rest);
    Seq::filter_distributes_over_add(user + host, rest, kept);
    Seq::filter_distributes_over_add(user, host, kept);
    assert forall|i: int| 0 <= i < host.len() implies #[trigger] kept(host[i]) && inside(host[i])
        && host[i] != '@' by {
        assert(plain(host[i]));
    }
    lemma_stripped_same(host);
    lemma_stripped_user(user);
    assert(stripped(user + host + rest) == u + host + r);
    let text = u + host + r;
    assert(!edge(text[0])) by {
        if u.len() > 0 {
            assert(inside(u[0]));
            assert(text[0] == u[0]);
        } else {
            assert(text[0] == host[0]);
            assert(inside(host[0]));
        }
    }
    assert(trimmed_start(text, edge) == text);
    let front = u + host;
    assert forall|i: int| 0 <= i < front.len() implies #[trigger] inside(front[i]) by {
        if i < u.len() {
            assert(inside(u[i]));
        } else {
            assert(inside(host[i - u.len()]));
        }
    }
    lemma_leading_join(front, r, inside);
    let port = leading(r, inside);
    lemma_stripped_leading(rest);
    assert(port.len() > 0 ==> port[0] == ':') by {
        if rest.len() > 0 {
            assert(rest =~= seq![rest[0]] + rest.skip(1));
            lemma_filter_cons(rest[0], rest.skip(1));
        } else {
            reveal(Seq::filter);
            assert(r =~= seq![]);
        }
    }
    lemma_join_lacks(host, port, '@');
    let tail = host + port;
    assert(front + port =~= u + tail);
    if u.len() > 0 {
        assert(u + tail =~= u.drop_last() + seq!['@'] + tail);
        lemma_cut_last_join(u.drop_last(), '@', tail);
    } else {
        assert(u + tail =~= tail);
        lemma_cut_none(tail, '@');
    }
    port
}

proof fn lemma_url_rest(scheme: Seq<char>, rest: Seq<char>)
    requires
        scheme == "http"@ || scheme == "https"@,
    ensures
        after_scheme(scheme + "://"@ + rest) == rest,
        "http://"@.is_prefix_of(scheme + "://"@ + rest) || "https://"@.is_prefix_of(
            scheme + "://"@ + rest,
        ),
{
    reveal_strlit("http");
    reveal_strlit("https");
    reveal_strlit("://");
    reveal_strlit("http://");
    reveal_strlit("https://");
    assert(!scheme.contains(':'));
    law_scheme(scheme, rest);
    let url = scheme + "://"@ + rest;
    if scheme == "http"@ {
        assert(url.subrange(0, 7) =~= "http://"@);
    } else {
        assert(url.subrange(0, 8) =~= "https://"@);
    }
}

/// A name or an IPv4 address: neither part of a URL nor of a bracketed address stands in it.
pub open spec fn plain_host(host: Seq<char>) -> bool {
    host.len() > 0 && host.all(|c: char| plain_char(c) && c != ':' && c != '[')
}

/// The host that is looked at is the one that the URL names, whatever its user part is and
/// whatever follows it: a port, a path, a query or a fragment.
pub proof fn law_host(scheme: Seq<char>, user: Seq<char>, host: Seq<char>, rest: Seq<char>)
    requires
        scheme == "http"@ || scheme == "https"@,
        before_host(user),
        plain_host(host),
        after_host(rest),
    ensures
        host_of(scheme + "://"@ + user + host + rest) == host,
{
    let f = |c: char| plain_char(c) && c != ':' && c != '[';
    let g = |c: char| plain_char(c);
    assert forall|i: int| 0 <= i < host.len() implies #[trigger] host[i] != ':' && host[i] != '['
        && g(host[i]) by {
        assert(f(host[i]));
    }
    assert(scheme + "://"@ + user + host + rest =~= scheme + "://"@ + (user + host + rest));
    lemma_url_rest(scheme, user + host + rest);
    let port = lemma_authority(user, host, rest);
    let tail = host + port;
    assert(tail[0] == host[0]);
    if port.len() > 0 {
        assert(tail =~= host + seq![':'] + port.skip(1));
        lemma_cut_join(host, ':', port.skip(1));
    } else {
        assert(tail =~= host);
        lemma_cut_none(host, ':');
    }
}

/// The same of an IPv6 address, which stands in brackets.
pub proof fn law_bracketed_host(
    scheme: Seq<char>,
    user: Seq<char>,
    address: Seq<char>,
    rest: Seq<char>,
)
    requires
        scheme == "http"@ || scheme == "https"@,
        before_host(user),
        address.all(|c: char| plain_char(c) && c != '[' && c != ']'),
        after_host(rest),
    ensures
        host_of(scheme + "://"@ + user + (seq!['['] + address + seq![']']) + rest) == address,
{
    let f = |c: char| plain_char(c) && c != '[' && c != ']';
    let g = |c: char| plain_char(c);
    let host = seq!['['] + address + seq![']'];
    assert forall|i: int| 0 <= i < address.len() implies #[trigger] address[i] != '['
        && address[i] != ']' && g(address[i]) by {
        assert(f(address[i]));
    }
    assert forall|i: int| 0 <= i < host.len() implies #[trigger] g(host[i]) by {
        if 0 < i < host.len() - 1 {
            assert(host[i] == address[i - 1]);
        }
    }
    assert(scheme + "://"@ + user + host + rest =~= scheme + "://"@ + (user + host + rest));
    lemma_url_rest(scheme, user + host + rest);
    let port = lemma_authority(user, host, rest);
    let opened = seq!['['] + address;
    assert(host + port =~= opened + seq![']'] + port);
    assert(!opened.contains(']')) by {
        assert(!seq!['['].contains(']'));
        lemma_join_lacks(seq!['['], address, ']');
    }
    lemma_cut_join(opened, ']', port);
    assert(opened.skip(1) =~= address);
    let bracket = |c: char| c == '[';
    assert(trimmed_start(address, bracket) == address);
    assert(trimmed_start(opened, bracket) == address);
}

/// A URL with a plain host that is refused may not be fetched, whatever its user part is and
/// whatever follows the host.
pub proof fn law_refused_url(scheme: Seq<char>, user: Seq<char>, host: Seq<char>, rest: Seq<char>)
    requires
        scheme == "http"@ || scheme == "https"@,
        before_host(user),
        plain_host(host),
        after_host(rest),
    ensures
        refused_host(host) ==> !safe_lower(scheme + "://"@ + user + host + rest),
{
    law_host(scheme, user, host, rest);
}

/// The part of a text before its first `c`, where it is known how the text starts.
proof fn lemma_before_join(a: Seq<char>, b: Seq<char>, c: char)
    requires
        !a.contains(c),
    ensures
        before(a + b, c) == a + before(b, c),
{
    b.index_of_first_ensures(c);
    match b.index_of_first(c) {
        Some(i) => {
            let front = a + b.take(i);
            assert(a + b =~= front + seq![c] + b.skip(i + 1));
            assert(!b.take(i).contains(c));
            lemma_join_lacks(a, b.take(i), c);
            lemma_cut_join(front, c, b.skip(i + 1));
        },
        None => {
            lemma_join_lacks(a, b, c);
            lemma_cut_none(a + b, c);
        },
    }
}

/// What stands before the first slash of the start of a text stands before that of the text.
proof fn lemma_prefix_lacks(rest: Seq<char>, piece: Seq<char>)
    requires
        piece.is_prefix_of(rest),
        !before(rest, '/').contains('@'),
    ensures
        !before(piece, '/').contains('@'),
{
    rest.index_of_first_ensures('/');
    piece.index_of_first_ensures('/');
    let p = before(piece, '/');
    if p.contains('@') {
        let i = choose|i: int| 0 <= i < p.len() && p[i] == '@';
        assert forall|j: int| 0 <= j <= i implies rest[j] != '/' by {
            assert(piece[j] == rest[j]);
            assert(p[j] == piece[j]);
            if piece[j] == '/' {
                assert(piece.contains('/'));
            }
        }
        assert(before(rest, '/')[i] == '@');
    }
}

/// What may follow a host in the reading in which only a slash ends it: nothing, a port or a path.
pub open spec fn port_or_path(rest: Seq<char>) -> bool {
    &&& rest.len() > 0 ==> rest[0] == ':' || rest[0] == '/'
    &&& !before(rest, '/').contains('@')
}

pub(crate) proof fn lemma_slash_host(
    scheme: Seq<char>,
    user: Seq<char>,
    host: Seq<char>,
    rest: Seq<char>,
)
    requires
        scheme == "http"@ || scheme == "https"@,
        user.len() > 0 ==> user.last() == '@',
        !user.contains('/'),
        plain_host(host),
        port_or_path(rest),
    ensures
        slash_host(scheme + "://"@ + user + host + rest) == host,
{
    let f = |c: char| plain_char(c) && c != ':' && c != '[';
    let front = user + host;
    let tail = front + rest;
    let url = scheme + "://"@ + user + host + rest;
    assert(url =~= scheme + "://"@ + tail);
    lemma_url_rest(scheme, tail);
    assert forall|i: int| 0 <= i < host.len() implies #[trigger] host[i] != '/' && host[i] != ':'
        && host[i] != '@' && host[i] != '[' by {
        assert(f(host[i]));
    }
    lemma_join_lacks(user, host, '/');
    reveal_strlit("://");
    lemma_position(tail, "://"@);
    // Where a second `://` stands, its colon belongs to what follows the host.
    let rest_piece = match position(tail, "://"@) {
        Some(k) => {
            assert(tail.subrange(k, k + 3)[0] == ':');
            assert(tail.subrange(k, k + 3)[1] == '/');
            assert(tail[k] == ':' && tail[k + 1] == '/');
            assert(k >= front.len()) by {
                if k + 1 < front.len() {
                    assert(front[k + 1] == '/');
                } else if k + 1 == front.len() {
                    assert(front[k] == host.last());
                }
            }
            rest.take(k - front.len())
        },
        None => rest,
    };
    assert(between_marks(url) =~= front + rest_piece);
    lemma_before_join(front, rest_piece, '/');
    let port = before(rest_piece, '/');
    lemma_prefix_lacks(rest, rest_piece);
    rest_piece.index_of_first_ensures('/');
    let part = host + port;
    lemma_join_lacks(host, port, '@');
    assert(front + port =~= user + part);
    if user.len() > 0 {
        assert(user + part =~= user.drop_last() + seq!['@'] + part);
        lemma_cut_last_join(user.drop_last(), '@', part);
    } else {
        assert(user + part =~= part);
        lemma_cut_none(part, '@');
    }
    assert(part[0] == host[0]);
    if port.len() > 0 {
        assert(port[0] == ':') by {
            assert(port[0] == rest[0]);
            if rest[0] == '/' {
                assert(rest_piece.contains('/'));
                assert(rest_piece[0] == '/');
            }
        }
        assert(part =~= host + seq![':'] + port.skip(1));
        lemma_cut_join(host, ':', port.skip(1));
    } else {
        assert(part =~= host);
        lemma_cut_none(host, ':');
    }
}

/// A URL with a plain host and no more than a port and a path behind it may be fetched if and only
/// if the host is not refused.
pub proof fn law_safe_url(scheme: Seq<char>, user: Seq<char>, host: Seq<char>, rest: Seq<char>)
    requires
        scheme == "http"@ || scheme == "https"@,
        before_host(user),
        plain_host(host),
        port_or_path(rest),
    ensures
        safe_lower(scheme + "://"@ + user + host + rest) <==> !refused_host(host),
{
    let g = |c: char| !ends_host(c);
    assert forall|i: int| 0 <= i < user.len() implies #[trigger] user[i] != '/' by {
        assert(g(user[i]));
    }
    lemma_slash_host(scheme, user, host, rest);
    lemma_leading_in_before(rest);
    law_host(scheme, user, host, rest);
    assert(scheme + "://"@ + user + host + rest =~= scheme + "://"@ + (user + host + rest));
    lemma_url_rest(scheme, user + host + rest);
}

/// What stands before the end of the host stands before the first slash.
proof fn lemma_leading_in_before(rest: Seq<char>)
    requires
        !before(rest, '/').contains('@'),
    ensures
        !leading(rest, |c: char| !ends_host(c)).contains('@'),
{
    let f = |c: char| !ends_host(c);
    let part = leading(rest, f);
    rest.index_of_first_ensures('/');
    lemma_leading_prefix(rest, f);
    if part.contains('@') {
        let i = choose|i: int| 0 <= i < part.len() && part[i] == '@';
        assert forall|j: int| 0 <= j <= i implies rest[j] != '/' by {
            assert(f(part[j]));
            assert(part[j] == rest[j]);
        }
        assert(before(rest, '/')[i] == '@');
    }
}

pub(crate) proof fn lemma_leading_prefix(s: Seq<char>, f: spec_fn(char) -> bool)
    ensures
        leading(s, f).is_prefix_of(s),
        leading(s, f).all(f),
        leading(s, f).len() < s.len() ==> !f(s[leading(s, f).len() as int]),
    decreases s.len(),
{
    if s.len() > 0 && f(s[0]) {
        lemma_leading_prefix(s.skip(1), f);
        assert(s =~= seq![s[0]] + s.skip(1));
    }
}

/// Tabs and line ends in a URL, and more slashes after its scheme, do not change the host that is
/// fetched from.
pub proof fn law_same_host(scheme: Seq<char>, slashes: Seq<char>, rest: Seq<char>)
    requires
        scheme == "http"@ || scheme == "https"@,
        slashes.all(|c: char| slash(c)),
    ensures
        host_of(scheme + "://"@ + (slashes + rest)) == host_of(scheme + "://"@ + stripped(rest)),
{
    let kept = |c: char| !ignored(c);
    let edge = |c: char| slash(c);
    lemma_url_rest(scheme, slashes + rest);
    lemma_url_rest(scheme, stripped(rest));
    Seq::filter_distributes_over_add(slashes, rest, kept);
    assert forall|i: int| 0 <= i < slashes.len() implies #[trigger] kept(slashes[i]) by {
        assert(edge(slashes[i]));
    }
    lemma_stripped_same(slashes);
    assert forall|i: int| 0 <= i < stripped(rest).len() implies #[trigger] kept(
        stripped(rest)[i],
    ) by {
        rest.lemma_filter_pred(kept, i);
    }
    lemma_stripped_same(stripped(rest));
    lemma_skip_slashes(slashes, stripped(rest));
}

proof fn lemma_skip_slashes(slashes: Seq<char>, rest: Seq<char>)
    requires
        slashes.all(|c: char| slash(c)),
    ensures
        trimmed_start(slashes + rest, |c: char| slash(c)) == trimmed_start(
            rest,
            |c: char| slash(c),
        ),
    decreases slashes.len(),
{
    let edge = |c: char| slash(c);
    if slashes.len() == 0 {
        assert(slashes + rest =~= rest);
    } else {
        let fewer = slashes.skip(1);
        assert(edge(slashes[0]));
        assert forall|i: int| 0 <= i < fewer.len() implies #[trigger] edge(fewer[i]) by {
            assert(edge(slashes[i + 1]));
        }
        lemma_skip_slashes(fewer, rest);
        assert((slashes + rest).skip(1) =~= fewer + rest);
    }
}

// ---------------------------------------------------------------------------------------------
// Laws of addresses
// ---------------------------------------------------------------------------------------------

/// The characters of an address: digits, letters of lower case, dots and colons.
pub open spec fn address_char(c: char) -> bool {
    digit_value(c) < 16 || c == 'x' || c == '.' || c == ':'
}

pub(crate) proof fn lemma_canonical(s: Seq<char>)
    requires
        s.all(|c: char| address_char(c)),
    ensures
        canonical_host(s) == s,
{
    let f = |c: char| address_char(c);
    assert forall|i: int| 0 <= i < s.len() implies #[trigger] s[i] != '%' && '\0' <= s[i]
        <= '\u{7f}' && ascii_lower(s[i]) == s[i] by {
        assert(f(s[i]));
    }
    lemma_nothing_to_decode(s);
    assert(s.map_values(|c: char| ascii_lower(c)) =~= s);
}

proof fn lemma_numeral_chars(s: Seq<char>, base: nat)
    requires
        base <= 16,
        numeral(s, base) is Some,
    ensures
        s.all(|c: char| address_char(c)),
    decreases s.len(),
{
    let f = |c: char| address_char(c);
    if s.len() > 0 {
        lemma_numeral_chars(s.drop_last(), base);
        assert forall|i: int| 0 <= i < s.len() implies #[trigger] f(s[i]) by {
            if i < s.len() - 1 {
                assert(f(s.drop_last()[i]));
            }
        }
    }
}

proof fn lemma_number_chars(s: Seq<char>)
    requires
        number(s) is Some,
    ensures
        s.all(|c: char| address_char(c)),
{
    let f = |c: char| address_char(c);
    if s.len() >= 2 && s[0] == '0' && s[1] == 'x' {
        lemma_numeral_chars(s.skip(2), 16);
        assert forall|i: int| 0 <= i < s.len() implies #[trigger] f(s[i]) by {
            if i >= 2 {
                assert(f(s.skip(2)[i - 2]));
            }
        }
    } else if s.len() >= 2 && s[0] == '0' {
        lemma_numeral_chars(s.skip(1), 8);
        assert forall|i: int| 0 <= i < s.len() implies #[trigger] f(s[i]) by {
            if i >= 1 {
                assert(f(s.skip(1)[i - 1]));
            }
        }
    } else {
        lemma_numeral_chars(s, 10);
    }
}

/// A text holds nothing but its pieces and what parts them.
proof fn lemma_pieces_all(s: Seq<char>, c: char, f: spec_fn(char) -> bool)
    requires
        f(c),
        forall|i: int| 0 <= i < pieces(s, c).len() ==> (#[trigger] pieces(s, c)[i]).all(f),
    ensures
        s.all(f),
    decreases s.len(),
{
    s.index_of_first_ensures(c);
    match s.index_of_first(c) {
        Some(k) => {
            let rest = s.skip(k + 1);
            let p = pieces(rest, c);
            assert forall|i: int| 0 <= i < p.len() implies (#[trigger] p[i]).all(f) by {
                assert(pieces(s, c)[i + 1] == p[i]);
            }
            lemma_pieces_all(rest, c, f);
            assert(pieces(s, c)[0] == s.take(k));
            assert forall|i: int| 0 <= i < s.len() implies #[trigger] f(s[i]) by {
                if i < k {
                    assert(f(s.take(k)[i]));
                } else if i > k {
                    assert(f(rest[i - k - 1]));
                }
            }
        },
        None => {
            assert(pieces(s, c)[0] == s);
        },
    }
}

pub(crate) proof fn lemma_ipv4_chars(s: Seq<char>)
    requires
        ipv4_address(s) is Some,
    ensures
        s.len() > 0,
        s.all(|c: char| address_char(c) && c != ':'),
{
    let g = |c: char| address_char(c) && c != ':';
    let p = pieces(s, '.');
    assert forall|i: int| 0 <= i < p.len() implies (#[trigger] p[i]).all(g) by {
        assert(number(p[i]) is Some);
        lemma_number_no_colon(p[i]);
    }
    lemma_pieces_all(s, '.', g);
    if s.len() == 0 {
        assert(!s.contains('.'));
        lemma_cut_none(s, '.');
        assert(p[0] == s);
    }
}

proof fn lemma_numeral_no_colon(s: Seq<char>, base: nat)
    requires
        base <= 16,
        numeral(s, base) is Some,
    ensures
        !s.contains(':'),
        !s.contains('.'),
    decreases s.len(),
{
    if s.len() > 0 {
        lemma_numeral_no_colon(s.drop_last(), base);
        assert forall|i: int| 0 <= i < s.len() implies #[trigger] s[i] != ':' && s[i] != '.' by {
            if i < s.len() - 1 {
                assert(s.drop_last().contains(s.drop_last()[i]));
            }
        }
    }
}

proof fn lemma_number_no_colon(s: Seq<char>)
    requires
        number(s) is Some,
    ensures
        s.all(|c: char| address_char(c) && c != ':'),
{
    let f = |c: char| address_char(c);
    let g = |c: char| address_char(c) && c != ':';
    lemma_number_chars(s);
    let (skip, base): (int, nat) = if s.len() >= 2 && s[0] == '0' && s[1] == 'x' {
        (2, 16)
    } else if s.len() >= 2 && s[0] == '0' {
        (1, 8)
    } else {
        (0, 10)
    };
    assert(s.skip(0) =~= s);
    lemma_numeral_no_colon(s.skip(skip), base);
    assert forall|i: int| 0 <= i < s.len() implies #[trigger] g(s[i]) by {
        assert(f(s[i]));
        if i >= skip {
            assert(s.skip(skip).contains(s.skip(skip)[i - skip]));
        }
    }
}

/// Nothing may be fetched from an IPv4 address of a private network, of the host itself or of the
/// local link, in whatever writing it stands in the URL.
pub proof fn law_private_refused(
    scheme: Seq<char>,
    user: Seq<char>,
    address: Seq<char>,
    rest: Seq<char>,
)
    requires
        scheme == "http"@ || scheme == "https"@,
        before_host(user),
        ipv4_address(without_dot(address)) matches Some(v) && refused_ipv4(v),
        after_host(rest),
    ensures
        refused_host(host_of(scheme + "://"@ + user + address + rest)),
        !safe_lower(scheme + "://"@ + user + address + rest),
{
    let short = without_dot(address);
    let f = |c: char| address_char(c) && c != ':';
    let g = |c: char| address_char(c);
    let h = |c: char| plain_char(c) && c != ':' && c != '[';
    lemma_ipv4_chars(short);
    assert forall|i: int| 0 <= i < address.len() implies g(#[trigger] address[i]) && h(
        address[i],
    ) by {
        if i < short.len() {
            assert(f(short[i]));
        }
    }
    lemma_canonical(address);
    law_host(scheme, user, address, rest);
}

proof fn lemma_hex_groups_chars(parts: Seq<Seq<char>>)
    requires
        hex_groups(parts) is Some,
    ensures
        forall|i: int|
            0 <= i < parts.len() ==> (#[trigger] parts[i]).all(|c: char| address_char(c)),
    decreases parts.len(),
{
    if parts.len() > 0 {
        let front = parts.drop_last();
        lemma_hex_groups_chars(front);
        lemma_numeral_chars(parts.last(), 16);
        assert forall|i: int| 0 <= i < parts.len() implies (#[trigger] parts[i]).all(
            |c: char| address_char(c),
        ) by {
            if i < front.len() {
                assert(front[i] == parts[i]);
            }
        }
    }
}

proof fn lemma_quad_chars(s: Seq<char>)
    requires
        quad(s) is Some,
    ensures
        s.all(|c: char| address_char(c)),
{
    let f = |c: char| address_char(c);
    let p = pieces(s, '.');
    assert forall|i: int| 0 <= i < p.len() implies (#[trigger] p[i]).all(f) by {
        assert(octet(p[i]) is Some);
        lemma_numeral_chars(p[i], 10);
    }
    lemma_pieces_all(s, '.', f);
}

proof fn lemma_side_chars(s: Seq<char>, end: bool)
    requires
        side_groups(s, end) is Some,
    ensures
        s.all(|c: char| address_char(c)),
{
    let f = |c: char| address_char(c);
    if s.len() > 0 {
        let p = pieces(s, ':');
        law_joined_pieces(s, ':');
        match quad(p.last()) {
            Some(_) => {
                lemma_quad_chars(p.last());
                lemma_hex_groups_chars(p.drop_last());
                assert forall|i: int| 0 <= i < p.len() implies (#[trigger] p[i]).all(f) by {
                    if i < p.len() - 1 {
                        assert(p.drop_last()[i] == p[i]);
                    }
                }
            },
            None => {
                lemma_hex_groups_chars(p);
            },
        }
        lemma_pieces_all(s, ':', f);
    }
}

pub(crate) proof fn lemma_ipv6_chars(s: Seq<char>)
    requires
        ipv6_address(s) is Some,
    ensures
        s.all(|c: char| address_char(c)),
{
    let f = |c: char| address_char(c);
    reveal_strlit("::");
    lemma_position(s, "::"@);
    match position(s, "::"@) {
        Some(i) => {
            lemma_side_chars(s.take(i), false);
            lemma_side_chars(s.skip(i + 2), true);
            assert forall|j: int| 0 <= j < s.len() implies #[trigger] f(s[j]) by {
                if j < i {
                    assert(f(s.take(i)[j]));
                } else if j < i + 2 {
                    assert(s.subrange(i, i + 2)[j - i] == ':');
                } else {
                    assert(f(s.skip(i + 2)[j - i - 2]));
                }
            }
        },
        None => {
            lemma_side_chars(s, true);
        },
    }
}

/// Nothing may be fetched from an IPv6 address of the local link or of a private network, from the
/// loopback address, or from one that stands for such an IPv4 address, in whatever writing it
/// stands in the URL.
pub proof fn law_link_local_refused(
    scheme: Seq<char>,
    user: Seq<char>,
    address: Seq<char>,
    rest: Seq<char>,
)
    requires
        scheme == "http"@ || scheme == "https"@,
        before_host(user),
        ipv6_address(address) matches Some(g) && refused_ipv6(g),
        after_host(rest),
    ensures
        refused_host(host_of(scheme + "://"@ + user + (seq!['['] + address + seq![']']) + rest)),
        !safe_lower(scheme + "://"@ + user + (seq!['['] + address + seq![']']) + rest),
{
    let f = |c: char| address_char(c);
    let h = |c: char| plain_char(c) && c != '[' && c != ']';
    lemma_ipv6_chars(address);
    assert forall|i: int| 0 <= i < address.len() implies #[trigger] h(address[i]) by {
        assert(f(address[i]));
    }
    lemma_canonical(address);
    law_bracketed_host(scheme, user, address, rest);
}

// ---------------------------------------------------------------------------------------------
// Laws of letter case
// ---------------------------------------------------------------------------------------------

/// A text of ASCII is lowered by itself, whatever follows it.
pub proof fn law_lowercase_start(start: Seq<char>, rest: Seq<char>)
    requires
        is_ascii_chars(start),
    ensures
        lowercase(start).is_prefix_of(lowercase(start + rest)),
{
    let f = |c: char| ascii(c);
    let lower = |c: char| ascii_lower(c);
    assert forall|i: int| 0 <= i < start.len() implies #[trigger] f(start[i]) by {
        assert('\0' <= start[i] <= '\u{7f}');
    }
    lemma_leading_join(start, rest, f);
    assert((start + rest).map_values(lower).subrange(0, start.len() as int)
        =~= start.map_values(lower));
    assert(lowered_start(start + rest) =~= start.map_values(lower) + leading(rest, f).map_values(
        lower,
    ));
}

/// The host of a URL is settled within a text: the text goes on after the host.
pub open spec fn host_settled(url: Seq<char>) -> bool {
    let part = trimmed_start(stripped(after_scheme(url)), |c: char| slash(c));
    scheme_and_rest(url) is Some && leading(part, |c: char| !ends_host(c)).len() < part.len()
}

/// The host of a URL is settled where a path, a query or a fragment follows it.
pub proof fn law_host_settled(scheme: Seq<char>, user: Seq<char>, host: Seq<char>, rest: Seq<char>)
    requires
        scheme == "http"@ || scheme == "https"@,
        before_host(user),
        host.len() > 0,
        host.all(|c: char| plain_char(c)),
        after_host(rest),
        leading(rest, |c: char| !ends_host(c)).len() < rest.len(),
    ensures
        host_settled(scheme + "://"@ + user + host + rest),
{
    let kept = |c: char| !ignored(c);
    let inside = |c: char| !ends_host(c);
    let all = user + host + rest;
    assert(scheme + "://"@ + user + host + rest =~= scheme + "://"@ + all);
    lemma_url_rest(scheme, all);
    reveal_strlit("http");
    reveal_strlit("https");
    assert(!scheme.contains(':'));
    law_scheme(scheme, all);
    let port = lemma_authority(user, host, rest);
    let r = stripped(rest);
    lemma_leading_prefix(rest, inside);
    let k = leading(rest, inside).len() as int;
    assert(kept(rest[k]));
    rest.lemma_filter_contains(kept, k);
    let j = choose|j: int| 0 <= j < r.len() && r[j] == rest[k];
    lemma_leading_prefix(r, inside);
    if leading(r, inside).len() >= r.len() {
        assert(leading(r, inside)[j] == r[j]);
        assert(inside(leading(r, inside)[j]));
    }
}

proof fn lemma_trimmed_join(a: Seq<char>, b: Seq<char>, f: spec_fn(char) -> bool)
    requires
        trimmed_start(a, f).len() > 0,
    ensures
        trimmed_start(a + b, f) == trimmed_start(a, f) + b,
    decreases a.len(),
{
    if a.len() > 0 && f(a[0]) {
        lemma_trimmed_join(a.skip(1), b, f);
        assert((a + b).skip(1) =~= a.skip(1) + b);
    }
}

proof fn lemma_leading_settled(a: Seq<char>, b: Seq<char>, f: spec_fn(char) -> bool)
    requires
        leading(a, f).len() < a.len(),
    ensures
        leading(a + b, f) == leading(a, f),
    decreases a.len(),
{
    if f(a[0]) {
        assert(leading(a.skip(1), f).len() < a.skip(1).len());
        lemma_leading_settled(a.skip(1), b, f);
        assert((a + b).skip(1) =~= a.skip(1) + b);
    }
}

/// Where the host is settled within the start of a URL, what follows does not change it.
proof fn lemma_settled(url: Seq<char>, more: Seq<char>)
    requires
        host_settled(url),
    ensures
        host_of(url + more) == host_of(url),
{
    let kept = |c: char| !ignored(c);
    let edge = |c: char| slash(c);
    let inside = |c: char| !ends_host(c);
    reveal_strlit("://");
    lemma_position(url, "://"@);
    let i = position(url, "://"@)->0;
    let all = url + more;
    assert(first_at(all, "://"@, i)) by {
        assert(all.subrange(i, i + 3) =~= url.subrange(i, i + 3));
        assert forall|j: int| 0 <= j < i implies !occurs_at(all, "://"@, j) by {
            assert(!occurs_at(url, "://"@, j));
            assert(all.subrange(j, j + 3) =~= url.subrange(j, j + 3));
        }
    }
    lemma_position_is(all, "://"@, i);
    let rest = url.skip(i + 3);
    assert(all.skip(i + 3) =~= rest + more);
    Seq::filter_distributes_over_add(rest, more, kept);
    let part = trimmed_start(stripped(rest), edge);
    lemma_trimmed_join(stripped(rest), stripped(more), edge);
    lemma_leading_settled(part, stripped(more), inside);
}

/// A URL whose host is settled within its start, and refused, may not be fetched, whatever follows
/// and in whatever letter case it is written. The start is ASCII; what follows need not be.
pub proof fn law_refused_start(start: Seq<char>, rest: Seq<char>)
    requires
        is_ascii_chars(start),
        host_settled(start.map_values(|c: char| ascii_lower(c))),
    ensures
        refused_host(host_of(start.map_values(|c: char| ascii_lower(c)))) ==> !safe_url(
            start + rest,
        ),
{
    law_lowercase_start(start, rest);
    let low = lowercase(start);
    let all = lowercase(start + rest);
    assert(all =~= low + all.skip(low.len() as int));
    lemma_settled(low, all.skip(low.len() as int));
}

} // verus!
