//! Which hosts subscriptions may be fetched from.

use crate::address::{
    dotted, hex_groups, ipv4_address, ipv6_address, law_dotted, private_ipv4, refused_ipv4,
    refused_ipv6, side_groups,
};
use crate::codec::law_url_round_trip;
use crate::cut::{leading, lemma_cut_none, lemma_position, position};
use crate::decimal::{decimal, lemma_decimal_digits};
use crate::foreign::{ascii_lower, lowercase, url_encoded};
use crate::link_laws::{lemma_join_lacks, lemma_nothing_to_decode};
use crate::safety::{
    address_char, before_host, blocked_name, canonical_host, ends_host, host_of, ignored, law_host,
    law_safe_url, lemma_canonical, lemma_ipv4_chars, lemma_leading_prefix, lemma_slash_host,
    plain_char, plain_host, port_or_path, refused_host, safe_lower, safe_url, stripped, without_dot,
};
use crate::text::digit;
use vstd::prelude::*;
use vstd::utf8::is_ascii_chars;

verus! {

/// The IPv4 addresses that are refused are 0.0.0.0 and those of the networks 10.0.0.0/8,
/// 127.0.0.0/8, 169.254.0.0/16, 172.16.0.0/12 and 192.168.0.0/16.
pub proof fn law_refused_networks(v: nat)
    requires
        v < 0x1_0000_0000,
    ensures
        refused_ipv4(v) <==> {
            ||| v == 0
            ||| 0x0a00_0000 <= v <= 0x0aff_ffff
            ||| 0x7f00_0000 <= v <= 0x7fff_ffff
            ||| 0xa9fe_0000 <= v <= 0xa9fe_ffff
            ||| 0xac10_0000 <= v <= 0xac1f_ffff
            ||| 0xc0a8_0000 <= v <= 0xc0a8_ffff
        },
{
    let a: nat = v / 0x100_0000;
    let b: nat = v / 0x1_0000 % 256;
    let c: nat = v % 0x1_0000;
    assert(v == a * 0x100_0000 + b * 0x1_0000 + c);
}

/// The IPv6 addresses that are refused are `::`, `::1`, those of the networks fe80::/10 and
/// fc00::/7, and those that stand for an IPv4 address that is refused.
pub proof fn law_refused_networks6(g: Seq<nat>)
    requires
        g.len() == 8,
        forall|i: int| 0 <= i < 8 ==> #[trigger] g[i] < 0x1_0000,
    ensures
        refused_ipv6(g) <==> {
            ||| g[0] / 0x40 == 0xfe80int / 0x40
            ||| g[0] / 0x200 == 0xfc00int / 0x200
            ||| g =~= seq![0nat, 0, 0, 0, 0, 0, 0, 0]
            ||| g =~= seq![0nat, 0, 0, 0, 0, 0, 0, 1]
            ||| g.take(6) =~= seq![0nat, 0, 0, 0, 0, 0xffff] && refused_ipv4(
                g[6] * 0x1_0000 + g[7],
            )
        },
{
    let h = g.take(6);
    assert(h[0] == g[0] && h[1] == g[1] && h[2] == g[2] && h[3] == g[3] && h[4] == g[4] && h[5]
        == g[5]);
    assert(g[7] < 0x1_0000 && g[0] < 0x1_0000);
}

/// A URL whose host is an IPv4 address in the usual writing may be fetched if and only if the
/// address is none of the host itself, of a private network or of the local link.
pub proof fn law_dotted_url(
    scheme: Seq<char>,
    user: Seq<char>,
    a: u8,
    b: u8,
    c: u8,
    d: u8,
    rest: Seq<char>,
)
    requires
        scheme == "http"@ || scheme == "https"@,
        before_host(user),
        port_or_path(rest),
    ensures
        safe_lower(scheme + "://"@ + user + dotted(a, b, c, d) + rest) <==> {
            &&& a != 10 && a != 127
            &&& !(a == 172 && 16 <= b && b <= 31)
            &&& !(a == 192 && b == 168)
            &&& !(a == 169 && b == 254)
            &&& !(a == 0 && b == 0 && c == 0 && d == 0)
        },
{
    let host = dotted(a, b, c, d);
    lemma_dotted_host(a, b, c, d);
    law_dotted(a, b, c, d);
    law_safe_url(scheme, user, host, rest);
    lemma_octets(a, b, c, d);
}

proof fn lemma_octets(a: u8, b: u8, c: u8, d: u8)
    ensures
        ({
            let v: nat = (a * 0x100_0000 + b * 0x1_0000 + c * 0x100 + d) as nat;
            refused_ipv4(v) <==> {
                ||| private_ipv4(a as nat, b as nat)
                ||| a == 0 && b == 0 && c == 0 && d == 0
            }
        }),
{
    let v: nat = (a * 0x100_0000 + b * 0x1_0000 + c * 0x100 + d) as nat;
    let low: nat = (c * 0x100 + d) as nat;
    assert(low < 0x1_0000);
    assert(v == a * 0x100_0000 + b * 0x1_0000 + low);
    assert(v / 0x100_0000 == a && v / 0x1_0000 % 256 == b);
}

proof fn lemma_dotted_host(a: u8, b: u8, c: u8, d: u8)
    ensures
        ({
            let host = dotted(a, b, c, d);
            &&& plain_host(host)
            &&& canonical_host(host) == host
            &&& without_dot(host) == host
            &&& ipv6_address(host) is None
            &&& !blocked_name(host)
        }),
{
    let host = dotted(a, b, c, d);
    let f = |c: char| address_char(c);
    let g = |c: char| address_char(c) && c != ':';
    let h = |c: char| plain_char(c) && c != ':' && c != '[';
    law_dotted(a, b, c, d);
    lemma_ipv4_chars(host);
    lemma_dotted_end(a, b, c, d);
    assert forall|i: int| 0 <= i < host.len() implies #[trigger] h(host[i]) by {
        assert(g(host[i]));
    }
    assert(plain_host(host));
    assert forall|i: int| 0 <= i < host.len() implies #[trigger] f(host[i]) by {
        assert(g(host[i]));
    }
    lemma_canonical(host);
    lemma_names_end();
    assert(!host.contains(':')) by {
        assert forall|i: int| 0 <= i < host.len() implies host[i] != ':' by {
            assert(h(host[i]));
        }
    }
    lemma_no_groups_without_colon(host);
}

proof fn lemma_dotted_end(a: u8, b: u8, c: u8, d: u8)
    ensures
        dotted(a, b, c, d).len() > 0,
        digit(dotted(a, b, c, d).last()),
{
    lemma_decimal_digits(d as nat);
    let e = decimal(d as nat);
    let s = dotted(a, b, c, d);
    assert(s.last() == e.last());
    assert((|c: char| digit(c))(e[e.len() - 1]));
}

proof fn lemma_names_end()
    ensures
        !digit("localhost"@.last()),
        !digit("metadata.google.internal"@.last()),
{
    reveal_strlit("localhost");
    reveal_strlit("metadata.google.internal");
}

/// A host without a colon is no IPv6 address.
proof fn lemma_no_groups_without_colon(s: Seq<char>)
    requires
        !s.contains(':'),
    ensures
        ipv6_address(s) is None,
{
    reveal_strlit("::");
    lemma_position(s, "::"@);
    if let Some(i) = position(s, "::"@) {
        assert(s.subrange(i, i + 2)[0] == ':');
        assert(s[i] == ':');
    }
    lemma_cut_none(s, ':');
    reveal_with_fuel(hex_groups, 2);
    assert(seq![s].drop_last() =~= Seq::<Seq<char>>::empty());
    match side_groups(s, true) {
        Some(g) => {
            assert(g.len() <= 2);
        },
        None => {},
    }
}

/// A URL whose host is a name may be fetched if and only if the name, a dot at its end apart, is
/// neither that of the host itself nor that of the metadata service.
pub proof fn law_name_url(
    scheme: Seq<char>,
    user: Seq<char>,
    host: Seq<char>,
    rest: Seq<char>,
    k: int,
)
    requires
        scheme == "http"@ || scheme == "https"@,
        before_host(user),
        plain_host(host),
        port_or_path(rest),
        is_ascii_chars(host),
        !host.contains('%'),
        forall|i: int| 0 <= i < host.len() ==> ascii_lower(#[trigger] host[i]) == host[i],
        0 <= k < host.len() && 'g' <= host[k] <= 'z' && host[k] != 'x',
    ensures
        safe_lower(scheme + "://"@ + user + host + rest) <==> {
            &&& host != "localhost"@ && host != "localhost."@
            &&& host != "metadata.google.internal"@ && host != "metadata.google.internal."@
        },
{
    law_safe_url(scheme, user, host, rest);
    lemma_name_host(host, k);
    lemma_names(host);
}

/// A name is no address.
proof fn lemma_name_host(host: Seq<char>, k: int)
    requires
        plain_host(host),
        is_ascii_chars(host),
        !host.contains('%'),
        forall|i: int| 0 <= i < host.len() ==> ascii_lower(#[trigger] host[i]) == host[i],
        0 <= k < host.len() && 'g' <= host[k] <= 'z' && host[k] != 'x',
    ensures
        refused_host(host) == blocked_name(without_dot(host)),
{
    let h = |c: char| plain_char(c) && c != ':' && c != '[';
    let g = |c: char| address_char(c) && c != ':';
    lemma_nothing_to_decode(host);
    assert(host.map_values(|c: char| ascii_lower(c)) =~= host);
    assert(canonical_host(host) == host);
    assert(!host.contains(':')) by {
        assert forall|i: int| 0 <= i < host.len() implies host[i] != ':' by {
            assert(h(host[i]));
        }
    }
    lemma_no_groups_without_colon(host);
    let short = without_dot(host);
    assert(short[k] == host[k]);
    if ipv4_address(short) is Some {
        lemma_ipv4_chars(short);
        assert(g(short[k]));
    }
}

proof fn lemma_names(host: Seq<char>)
    ensures
        blocked_name(without_dot(host)) <==> {
            ||| host == "localhost"@
            ||| host == "localhost."@
            ||| host == "metadata.google.internal"@
            ||| host == "metadata.google.internal."@
        },
{
    lemma_name_dot();
    let short = without_dot(host);
    if host.len() > 0 && host.last() == '.' {
        assert(host =~= short.push('.'));
        assert("localhost"@.push('.').drop_last() =~= "localhost"@);
        assert("metadata.google.internal"@.push('.').drop_last() =~= "metadata.google.internal"@);
    }
}

proof fn lemma_name_dot()
    ensures
        "localhost"@.last() == 't',
        "metadata.google.internal"@.last() == 'l',
        "localhost"@.len() > 0,
        "metadata.google.internal"@.len() > 0,
        "localhost."@ == "localhost"@.push('.'),
        "metadata.google.internal."@ == "metadata.google.internal"@.push('.'),
{
    reveal_strlit("localhost");
    reveal_strlit("localhost.");
    reveal_strlit("metadata.google.internal");
    reveal_strlit("metadata.google.internal.");
}

/// Nothing but HTTP is fetched.
pub proof fn law_only_http(url: Seq<char>)
    ensures
        safe_url(url) ==> "http://"@.is_prefix_of(lowercase(url)) || "https://"@.is_prefix_of(
            lowercase(url),
        ),
{
}

/// A slash, a backslash, a question mark or a hash ends the host, whatever follows.
pub proof fn law_host_ends(scheme: Seq<char>, host: Seq<char>, c: char, rest: Seq<char>)
    requires
        scheme == "http"@ || scheme == "https"@,
        plain_host(host),
        c == '/' || c == '\\' || c == '?' || c == '#',
    ensures
        host_of(scheme + "://"@ + host + (seq![c] + rest)) == host,
{
    let none: Seq<char> = seq![];
    let tail = seq![c] + rest;
    assert(leading(tail, |c: char| !ends_host(c)) =~= none);
    assert(scheme + "://"@ + none + host + tail =~= scheme + "://"@ + host + tail);
    law_host(scheme, none, host, tail);
}

/// A user part and a port are not taken for the host.
pub proof fn law_host_alone(
    scheme: Seq<char>,
    user: Seq<char>,
    host: Seq<char>,
    port: Seq<char>,
)
    requires
        scheme == "http"@ || scheme == "https"@,
        plain_host(host),
        forall|i: int|
            0 <= i < user.len() ==> #[trigger] user[i] != '/' && user[i] != '\\' && user[i] != '?'
                && user[i] != '#',
        port.all(|c: char| digit(c)),
    ensures
        host_of(scheme + "://"@ + host) == host,
        host_of(scheme + "://"@ + host + (seq![':'] + port)) == host,
        host_of(scheme + "://"@ + (user + seq!['@']) + host) == host,
{
    let none: Seq<char> = seq![];
    let base = scheme + "://"@;
    let tail = seq![':'] + port;
    let f = |c: char| digit(c);
    let g = |c: char| !ends_host(c);
    assert(!tail.contains('@')) by {
        assert forall|i: int| 0 <= i < tail.len() implies tail[i] != '@' by {
            if i > 0 {
                assert(f(port[i - 1]));
            }
        }
    }
    lemma_leading_lacks(tail, g, '@');
    assert(leading(none, g) =~= none);
    assert(base + none + host + none =~= base + host);
    law_host(scheme, none, host, none);
    assert(base + none + host + tail =~= base + host + tail);
    law_host(scheme, none, host, tail);
    let front = user + seq!['@'];
    assert forall|i: int| 0 <= i < front.len() implies #[trigger] g(front[i]) by {
        if i < user.len() {
            assert(front[i] == user[i]);
        }
    }
    assert(base + front + host + none =~= base + front + host);
    law_host(scheme, front, host, none);
}

proof fn lemma_leading_lacks(s: Seq<char>, f: spec_fn(char) -> bool, c: char)
    requires
        !s.contains(c),
    ensures
        !leading(s, f).contains(c),
{
    lemma_leading_prefix(s, f);
    let l = leading(s, f);
    assert forall|i: int| 0 <= i < l.len() implies l[i] != c by {
        assert(l[i] == s[i]);
    }
}

/// Tabs and line ends are left out of a URL, wherever they stand, and nothing else is.
pub proof fn law_left_out(a: Seq<char>, c: char, b: Seq<char>)
    ensures
        c == '\t' || c == '\n' || c == '\r' ==> stripped(a + seq![c] + b) == stripped(a + b),
        c != '\t' && c != '\n' && c != '\r' ==> stripped(a + seq![c] + b) == stripped(a) + seq![c]
            + stripped(b),
        stripped(Seq::<char>::empty()) == Seq::<char>::empty(),
{
    let kept = |c: char| !ignored(c);
    let one = seq![c];
    Seq::filter_distributes_over_add(a + one, b, kept);
    Seq::filter_distributes_over_add(a, one, kept);
    Seq::filter_distributes_over_add(a, b, kept);
    reveal_with_fuel(Seq::filter, 2);
    assert(one.drop_last() =~= seq![]);
    if ignored(c) {
        assert(one.filter(kept) =~= seq![]);
        assert(stripped(a) + one.filter(kept) + stripped(b) =~= stripped(a) + stripped(b));
    } else {
        assert(one.filter(kept) =~= one);
    }
}

/// Some readers end the host at the first slash only, and take what stands before an `@` for a user
/// part though a question mark or a hash stands in it. A host that is refused is refused in that
/// reading too.
pub proof fn law_other_reading(
    scheme: Seq<char>,
    user: Seq<char>,
    host: Seq<char>,
    rest: Seq<char>,
)
    requires
        scheme == "http"@ || scheme == "https"@,
        !user.contains('/'),
        plain_host(host),
        port_or_path(rest),
    ensures
        refused_host(host) ==> !safe_lower(scheme + "://"@ + (user + seq!['@']) + host + rest),
{
    let front = user + seq!['@'];
    lemma_join_lacks(user, seq!['@'], '/');
    lemma_slash_host(scheme, front, host, rest);
}

/// The letter case of a URL does not matter.
pub proof fn law_letter_case(a: Seq<char>, b: Seq<char>)
    requires
        is_ascii_chars(a),
        is_ascii_chars(b),
        a.len() == b.len(),
        forall|i: int| 0 <= i < a.len() ==> ascii_lower(#[trigger] a[i]) == ascii_lower(b[i]),
    ensures
        safe_url(a) == safe_url(b),
        (forall|i: int| 0 <= i < a.len() ==> !('A' <= #[trigger] a[i] <= 'Z')) ==> safe_url(a)
            == safe_lower(a),
{
    let f = |c: char| ascii_lower(c);
    assert(a.map_values(f) =~= b.map_values(f));
    if forall|i: int| 0 <= i < a.len() ==> !('A' <= #[trigger] a[i] <= 'Z') {
        assert(a.map_values(f) =~= a);
    }
}

/// Neither percent-encoding nor letter case hides a host.
pub proof fn law_host_in_disguise(host: Seq<char>)
    requires
        is_ascii_chars(host),
        !host.contains('%'),
    ensures
        refused_host(url_encoded(host)) == refused_host(host),
        refused_host(host.map_values(|c: char| ascii_lower(c))) == refused_host(host),
{
    let f = |c: char| ascii_lower(c);
    let low = host.map_values(f);
    law_url_round_trip(host);
    lemma_nothing_to_decode(host);
    assert forall|i: int| 0 <= i < low.len() implies '\0' <= low[i] <= '\u{7f}' && low[i]
        != '%' by {
        assert('\0' <= host[i] <= '\u{7f}');
        assert(host[i] != '%');
    }
    assert(is_ascii_chars(low));
    lemma_nothing_to_decode(low);
    assert(low.map_values(f) =~= low);
}

} // verus!
