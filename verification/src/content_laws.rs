//! Which links a subscription gives.

use crate::codec::{base64_bytes, base64_content, law_base64_content_round_trip};
use crate::cut::{
    joined, law_joined_pieces, law_pieces_joined, lemma_first_index, lemma_joined_cons,
    lemma_no_index, lemma_position, lemma_trimmed_ends, line_list, occurs_at, occurs_in, pieces,
    position, trimmed, trimmed_end, trimmed_start, without_return,
};
use crate::foreign::repaired_utf8;
use crate::link_laws::law_scheme;
use crate::link_reader::scheme_and_rest;
use crate::request::lemma_pieces_lack;
use crate::subscription::{
    base64_like, body_links, content_links, decoded, has_proxies, is_link, links_among,
    listed_links, looks_like_base64, loose_base64, valid_proto,
};
use crate::subscription_laws::{encoded, lemma_decoded, settled, spaced};
use crate::text::{lemma_filter_among, white_space};
use crate::yaml_laws::{blanks, law_next_line, lemma_padded, lemma_trimmed_empty, proxies_in, tight};
use crate::yaml_reader::links_of;
use vstd::prelude::*;
use vstd::utf8::{
    decode_utf8_encode_utf8, encode_utf8, encode_utf8_decode_utf8, encode_utf8_valid_utf8,
    valid_utf8,
};

verus! {

// ---------------------------------------------------------------------------------------------
// Links
// ---------------------------------------------------------------------------------------------

/// The schemes of the links that are kept.
pub open spec fn protocols() -> Seq<Seq<char>> {
    seq![
        "vless"@,
        "vmess"@,
        "trojan"@,
        "ss"@,
        "ssr"@,
        "hysteria"@,
        "hysteria2"@,
        "hy2"@,
        "tuic"@,
        "snell"@,
        "wireguard"@,
        "wg"@,
        "socks"@,
        "socks5"@,
        "http"@,
        "https"@,
        "ssh"@,
    ]
}

/// A link: a scheme that is kept, `://` and anything behind it.
pub open spec fn known_link(line: Seq<char>) -> bool {
    exists|scheme: Seq<char>, rest: Seq<char>|
        protocols().contains(scheme) && line == #[trigger] (scheme + "://"@ + rest)
}

/// The schemes that are kept are these.
pub proof fn law_protocols(scheme: Seq<char>)
    ensures
        valid_proto(scheme) <==> protocols().contains(scheme),
        protocols().contains(scheme) ==> !scheme.contains(':'),
{
    let all = protocols();
    assert(all[0] == "vless"@);
    assert(all[1] == "vmess"@);
    assert(all[2] == "trojan"@);
    assert(all[3] == "ss"@);
    assert(all[4] == "ssr"@);
    assert(all[5] == "hysteria"@);
    assert(all[6] == "hysteria2"@);
    assert(all[7] == "hy2"@);
    assert(all[8] == "tuic"@);
    assert(all[9] == "snell"@);
    assert(all[10] == "wireguard"@);
    assert(all[11] == "wg"@);
    assert(all[12] == "socks"@);
    assert(all[13] == "socks5"@);
    assert(all[14] == "http"@);
    assert(all[15] == "https"@);
    assert(all[16] == "ssh"@);
    reveal_strlit("vless");
    reveal_strlit("vmess");
    reveal_strlit("trojan");
    reveal_strlit("ss");
    reveal_strlit("ssr");
    reveal_strlit("hysteria");
    reveal_strlit("hysteria2");
    reveal_strlit("hy2");
    reveal_strlit("tuic");
    reveal_strlit("snell");
    reveal_strlit("wireguard");
    reveal_strlit("wg");
    reveal_strlit("socks");
    reveal_strlit("socks5");
    reveal_strlit("http");
    reveal_strlit("https");
    reveal_strlit("ssh");
}

/// A line is taken for a link if and only if it is one.
pub proof fn law_is_link(line: Seq<char>)
    ensures
        is_link(line) <==> known_link(line),
{
    lemma_position(line, "://"@);
    reveal_strlit("://");
    if is_link(line) {
        let (scheme, rest) = scheme_and_rest(line)->0;
        law_protocols(scheme);
        let i = position(line, "://"@)->0;
        assert(line.subrange(i, i + 3) == "://"@);
        assert(line =~= scheme + "://"@ + rest) by {
            assert(line =~= line.take(i) + line.subrange(i, i + 3) + line.skip(i + 3));
        }
        assert(known_link(line));
    }
    if known_link(line) {
        let (scheme, rest) = choose|scheme: Seq<char>, rest: Seq<char>|
            protocols().contains(scheme) && line == #[trigger] (scheme + "://"@ + rest);
        law_protocols(scheme);
        law_scheme(scheme, rest);
    }
}

/// The links among some lines, white space around them apart, in the order of the lines.
pub open spec fn links_in(lines: Seq<Seq<char>>) -> Seq<Seq<char>> {
    lines.map_values(|s: Seq<char>| trimmed(s)).filter(|s: Seq<char>| known_link(s))
}

proof fn lemma_links_in(lines: Seq<Seq<char>>)
    ensures
        links_among(lines) == links_in(lines),
    decreases lines.len(),
{
    let g = |s: Seq<char>| trimmed(s);
    reveal(Seq::filter);
    if lines.len() > 0 {
        lemma_links_in(lines.drop_last());
        assert(lines.map_values(g).drop_last() =~= lines.drop_last().map_values(g));
        law_is_link(trimmed(lines.last()));
    }
}

/// The links of some lines are those of the first of them, and then those of the others.
pub proof fn law_links_in_turn(a: Seq<Seq<char>>, b: Seq<Seq<char>>)
    ensures
        links_in(a + b) == links_in(a) + links_in(b),
{
    let g = |s: Seq<char>| trimmed(s);
    assert((a + b).map_values(g) =~= a.map_values(g) + b.map_values(g));
    Seq::filter_distributes_over_add(
        a.map_values(g),
        b.map_values(g),
        |s: Seq<char>| known_link(s),
    );
}

proof fn lemma_one_line(line: Seq<char>)
    ensures
        links_in(seq![line]) == if known_link(trimmed(line)) {
            seq![trimmed(line)]
        } else {
            seq![]
        },
{
    let g = |s: Seq<char>| trimmed(s);
    let f = |s: Seq<char>| known_link(s);
    let one = seq![line].map_values(g);
    assert(one =~= seq![trimmed(line)]);
    assert(one.drop_last() =~= Seq::<Seq<char>>::empty());
    reveal_with_fuel(Seq::filter, 2);
    assert(f(one.last()) == known_link(trimmed(line)));
    assert(one.filter(f) =~= if known_link(trimmed(line)) {
        seq![trimmed(line)]
    } else {
        seq![]
    });
}

// ---------------------------------------------------------------------------------------------
// White space around a text
// ---------------------------------------------------------------------------------------------

proof fn lemma_start_part(s: Seq<char>, f: spec_fn(char) -> bool)
    ensures
        exists|a: Seq<char>| a.all(f) && s == #[trigger] (a + trimmed_start(s, f)),
    decreases s.len(),
{
    let none: Seq<char> = seq![];
    if s.len() > 0 && f(s[0]) {
        lemma_start_part(s.skip(1), f);
        let a = choose|a: Seq<char>|
            a.all(f) && s.skip(1) == #[trigger] (a + trimmed_start(s.skip(1), f));
        let b = seq![s[0]] + a;
        assert forall|i: int| 0 <= i < b.len() implies #[trigger] f(b[i]) by {
            if i > 0 {
                assert(f(a[i - 1]));
            }
        }
        assert(s =~= seq![s[0]] + s.skip(1));
        assert(s =~= b + trimmed_start(s, f));
        assert(b.all(f));
    } else {
        assert(s =~= none + trimmed_start(s, f));
        assert(none.all(f));
    }
}

proof fn lemma_end_part(s: Seq<char>, f: spec_fn(char) -> bool)
    ensures
        exists|b: Seq<char>| b.all(f) && s == #[trigger] (trimmed_end(s, f) + b),
    decreases s.len(),
{
    let none: Seq<char> = seq![];
    if s.len() > 0 && f(s.last()) {
        let front = s.drop_last();
        lemma_end_part(front, f);
        let a = choose|a: Seq<char>| a.all(f) && front == #[trigger] (trimmed_end(front, f) + a);
        let b = a.push(s.last());
        assert forall|i: int| 0 <= i < b.len() implies #[trigger] f(b[i]) by {
            if i < a.len() {
                assert(f(a[i]));
            }
        }
        assert(s =~= front.push(s.last()));
        assert(s =~= trimmed_end(s, f) + b);
        assert(b.all(f));
    } else {
        assert(s =~= trimmed_end(s, f) + none);
        assert(none.all(f));
    }
}

/// A text is what is left of it without the white space around it, and white space on both sides.
pub proof fn law_trimmed_parts(s: Seq<char>)
    ensures
        exists|a: Seq<char>, b: Seq<char>|
            blanks(a) && blanks(b) && s == #[trigger] (a + trimmed(s) + b),
        tight(trimmed(s)),
{
    let f = |c: char| white_space(c);
    lemma_trimmed_ends(s);
    lemma_start_part(s, f);
    let mid = trimmed_start(s, f);
    let a = choose|a: Seq<char>| a.all(f) && s == #[trigger] (a + mid);
    lemma_end_part(mid, f);
    let b = choose|b: Seq<char>| b.all(f) && mid == #[trigger] (trimmed_end(mid, f) + b);
    assert(s =~= a + trimmed(s) + b);
    assert(blanks(a)) by {
        assert forall|i: int| 0 <= i < a.len() implies white_space(#[trigger] a[i]) by {
            assert(f(a[i]));
        }
    }
    assert(blanks(b)) by {
        assert forall|i: int| 0 <= i < b.len() implies white_space(#[trigger] b[i]) by {
            assert(f(b[i]));
        }
    }
}

/// A text in the middle of white space is all that is left when white space is taken away.
pub proof fn law_trimmed(a: Seq<char>, s: Seq<char>, b: Seq<char>)
    requires
        blanks(a),
        blanks(b),
        tight(s),
    ensures
        trimmed(a + s + b) == s,
{
    lemma_padded(a, s, b, |c: char| white_space(c));
}

/// A carriage return at the end of a line is white space.
proof fn lemma_return(s: Seq<char>)
    ensures
        trimmed(without_return(s)) == trimmed(s),
{
    if s.len() > 0 && s.last() == '\r' {
        let front = s.drop_last();
        law_trimmed_parts(front);
        let (a, b) = choose|a: Seq<char>, b: Seq<char>|
            blanks(a) && blanks(b) && front == #[trigger] (a + trimmed(front) + b);
        let more = b.push('\r');
        assert forall|i: int| 0 <= i < more.len() implies white_space(#[trigger] more[i]) by {
            if i < b.len() {
                assert(more[i] == b[i]);
                assert((|c: char| white_space(c))(b[i]));
            }
        }
        assert(s =~= front.push('\r'));
        assert(s =~= a + trimmed(front) + more);
        law_trimmed(a, trimmed(front), more);
    }
}

/// A part of a text that neither starts nor ends with white space is left when the white space
/// around the text is taken away.
proof fn lemma_part_left(s: Seq<char>, p: Seq<char>)
    requires
        p.len() > 0,
        tight(p),
    ensures
        occurs_in(trimmed(s), p) <==> occurs_in(s, p),
{
    law_trimmed_parts(s);
    let core = trimmed(s);
    let (a, b) = choose|a: Seq<char>, b: Seq<char>|
        blanks(a) && blanks(b) && s == #[trigger] (a + core + b);
    let n = p.len() as int;
    if occurs_in(core, p) {
        let i = choose|i: int| occurs_at(core, p, i);
        assert(s.subrange(a.len() + i, a.len() + i + n) =~= core.subrange(i, i + n));
        assert(occurs_at(s, p, a.len() + i));
    }
    if occurs_in(s, p) {
        let i = choose|i: int| occurs_at(s, p, i);
        let w = |c: char| white_space(c);
        assert(s[i] == s.subrange(i, i + n)[0]);
        assert(s[i + n - 1] == s.subrange(i, i + n)[n - 1]);
        if i < a.len() {
            assert(w(a[i]));
        }
        if i + n > a.len() + core.len() {
            assert(w(b[i + n - 1 - a.len() - core.len()]));
        }
        assert(core.subrange(i - a.len(), i - a.len() + n) =~= s.subrange(i, i + n));
        assert(occurs_at(core, p, i - a.len()));
    }
}

proof fn lemma_mark()
    ensures
        "://"@.len() == 3,
        tight("://"@),
        !"://"@.contains('\n'),
{
    reveal_strlit("://");
}

// ---------------------------------------------------------------------------------------------
// Subscriptions that are lists of links
// ---------------------------------------------------------------------------------------------

/// Lines, one at least.
pub open spec fn plain_lines(lines: Seq<Seq<char>>) -> bool {
    lines.len() > 0 && forall|i: int|
        0 <= i < lines.len() ==> !(#[trigger] lines[i]).contains('\n')
}

pub(crate) proof fn lemma_first_line(line: Seq<char>, rest: Seq<char>)
    requires
        !line.contains('\n'),
    ensures
        line_list(line + seq!['\n'] + rest) == seq![without_return(line)] + line_list(rest),
{
    let s = line + seq!['\n'] + rest;
    let i = line.len() as int;
    assert forall|k: int| 0 <= k < i implies s[k] != '\n' by {
        assert(s[k] == line[k]);
    }
    lemma_first_index(s, '\n', i);
    assert(s.take(i) =~= line);
    assert(s.skip(i + 1) =~= rest);
}

proof fn lemma_lines_joined(lines: Seq<Seq<char>>)
    requires
        plain_lines(lines),
    ensures
        links_in(line_list(joined(lines, '\n'))) == links_in(lines),
    decreases lines.len(),
{
    let first = lines[0];
    let rest = lines.skip(1);
    assert(lines =~= seq![first] + rest);
    law_links_in_turn(seq![first], rest);
    lemma_one_line(first);
    if lines.len() == 1 {
        assert(rest =~= seq![]);
        assert(lines =~= seq![first]);
        let text = joined(lines, '\n');
        assert(text == first);
        lemma_no_index(first, '\n');
        if first.len() == 0 {
            assert(trimmed(first) =~= first);
            reveal_strlit("://");
            assert(!known_link(first)) by {
                if known_link(first) {
                    let (scheme, more) = choose|scheme: Seq<char>, more: Seq<char>|
                        protocols().contains(scheme) && first == #[trigger] (scheme + "://"@
                            + more);
                    assert(first.len() >= 3);
                }
            }
            let none = line_list(text);
            assert(none =~= seq![]);
            reveal(Seq::filter);
            assert(links_in(none) =~= seq![]);
        } else {
            assert(line_list(text) =~= seq![first]);
        }
    } else {
        assert forall|i: int| 0 <= i < rest.len() implies !(#[trigger] rest[i]).contains(
            '\n',
        ) by {
            assert(rest[i] == lines[i + 1]);
        }
        lemma_lines_joined(rest);
        lemma_joined_cons(first, rest, '\n');
        let more = joined(rest, '\n');
        lemma_first_line(first, more);
        law_links_in_turn(seq![without_return(first)], line_list(more));
        lemma_return(first);
        lemma_one_line(without_return(first));
    }
}

/// The links that are listed in a text are exactly those of its lines that are links, in their
/// order.
pub proof fn law_listed(text: Seq<char>)
    ensures
        listed_links(text) == links_in(pieces(text, '\n')),
{
    let lines = pieces(text, '\n');
    law_joined_pieces(text, '\n');
    lemma_pieces_lack(text, '\n');
    lemma_lines_joined(lines);
    lemma_links_in(line_list(text));
}

/// The links of a subscription that holds `://` are exactly those of its lines that are links, in
/// their order, whatever other lines it has.
pub proof fn law_text_links(text: Seq<char>)
    requires
        occurs_in(text, "://"@),
    ensures
        content_links(text) == links_in(pieces(text, '\n')),
{
    lemma_mark();
    lemma_part_left(text, "://"@);
    law_listed(text);
}

proof fn lemma_part_joined(lines: Seq<Seq<char>>, k: int, p: Seq<char>)
    requires
        0 <= k < lines.len(),
        occurs_in(lines[k], p),
    ensures
        occurs_in(joined(lines, '\n'), p),
    decreases lines.len(),
{
    let first = lines[0];
    let rest = lines.skip(1);
    let n = p.len() as int;
    if lines.len() > 1 {
        assert(lines =~= seq![first] + rest);
        lemma_joined_cons(first, rest, '\n');
        let all = joined(lines, '\n');
        let more = joined(rest, '\n');
        if k == 0 {
            let i = choose|i: int| occurs_at(first, p, i);
            assert(all.subrange(i, i + n) =~= first.subrange(i, i + n));
            assert(occurs_at(all, p, i));
        } else {
            assert(rest[k - 1] == lines[k]);
            lemma_part_joined(rest, k - 1, p);
            let i = choose|i: int| occurs_at(more, p, i);
            let j = first.len() + 1 + i;
            assert(all.subrange(j, j + n) =~= more.subrange(i, i + n));
            assert(occurs_at(all, p, j));
        }
    }
}

/// A link on a line of its own is among the links of the subscription, whatever lines stand before
/// and behind it: comments, headings, blank lines, other links.
pub proof fn law_link_among(a: Seq<Seq<char>>, link: Seq<char>, b: Seq<Seq<char>>)
    requires
        plain_lines(a + seq![link] + b),
        known_link(trimmed(link)),
    ensures
        content_links(joined(a + seq![link] + b, '\n')) == links_in(a) + seq![trimmed(link)]
            + links_in(b),
{
    let lines = a + seq![link] + b;
    let text = joined(lines, '\n');
    let core = trimmed(link);
    lemma_mark();
    let (scheme, rest) = choose|scheme: Seq<char>, rest: Seq<char>|
        protocols().contains(scheme) && core == #[trigger] (scheme + "://"@ + rest);
    let i = scheme.len() as int;
    assert(core.subrange(i, i + 3) =~= "://"@);
    assert(occurs_at(core, "://"@, i));
    lemma_part_left(link, "://"@);
    assert(lines[a.len() as int] == link);
    lemma_part_joined(lines, a.len() as int, "://"@);
    law_text_links(text);
    law_pieces_joined(lines, '\n');
    law_links_in_turn(a + seq![link], b);
    law_links_in_turn(a, seq![link]);
    lemma_one_line(link);
}

// ---------------------------------------------------------------------------------------------
// Other subscriptions
// ---------------------------------------------------------------------------------------------

/// A text holds a line that starts with `proxies:`.
pub open spec fn proxies_line(lines: Seq<Seq<char>>) -> bool {
    exists|k: int| 0 <= k < lines.len() && "proxies:"@.is_prefix_of(#[trigger] lines[k])
}

proof fn lemma_head()
    ensures
        "proxies:"@.len() == 8,
        "\nproxies:"@ == seq!['\n'] + "proxies:"@,
        forall|i: int| 0 <= i < 8 ==> !white_space(#[trigger] "proxies:"@[i]),
        !"proxies:"@.contains('\n'),
{
    reveal_strlit("proxies:");
    reveal_strlit("\nproxies:");
    assert("\nproxies:"@ =~= seq!['\n'] + "proxies:"@);
}

/// A text that starts with `proxies:`, or has it behind a line feed, does so without the white
/// space around it too.
proof fn lemma_head_left(s: Seq<char>, i: int)
    requires
        0 <= i,
        i + 8 <= s.len(),
        s.subrange(i, i + 8) == "proxies:"@,
        i == 0 || s[i - 1] == '\n',
    ensures
        has_proxies(trimmed(s)),
{
    lemma_head();
    law_trimmed_parts(s);
    let core = trimmed(s);
    let (a, b) = choose|a: Seq<char>, b: Seq<char>|
        blanks(a) && blanks(b) && s == #[trigger] (a + core + b);
    let w = |c: char| white_space(c);
    let p = "proxies:"@;
    assert(s[i] == p[0]) by {
        assert(s.subrange(i, i + 8)[0] == s[i]);
    }
    assert(s[i + 7] == p[7]) by {
        assert(s.subrange(i, i + 8)[7] == s[i + 7]);
    }
    if i < a.len() {
        assert(w(a[i]));
    }
    if i + 8 > a.len() + core.len() {
        assert(w(b[i + 7 - a.len() - core.len()]));
    }
    let j = i - a.len();
    assert(core.subrange(j, j + 8) =~= s.subrange(i, i + 8));
    if j == 0 {
        assert forall|k: int| 0 <= k < 8 implies core[k] == p[k] by {
            assert(core.subrange(0, 8)[k] == core[k]);
        }
        assert(p.is_prefix_of(core)) by {
            assert(core.subrange(0, 8) =~= p);
        }
    } else {
        assert(core[j - 1] == s[i - 1]);
        assert(core.subrange(j - 1, j + 8) =~= seq!['\n'] + core.subrange(j, j + 8));
        assert(occurs_at(core, "\nproxies:"@, j - 1));
    }
}

proof fn lemma_head_joined(lines: Seq<Seq<char>>, k: int) -> (i: int)
    requires
        0 <= k < lines.len(),
        "proxies:"@.is_prefix_of(lines[k]),
    ensures
        ({
            let s = joined(lines, '\n');
            &&& 0 <= i
            &&& i + 8 <= s.len()
            &&& s.subrange(i, i + 8) == "proxies:"@
            &&& i == 0 || s[i - 1] == '\n'
        }),
    decreases lines.len(),
{
    let first = lines[0];
    let rest = lines.skip(1);
    let p = "proxies:"@;
    let all = joined(lines, '\n');
    lemma_head();
    if lines.len() == 1 {
        assert(all.subrange(0, 8) =~= p);
        0
    } else {
        assert(lines =~= seq![first] + rest);
        lemma_joined_cons(first, rest, '\n');
        let more = joined(rest, '\n');
        if k == 0 {
            assert(all.subrange(0, 8) =~= p);
            0
        } else {
            assert(rest[k - 1] == lines[k]);
            let i: int = lemma_head_joined(rest, k - 1);
            let j: int = first.len() + 1 + i;
            assert(all.subrange(j, j + 8) =~= more.subrange(i, i + 8));
            if i > 0 {
                assert(all[j - 1] == more[i - 1]);
            }
            j
        }
    }
}

proof fn lemma_proxies_joined(lines: Seq<Seq<char>>)
    requires
        plain_lines(lines),
        forall|i: int|
            0 <= i < lines.len() && (#[trigger] lines[i]).len() > 0 ==> lines[i].last() != '\r',
    ensures
        line_list(joined(lines, '\n')) == if lines.last().len() == 0 {
            lines.drop_last()
        } else {
            lines
        },
    decreases lines.len(),
{
    let first = lines[0];
    let rest = lines.skip(1);
    if lines.len() == 1 {
        lemma_no_index(first, '\n');
        assert(lines =~= seq![first]);
        assert(lines.drop_last() =~= seq![]);
    } else {
        assert(lines =~= seq![first] + rest);
        assert forall|i: int| 0 <= i < rest.len() implies !(#[trigger] rest[i]).contains('\n')
            && (rest[i].len() > 0 ==> rest[i].last() != '\r') by {
            assert(rest[i] == lines[i + 1]);
        }
        lemma_proxies_joined(rest);
        lemma_joined_cons(first, rest, '\n');
        lemma_first_line(first, joined(rest, '\n'));
        assert(rest.last() == lines.last());
        if lines.last().len() == 0 {
            assert(seq![first] + rest.drop_last() =~= lines.drop_last());
        }
    }
}

/// A configuration in YAML, which has a line that starts with `proxies:` and no `://`, gives the
/// links of the proxies that its lines hold.
pub proof fn law_yaml_links(lines: Seq<Seq<char>>)
    requires
        plain_lines(lines),
        forall|i: int|
            0 <= i < lines.len() && (#[trigger] lines[i]).len() > 0 ==> lines[i].last() != '\r',
        proxies_line(lines),
        !occurs_in(joined(lines, '\n'), "://"@),
    ensures
        content_links(joined(lines, '\n')) == links_of(proxies_in(lines)),
{
    let text = joined(lines, '\n');
    let k = choose|k: int| 0 <= k < lines.len() && "proxies:"@.is_prefix_of(#[trigger] lines[k]);
    let i: int = lemma_head_joined(lines, k);
    lemma_head_left(text, i);
    lemma_mark();
    lemma_part_left(text, "://"@);
    lemma_proxies_joined(lines);
    if lines.last().len() == 0 {
        assert(lines.drop_last().push(lines.last()) =~= lines);
        law_next_line(lines.drop_last(), lines.last());
        lemma_trimmed_empty(lines.last());
    }
}

/// A text that holds no `://` and no `proxies:`, and that is no base64 or too short for it, gives
/// no links.
pub proof fn law_no_links(text: Seq<char>)
    requires
        !occurs_in(text, "://"@),
        !occurs_in(text, "proxies:"@),
        encode_utf8(trimmed(text)).len() <= 20 || exists|i: int|
            0 <= i < trimmed(text).len() && !base64_like(#[trigger] trimmed(text)[i]),
    ensures
        content_links(text) == Seq::<Seq<char>>::empty(),
{
    let core = trimmed(text);
    lemma_mark();
    lemma_head();
    lemma_part_left(text, "://"@);
    lemma_part_left(text, "proxies:"@);
    law_listed(text);
    lemma_unlinked(pieces(text, '\n'), text);
    if "proxies:"@.is_prefix_of(core) {
        assert(core.subrange(0, 8) =~= "proxies:"@);
        assert(occurs_at(core, "proxies:"@, 0));
    }
    if occurs_in(core, "\nproxies:"@) {
        let i = choose|i: int| occurs_at(core, "\nproxies:"@, i);
        assert((seq!['\n'] + "proxies:"@).skip(1) =~= "proxies:"@);
        assert(core.subrange(i + 1, i + 9) =~= core.subrange(i, i + 9).skip(1));
        assert(occurs_at(core, "proxies:"@, i + 1));
    }
    assert(!looks_like_base64(core)) by {
        if encode_utf8(core).len() > 20 {
            let f = |c: char| base64_like(c);
            let i = choose|i: int| 0 <= i < core.len() && !base64_like(#[trigger] core[i]);
            assert(!f(core[i]));
        }
    }
}

/// Lines of a text without `://` hold no link.
proof fn lemma_unlinked(lines: Seq<Seq<char>>, text: Seq<char>)
    requires
        lines == pieces(text, '\n'),
        !occurs_in(text, "://"@),
    ensures
        links_in(lines) == Seq::<Seq<char>>::empty(),
{
    law_joined_pieces(text, '\n');
    lemma_mark();
    let found = links_in(lines);
    if found.len() > 0 {
        let g = |s: Seq<char>| trimmed(s);
        let f = |s: Seq<char>| known_link(s);
        let all = lines.map_values(g);
        let x = found[0];
        all.lemma_filter_pred(f, 0);
        assert(found.contains(x));
        lemma_filter_among(all, f, x);
        let k = choose|k: int| 0 <= k < all.len() && all[k] == x;
        let (scheme, rest) = choose|scheme: Seq<char>, rest: Seq<char>|
            protocols().contains(scheme) && x == #[trigger] (scheme + "://"@ + rest);
        let i = scheme.len() as int;
        assert(x.subrange(i, i + 3) =~= "://"@);
        assert(occurs_at(x, "://"@, i));
        lemma_part_left(lines[k], "://"@);
        lemma_part_joined(lines, k, "://"@);
    }
    assert(found =~= Seq::<Seq<char>>::empty());
}

proof fn lemma_content_of(s: Seq<char>, t: Seq<char>)
    requires
        base64_content(s) == Some(t),
    ensures
        s == encoded(t, 1),
{
    let b = base64_bytes(s)->0;
    decode_utf8_encode_utf8(b);
    reveal_with_fuel(encoded, 2);
}

/// Decoding leaves a text as it is where it holds `://` or a character that base64 does not have,
/// or where it is not what the encoding gives of any text, white space apart.
pub proof fn law_not_encoded(s: Seq<char>)
    requires
        settled(s) || forall|t: Seq<char>| !spaced(s, #[trigger] encoded(t, 1)),
    ensures
        decoded(s, 3) == s,
{
    if !settled(s) {
        let plain = s.filter(|c: char| !white_space(c));
        if let Some(t) = loose_base64(s) {
            lemma_content_of(plain, t);
            assert(spaced(s, encoded(t, 1)));
        }
    }
}

/// Decoding gives back a text that was encoded up to three times, whatever white space was put into
/// what came out.
pub proof fn law_decoded(text: Seq<char>, times: nat, w: Seq<char>)
    requires
        settled(text),
        1 <= times <= 3,
        spaced(w, encoded(text, times)),
    ensures
        decoded(w, 3) == text,
{
    lemma_decoded(text, times, w, 3);
}

/// A text is decoded if and only if it is what the encoding gives of some text, with white space
/// anywhere in it.
pub proof fn law_loose(w: Seq<char>, t: Seq<char>)
    ensures
        loose_base64(w) == Some(t) <==> spaced(w, encoded(t, 1)),
{
    let plain = w.filter(|c: char| !white_space(c));
    reveal_with_fuel(encoded, 2);
    law_base64_content_round_trip(t);
    if loose_base64(w) == Some(t) {
        lemma_content_of(plain, t);
    }
}

/// A response gives the links of its text, repaired where it is no UTF-8, and one that is longer
/// than a hundred mebibytes gives none.
pub proof fn law_body(text: Seq<char>, body: Seq<u8>)
    ensures
        encode_utf8(text).len() <= 104857600 ==> body_links(encode_utf8(text)) == content_links(
            text,
        ),
        body.len() <= 104857600 && !valid_utf8(body) ==> body_links(body) == content_links(
            repaired_utf8(body),
        ),
        body.len() > 104857600 ==> body_links(body) == Seq::<Seq<char>>::empty(),
{
    encode_utf8_valid_utf8(text);
    encode_utf8_decode_utf8(text);
}

} // verus!
