//! What holds of every subscription.

use crate::codec::{
    base64_alphabet, law_base64_alphabet, law_base64_content_round_trip, law_percent_alphabet,
    percent_alphabet,
};
use crate::cut::{
    cut, joined, law_trimmed_twice, lemma_first_index, lemma_no_index, lemma_nothing_to_trim,
    lemma_position, lemma_trimmed_end_keeps, lemma_trimmed_ends, lemma_trimmed_lacks, line_list,
    occurs_at, occurs_in, position, trimmed, trimmed_end, trimmed_start, without_return,
};
use crate::foreign::{base64_text, json_object_text, url_encoded};
use crate::link_laws::{law_scheme, lemma_join_lacks, lemma_kinds_differ};
use crate::link_writer::{
    link_of, link_text, query_parts, query_text, ss_user, trojan_params, tuic_params, vless_params,
    vmess_members,
};
use crate::node::{blank, NodeView};
use crate::service::as_lines;
use crate::subscription::{
    base64_like, content_links, decoded, has_proxies, is_link, links_among, listed_links,
    loose_base64, valid_proto,
};
use crate::text::white_space;
use crate::yaml_reader::{
    all_read, links_of, quote, top_level, with_line, yaml_nodes, yaml_run, yaml_step, YamlState,
};
use vstd::prelude::*;
use vstd::utf8::{encode_scalar, encode_utf8};

verus! {

// ---------------------------------------------------------------------------------------------
// Links that were read
// ---------------------------------------------------------------------------------------------

/// A link that stands on a line of its own: it has a scheme that is kept, and neither a line feed
/// in it nor white space around it.
pub open spec fn proper_link(uri: Seq<char>) -> bool {
    is_link(uri) && !uri.contains('\n') && trimmed(uri) == uri
}

proof fn lemma_lines_lack(s: Seq<char>)
    ensures
        forall|i: int| 0 <= i < line_list(s).len() ==> !(#[trigger] line_list(s)[i]).contains('\n'),
    decreases s.len(),
{
    s.index_of_first_ensures('\n');
    match s.index_of_first('\n') {
        Some(k) => {
            let line = without_return(s.take(k));
            let rest = line_list(s.skip(k + 1));
            lemma_lines_lack(s.skip(k + 1));
            assert(!line.contains('\n')) by {
                if line.contains('\n') {
                    let j = choose|j: int| 0 <= j < line.len() && line[j] == '\n';
                    assert(s[j] == '\n');
                }
            }
            assert forall|i: int| 0 <= i < line_list(s).len() implies !(#[trigger] line_list(
                s,
            )[i]).contains('\n') by {
                if i > 0 {
                    assert(line_list(s)[i] == rest[i - 1]);
                }
            }
        },
        None => {},
    }
}

proof fn lemma_links_among(lines: Seq<Seq<char>>)
    requires
        forall|i: int| 0 <= i < lines.len() ==> !(#[trigger] lines[i]).contains('\n'),
    ensures
        forall|i: int|
            0 <= i < links_among(lines).len() ==> proper_link(#[trigger] links_among(lines)[i]),
    decreases lines.len(),
{
    if lines.len() > 0 {
        let front = lines.drop_last();
        assert forall|i: int| 0 <= i < front.len() implies !(#[trigger] front[i]).contains(
            '\n',
        ) by {
            assert(front[i] == lines[i]);
        }
        lemma_links_among(front);
        let last = lines.last();
        assert(last == lines[lines.len() - 1]);
        law_trimmed_twice(last);
        lemma_trimmed_lacks(last, |c: char| white_space(c), '\n');
        let rest = links_among(front);
        assert forall|i: int| 0 <= i < links_among(lines).len() implies proper_link(
            #[trigger] links_among(lines)[i],
        ) by {
            if i < rest.len() {
                assert(links_among(lines)[i] == rest[i]);
            }
        }
    }
}

proof fn lemma_listed(text: Seq<char>)
    ensures
        forall|i: int|
            0 <= i < listed_links(text).len() ==> proper_link(#[trigger] listed_links(text)[i]),
{
    lemma_lines_lack(text);
    lemma_links_among(line_list(text));
}

// ---------------------------------------------------------------------------------------------
// Links that were written
// ---------------------------------------------------------------------------------------------

/// Nothing of a node that its link holds as it is has a line feed in it.
pub open spec fn one_line(n: NodeView) -> bool {
    !n.server.contains('\n') && !n.port.contains('\n') && !n.uuid.contains('\n')
}

proof fn lemma_encoded_line(s: Seq<char>)
    ensures
        !url_encoded(s).contains('\n'),
        url_encoded(s).len() > 0 ==> !white_space(url_encoded(s).last()),
{
    law_percent_alphabet(encode_utf8(s));
    let e = url_encoded(s);
    assert forall|i: int| 0 <= i < e.len() implies #[trigger] e[i] != '\n' by {
        assert(percent_alphabet(e[i]));
    }
    if e.len() > 0 {
        assert(percent_alphabet(e[e.len() - 1]));
    }
}

proof fn lemma_base64_line(b: Seq<u8>)
    ensures
        !base64_text(b).contains('\n'),
        base64_text(b).len() > 0 ==> !white_space(base64_text(b).last()),
{
    law_base64_alphabet(b);
    let e = base64_text(b);
    assert forall|i: int| 0 <= i < e.len() implies #[trigger] e[i] != '\n' by {
        assert(base64_alphabet(e[i]));
    }
    if e.len() > 0 {
        assert(base64_alphabet(e[e.len() - 1]));
    }
}

proof fn lemma_joined_lacks(parts: Seq<Seq<char>>, c: char, x: char)
    requires
        c != x,
        forall|i: int| 0 <= i < parts.len() ==> !(#[trigger] parts[i]).contains(x),
    ensures
        !joined(parts, c).contains(x),
    decreases parts.len(),
{
    if parts.len() > 1 {
        let front = parts.drop_last();
        assert forall|i: int| 0 <= i < front.len() implies !(#[trigger] front[i]).contains(x) by {
            assert(front[i] == parts[i]);
        }
        lemma_joined_lacks(front, c, x);
        assert(parts.last() == parts[parts.len() - 1]);
        assert(!seq![c].contains(x));
        lemma_join_lacks(joined(front, c), seq![c], x);
        lemma_join_lacks(joined(front, c) + seq![c], parts.last(), x);
    }
}

proof fn lemma_query_line(params: Seq<(Seq<char>, Seq<char>)>)
    requires
        forall|i: int| 0 <= i < params.len() ==> !(#[trigger] params[i]).0.contains('\n'),
    ensures
        !query_text(params).contains('\n'),
{
    let parts = query_parts(params);
    lemma_parts_line(params);
    lemma_joined_lacks(parts, '&', '\n');
    assert(!seq!['?'].contains('\n'));
    lemma_join_lacks(seq!['?'], joined(parts, '&'), '\n');
}

proof fn lemma_parts_line(params: Seq<(Seq<char>, Seq<char>)>)
    requires
        forall|i: int| 0 <= i < params.len() ==> !(#[trigger] params[i]).0.contains('\n'),
    ensures
        forall|i: int|
            0 <= i < query_parts(params).len() ==> !(#[trigger] query_parts(params)[i]).contains(
                '\n',
            ),
    decreases params.len(),
{
    if params.len() > 0 {
        let front = params.drop_last();
        assert forall|i: int| 0 <= i < front.len() implies !(#[trigger] front[i]).0.contains(
            '\n',
        ) by {
            assert(front[i] == params[i]);
        }
        lemma_parts_line(front);
        let last = params.last();
        assert(last == params[params.len() - 1]);
        lemma_encoded_line(last.1);
        assert(!seq!['='].contains('\n'));
        lemma_join_lacks(last.0, seq!['='], '\n');
        lemma_join_lacks(last.0 + seq!['='], url_encoded(last.1), '\n');
        let rest = query_parts(front);
        assert forall|i: int| 0 <= i < query_parts(params).len() implies !(#[trigger] query_parts(
            params,
        )[i]).contains('\n') by {
            if i < rest.len() {
                assert(query_parts(params)[i] == rest[i]);
            }
        }
    }
}

proof fn lemma_param_names_line(n: NodeView)
    ensures
        !query_text(trojan_params(n)).contains('\n'),
        !query_text(vless_params(n)).contains('\n'),
        !query_text(tuic_params(n)).contains('\n'),
{
    reveal_strlit("sni");
    reveal_strlit("fp");
    reveal_strlit("pbk");
    reveal_strlit("sid");
    reveal_strlit("alpn");
    reveal_strlit("flow");
    reveal_strlit("security");
    reveal_strlit("type");
    reveal_strlit("host");
    reveal_strlit("path");
    reveal_strlit("password");
    reveal_strlit("congestion_control");
    reveal_strlit("encryption");
    lemma_query_line(trojan_params(n));
    lemma_query_line(vless_params(n));
    lemma_query_line(tuic_params(n));
}

/// What follows the `://` of a link has no line feed in it.
proof fn lemma_rest_line(user: Seq<char>, n: NodeView, query: Seq<char>)
    requires
        one_line(n),
        !user.contains('\n'),
        !query.contains('\n'),
    ensures
        !(user + seq!['@'] + n.server + seq![':'] + n.port + query + seq!['#'] + url_encoded(
            n.name,
        )).contains('\n'),
{
    lemma_encoded_line(n.name);
    assert(!seq!['@'].contains('\n') && !seq![':'].contains('\n') && !seq!['#'].contains('\n'));
    let s1 = user + seq!['@'];
    let s2 = s1 + n.server;
    let s3 = s2 + seq![':'];
    let s4 = s3 + n.port;
    let s5 = s4 + query;
    let s6 = s5 + seq!['#'];
    lemma_join_lacks(user, seq!['@'], '\n');
    lemma_join_lacks(s1, n.server, '\n');
    lemma_join_lacks(s2, seq![':'], '\n');
    lemma_join_lacks(s3, n.port, '\n');
    lemma_join_lacks(s4, query, '\n');
    lemma_join_lacks(s5, seq!['#'], '\n');
    lemma_join_lacks(s6, url_encoded(n.name), '\n');
}

proof fn lemma_is_link(scheme: Seq<char>, rest: Seq<char>)
    requires
        !scheme.contains(':'),
        valid_proto(scheme),
    ensures
        is_link(scheme + "://"@ + rest),
{
    law_scheme(scheme, rest);
}

proof fn lemma_on_a_line(scheme: Seq<char>, rest: Seq<char>)
    requires
        scheme.len() > 0,
        !white_space(scheme[0]),
        !scheme.contains('\n'),
        !rest.contains('\n'),
        rest.len() > 0 ==> !white_space(rest.last()),
    ensures
        !(scheme + "://"@ + rest).contains('\n'),
        trimmed(scheme + "://"@ + rest) == scheme + "://"@ + rest,
{
    let uri = scheme + "://"@ + rest;
    reveal_strlit("://");
    assert(!"://"@.contains('\n'));
    lemma_join_lacks(scheme, "://"@, '\n');
    lemma_join_lacks(scheme + "://"@, rest, '\n');
    assert(uri[0] == scheme[0]);
    assert(uri.last() == (if rest.len() > 0 {
        rest.last()
    } else {
        '/'
    }));
    lemma_nothing_to_trim(uri);
}

proof fn lemma_proper(scheme: Seq<char>, rest: Seq<char>)
    requires
        scheme.len() > 0,
        !white_space(scheme[0]),
        !scheme.contains(':'),
        !scheme.contains('\n'),
        valid_proto(scheme),
        !rest.contains('\n'),
        rest.len() > 0 ==> !white_space(rest.last()),
    ensures
        proper_link(scheme + "://"@ + rest),
{
    lemma_is_link(scheme, rest);
    lemma_on_a_line(scheme, rest);
}

proof fn lemma_link_line(scheme: Seq<char>, user: Seq<char>, n: NodeView, query: Seq<char>)
    requires
        one_line(n),
        scheme.len() > 0,
        !white_space(scheme[0]),
        !scheme.contains(':'),
        !scheme.contains('\n'),
        valid_proto(scheme),
        !user.contains('\n'),
        !query.contains('\n'),
    ensures
        proper_link(link_text(scheme, user, n.server, n.port, query, n.name)),
{
    let uri = link_text(scheme, user, n.server, n.port, query, n.name);
    let name = url_encoded(n.name);
    let rest = user + seq!['@'] + n.server + seq![':'] + n.port + query + seq!['#'] + name;
    assert(uri =~= scheme + "://"@ + rest);
    lemma_rest_line(user, n, query);
    lemma_encoded_line(n.name);
    assert(rest.last() == (if name.len() > 0 {
        name.last()
    } else {
        '#'
    }));
    lemma_proper(scheme, rest);
}

proof fn lemma_schemes_line()
    ensures
        "ss"@.len() > 0 && !white_space("ss"@[0]) && !"ss"@.contains('\n'),
        "trojan"@.len() > 0 && !white_space("trojan"@[0]) && !"trojan"@.contains('\n'),
        "vless"@.len() > 0 && !white_space("vless"@[0]) && !"vless"@.contains('\n'),
        "vmess"@.len() > 0 && !white_space("vmess"@[0]) && !"vmess"@.contains('\n'),
        "tuic"@.len() > 0 && !white_space("tuic"@[0]) && !"tuic"@.contains('\n'),
        "hysteria2"@.len() > 0 && !white_space("hysteria2"@[0]) && !"hysteria2"@.contains('\n'),
{
    reveal_strlit("ss");
    reveal_strlit("trojan");
    reveal_strlit("vless");
    reveal_strlit("vmess");
    reveal_strlit("tuic");
    reveal_strlit("hysteria2");
}

/// The link of a node is one that is kept, and stands on a line of its own where server, port and
/// UUID of the node hold no line feed.
pub proof fn law_written_link(n: NodeView)
    requires
        one_line(n),
    ensures
        link_of(n) matches Some(uri) ==> proper_link(uri),
{
    lemma_kinds_differ();
    lemma_schemes_line();
    lemma_param_names_line(n);
    lemma_encoded_line(n.password);
    let none: Seq<char> = seq![];
    assert(!none.contains('\n'));
    if n.kind == "ss"@ {
        lemma_base64_line(encode_utf8(n.cipher + seq![':'] + n.password));
        lemma_link_line("ss"@, ss_user(n), n, none);
    } else if n.kind == "trojan"@ {
        lemma_link_line("trojan"@, url_encoded(n.password), n, query_text(trojan_params(n)));
    } else if n.kind == "vless"@ {
        lemma_link_line("vless"@, n.uuid, n, query_text(vless_params(n)));
    } else if n.kind == "vmess"@ {
        let bytes = encode_utf8(json_object_text(vmess_members(n)));
        let body = base64_text(bytes);
        lemma_base64_line(bytes);
        reveal_strlit("vmess://");
        reveal_strlit("vmess");
        reveal_strlit("://");
        assert("vmess://"@ =~= "vmess"@ + "://"@);
        lemma_proper("vmess"@, body);
    } else if n.kind == "hy2"@ || n.kind == "hysteria2"@ {
        lemma_link_line("hysteria2"@, url_encoded(n.password), n, none);
    } else if n.kind == "tuic"@ {
        lemma_link_line("tuic"@, n.uuid, n, query_text(tuic_params(n)));
    }
}

// ---------------------------------------------------------------------------------------------
// YAML
// ---------------------------------------------------------------------------------------------

proof fn lemma_part_lacks(s: Seq<char>, a: int, b: int, c: char)
    requires
        0 <= a <= b <= s.len(),
        !s.contains(c),
    ensures
        !s.subrange(a, b).contains(c),
{
    if s.subrange(a, b).contains(c) {
        let j = choose|j: int| 0 <= j < b - a && s.subrange(a, b)[j] == c;
        assert(s[a + j] == c);
    }
}

proof fn lemma_entry_one_line(n: NodeView, line: Seq<char>)
    requires
        one_line(n),
        !line.contains('\n'),
    ensures
        one_line(with_line(n, line)),
{
    line.index_of_first_ensures(':');
    match cut(line, ':') {
        Some((key, value)) => {
            let len = line.len() as int;
            lemma_part_lacks(line, len - value.len(), len, '\n');
            assert(value =~= line.subrange(len - value.len(), len));
            lemma_trimmed_lacks(value, |c: char| white_space(c), '\n');
            lemma_trimmed_lacks(trimmed(value), |c: char| quote(c), '\n');
        },
        None => {},
    }
}

/// The proxies that were read, and the one that is being read, hold no line feed.
spec fn one_line_state(s: YamlState) -> bool {
    &&& s.current matches Some(n) ==> one_line(n)
    &&& forall|i: int| 0 <= i < s.done.len() ==> one_line(#[trigger] s.done[i])
}

proof fn lemma_step_one_line(s: YamlState, line: Seq<char>)
    requires
        one_line_state(s),
        !line.contains('\n'),
    ensures
        one_line_state(yaml_step(s, line)),
{
    let text = trimmed(line);
    lemma_trimmed_lacks(line, |c: char| white_space(c), '\n');
    let none: Seq<char> = seq![];
    assert(!none.contains('\n'));
    assert(one_line(blank()));
    assert forall|i: int| 0 <= i < all_read(s).len() implies one_line(
        #[trigger] all_read(s)[i],
    ) by {
        if i < s.done.len() {
            assert(all_read(s)[i] == s.done[i]);
        }
    }
    if seq!['-', ' '].is_prefix_of(text) {
        lemma_part_lacks(text, 2, text.len() as int, '\n');
        assert(text.skip(2) =~= text.subrange(2, text.len() as int));
        lemma_entry_one_line(blank(), text.skip(2));
    }
    match s.current {
        Some(n) => {
            lemma_entry_one_line(n, text);
        },
        None => {},
    }
}

proof fn lemma_run_one_line(lines: Seq<Seq<char>>)
    requires
        forall|i: int| 0 <= i < lines.len() ==> !(#[trigger] lines[i]).contains('\n'),
    ensures
        one_line_state(yaml_run(lines)),
    decreases lines.len(),
{
    if lines.len() > 0 {
        let front = lines.drop_last();
        assert forall|i: int| 0 <= i < front.len() implies !(#[trigger] front[i]).contains(
            '\n',
        ) by {
            assert(front[i] == lines[i]);
        }
        lemma_run_one_line(front);
        assert(lines.last() == lines[lines.len() - 1]);
        lemma_step_one_line(yaml_run(front), lines.last());
    }
}

proof fn lemma_links_of(nodes: Seq<NodeView>)
    requires
        forall|i: int| 0 <= i < nodes.len() ==> one_line(#[trigger] nodes[i]),
    ensures
        forall|i: int|
            0 <= i < links_of(nodes).len() ==> proper_link(#[trigger] links_of(nodes)[i]),
    decreases nodes.len(),
{
    if nodes.len() > 0 {
        let front = nodes.drop_last();
        assert forall|i: int| 0 <= i < front.len() implies one_line(#[trigger] front[i]) by {
            assert(front[i] == nodes[i]);
        }
        lemma_links_of(front);
        assert(nodes.last() == nodes[nodes.len() - 1]);
        law_written_link(nodes.last());
        let rest = links_of(front);
        assert forall|i: int| 0 <= i < links_of(nodes).len() implies proper_link(
            #[trigger] links_of(nodes)[i],
        ) by {
            if i < rest.len() {
                assert(links_of(nodes)[i] == rest[i]);
            }
        }
    }
}

/// Every link that a subscription gives, whatever its form, is one that is kept and stands on a
/// line of its own.
pub proof fn law_content_links(text: Seq<char>)
    ensures
        forall|i: int|
            0 <= i < content_links(text).len() ==> proper_link(#[trigger] content_links(text)[i]),
{
    lemma_listed(text);
    lemma_listed(decoded(trimmed(text), 3));
    lemma_lines_lack(text);
    let s = yaml_run(line_list(text));
    lemma_run_one_line(line_list(text));
    assert forall|i: int| 0 <= i < all_read(s).len() implies one_line(
        #[trigger] all_read(s)[i],
    ) by {
        if i < s.done.len() {
            assert(all_read(s)[i] == s.done[i]);
        }
    }
    lemma_links_of(yaml_nodes(text));
}

/// The list of proxies starts at this line.
pub open spec fn starts_proxies(line: Seq<char>) -> bool {
    top_level(line) && trimmed(line) == "proxies:"@
}

/// A line that is not indented and starts another section of the document.
pub open spec fn starts_section(line: Seq<char>) -> bool {
    top_level(line) && trimmed(line).len() > 0 && trimmed(line) != "proxies:"@
}

proof fn lemma_outside(lines: Seq<Seq<char>>, rest: Seq<Seq<char>>)
    requires
        !yaml_run(lines).in_proxies,
        yaml_run(lines).current is None,
        forall|i: int| 0 <= i < rest.len() ==> !starts_proxies(#[trigger] rest[i]),
    ensures
        yaml_run(lines + rest) == yaml_run(lines),
    decreases rest.len(),
{
    if rest.len() == 0 {
        assert(lines + rest =~= lines);
    } else {
        let front = rest.drop_last();
        assert forall|i: int| 0 <= i < front.len() implies !starts_proxies(#[trigger] front[i]) by {
            assert(front[i] == rest[i]);
        }
        lemma_outside(lines, front);
        assert(rest.last() == rest[rest.len() - 1]);
        assert((lines + rest).drop_last() =~= lines + front);
        reveal_strlit("proxies:");
        assert("proxies:"@.len() == 8);
    }
}

/// Only the list of proxies is read: what another section holds, up to the next list of proxies,
/// adds nothing.
pub proof fn law_other_sections(lines: Seq<Seq<char>>, rest: Seq<Seq<char>>)
    requires
        rest.len() > 0,
        starts_section(rest[0]),
        forall|i: int| 0 <= i < rest.len() ==> !starts_proxies(#[trigger] rest[i]),
    ensures
        all_read(yaml_run(lines + rest)) == all_read(yaml_run(lines)),
{
    let more = lines.push(rest[0]);
    let tail = rest.skip(1);
    assert(more.drop_last() =~= lines);
    assert(lines + rest =~= more + tail);
    assert forall|i: int| 0 <= i < tail.len() implies !starts_proxies(#[trigger] tail[i]) by {
        assert(tail[i] == rest[i + 1]);
    }
    lemma_outside(more, tail);
}

// ---------------------------------------------------------------------------------------------
// Lists of links
// ---------------------------------------------------------------------------------------------

proof fn lemma_line_cons(line: Seq<char>, rest: Seq<char>)
    requires
        !line.contains('\n'),
        line.len() > 0 ==> line.last() != '\r',
    ensures
        line_list(line.push('\n') + rest) == seq![line] + line_list(rest),
{
    let s = line.push('\n') + rest;
    let n = line.len() as int;
    assert forall|j: int| 0 <= j < n implies s[j] != '\n' by {
        assert(s[j] == line[j]);
        assert(line.contains(line[j]));
    }
    lemma_first_index(s, '\n', n);
    assert(s.take(n) =~= line);
    assert(s.skip(n + 1) =~= rest);
}

proof fn lemma_proper_last(uri: Seq<char>)
    requires
        proper_link(uri),
    ensures
        uri.len() >= 3,
        !white_space(uri[0]),
        !white_space(uri.last()),
        uri.last() != '\r',
{
    reveal_strlit("://");
    lemma_position(uri, "://"@);
    lemma_trimmed_ends(uri);
}

proof fn lemma_lines_back(uris: Seq<Seq<char>>)
    requires
        forall|i: int| 0 <= i < uris.len() ==> proper_link(#[trigger] uris[i]),
    ensures
        line_list(as_lines(uris).flatten()) == uris,
    decreases uris.len(),
{
    let rows = as_lines(uris);
    if uris.len() == 0 {
        assert(rows.flatten() =~= seq![]);
        lemma_no_index(rows.flatten(), '\n');
        assert(line_list(rows.flatten()) =~= uris);
    } else {
        let rest = uris.drop_first();
        assert forall|i: int| 0 <= i < rest.len() implies proper_link(#[trigger] rest[i]) by {
            assert(rest[i] == uris[i + 1]);
        }
        lemma_lines_back(rest);
        assert(rows.drop_first() =~= as_lines(rest));
        lemma_proper_last(uris[0]);
        lemma_line_cons(uris[0], as_lines(rest).flatten());
        assert(rows.first() == uris[0].push('\n'));
        assert(seq![uris[0]] + rest =~= uris);
    }
}

proof fn lemma_links_kept(uris: Seq<Seq<char>>)
    requires
        forall|i: int| 0 <= i < uris.len() ==> proper_link(#[trigger] uris[i]),
    ensures
        links_among(uris) == uris,
    decreases uris.len(),
{
    if uris.len() > 0 {
        let front = uris.drop_last();
        assert forall|i: int| 0 <= i < front.len() implies proper_link(#[trigger] front[i]) by {
            assert(front[i] == uris[i]);
        }
        lemma_links_kept(front);
        assert(uris.last() == uris[uris.len() - 1]);
        assert(front.push(uris.last()) =~= uris);
    }
}

/// A list of links, one to a line, is a subscription that gives these links: what is returned for
/// one request can be merged again.
pub proof fn law_list_is_subscription(uris: Seq<Seq<char>>)
    requires
        forall|i: int| 0 <= i < uris.len() ==> proper_link(#[trigger] uris[i]),
    ensures
        content_links(as_lines(uris).flatten()) == uris,
{
    let text = as_lines(uris).flatten();
    lemma_lines_back(uris);
    lemma_links_kept(uris);
    assert(listed_links(text) == uris);
    if uris.len() == 0 {
        assert(text =~= seq![]);
        assert(trimmed(text) =~= seq![]);
        reveal_strlit("proxies:");
        reveal_strlit("\nproxies:");
        let core = trimmed(text);
        assert("proxies:"@.len() == 8);
        assert("\nproxies:"@.len() == 9);
        assert(!occurs_in(core, "\nproxies:"@));
        assert(encode_utf8(core) =~= seq![]);
    } else {
        let first = uris[0];
        lemma_proper_last(first);
        assert(as_lines(uris).first() == first.push('\n'));
        let f = |c: char| white_space(c);
        let n = first.len() as int;
        assert(text.take(n) =~= first);
        assert(text[0] == first[0]);
        assert(trimmed_start(text, f) == text);
        lemma_trimmed_end_keeps(text, f);
        assert(!f(text[n - 1]));
        let core = trimmed(text);
        assert(core.len() >= n);
        assert(core.take(n) =~= first);
        reveal_strlit("://");
        lemma_position(first, "://"@);
        let i = position(first, "://"@)->0;
        assert(occurs_at(first, "://"@, i));
        assert(core.subrange(i, i + 3) =~= first.subrange(i, i + 3));
        assert(occurs_at(core, "://"@, i));
    }
}

// ---------------------------------------------------------------------------------------------
// Subscriptions in base64
// ---------------------------------------------------------------------------------------------

/// A text encoded in base64 a number of times.
pub open spec fn encoded(text: Seq<char>, times: nat) -> Seq<char>
    decreases times,
{
    if times == 0 {
        text
    } else {
        base64_text(encode_utf8(encoded(text, (times - 1) as nat)))
    }
}

proof fn lemma_encoded_chars(text: Seq<char>, times: nat)
    requires
        times > 0,
    ensures
        forall|i: int|
            0 <= i < encoded(text, times).len() ==> base64_alphabet(
                #[trigger] encoded(text, times)[i],
            ),
{
    law_base64_alphabet(encode_utf8(encoded(text, (times - 1) as nat)));
}

proof fn lemma_no_colon(s: Seq<char>)
    requires
        !s.contains(':'),
    ensures
        !occurs_in(s, "://"@),
        !has_proxies(s),
{
    reveal_strlit("://");
    reveal_strlit("proxies:");
    reveal_strlit("\nproxies:");
    assert forall|i: int| !occurs_at(s, "://"@, i) by {
        if occurs_at(s, "://"@, i) {
            assert(s.subrange(i, i + 3)[0] == ':');
            assert(s[i] == ':');
        }
    }
    assert forall|i: int| !occurs_at(s, "\nproxies:"@, i) by {
        if occurs_at(s, "\nproxies:"@, i) {
            assert(s.subrange(i, i + 9)[8] == ':');
            assert(s[i + 8] == ':');
        }
    }
    if "proxies:"@.is_prefix_of(s) {
        assert("proxies:"@[7] == ':');
        assert(s[7] == ':');
    }
}

/// White space in a text that is otherwise base64: none of it matters.
pub open spec fn spaced(w: Seq<char>, s: Seq<char>) -> bool {
    w.filter(|c: char| !white_space(c)) == s
}

proof fn lemma_spaced_chars(w: Seq<char>, s: Seq<char>)
    requires
        spaced(w, s),
    ensures
        forall|i: int| 0 <= i < w.len() ==> white_space(#[trigger] w[i]) || s.contains(w[i]),
        s.len() <= w.len(),
{
    let f = |c: char| !white_space(c);
    assert forall|i: int| 0 <= i < w.len() implies white_space(#[trigger] w[i]) || s.contains(
        w[i],
    ) by {
        if f(w[i]) {
            w.lemma_filter_contains(f, i);
        }
    }
    w.lemma_filter_len(f);
}

proof fn lemma_filter_drops_ends(w: Seq<char>)
    ensures
        trimmed(w).filter(|c: char| !white_space(c)) == w.filter(|c: char| !white_space(c)),
{
    let f = |c: char| white_space(c);
    lemma_filter_start(w);
    lemma_filter_end(trimmed_start(w, f));
}

proof fn lemma_filter_end(w: Seq<char>)
    ensures
        trimmed_end(w, |c: char| white_space(c)).filter(|c: char| !white_space(c)) == w.filter(
            |c: char| !white_space(c),
        ),
    decreases w.len(),
{
    reveal(Seq::filter);
    if w.len() > 0 && white_space(w.last()) {
        lemma_filter_end(w.drop_last());
    }
}

proof fn lemma_filter_start(w: Seq<char>)
    ensures
        trimmed_start(w, |c: char| white_space(c)).filter(|c: char| !white_space(c)) == w.filter(
            |c: char| !white_space(c),
        ),
    decreases w.len(),
{
    let f = |c: char| !white_space(c);
    if w.len() > 0 && white_space(w[0]) {
        lemma_filter_start(w.skip(1));
        let one = seq![w[0]];
        assert(w =~= one + w.skip(1));
        Seq::filter_distributes_over_add(one, w.skip(1), f);
        assert(one.filter(f) =~= seq![]) by {
            reveal_with_fuel(Seq::filter, 2);
            assert(one.drop_last() =~= seq![]);
        }
        assert(one.filter(f) + w.skip(1).filter(f) =~= w.skip(1).filter(f));
    }
}

proof fn lemma_filter_nothing(s: Seq<char>)
    requires
        forall|i: int| 0 <= i < s.len() ==> !white_space(#[trigger] s[i]),
    ensures
        spaced(s, s),
    decreases s.len(),
{
    reveal(Seq::filter);
    if s.len() > 0 {
        let front = s.drop_last();
        assert forall|i: int| 0 <= i < front.len() implies !white_space(#[trigger] front[i]) by {
            assert(front[i] == s[i]);
        }
        lemma_filter_nothing(front);
        assert(s.last() == s[s.len() - 1]);
        assert(front.push(s.last()) =~= s);
    }
}

/// A text that decoding leaves alone: it holds a link, or a character that base64 does not have.
pub open spec fn settled(text: Seq<char>) -> bool {
    occurs_in(text, "://"@) || !text.all(|c: char| base64_like(c))
}

pub(crate) proof fn lemma_decoded(text: Seq<char>, times: nat, w: Seq<char>, rounds: nat)
    requires
        settled(text),
        times <= rounds,
        times == 0 ==> w == text,
        times > 0 ==> spaced(w, encoded(text, times)),
    ensures
        decoded(w, rounds) == text,
        times > 0 ==> !w.contains(':') && w.all(|c: char| base64_like(c)),
    decreases times,
{
    if times > 0 {
        let s = encoded(text, times);
        let inner = encoded(text, (times - 1) as nat);
        lemma_encoded_chars(text, times);
        lemma_spaced_chars(w, s);
        assert forall|i: int| 0 <= i < w.len() implies base64_like(#[trigger] w[i]) && w[i]
            != ':' by {
            if s.contains(w[i]) {
                let j = choose|j: int| 0 <= j < s.len() && s[j] == w[i];
                assert(base64_alphabet(s[j]));
            }
        }
        lemma_no_colon(w);
        law_base64_content_round_trip(inner);
        assert(loose_base64(w) == Some(inner));
        if times > 1 {
            lemma_encoded_chars(text, (times - 1) as nat);
            assert forall|i: int| 0 <= i < inner.len() implies !white_space(
                #[trigger] inner[i],
            ) by {
                assert(base64_alphabet(inner[i]));
            }
            lemma_filter_nothing(inner);
        }
        lemma_decoded(text, (times - 1) as nat, inner, (rounds - 1) as nat);
    }
}

proof fn lemma_utf8_no_shorter(s: Seq<char>)
    ensures
        encode_utf8(s).len() >= s.len(),
    decreases s.len(),
{
    if s.len() > 0 {
        lemma_utf8_no_shorter(s.drop_first());
        assert(encode_scalar(s[0] as u32).len() >= 1);
    }
}

/// A subscription may come in base64, encoded up to three times and with white space in it: it
/// gives the links of the text that was encoded. The encoded text is longer than twenty
/// characters; a shorter one is not taken for base64.
pub proof fn law_base64_subscription(text: Seq<char>, times: nat, w: Seq<char>)
    requires
        settled(text),
        1 <= times <= 3,
        spaced(w, encoded(text, times)),
        encoded(text, times).len() > 20,
    ensures
        content_links(w) == listed_links(text),
{
    let core = trimmed(w);
    lemma_filter_drops_ends(w);
    assert(spaced(core, encoded(text, times)));
    lemma_decoded(text, times, core, 3);
    lemma_no_colon(core);
    lemma_spaced_chars(core, encoded(text, times));
    lemma_utf8_no_shorter(core);
}

} // verus!
