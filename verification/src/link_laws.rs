//! What holds between writing a link and reading it.

use crate::codec::{
    law_base64_alphabet, law_base64_content_round_trip, law_percent_alphabet, law_url_round_trip,
    url_content,
};
use crate::cut::{
    before, cut, cut_last, joined, law_pieces_joined, leading, lemma_cut_join, lemma_cut_last_join,
    lemma_cut_none, lemma_position_is, lemma_trimmed_lacks, occurs_at, pieces, trimmed,
};
use crate::foreign::{
    base64_text, json_document, json_object_text, lowercase, percent_decoded, url_encoded,
};
use crate::link_reader::{
    body_and_name, canonical_cipher, name_of, node_of, param_value, query_cut, read_body,
    scheme_and_rest, valid_cipher, valid_uuid, with_field, with_members, with_param, with_params,
    with_sid,
};
use crate::link_writer::{
    link_of, link_text, or_else, param_text, query_parts, query_text, ss_user, trojan_params,
    tuic_params, vless_params, vmess_members,
};
use crate::node::{blank, NodeView};
use crate::text::{digit, hex_digit, lemma_filter_among, white_space};
use vstd::prelude::*;
use vstd::utf8::{
    encode_utf8, encode_utf8_decode_utf8, encode_utf8_valid_utf8, is_ascii_chars,
    is_ascii_chars_encode_utf8,
};

verus! {

// ---------------------------------------------------------------------------------------------
// The parts of a link
// ---------------------------------------------------------------------------------------------

/// The scheme of a link is what stands before its `://`.
pub proof fn law_scheme(scheme: Seq<char>, rest: Seq<char>)
    requires
        !scheme.contains(':'),
    ensures
        scheme_and_rest(scheme + "://"@ + rest) == Some((scheme, rest)),
{
    reveal_strlit("://");
    let s = scheme + "://"@ + rest;
    let i = scheme.len() as int;
    assert(s.subrange(i, i + 3) =~= "://"@);
    assert forall|j: int| 0 <= j < i implies !occurs_at(s, "://"@, j) by {
        if occurs_at(s, "://"@, j) {
            assert(s.subrange(j, j + 3)[0] == ':');
            assert(s[j] == scheme[j]);
            assert(scheme.contains(scheme[j]));
        }
    }
    lemma_position_is(s, "://"@, i);
    assert(s.take(i) =~= scheme);
    assert(s.skip(i + 3) =~= rest);
}

/// A percent-encoded text holds none of the characters that part a link, and decoding undoes it.
proof fn lemma_encoded_plain(s: Seq<char>)
    ensures
        !url_encoded(s).contains('#'),
        !url_encoded(s).contains('@'),
        !url_encoded(s).contains('?'),
        !url_encoded(s).contains('&'),
        !url_encoded(s).contains('='),
        !url_encoded(s).contains(':'),
        url_content(url_encoded(s)) == s,
{
    law_percent_alphabet(encode_utf8(s));
    law_url_round_trip(s);
}

/// The body and the name of a link.
proof fn lemma_body_and_name(body: Seq<char>, name: Seq<char>)
    ensures
        body_and_name(body + seq!['#'] + url_encoded(name)) == (body, name),
{
    lemma_encoded_plain(name);
    lemma_cut_last_join(body, '#', url_encoded(name));
}

proof fn lemma_digits_kept(port: Seq<char>)
    requires
        port.all(|c: char| digit(c)),
    ensures
        leading(port, |c: char| digit(c)) == port,
        !port.contains(':'),
        !port.contains('?'),
    decreases port.len(),
{
    let f = |c: char| digit(c);
    assert forall|i: int| 0 <= i < port.len() implies port[i] != ':' && port[i] != '?' by {
        assert(f(port[i]));
    }
    if port.len() > 0 {
        assert(f(port[0]));
        assert forall|i: int| 0 <= i < port.skip(1).len() implies #[trigger] f(port.skip(1)[i]) by {
            assert(f(port[i + 1]));
        }
        lemma_digits_kept(port.skip(1));
        assert(port =~= seq![port[0]] + port.skip(1));
    }
}

/// Percent decoding leaves a text of ASCII alone that holds no `%`.
pub(crate) proof fn lemma_nothing_to_decode(s: Seq<char>)
    requires
        is_ascii_chars(s),
        !s.contains('%'),
    ensures
        url_content(s) == s,
{
    let b = encode_utf8(s);
    is_ascii_chars_encode_utf8(s);
    assert forall|i: int| 0 <= i < b.len() implies b[i] != 37 by {
        assert(s.contains(s[i]));
    }
    lemma_no_percent(b);
    encode_utf8_valid_utf8(s);
    encode_utf8_decode_utf8(s);
}

proof fn lemma_no_percent(b: Seq<u8>)
    requires
        forall|i: int| 0 <= i < b.len() ==> b[i] != 37,
    ensures
        percent_decoded(b) == b,
    decreases b.len(),
{
    if b.len() > 0 {
        lemma_no_percent(b.skip(1));
        assert(percent_decoded(b) =~= b);
    } else {
        assert(percent_decoded(b) =~= b);
    }
}

/// Two texts joined hold no character that neither of them holds.
pub(crate) proof fn lemma_join_lacks(a: Seq<char>, b: Seq<char>, c: char)
    requires
        !a.contains(c),
        !b.contains(c),
    ensures
        !(a + b).contains(c),
{
    if (a + b).contains(c) {
        let i = choose|i: int| 0 <= i < (a + b).len() && (a + b)[i] == c;
        if i < a.len() {
            assert(a[i] == c);
        } else {
            assert(b[i - a.len()] == c);
        }
    }
}

// ---------------------------------------------------------------------------------------------
// Queries
// ---------------------------------------------------------------------------------------------

/// What remains of the value of a parameter that was written and read: the part before the first
/// `#`, without white space around it.
pub open spec fn kept_value(v: Seq<char>) -> Seq<char> {
    trimmed(before(v, '#'))
}

/// What remains of a short id that was written and read.
pub open spec fn kept_sid(v: Seq<char>) -> Seq<char> {
    let sid = kept_value(v).filter(|c: char| hex_digit(c));
    if sid.len() <= 16 && sid.len() % 2 == 0 {
        sid
    } else {
        seq![]
    }
}

/// A node with the fields set that some parameters name.
pub open spec fn with_fields(n: NodeView, params: Seq<(Seq<char>, Seq<char>)>) -> NodeView
    decreases params.len(),
{
    if params.len() == 0 {
        n
    } else {
        let m = with_fields(n, params.drop_last());
        let v = kept_value(params.last().1);
        if v.len() == 0 {
            m
        } else {
            with_field(m, params.last().0, v)
        }
    }
}

proof fn lemma_kept_empty()
    ensures
        kept_value(seq![]) == Seq::<char>::empty(),
{
    let e: Seq<char> = seq![];
    assert(!e.contains('#'));
    lemma_cut_none(e, '#');
    assert(trimmed(e) =~= e);
}

/// The names of parameters hold none of the characters that part a query.
pub open spec fn proper_names(params: Seq<(Seq<char>, Seq<char>)>) -> bool {
    forall|i: int|
        0 <= i < params.len() ==> !(#[trigger] params[i]).0.contains('&') && !params[i].0.contains(
            '=',
        )
}

proof fn lemma_param_read(n: NodeView, p: (Seq<char>, Seq<char>))
    requires
        !p.0.contains('='),
    ensures
        with_param(n, param_text(p)) == (if kept_value(p.1).len() == 0 {
            n
        } else {
            with_field(n, p.0, kept_value(p.1))
        }),
{
    lemma_encoded_plain(p.1);
    lemma_cut_join(p.0, '=', url_encoded(p.1));
}

proof fn lemma_params_read(n: NodeView, params: Seq<(Seq<char>, Seq<char>)>)
    requires
        proper_names(params),
    ensures
        with_params(n, query_parts(params)) == with_fields(n, params),
        forall|i: int|
            0 <= i < query_parts(params).len() ==> !(#[trigger] query_parts(params)[i]).contains(
                '&',
            ),
    decreases params.len(),
{
    if params.len() > 0 {
        let rest = params.drop_last();
        assert forall|i: int| 0 <= i < rest.len() implies !(#[trigger] rest[i]).0.contains('&')
            && !rest[i].0.contains('=') by {
            assert(rest[i] == params[i]);
        }
        lemma_params_read(n, rest);
        let last = params.last();
        assert(params[params.len() - 1] == last);
        if last.1.len() == 0 {
            lemma_kept_empty();
            assert(last.1 =~= seq![]);
        } else {
            let part = param_text(last);
            let parts = query_parts(rest);
            assert(parts.push(part).drop_last() =~= parts);
            lemma_param_read(with_params(n, parts), last);
            lemma_encoded_plain(last.1);
            assert(!seq!['='].contains('&'));
            lemma_join_lacks(last.0, seq!['='], '&');
            lemma_join_lacks(last.0 + seq!['='], url_encoded(last.1), '&');
            assert forall|i: int| 0 <= i < parts.push(part).len() implies !(#[trigger] parts.push(
                part,
            )[i]).contains('&') by {
                if i < parts.len() {
                    assert(parts.push(part)[i] == parts[i]);
                }
            }
        }
    }
}

/// A query that was written sets the fields that its parameters name.
pub proof fn law_query_round_trip(
    n: NodeView,
    host: Seq<char>,
    params: Seq<(Seq<char>, Seq<char>)>,
)
    requires
        proper_names(params),
        !host.contains('?'),
    ensures
        ({
            let (h, q) = query_cut(host + query_text(params));
            h == host && with_params(n, pieces(q, '&')) == with_fields(n, params)
        }),
{
    let parts = query_parts(params);
    lemma_params_read(n, params);
    if parts.len() == 0 {
        let e: Seq<char> = seq![];
        assert(host + query_text(params) =~= host);
        lemma_cut_none(host, '?');
        assert(!e.contains('&') && !e.contains('='));
        lemma_cut_none(e, '&');
        lemma_cut_none(e, '=');
        assert(pieces(e, '&') =~= seq![e]);
        assert(seq![e].drop_last() =~= seq![]);
        reveal_with_fuel(with_params, 2);
        assert(with_params(n, seq![e]) == n);
        assert(parts =~= seq![]);
    } else {
        lemma_cut_join(host, '?', joined(parts, '&'));
        assert(host + query_text(params) =~= host + seq!['?'] + joined(parts, '&'));
        law_pieces_joined(parts, '&');
    }
}

// ---------------------------------------------------------------------------------------------
// Values that were kept
// ---------------------------------------------------------------------------------------------

pub(crate) proof fn lemma_before_lacks(s: Seq<char>, c: char)
    ensures
        !before(s, c).contains(c),
{
    s.index_of_first_ensures(c);
    match s.index_of_first(c) {
        Some(i) => {
            assert forall|j: int| 0 <= j < s.take(i).len() implies s.take(i)[j] != c by {}
        },
        None => {},
    }
}

/// What remains of the value of a parameter holds no `#`, so that cutting it there once more
/// changes nothing.
pub proof fn law_kept_value(v: Seq<char>)
    ensures
        !kept_value(v).contains('#'),
        before(kept_value(v), '#') == kept_value(v),
{
    lemma_before_lacks(v, '#');
    lemma_trimmed_lacks(before(v, '#'), |c: char| white_space(c), '#');
    lemma_cut_none(kept_value(v), '#');
}

/// Which field each parameter of a link sets.
pub proof fn law_fields(n: NodeView, v: Seq<char>)
    ensures
        with_field(n, "encryption"@, v) == (NodeView { encryption: v, ..n }),
        with_field(n, "flow"@, v) == (NodeView { flow: v, ..n }),
        with_field(n, "security"@, v) == (NodeView { security: v, ..n }),
        with_field(n, "sni"@, v) == (NodeView { sni: v, ..n }),
        with_field(n, "fp"@, v) == (NodeView { fp: v, ..n }),
        with_field(n, "pbk"@, v) == (NodeView { pbk: v, ..n }),
        with_field(n, "sid"@, v) == with_sid(n, v),
        with_field(n, "alpn"@, v) == (NodeView { alpn: v, ..n }),
        with_field(n, "type"@, v) == (NodeView { network: v, ..n }),
        with_field(n, "host"@, v) == (NodeView { host: v, ..n }),
        with_field(n, "path"@, v) == (NodeView { path: v, ..n }),
        with_field(n, "password"@, v) == (NodeView { password: v, ..n }),
        with_field(n, "congestion_control"@, v) == (NodeView { congestion_controller: v, ..n }),
{
    lemma_param_keys();
}

/// What tells the names of the parameters apart.
pub(crate) proof fn lemma_param_keys()
    ensures
        "sni"@.len() == 3 && "sni"@[0] == 's',
        "servername"@.len() == 10 && "servername"@[0] == 's',
        "fp"@.len() == 2 && "fp"@[0] == 'f',
        "pbk"@.len() == 3 && "pbk"@[0] == 'p',
        "sid"@.len() == 3 && "sid"@[0] == 's',
        "alpn"@.len() == 4 && "alpn"@[0] == 'a',
        "flow"@.len() == 4 && "flow"@[0] == 'f',
        "security"@.len() == 8 && "security"@[0] == 's',
        "type"@.len() == 4 && "type"@[0] == 't',
        "host"@.len() == 4 && "host"@[0] == 'h',
        "path"@.len() == 4 && "path"@[0] == 'p',
        "password"@.len() == 8 && "password"@[0] == 'p',
        "congestion_control"@.len() == 18 && "congestion_control"@[0] == 'c',
        "encryption"@.len() == 10 && "encryption"@[0] == 'e',
        "sni"@[1] == 'n' && "sid"@[1] == 'i',
{
    reveal_strlit("sni");
    reveal_strlit("servername");
    reveal_strlit("fp");
    reveal_strlit("pbk");
    reveal_strlit("sid");
    reveal_strlit("alpn");
    reveal_strlit("flow");
    reveal_strlit("security");
    reveal_strlit("type");
    reveal_strlit("host");
    reveal_strlit("path");
    reveal_strlit("password");
    reveal_strlit("congestion_control");
    reveal_strlit("encryption");
}

proof fn lemma_param_names()
    ensures
        forall|n: NodeView| #[trigger] proper_names(trojan_params(n)),
        forall|n: NodeView| #[trigger] proper_names(vless_params(n)),
        forall|n: NodeView| #[trigger] proper_names(tuic_params(n)),
{
    reveal_strlit("sni");
    reveal_strlit("fp");
    reveal_strlit("pbk");
    reveal_strlit("sid");
    reveal_strlit("alpn");
    reveal_strlit("flow");
    reveal_strlit("security");
    reveal_strlit("type");
    reveal_strlit("host");
    reveal_strlit("path");
    reveal_strlit("password");
    reveal_strlit("congestion_control");
    reveal_strlit("encryption");
}

// ---------------------------------------------------------------------------------------------
// Round trips
// ---------------------------------------------------------------------------------------------

/// Server and port of a node are known, and the port is a number.
pub open spec fn reachable(n: NodeView) -> bool {
    &&& n.server.len() > 0
    &&& n.port.len() > 0
    &&& n.port.all(|c: char| digit(c))
}

/// A UUID as it is written: thirty-two hexadecimal digits, with any number of dashes among them.
pub open spec fn plain_uuid(u: Seq<char>) -> bool {
    u.all(|c: char| hex_digit(c) || c == '-') && u.filter(|c: char| c != '-').len() == 32
}

/// A plain UUID is one that is accepted.
pub proof fn law_plain_uuid(u: Seq<char>)
    requires
        plain_uuid(u),
    ensures
        valid_uuid(u),
{
    let f = |c: char| c != '-';
    let g = |c: char| hex_digit(c) || c == '-';
    let digits = u.filter(f);
    assert forall|i: int| 0 <= i < digits.len() implies hex_digit(#[trigger] digits[i]) by {
        u.lemma_filter_pred(f, i);
        lemma_filter_among(u, f, digits[i]);
        let j = choose|j: int| 0 <= j < u.len() && u[j] == digits[i];
        assert(g(u[j]));
    }
}

/// A link of the usual shape, parted into scheme, user part, server and port with the query, and
/// name.
proof fn lemma_link_parts(
    scheme: Seq<char>,
    user: Seq<char>,
    server: Seq<char>,
    port: Seq<char>,
    query: Seq<char>,
    name: Seq<char>,
)
    requires
        !scheme.contains(':'),
        !user.contains('@'),
    ensures
        ({
            let uri = link_text(scheme, user, server, port, query, name);
            let host = server + seq![':'] + port + query;
            let body = user + seq!['@'] + host;
            let rest = body + seq!['#'] + url_encoded(name);
            &&& scheme_and_rest(uri) == Some((scheme, rest))
            &&& body_and_name(rest) == (body, name)
            &&& cut(body, '@') == Some((user, host))
        }),
{
    let uri = link_text(scheme, user, server, port, query, name);
    let host = server + seq![':'] + port + query;
    let body = user + seq!['@'] + host;
    let rest = body + seq!['#'] + url_encoded(name);
    assert(uri =~= scheme + "://"@ + rest);
    law_scheme(scheme, rest);
    lemma_body_and_name(body, name);
    lemma_cut_join(user, '@', host);
}

/// The names of the protocols are different from one another.
pub(crate) proof fn lemma_kinds_differ()
    ensures
        "ss"@ != "trojan"@,
        "ss"@ != "vless"@,
        "ss"@ != "vmess"@,
        "ss"@ != "hy2"@,
        "ss"@ != "hysteria2"@,
        "ss"@ != "tuic"@,
        "trojan"@ != "vless"@,
        "trojan"@ != "vmess"@,
        "trojan"@ != "hy2"@,
        "trojan"@ != "hysteria2"@,
        "trojan"@ != "tuic"@,
        "vless"@ != "vmess"@,
        "vless"@ != "hy2"@,
        "vless"@ != "hysteria2"@,
        "vless"@ != "tuic"@,
        "vmess"@ != "hy2"@,
        "vmess"@ != "hysteria2"@,
        "vmess"@ != "tuic"@,
        "hy2"@ != "hysteria2"@,
        "hy2"@ != "tuic"@,
        "hysteria2"@ != "tuic"@,
        !"ss"@.contains(':'),
        !"trojan"@.contains(':'),
        !"vless"@.contains(':'),
        !"vmess"@.contains(':'),
        !"hysteria2"@.contains(':'),
        !"tuic"@.contains(':'),
{
    reveal_strlit("ss");
    reveal_strlit("trojan");
    reveal_strlit("vless");
    reveal_strlit("vmess");
    reveal_strlit("hy2");
    reveal_strlit("hysteria2");
    reveal_strlit("tuic");
    assert("ss"@.len() == 2);
    assert("trojan"@.len() == 6);
    assert("vless"@.len() == 5 && "vless"@[1] == 'l');
    assert("vmess"@.len() == 5 && "vmess"@[1] == 'm');
    assert("hy2"@.len() == 3);
    assert("hysteria2"@.len() == 9);
    assert("tuic"@.len() == 4);
}

/// What a `hysteria2` link keeps of a node.
pub open spec fn hysteria2_read(n: NodeView) -> NodeView {
    NodeView {
        kind: "hysteria2"@,
        name: n.name,
        server: n.server,
        port: n.port,
        password: n.password,
        ..blank()
    }
}

/// A `hysteria2` node that is written as a link is read back: any name, server and password.
pub proof fn law_hysteria2_round_trip(n: NodeView)
    requires
        n.kind == "hysteria2"@ || n.kind == "hy2"@,
        reachable(n),
    ensures
        link_of(n) matches Some(uri) && node_of(uri) == Some(hysteria2_read(n)),
{
    lemma_kinds_differ();
    let none: Seq<char> = seq![];
    let user = url_encoded(n.password);
    lemma_encoded_plain(n.password);
    lemma_link_parts("hysteria2"@, user, n.server, n.port, none, n.name);
    lemma_digits_kept(n.port);
    let host = n.server + seq![':'] + n.port + none;
    assert(host =~= n.server + seq![':'] + n.port);
    lemma_cut_last_join(n.server, ':', n.port);
    assert(!none.contains('#'));
    lemma_cut_none(none, '#');
}

/// What a `trojan` link keeps of a node.
pub open spec fn trojan_read(n: NodeView) -> NodeView {
    NodeView {
        kind: "trojan"@,
        name: n.name,
        server: n.server,
        port: n.port,
        uuid: n.password,
        password: n.password,
        sni: kept_value(n.sni),
        alpn: kept_value(n.alpn),
        fp: kept_value(n.fp),
        ..blank()
    }
}

proof fn lemma_plain_read(
    scheme: Seq<char>,
    user: Seq<char>,
    n: NodeView,
    params: Seq<(Seq<char>, Seq<char>)>,
)
    requires
        scheme == "trojan"@ || scheme == "vless"@ || scheme == "tuic"@,
        !user.contains('@'),
        reachable(n),
        !n.server.contains('?'),
        proper_names(params),
        (scheme == "vless"@ || scheme == "tuic"@) ==> valid_uuid(url_content(user)),
    ensures
        ({
            let secret = url_content(user);
            let start = NodeView {
                kind: scheme,
                name: n.name,
                uuid: secret,
                password: if scheme == "trojan"@ || scheme == "tuic"@ {
                    secret
                } else {
                    seq![]
                },
                server: n.server,
                port: n.port,
                ..blank()
            };
            let read = with_fields(start, params);
            read.uuid == secret && read.server == n.server && read.port == n.port ==> node_of(
                link_text(scheme, user, n.server, n.port, query_text(params), n.name),
            ) == Some(NodeView { sni: before(read.sni, '#'), ..read })
        }),
{
    lemma_kinds_differ();
    let secret = url_content(user);
    let query = query_text(params);
    lemma_link_parts(scheme, user, n.server, n.port, query, n.name);
    lemma_digits_kept(n.port);
    let host_port = n.server + seq![':'] + n.port;
    assert(!seq![':'].contains('?'));
    lemma_join_lacks(n.server, seq![':'], '?');
    lemma_join_lacks(n.server + seq![':'], n.port, '?');
    let start = NodeView {
        kind: scheme,
        name: n.name,
        uuid: secret,
        password: if scheme == "trojan"@ || scheme == "tuic"@ {
            secret
        } else {
            seq![]
        },
        server: n.server,
        port: n.port,
        ..blank()
    };
    law_query_round_trip(start, host_port, params);
    lemma_cut_last_join(n.server, ':', n.port);
}

/// A `trojan` node that is written as a link is read back: any name and password, and any server
/// without a question mark.
pub proof fn law_trojan_round_trip(n: NodeView)
    requires
        n.kind == "trojan"@,
        reachable(n),
        !n.server.contains('?'),
    ensures
        link_of(n) matches Some(uri) && node_of(uri) == Some(trojan_read(n)),
{
    lemma_kinds_differ();
    lemma_param_names();
    let user = url_encoded(n.password);
    lemma_encoded_plain(n.password);
    let params = trojan_params(n);
    assert(proper_names(trojan_params(n)));
    lemma_plain_read("trojan"@, user, n, params);
    let start = NodeView {
        kind: "trojan"@,
        name: n.name,
        uuid: n.password,
        password: n.password,
        server: n.server,
        port: n.port,
        ..blank()
    };
    assert(params.drop_last() =~= seq![("sni"@, n.sni), ("alpn"@, n.alpn)]);
    assert(params.drop_last().drop_last() =~= seq![("sni"@, n.sni)]);
    assert(params.drop_last().drop_last().drop_last() =~= seq![]);
    reveal_with_fuel(with_fields, 4);
    let a = kept_value(n.sni);
    let n1 = NodeView { sni: a, ..start };
    let b = kept_value(n.alpn);
    let n2 = NodeView { alpn: b, ..n1 };
    law_fields(start, a);
    law_fields(n1, b);
    law_fields(n2, kept_value(n.fp));
    law_kept_value(n.sni);
    assert(with_fields(start, params.drop_last().drop_last()) =~= n1);
    assert(with_fields(start, params.drop_last()) =~= n2);
    assert(with_fields(start, params) =~= trojan_read(n));
}

/// What a `tuic` link keeps of a node. Where the password is empty, the UUID takes its place.
pub open spec fn tuic_read(n: NodeView) -> NodeView {
    NodeView {
        kind: "tuic"@,
        name: n.name,
        server: n.server,
        port: n.port,
        uuid: n.uuid,
        password: or_else(kept_value(n.password), n.uuid),
        sni: kept_value(n.sni),
        congestion_controller: kept_value(n.congestion_controller),
        ..blank()
    }
}

proof fn lemma_uuid_user(u: Seq<char>)
    requires
        plain_uuid(u),
    ensures
        !u.contains('@'),
        url_content(u) == u,
{
    let f = |c: char| hex_digit(c) || c == '-';
    assert forall|i: int| 0 <= i < u.len() implies #[trigger] u[i] != '@' && u[i] != '%' && '\0'
        <= u[i] <= '\u{7f}' by {
        assert(f(u[i]));
    }
    lemma_nothing_to_decode(u);
}

/// A `tuic` node that is written as a link is read back: any name, any server without a question
/// mark, and a UUID.
pub proof fn law_tuic_round_trip(n: NodeView)
    requires
        n.kind == "tuic"@,
        reachable(n),
        !n.server.contains('?'),
        plain_uuid(n.uuid),
    ensures
        link_of(n) matches Some(uri) && node_of(uri) == Some(tuic_read(n)),
{
    lemma_kinds_differ();
    lemma_param_names();
    lemma_uuid_user(n.uuid);
    law_plain_uuid(n.uuid);
    let params = tuic_params(n);
    assert(proper_names(tuic_params(n)));
    lemma_plain_read("tuic"@, n.uuid, n, params);
    let start = NodeView {
        kind: "tuic"@,
        name: n.name,
        uuid: n.uuid,
        password: n.uuid,
        server: n.server,
        port: n.port,
        ..blank()
    };
    assert(params.drop_last() =~= seq![("password"@, n.password), ("sni"@, n.sni)]);
    assert(params.drop_last().drop_last() =~= seq![("password"@, n.password)]);
    assert(params.drop_last().drop_last().drop_last() =~= seq![]);
    reveal_with_fuel(with_fields, 4);
    let a = kept_value(n.password);
    let n1 = NodeView { password: or_else(a, n.uuid), ..start };
    let b = kept_value(n.sni);
    let n2 = NodeView { sni: b, ..n1 };
    law_fields(start, a);
    law_fields(n1, b);
    law_fields(n2, kept_value(n.congestion_controller));
    law_kept_value(n.sni);
    assert(with_fields(start, params.drop_last().drop_last()) =~= n1);
    assert(with_fields(start, params.drop_last()) =~= n2);
    assert(with_fields(start, params) =~= tuic_read(n));
}

/// What an `ss` link keeps of a node.
pub open spec fn ss_read(n: NodeView) -> NodeView {
    NodeView {
        kind: "ss"@,
        name: n.name,
        server: n.server,
        port: n.port,
        cipher: canonical_cipher(lowercase(n.cipher)),
        password: n.password,
        ..blank()
    }
}

/// An `ss` node that is written as a link is read back: any name, server and password, and a
/// cipher that Mihomo accepts, by whatever name and in whatever letter case.
pub proof fn law_ss_round_trip(n: NodeView)
    requires
        n.kind == "ss"@,
        reachable(n),
        !n.cipher.contains(':'),
        valid_cipher(canonical_cipher(lowercase(n.cipher))),
    ensures
        link_of(n) matches Some(uri) && node_of(uri) == Some(ss_read(n)),
{
    lemma_kinds_differ();
    let none: Seq<char> = seq![];
    let secret = n.cipher + seq![':'] + n.password;
    let user = ss_user(n);
    law_base64_alphabet(encode_utf8(secret));
    law_base64_content_round_trip(secret);
    assert(!user.contains('@'));
    lemma_link_parts("ss"@, user, n.server, n.port, none, n.name);
    lemma_digits_kept(n.port);
    let host = n.server + seq![':'] + n.port + none;
    assert(host =~= n.server + seq![':'] + n.port);
    lemma_cut_last_join(n.server, ':', n.port);
    lemma_cut_join(n.cipher, ':', n.password);
    assert(!none.contains('#'));
    lemma_cut_none(none, '#');
}

/// What a `vless` link keeps of a node.
pub open spec fn vless_read(n: NodeView) -> NodeView {
    NodeView {
        kind: "vless"@,
        name: n.name,
        server: n.server,
        port: n.port,
        uuid: n.uuid,
        encryption: kept_value(n.encryption),
        flow: kept_value(n.flow),
        security: kept_value(n.security),
        sni: kept_value(n.sni),
        fp: kept_value(n.fp),
        pbk: kept_value(n.pbk),
        sid: kept_sid(n.sid),
        alpn: kept_value(n.alpn),
        network: kept_value(or_else(n.network, "tcp"@)),
        host: kept_value(n.host),
        path: kept_value(n.path),
        ..blank()
    }
}

proof fn lemma_fields_step(
    n: NodeView,
    params: Seq<(Seq<char>, Seq<char>)>,
    key: Seq<char>,
    value: Seq<char>,
)
    ensures
        with_fields(n, params.push((key, value))) == (if kept_value(value).len() == 0 {
            with_fields(n, params)
        } else {
            with_field(with_fields(n, params), key, kept_value(value))
        }),
{
    assert(params.push((key, value)).drop_last() =~= params);
}

proof fn lemma_vless_fields(n: NodeView, start: NodeView)
    requires
        start == (NodeView {
            kind: "vless"@,
            name: n.name,
            uuid: n.uuid,
            server: n.server,
            port: n.port,
            ..blank()
        }),
    ensures
        with_fields(start, vless_params(n)) == vless_read(n),
{
    let p0: Seq<(Seq<char>, Seq<char>)> = seq![];
    let p1 = p0.push(("encryption"@, n.encryption));
    let p2 = p1.push(("flow"@, n.flow));
    let p3 = p2.push(("security"@, n.security));
    let p4 = p3.push(("sni"@, n.sni));
    let p5 = p4.push(("fp"@, n.fp));
    let p6 = p5.push(("pbk"@, n.pbk));
    let p7 = p6.push(("sid"@, n.sid));
    let p8 = p7.push(("alpn"@, n.alpn));
    let p9 = p8.push(("type"@, or_else(n.network, "tcp"@)));
    let p10 = p9.push(("host"@, n.host));
    let p11 = p10.push(("path"@, n.path));
    assert(vless_params(n) =~= p11);
    let n1 = NodeView { encryption: kept_value(n.encryption), ..start };
    let n2 = NodeView { flow: kept_value(n.flow), ..n1 };
    let n3 = NodeView { security: kept_value(n.security), ..n2 };
    let n4 = NodeView { sni: kept_value(n.sni), ..n3 };
    let n5 = NodeView { fp: kept_value(n.fp), ..n4 };
    let n6 = NodeView { pbk: kept_value(n.pbk), ..n5 };
    let n7 = NodeView { sid: kept_sid(n.sid), ..n6 };
    let n8 = NodeView { alpn: kept_value(n.alpn), ..n7 };
    let n9 = NodeView { network: kept_value(or_else(n.network, "tcp"@)), ..n8 };
    let n10 = NodeView { host: kept_value(n.host), ..n9 };
    let n11 = NodeView { path: kept_value(n.path), ..n10 };
    assert(with_fields(start, p1) =~= n1) by {
        lemma_fields_step(start, p0, "encryption"@, n.encryption);
        law_fields(start, kept_value(n.encryption));
    }
    assert(with_fields(start, p2) =~= n2) by {
        lemma_fields_step(start, p1, "flow"@, n.flow);
        law_fields(n1, kept_value(n.flow));
    }
    assert(with_fields(start, p3) =~= n3) by {
        lemma_fields_step(start, p2, "security"@, n.security);
        law_fields(n2, kept_value(n.security));
    }
    assert(with_fields(start, p4) =~= n4) by {
        lemma_fields_step(start, p3, "sni"@, n.sni);
        law_fields(n3, kept_value(n.sni));
    }
    assert(with_fields(start, p5) =~= n5) by {
        lemma_fields_step(start, p4, "fp"@, n.fp);
        law_fields(n4, kept_value(n.fp));
    }
    assert(with_fields(start, p6) =~= n6) by {
        lemma_fields_step(start, p5, "pbk"@, n.pbk);
        law_fields(n5, kept_value(n.pbk));
    }
    assert(with_fields(start, p7) =~= n7) by {
        lemma_fields_step(start, p6, "sid"@, n.sid);
        law_fields(n6, kept_value(n.sid));
        let f = |c: char| hex_digit(c);
        if kept_value(n.sid).len() == 0 {
            assert(kept_value(n.sid) =~= seq![]);
            reveal(Seq::filter);
        }
    }
    assert(with_fields(start, p8) =~= n8) by {
        lemma_fields_step(start, p7, "alpn"@, n.alpn);
        law_fields(n7, kept_value(n.alpn));
    }
    assert(with_fields(start, p9) =~= n9) by {
        lemma_fields_step(start, p8, "type"@, or_else(n.network, "tcp"@));
        law_fields(n8, kept_value(or_else(n.network, "tcp"@)));
    }
    assert(with_fields(start, p10) =~= n10) by {
        lemma_fields_step(start, p9, "host"@, n.host);
        law_fields(n9, kept_value(n.host));
    }
    assert(with_fields(start, p11) =~= n11) by {
        lemma_fields_step(start, p10, "path"@, n.path);
        law_fields(n10, kept_value(n.path));
    }
    assert(n11 =~= vless_read(n));
}

/// A `vless` node that is written as a link is read back: any name, any server without a question
/// mark, and a UUID.
pub proof fn law_vless_round_trip(n: NodeView)
    requires
        n.kind == "vless"@,
        reachable(n),
        !n.server.contains('?'),
        plain_uuid(n.uuid),
    ensures
        link_of(n) matches Some(uri) && node_of(uri) == Some(vless_read(n)),
{
    lemma_kinds_differ();
    lemma_param_names();
    lemma_uuid_user(n.uuid);
    law_plain_uuid(n.uuid);
    let params = vless_params(n);
    assert(proper_names(vless_params(n)));
    lemma_plain_read("vless"@, n.uuid, n, params);
    let start = NodeView {
        kind: "vless"@,
        name: n.name,
        uuid: n.uuid,
        server: n.server,
        port: n.port,
        ..blank()
    };
    lemma_vless_fields(n, start);
    law_kept_value(n.sni);
}

/// What a `vmess` link keeps of a node.
pub open spec fn vmess_read(n: NodeView) -> NodeView {
    NodeView {
        kind: "vmess"@,
        name: n.name,
        server: n.server,
        port: n.port,
        uuid: n.uuid,
        alter_id: or_else(n.alter_id, "0"@),
        network: or_else(n.network, "tcp"@),
        host: n.host,
        path: n.path,
        tls: n.tls,
        sni: before(n.sni, '#'),
        ..blank()
    }
}

proof fn lemma_vmess_members(n: NodeView, base: NodeView)
    ensures
        with_members(base, vmess_members(n)) == (NodeView {
            name: n.name,
            server: n.server,
            port: n.port,
            uuid: n.uuid,
            alter_id: or_else(n.alter_id, "0"@),
            network: or_else(n.network, "tcp"@),
            host: n.host,
            path: n.path,
            tls: n.tls,
            sni: n.sni,
            ..base
        }),
{
    reveal_strlit("v");
    reveal_strlit("ps");
    reveal_strlit("add");
    reveal_strlit("port");
    reveal_strlit("id");
    reveal_strlit("aid");
    reveal_strlit("net");
    reveal_strlit("type");
    reveal_strlit("host");
    reveal_strlit("path");
    reveal_strlit("tls");
    reveal_strlit("sni");
    reveal_strlit("0");
    assert("v"@.len() == 1);
    assert("ps"@.len() == 2 && "ps"@[0] == 'p');
    assert("id"@.len() == 2 && "id"@[0] == 'i');
    assert("add"@.len() == 3 && "add"@[1] == 'd');
    assert("aid"@.len() == 3 && "aid"@[1] == 'i');
    assert("net"@.len() == 3 && "net"@[1] == 'e');
    assert("tls"@.len() == 3 && "tls"@[1] == 'l');
    assert("sni"@.len() == 3 && "sni"@[1] == 'n');
    assert("port"@.len() == 4 && "port"@[1] == 'o' && "port"@[0] == 'p');
    assert("type"@.len() == 4 && "type"@[1] == 'y');
    assert("host"@.len() == 4 && "host"@[1] == 'o' && "host"@[0] == 'h');
    assert("path"@.len() == 4 && "path"@[1] == 'a');
    assert("0"@.len() == 1);
}

/// A `vmess` node that is written as a link is read back, where reading the JSON object that the
/// link carries gives its members back.
pub proof fn law_vmess_round_trip(n: NodeView)
    requires
        n.kind == "vmess"@,
        n.server.len() > 0,
        n.port.len() > 0,
        json_document(json_object_text(vmess_members(n))) == Some(vmess_members(n)),
    ensures
        link_of(n) matches Some(uri) && node_of(uri) == Some(vmess_read(n)),
{
    lemma_kinds_differ();
    let json = json_object_text(vmess_members(n));
    let body = base64_text(encode_utf8(json));
    law_base64_alphabet(encode_utf8(json));
    law_base64_content_round_trip(json);
    assert(!body.contains('#'));
    lemma_cut_none(body, '#');
    reveal_strlit("vmess://");
    reveal_strlit("vmess");
    reveal_strlit("://");
    assert("vmess://"@ =~= "vmess"@ + "://"@);
    law_scheme("vmess"@, body);
    lemma_vmess_members(
        n,
        NodeView { kind: "vmess"@, name: seq![], ..blank() },
    );
}

/// A node whose link describes it: one with a server and a port, and of the form that the reader
/// of its protocol asks for.
pub open spec fn readable(n: NodeView) -> bool {
    if n.kind == "ss"@ {
        &&& reachable(n)
        &&& !n.cipher.contains(':')
        &&& valid_cipher(canonical_cipher(lowercase(n.cipher)))
    } else if n.kind == "trojan"@ {
        reachable(n) && !n.server.contains('?')
    } else if n.kind == "vless"@ || n.kind == "tuic"@ {
        reachable(n) && !n.server.contains('?') && plain_uuid(n.uuid)
    } else if n.kind == "vmess"@ {
        n.server.len() > 0 && n.port.len() > 0
    } else {
        (n.kind == "hy2"@ || n.kind == "hysteria2"@) && reachable(n)
    }
}

/// What is kept of a node by its link.
pub open spec fn as_read(n: NodeView) -> NodeView {
    if n.kind == "ss"@ {
        ss_read(n)
    } else if n.kind == "trojan"@ {
        trojan_read(n)
    } else if n.kind == "vless"@ {
        vless_read(n)
    } else if n.kind == "tuic"@ {
        tuic_read(n)
    } else if n.kind == "vmess"@ {
        vmess_read(n)
    } else {
        hysteria2_read(n)
    }
}

/// Reading the link of a node gives back what the link keeps of it, whatever its protocol.
pub proof fn law_link_round_trip(n: NodeView)
    requires
        readable(n),
        n.kind == "vmess"@ ==> json_document(json_object_text(vmess_members(n))) == Some(
            vmess_members(n),
        ),
    ensures
        link_of(n) matches Some(uri) && node_of(uri) == Some(as_read(n)),
{
    lemma_kinds_differ();
    if n.kind == "ss"@ {
        law_ss_round_trip(n);
    } else if n.kind == "trojan"@ {
        law_trojan_round_trip(n);
    } else if n.kind == "vless"@ {
        law_vless_round_trip(n);
    } else if n.kind == "tuic"@ {
        law_tuic_round_trip(n);
    } else if n.kind == "vmess"@ {
        law_vmess_round_trip(n);
    } else {
        law_hysteria2_round_trip(n);
    }
}

/// The name of a node stands in its link, unless the link is a `vmess` link, which carries the
/// name within its JSON object.
pub proof fn law_name_in_link(n: NodeView)
    ensures
        n.kind != "vmess"@ ==> (link_of(n) matches Some(uri) ==> name_of(uri) == n.name),
{
    if link_of(n) is Some && n.kind != "vmess"@ {
        let uri = link_of(n)->0;
        let tail = url_encoded(n.name);
        lemma_encoded_plain(n.name);
        let body = uri.take(uri.len() - tail.len() - 1);
        assert(uri =~= body + seq!['#'] + tail);
        lemma_cut_last_join(body, '#', tail);
    }
}

// ---------------------------------------------------------------------------------------------
// Ciphers
// ---------------------------------------------------------------------------------------------

/// An older name of a cipher is replaced by one that Mihomo accepts, every name that Mihomo accepts
/// stays, and replacing a name once is enough.
pub proof fn law_canonical_cipher(c: Seq<char>)
    ensures
        canonical_cipher(c) != c ==> valid_cipher(canonical_cipher(c)),
        valid_cipher(c) ==> canonical_cipher(c) == c,
        canonical_cipher(canonical_cipher(c)) == canonical_cipher(c),
{
    reveal_strlit("chacha20-poly1305");
    reveal_strlit("xchacha20-poly1305");
    reveal_strlit("chacha20-ietf-poly1305");
    reveal_strlit("xchacha20-ietf-poly1305");
    assert("chacha20-poly1305"@.len() == 17 && "xchacha20-poly1305"@.len() == 18);
    assert("chacha20-ietf-poly1305"@.len() == 22 && "xchacha20-ietf-poly1305"@.len() == 23);
    if valid_cipher(c) {
        lemma_cipher_lengths(c);
    }
}

proof fn lemma_cipher_lengths(c: Seq<char>)
    requires
        valid_cipher(c),
    ensures
        c.len() != 17,
        c.len() != 18,
{
    reveal_strlit("aes-128-gcm");
    reveal_strlit("aes-192-gcm");
    reveal_strlit("aes-256-gcm");
    reveal_strlit("chacha20-ietf-poly1305");
    reveal_strlit("xchacha20-ietf-poly1305");
    reveal_strlit("2022-blake3-aes-128-gcm");
    reveal_strlit("2022-blake3-aes-256-gcm");
    reveal_strlit("2022-blake3-chacha20-poly1305");
    reveal_strlit("aes-128-cfb");
    reveal_strlit("aes-192-cfb");
    reveal_strlit("aes-256-cfb");
    reveal_strlit("aes-128-ctr");
    reveal_strlit("aes-192-ctr");
    reveal_strlit("aes-256-ctr");
    reveal_strlit("chacha20-ietf");
    reveal_strlit("chacha20");
    reveal_strlit("rc4-md5");
    reveal_strlit("none");
}

// ---------------------------------------------------------------------------------------------
// What is read is of use
// ---------------------------------------------------------------------------------------------

/// A short id as REALITY takes it: sixteen hexadecimal digits at most, even in number.
pub open spec fn valid_sid(s: Seq<char>) -> bool {
    s.len() <= 16 && s.len() % 2 == 0 && s.all(|c: char| hex_digit(c))
}

/// A node of a protocol that the configuration can describe, with a server and a port. But for
/// `vmess`, whose port may be any text, the port is a number. A `vless` or `tuic` node has a UUID,
/// and an `ss` node a cipher that is valid. The short id has the form that REALITY takes, and
/// the server name holds no `#`.
pub open spec fn usable(n: NodeView) -> bool {
    &&& n.kind == "vless"@ || n.kind == "vmess"@ || n.kind == "trojan"@ || n.kind == "ss"@ || n.kind
        == "hysteria2"@ || n.kind == "tuic"@
    &&& n.server.len() > 0
    &&& n.port.len() > 0
    &&& n.kind != "vmess"@ ==> n.port.all(|c: char| digit(c))
    &&& n.kind == "vless"@ || n.kind == "tuic"@ ==> valid_uuid(n.uuid)
    &&& n.kind == "ss"@ ==> valid_cipher(n.cipher)
    &&& valid_sid(n.sid)
    &&& !n.sni.contains('#')
}

proof fn lemma_filter_all(s: Seq<char>, f: spec_fn(char) -> bool)
    ensures
        s.filter(f).all(f),
{
    assert forall|i: int| 0 <= i < s.filter(f).len() implies f(#[trigger] s.filter(f)[i]) by {
        s.lemma_filter_pred(f, i);
    }
}

/// Parameters leave alone what the link itself says of a node.
pub(crate) proof fn lemma_params_keep(n: NodeView, params: Seq<Seq<char>>)
    requires
        valid_sid(n.sid),
    ensures
        with_params(n, params).kind == n.kind,
        with_params(n, params).name == n.name,
        with_params(n, params).server == n.server,
        with_params(n, params).port == n.port,
        with_params(n, params).uuid == n.uuid,
        valid_sid(with_params(n, params).sid),
    decreases params.len(),
{
    if params.len() > 0 {
        lemma_params_keep(n, params.drop_last());
        match cut(params.last(), '=') {
            Some((_, raw)) => {
                lemma_filter_all(param_value(raw), |c: char| hex_digit(c));
            },
            None => {},
        }
    }
}

proof fn lemma_leading_all(s: Seq<char>, f: spec_fn(char) -> bool)
    ensures
        leading(s, f).all(f),
    decreases s.len(),
{
    if s.len() > 0 && f(s[0]) {
        lemma_leading_all(s.skip(1), f);
    }
}

/// Whatever a link holds, a node that is read from it is usable.
pub proof fn law_usable(uri: Seq<char>)
    ensures
        node_of(uri) matches Some(n) ==> usable(n),
{
    if node_of(uri) is Some {
        lemma_usable(uri);
    }
}

proof fn lemma_usable(uri: Seq<char>)
    requires
        node_of(uri) is Some,
    ensures
        usable(node_of(uri)->0),
{
    lemma_kinds_differ();
    let (kind, rest) = scheme_and_rest(uri)->0;
    let (body, name) = body_and_name(rest);
    let base = NodeView { kind, name, ..blank() };
    let f = |c: char| digit(c);
    assert(valid_sid(base.sid));
    lemma_before_lacks(read_body(base, body)->0.sni, '#');
    if kind == "vless"@ || kind == "trojan"@ || kind == "tuic"@ {
        let (auth, host_part) = cut(body, '@')->0;
        let (host_port, query) = query_cut(host_part);
        let (server, port) = cut_last(host_port, ':')->0;
        let user = url_content(auth);
        let start = NodeView {
            uuid: user,
            password: if base.kind == "trojan"@ || base.kind == "tuic"@ {
                user
            } else {
                base.password
            },
            server,
            port: leading(port, f),
            ..base
        };
        lemma_leading_all(port, f);
        lemma_params_keep(start, pieces(query, '&'));
    } else if kind != "vmess"@ {
        let (auth, host_part) = cut(body, '@')->0;
        let (server, port) = cut_last(host_part, ':')->0;
        lemma_leading_all(port, f);
    }
}

} // verus!
