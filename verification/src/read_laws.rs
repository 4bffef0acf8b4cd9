//! What is read from a share link, whoever wrote it.

use crate::codec::{
    base64_alphabet, base64_bytes, base64_content, law_base64_alphabet,
    law_base64_content_round_trip, law_percent_alphabet, law_url_round_trip, url_content,
};
use crate::cut::{
    before, cut, cut_last, joined, law_pieces_joined, leading, lemma_cut_join, lemma_cut_last_join,
    lemma_cut_none, lemma_no_index, lemma_position, lemma_trimmed_lacks, occurs_in, pieces, trimmed,
};
use crate::decimal::signed_decimal;
use crate::foreign::{
    base64_text, json_document, lowercase, member_of, url_decoded, url_encoded, JsonView,
};
use crate::link_laws::{
    law_fields, law_scheme, lemma_before_lacks, lemma_join_lacks, lemma_kinds_differ,
    lemma_param_keys, lemma_params_keep,
};
use crate::link_reader::{
    body_and_name, canonical_cipher, name_of, node_of, param_value, query_cut, scheme_and_rest,
    uuid_digits, valid_cipher, valid_uuid, with_field, with_members, with_params, with_vmess,
    VmessMembers,
};
use crate::node::{blank, NodeView};
use crate::text::{digit, hex_digit, white_space};
use vstd::prelude::*;
use vstd::utf8::{decode_utf8, decode_utf8_encode_utf8, encode_utf8, valid_utf8};

verus! {

// ---------------------------------------------------------------------------------------------
// The parts of a link
// ---------------------------------------------------------------------------------------------

/// What stands behind the scheme of a link: its body, and a name behind a `#` where it has one.
pub open spec fn tagged(body: Seq<char>, tag: Option<Seq<char>>) -> Seq<char> {
    match tag {
        Some(t) => body + seq!['#'] + t,
        None => body,
    }
}

/// A name holds no `#`, and neither does the body of a link that has no name.
pub open spec fn proper_tag(body: Seq<char>, tag: Option<Seq<char>>) -> bool {
    match tag {
        Some(t) => !t.contains('#'),
        None => !body.contains('#'),
    }
}

/// The name that a link gives to its node: percent-decoded, and empty where there is none.
pub open spec fn tag_name(tag: Option<Seq<char>>) -> Seq<char> {
    match tag {
        Some(t) => url_content(t),
        None => seq![],
    }
}

proof fn lemma_tagged(body: Seq<char>, tag: Option<Seq<char>>)
    requires
        proper_tag(body, tag),
    ensures
        body_and_name(tagged(body, tag)) == (body, tag_name(tag)),
{
    match tag {
        Some(t) => {
            lemma_cut_last_join(body, '#', t);
        },
        None => {
            lemma_cut_none(body, '#');
        },
    }
}

/// The name of a node is what stands behind the last `#` of its link, percent-decoded, and a link
/// without a `#` gives no name.
pub proof fn law_name(body: Seq<char>, tag: Option<Seq<char>>)
    requires
        proper_tag(body, tag),
    ensures
        name_of(tagged(body, tag)) == tag_name(tag),
{
    match tag {
        Some(t) => {
            lemma_cut_last_join(body, '#', t);
        },
        None => {
            lemma_cut_none(body, '#');
        },
    }
}

/// A name that was percent-encoded is read as it was.
pub proof fn law_encoded_name(body: Seq<char>, name: Seq<char>)
    ensures
        name_of(body + seq!['#'] + url_encoded(name)) == name,
{
    law_url_round_trip(name);
    law_percent_alphabet(encode_utf8(name));
    lemma_cut_last_join(body, '#', url_encoded(name));
}

/// A port as a link may hold it: digits, and behind them anything that does not start with a digit
/// and holds no colon, such as a path or a query.
pub open spec fn port_text(port: Seq<char>, rest: Seq<char>) -> bool {
    &&& port.len() > 0
    &&& port.all(|c: char| digit(c))
    &&& rest.len() > 0 ==> !digit(rest[0])
    &&& !rest.contains(':')
}

proof fn lemma_port(port: Seq<char>, rest: Seq<char>)
    requires
        port.all(|c: char| digit(c)),
        rest.len() > 0 ==> !digit(rest[0]),
    ensures
        leading(port + rest, |c: char| digit(c)) == port,
        !port.contains(':'),
        !port.contains('?'),
    decreases port.len(),
{
    let f = |c: char| digit(c);
    assert forall|i: int| 0 <= i < port.len() implies port[i] != ':' && port[i] != '?' by {
        assert(f(port[i]));
    }
    if port.len() == 0 {
        assert(port + rest =~= rest);
        assert(leading(rest, f) =~= port);
    } else {
        let fewer = port.skip(1);
        assert(f(port[0]));
        assert forall|i: int| 0 <= i < fewer.len() implies #[trigger] f(fewer[i]) by {
            assert(f(port[i + 1]));
        }
        lemma_port(fewer, rest);
        assert((port + rest).skip(1) =~= fewer + rest);
        assert(seq![port[0]] + fewer =~= port);
    }
}

/// The body of a link: user part, server and port, and what follows the port.
pub open spec fn body_text(
    user: Seq<char>,
    server: Seq<char>,
    port: Seq<char>,
    rest: Seq<char>,
) -> Seq<char> {
    user + seq!['@'] + server + seq![':'] + port + rest
}

proof fn lemma_body(user: Seq<char>, server: Seq<char>, port: Seq<char>, rest: Seq<char>)
    requires
        !user.contains('@'),
        port_text(port, rest),
    ensures
        ({
            let host = server + seq![':'] + (port + rest);
            &&& cut(body_text(user, server, port, rest), '@') == Some((user, host))
            &&& cut_last(host, ':') == Some((server, port + rest))
            &&& leading(port + rest, |c: char| digit(c)) == port
        }),
{
    let host = server + seq![':'] + (port + rest);
    assert(body_text(user, server, port, rest) =~= user + seq!['@'] + host);
    lemma_cut_join(user, '@', host);
    lemma_port(port, rest);
    lemma_join_lacks(port, rest, ':');
    lemma_cut_last_join(server, ':', port + rest);
}

proof fn lemma_link(kind: Seq<char>, body: Seq<char>, tag: Option<Seq<char>>)
    requires
        !kind.contains(':'),
        proper_tag(body, tag),
    ensures
        scheme_and_rest(kind + "://"@ + tagged(body, tag)) == Some((kind, tagged(body, tag))),
        body_and_name(tagged(body, tag)) == (body, tag_name(tag)),
{
    law_scheme(kind, tagged(body, tag));
    lemma_tagged(body, tag);
}

proof fn lemma_empty_sni()
    ensures
        before(Seq::<char>::empty(), '#') == Seq::<char>::empty(),
{
    let e: Seq<char> = seq![];
    assert(!e.contains('#'));
    lemma_cut_none(e, '#');
}

proof fn lemma_schemes_plain()
    ensures
        !"hy2"@.contains(':'),
        !"hysteria2"@.contains(':'),
        !"vmess"@.contains(':'),
{
    reveal_strlit("hy2");
    reveal_strlit("hysteria2");
    reveal_strlit("vmess");
}

// ---------------------------------------------------------------------------------------------
// Protocols without parameters
// ---------------------------------------------------------------------------------------------

/// A `hysteria2` or `hy2` link gives server, port, password and name, whatever follows the port: a
/// path, a query, or nothing.
pub proof fn law_read_hysteria2(
    scheme: Seq<char>,
    user: Seq<char>,
    server: Seq<char>,
    port: Seq<char>,
    rest: Seq<char>,
    tag: Option<Seq<char>>,
)
    requires
        scheme == "hysteria2"@ || scheme == "hy2"@,
        !user.contains('@'),
        server.len() > 0,
        port_text(port, rest),
        proper_tag(body_text(user, server, port, rest), tag),
    ensures
        node_of(scheme + "://"@ + tagged(body_text(user, server, port, rest), tag)) == Some(
            NodeView {
                kind: "hysteria2"@,
                name: tag_name(tag),
                server,
                port,
                password: url_content(user),
                ..blank()
            },
        ),
{
    lemma_kinds_differ();
    lemma_schemes_plain();
    let body = body_text(user, server, port, rest);
    lemma_link(scheme, body, tag);
    lemma_body(user, server, port, rest);
    lemma_empty_sni();
}

/// A text that is not the base64 text of any text.
pub open spec fn no_base64(s: Seq<char>) -> bool {
    forall|t: Seq<char>| s != base64_text(#[trigger] encode_utf8(t))
}

/// An `ss` link whose user part says cipher and password, in base64 or else percent-encoded,
/// gives the cipher under the name that Mihomo knows, the password, the server, the port and the
/// name; one whose cipher is not known describes no node.
pub proof fn law_read_ss(
    user: Seq<char>,
    method: Seq<char>,
    password: Seq<char>,
    server: Seq<char>,
    port: Seq<char>,
    rest: Seq<char>,
    tag: Option<Seq<char>>,
)
    requires
        !user.contains('@'),
        !method.contains(':'),
        server.len() > 0,
        port_text(port, rest),
        proper_tag(body_text(user, server, port, rest), tag),
        user == base64_text(encode_utf8(method + seq![':'] + password)) || (no_base64(user)
            && url_decoded(user) == Some(method + seq![':'] + password)),
    ensures
        ({
            let read = node_of(
                "ss"@ + "://"@ + tagged(body_text(user, server, port, rest), tag),
            );
            let cipher = canonical_cipher(lowercase(method));
            if valid_cipher(cipher) {
                read == Some(
                    NodeView {
                        kind: "ss"@,
                        name: tag_name(tag),
                        server,
                        port,
                        cipher,
                        password,
                        ..blank()
                    },
                )
            } else {
                read is None
            }
        }),
{
    lemma_kinds_differ();
    let secret = method + seq![':'] + password;
    let body = body_text(user, server, port, rest);
    lemma_link("ss"@, body, tag);
    lemma_body(user, server, port, rest);
    lemma_cut_join(method, ':', password);
    lemma_empty_sni();
    if user == base64_text(encode_utf8(secret)) {
        law_base64_content_round_trip(secret);
    } else {
        lemma_no_base64(user);
    }
}

proof fn lemma_no_base64(s: Seq<char>)
    requires
        no_base64(s),
    ensures
        base64_content(s) is None,
{
    if let Some(b) = base64_bytes(s) {
        if valid_utf8(b) {
            decode_utf8_encode_utf8(b);
            assert(s == base64_text(encode_utf8(decode_utf8(b))));
        }
    }
}

/// An `ss` link whose user part says no cipher and password, neither in base64 nor percent-encoded,
/// describes no node.
pub proof fn law_ss_no_secret(user: Seq<char>, secret: Seq<char>, rest: Seq<char>)
    requires
        !user.contains('@'),
        !secret.contains(':'),
        user == base64_text(encode_utf8(secret)) || (no_base64(user) && (url_decoded(user) is None
            || url_decoded(user) == Some(secret))),
        !(user + seq!['@'] + rest).contains('#'),
    ensures
        node_of("ss"@ + "://"@ + (user + seq!['@'] + rest)) is None,
{
    lemma_kinds_differ();
    lemma_link("ss"@, user + seq!['@'] + rest, None);
    lemma_cut_join(user, '@', rest);
    lemma_cut_none(secret, ':');
    if user == base64_text(encode_utf8(secret)) {
        law_base64_content_round_trip(secret);
    } else {
        lemma_no_base64(user);
    }
}

// ---------------------------------------------------------------------------------------------
// Protocols with parameters
// ---------------------------------------------------------------------------------------------

/// The value of a parameter: percent-decoded, up to a `#`, without white space around it.
pub open spec fn given_value(raw: Seq<char>) -> Seq<char> {
    trimmed(before(url_content(raw), '#'))
}

/// The last value that some parameters give under one of two names, or `default` where none gives
/// one.
pub open spec fn last_given(
    params: Seq<(Seq<char>, Seq<char>)>,
    name: Seq<char>,
    other: Seq<char>,
    default: Seq<char>,
) -> Seq<char>
    decreases params.len(),
{
    if params.len() == 0 {
        default
    } else {
        let (key, raw) = params.last();
        if (key == name || key == other) && given_value(raw).len() > 0 {
            given_value(raw)
        } else {
            last_given(params.drop_last(), name, other, default)
        }
    }
}

/// The hexadecimal digits of the last short id among some parameters that has the right form:
/// sixteen digits at most, even in number. It is `default` where there is none.
pub open spec fn last_sid(params: Seq<(Seq<char>, Seq<char>)>, default: Seq<char>) -> Seq<char>
    decreases params.len(),
{
    if params.len() == 0 {
        default
    } else {
        let (key, raw) = params.last();
        let digits = given_value(raw).filter(|c: char| hex_digit(c));
        if key == "sid"@ && given_value(raw).len() > 0 && digits.len() <= 16 && digits.len() % 2
            == 0 {
            digits
        } else {
            last_sid(params.drop_last(), default)
        }
    }
}

/// A parameter as a query holds it.
pub open spec fn raw_param(p: (Seq<char>, Seq<char>)) -> Seq<char> {
    p.0 + seq!['='] + p.1
}

/// Names without `=` and `&`, and values without `&`.
pub open spec fn proper_params(params: Seq<(Seq<char>, Seq<char>)>) -> bool {
    forall|i: int|
        0 <= i < params.len() ==> !(#[trigger] params[i]).0.contains('=') && !params[i].0.contains(
            '&',
        ) && !params[i].1.contains('&')
}

/// A node with what some parameters give.
pub open spec fn given_node(n: NodeView, params: Seq<(Seq<char>, Seq<char>)>) -> NodeView {
    NodeView {
        sni: last_given(params, "sni"@, "servername"@, n.sni),
        fp: last_given(params, "fp"@, "fp"@, n.fp),
        pbk: last_given(params, "pbk"@, "pbk"@, n.pbk),
        sid: last_sid(params, n.sid),
        alpn: last_given(params, "alpn"@, "alpn"@, n.alpn),
        flow: last_given(params, "flow"@, "flow"@, n.flow),
        security: last_given(params, "security"@, "security"@, n.security),
        network: last_given(params, "type"@, "type"@, n.network),
        host: last_given(params, "host"@, "host"@, n.host),
        path: last_given(params, "path"@, "path"@, n.path),
        password: last_given(params, "password"@, "password"@, n.password),
        congestion_controller: last_given(
            params,
            "congestion_control"@,
            "congestion_control"@,
            n.congestion_controller,
        ),
        encryption: last_given(params, "encryption"@, "encryption"@, n.encryption),
        ..n
    }
}

/// Each parameter of a link sets the field that it names and leaves every other as it was; a
/// parameter of another name changes nothing.
pub proof fn law_param_sets(n: NodeView, key: Seq<char>, v: Seq<char>)
    ensures
        ({
            let m = with_field(n, key, v);
            let digits = v.filter(|c: char| hex_digit(c));
            let sid = digits.len() <= 16 && digits.len() % 2 == 0;
            let set = |name: Seq<char>, was: Seq<char>|
                if key == name {
                    v
                } else {
                    was
                };
            &&& m.sni == set("servername"@, set("sni"@, n.sni))
            &&& m.fp == set("fp"@, n.fp)
            &&& m.pbk == set("pbk"@, n.pbk)
            &&& m.sid == if key == "sid"@ && sid {
                digits
            } else {
                n.sid
            }
            &&& m.alpn == set("alpn"@, n.alpn)
            &&& m.flow == set("flow"@, n.flow)
            &&& m.security == set("security"@, n.security)
            &&& m.network == set("type"@, n.network)
            &&& m.host == set("host"@, n.host)
            &&& m.path == set("path"@, n.path)
            &&& m.password == set("password"@, n.password)
            &&& m.congestion_controller == set("congestion_control"@, n.congestion_controller)
            &&& m.encryption == set("encryption"@, n.encryption)
            &&& m.kind == n.kind && m.name == n.name && m.server == n.server && m.port == n.port
            &&& m.uuid == n.uuid && m.cipher == n.cipher && m.alter_id == n.alter_id
            &&& m.tls == n.tls
        }),
{
    law_fields(n, v);
    lemma_param_keys();
}

/// The parameters of a link set their fields, whatever their order: of two values for one field
/// the last counts, and an empty value and a parameter of another name change nothing.
pub proof fn law_params_set(n: NodeView, params: Seq<(Seq<char>, Seq<char>)>)
    requires
        proper_params(params),
    ensures
        with_params(n, params.map_values(|p: (Seq<char>, Seq<char>)| raw_param(p))) == given_node(
            n,
            params,
        ),
    decreases params.len(),
{
    let texts = params.map_values(|p: (Seq<char>, Seq<char>)| raw_param(p));
    if params.len() > 0 {
        let fewer = params.drop_last();
        assert(proper_params(fewer)) by {
            assert forall|i: int| 0 <= i < fewer.len() implies !(#[trigger] fewer[i]).0.contains(
                '=',
            ) && !fewer[i].0.contains('&') && !fewer[i].1.contains('&') by {
                assert(fewer[i] == params[i]);
            }
        }
        law_params_set(n, fewer);
        assert(texts.drop_last() =~= fewer.map_values(
            |p: (Seq<char>, Seq<char>)| raw_param(p),
        ));
        let (key, raw) = params.last();
        assert(params[params.len() - 1] == (key, raw));
        assert(texts.last() == key + seq!['='] + raw);
        lemma_cut_join(key, '=', raw);
        let v = given_value(raw);
        assert(v == param_value(raw));
        law_param_sets(given_node(n, fewer), key, v);
    }
}

/// What stands between the port and the end of the body: a path or nothing, and a query where there
/// is one.
pub open spec fn with_query(
    path: Seq<char>,
    params: Option<Seq<(Seq<char>, Seq<char>)>>,
) -> Seq<char> {
    match params {
        Some(ps) => path + seq!['?'] + joined(
            ps.map_values(|p: (Seq<char>, Seq<char>)| raw_param(p)),
            '&',
        ),
        None => path,
    }
}

/// The parameters of a link, none where it has no query.
pub open spec fn given_params(
    params: Option<Seq<(Seq<char>, Seq<char>)>>,
) -> Seq<(Seq<char>, Seq<char>)> {
    match params {
        Some(ps) => ps,
        None => seq![],
    }
}

proof fn lemma_with_query(
    n: NodeView,
    path: Seq<char>,
    params: Option<Seq<(Seq<char>, Seq<char>)>>,
    host: Seq<char>,
)
    requires
        !host.contains('?'),
        !path.contains('?'),
        params matches Some(ps) ==> ps.len() > 0 && proper_params(ps),
    ensures
        ({
            let (front, query) = query_cut(host + with_query(path, params));
            front == host + path && with_params(n, pieces(query, '&')) == given_node(
                n,
                given_params(params),
            )
        }),
{
    lemma_join_lacks(host, path, '?');
    match params {
        Some(ps) => {
            let texts = ps.map_values(|p: (Seq<char>, Seq<char>)| raw_param(p));
            let query = joined(texts, '&');
            assert(host + with_query(path, params) =~= (host + path) + seq!['?'] + query);
            lemma_cut_join(host + path, '?', query);
            assert forall|i: int| 0 <= i < texts.len() implies !(#[trigger] texts[i]).contains(
                '&',
            ) by {
                assert(texts[i] == ps[i].0 + seq!['='] + ps[i].1);
                lemma_join_lacks(ps[i].0, seq!['='], '&');
                lemma_join_lacks(ps[i].0 + seq!['='], ps[i].1, '&');
            }
            law_pieces_joined(texts, '&');
            law_params_set(n, ps);
        },
        None => {
            let none: Seq<char> = seq![];
            lemma_cut_none(host + path, '?');
            lemma_no_index(none, '&');
            assert(pieces(none, '&') =~= seq![none]);
            assert(!none.contains('='));
            lemma_cut_none(none, '=');
            assert(seq![none].drop_last() =~= Seq::<Seq<char>>::empty());
            reveal_with_fuel(with_params, 2);
            assert(with_params(n, seq![none]) == n);
        },
    }
}

/// A `vless`, `trojan` or `tuic` link gives the server and the port, the user part as the UUID, for
/// `trojan` and `tuic` as the password too, and what its parameters give. A `vless` or `tuic` link
/// whose user part is no UUID describes no node.
pub proof fn law_read_plain(
    kind: Seq<char>,
    user: Seq<char>,
    server: Seq<char>,
    port: Seq<char>,
    path: Seq<char>,
    params: Option<Seq<(Seq<char>, Seq<char>)>>,
    tag: Option<Seq<char>>,
)
    requires
        kind == "vless"@ || kind == "trojan"@ || kind == "tuic"@,
        !user.contains('@'),
        server.len() > 0,
        !server.contains('?'),
        !path.contains('?'),
        port_text(port, path),
        params matches Some(ps) ==> ps.len() > 0 && proper_params(ps),
        proper_tag(body_text(user, server, port, with_query(path, params)), tag),
    ensures
        ({
            let body = body_text(user, server, port, with_query(path, params));
            let read = node_of(kind + "://"@ + tagged(body, tag));
            let id = url_content(user);
            if kind != "trojan"@ && !valid_uuid(id) {
                read is None
            } else {
                read == Some(
                    given_node(
                        NodeView {
                            kind,
                            name: tag_name(tag),
                            uuid: id,
                            password: if kind == "vless"@ {
                                seq![]
                            } else {
                                id
                            },
                            server,
                            port,
                            ..blank()
                        },
                        given_params(params),
                    ),
                )
            }
        }),
{
    lemma_kinds_differ();
    let rest = with_query(path, params);
    let body = body_text(user, server, port, rest);
    lemma_link(kind, body, tag);
    let id = url_content(user);
    let start = NodeView {
        kind,
        name: tag_name(tag),
        uuid: id,
        password: if kind == "vless"@ {
            seq![]
        } else {
            id
        },
        server,
        port,
        ..blank()
    };
    let host = server + seq![':'] + port;
    assert(body =~= user + seq!['@'] + (host + rest));
    lemma_cut_join(user, '@', host + rest);
    lemma_port(port, path);
    lemma_join_lacks(server, seq![':'], '?');
    lemma_join_lacks(server + seq![':'], port, '?');
    lemma_with_query(start, path, params, host);
    lemma_join_lacks(port, path, ':');
    assert(host + path =~= server + seq![':'] + (port + path));
    lemma_cut_last_join(server, ':', port + path);
    let n = given_node(start, given_params(params));
    assert(n.server == server && n.port == port && n.uuid == id);
    lemma_last_sni(given_params(params));
}

/// The server name that parameters give holds no `#`.
proof fn lemma_last_sni(params: Seq<(Seq<char>, Seq<char>)>)
    ensures
        ({
            let sni = last_given(params, "sni"@, "servername"@, seq![]);
            before(sni, '#') == sni
        }),
    decreases params.len(),
{
    if params.len() == 0 {
        lemma_empty_sni();
    } else {
        lemma_last_sni(params.drop_last());
        let value = url_content(params.last().1);
        lemma_before_lacks(value, '#');
        lemma_trimmed_lacks(before(value, '#'), |c: char| white_space(c), '#');
        lemma_cut_none(given_value(params.last().1), '#');
        lemma_no_index(given_value(params.last().1), '#');
    }
}

/// A part of a query without a `=` changes nothing, wherever it stands.
pub proof fn law_bare_param(n: NodeView, a: Seq<Seq<char>>, bare: Seq<char>, b: Seq<Seq<char>>)
    requires
        !bare.contains('='),
    ensures
        with_params(n, a + seq![bare] + b) == with_params(n, a + b),
    decreases b.len(),
{
    if b.len() == 0 {
        assert(a + seq![bare] + b =~= a.push(bare));
        assert(a.push(bare).drop_last() =~= a);
        assert(a + b =~= a);
        lemma_cut_none(bare, '=');
    } else {
        law_bare_param(n, a, bare, b.drop_last());
        assert((a + seq![bare] + b).drop_last() =~= a + seq![bare] + b.drop_last());
        assert((a + b).drop_last() =~= a + b.drop_last());
    }
}

// ---------------------------------------------------------------------------------------------
// Links that hold a JSON object
// ---------------------------------------------------------------------------------------------

/// `v` is the text that an object holds under `key`, or `default` where it holds no text there.
pub open spec fn holds(
    m: Map<Seq<char>, JsonView>,
    key: Seq<char>,
    default: Seq<char>,
    v: Seq<char>,
) -> bool {
    if m.contains_key(key) && m[key] is Text {
        JsonView::Text(v) == m[key]
    } else {
        v == default
    }
}

/// A `vmess` link gives what the members of its JSON object say, whatever name stands behind it:
/// a port may be a text or a number, an alter id too, and a member that is missing counts as empty.
/// It describes no node where there is no object, no server or an empty port.
pub proof fn law_read_vmess(text: Seq<char>, tag: Option<Seq<char>>)
    requires
        tag matches Some(t) ==> !t.contains('#'),
    ensures
        ({
            let read = node_of("vmess"@ + "://"@ + tagged(base64_text(encode_utf8(text)), tag));
            match (json_document(text), read) {
                (Some(m), Some(n)) => {
                    let port = member_of(m, "port"@);
                    let aid = member_of(m, "aid"@);
                    &&& n.kind == "vmess"@
                    &&& holds(m, "ps"@, seq![], n.name)
                    &&& holds(m, "add"@, seq![], n.server)
                    &&& holds(m, "id"@, seq![], n.uuid)
                    &&& holds(m, "net"@, "tcp"@, n.network)
                    &&& holds(m, "host"@, seq![], n.host)
                    &&& holds(m, "path"@, seq![], n.path)
                    &&& n.tls <==> member_of(m, "tls"@) == JsonView::Text("tls"@)
                    &&& exists|v: Seq<char>| #[trigger]
                        holds(m, "sni"@, seq![], v) && n.sni == before(v, '#')
                    &&& port matches JsonView::Text(t) ==> n.port == t
                    &&& port matches JsonView::Number { text: t, .. } ==> n.port == t
                    &&& port is Other ==> n.port == "443"@
                    &&& aid matches JsonView::Text(t) ==> n.alter_id == if t.len() == 0 {
                        "0"@
                    } else {
                        t
                    }
                    &&& aid matches JsonView::Number { integer: Some(i), .. } ==> n.alter_id
                        == signed_decimal(i as int)
                    &&& aid matches JsonView::Number { integer: None, .. } ==> n.alter_id == "0"@
                    &&& aid is Other ==> n.alter_id == "0"@
                    &&& n.password.len() == 0 && n.cipher.len() == 0 && n.flow.len() == 0
                    &&& n.security.len() == 0 && n.pbk.len() == 0 && n.sid.len() == 0
                    &&& n.alpn.len() == 0 && n.fp.len() == 0 && n.encryption.len() == 0
                    &&& n.congestion_controller.len() == 0
                },
                (Some(m), None) => {
                    let port = member_of(m, "port"@);
                    ||| holds(m, "add"@, seq![], seq![])
                    ||| port == JsonView::Text(seq![])
                    ||| (port matches JsonView::Number { text: t, .. } && t.len() == 0)
                },
                (None, r) => r is None,
            }
        }),
        ({
            let read = node_of("vmess"@ + "://"@ + tagged(base64_text(encode_utf8(text)), tag));
            json_document(text) matches Some(m) && (holds(m, "add"@, seq![], seq![]) || member_of(
                m,
                "port"@,
            ) == JsonView::Text(seq![])) ==> read is None
        }),
{
    let body = base64_text(encode_utf8(text));
    law_base64_alphabet(encode_utf8(text));
    assert forall|i: int| 0 <= i < body.len() implies body[i] != '#' by {
        assert(base64_alphabet(body[i]));
    }
    lemma_kinds_differ();
    lemma_link("vmess"@, body, tag);
    law_base64_content_round_trip(text);
    reveal_strlit("443");
    assert("443"@.len() == 3);
    reveal_strlit("tls");
    assert("tls"@.len() == 3);
    if let Some(m) = json_document(text) {
        let sni = match member_of(m, "sni"@) {
            JsonView::Text(t) => t,
            _ => seq![],
        };
        assert(holds(m, "sni"@, seq![], sni));
        let n = with_members(NodeView { kind: "vmess"@, name: tag_name(tag), ..blank() }, m);
        let none: Seq<char> = seq![];
        if n.server.len() == 0 {
            assert(n.server =~= none);
        }
        if n.port.len() == 0 {
            assert(n.port =~= none);
        }
    }
}

/// A `vmess` link that is not the base64 text of a text describes no node.
pub proof fn law_vmess_garbage(body: Seq<char>, tag: Option<Seq<char>>)
    requires
        no_base64(body),
        proper_tag(body, tag),
    ensures
        node_of("vmess"@ + "://"@ + tagged(body, tag)) is None,
{
    lemma_kinds_differ();
    lemma_link("vmess"@, body, tag);
    lemma_no_base64(body);
}

// ---------------------------------------------------------------------------------------------
// Texts that describe no node
// ---------------------------------------------------------------------------------------------

/// A link of any other scheme describes no node.
pub proof fn law_other_scheme(scheme: Seq<char>, rest: Seq<char>)
    requires
        !scheme.contains(':'),
        scheme != "vless"@ && scheme != "trojan"@ && scheme != "tuic"@ && scheme != "vmess"@,
        scheme != "ss"@ && scheme != "hysteria2"@ && scheme != "hy2"@,
    ensures
        node_of(scheme + "://"@ + rest) is None,
{
    law_scheme(scheme, rest);
}

/// A text without `://` describes no node.
pub proof fn law_no_scheme(s: Seq<char>)
    requires
        !occurs_in(s, "://"@),
    ensures
        node_of(s) is None,
{
    lemma_position(s, "://"@);
}

proof fn lemma_cut_parts(s: Seq<char>, c: char)
    requires
        s.contains(c),
    ensures
        match cut(s, c) {
            Some((a, b)) => s == a + seq![c] + b && !a.contains(c),
            None => false,
        },
{
    s.index_of_first_ensures(c);
    let i: int = s.index_of_first(c)->0;
    assert(s =~= s.take(i) + seq![c] + s.skip(i + 1));
}

/// A link without an `@` describes no node, unless it is a `vmess` link.
pub proof fn law_no_user(scheme: Seq<char>, body: Seq<char>, tag: Option<Seq<char>>)
    requires
        !scheme.contains(':'),
        scheme != "vmess"@,
        proper_tag(body, tag),
        !body.contains('@'),
    ensures
        node_of(scheme + "://"@ + tagged(body, tag)) is None,
{
    lemma_link(scheme, body, tag);
    lemma_cut_none(body, '@');
}

/// A link without a colon behind the user part describes no node, unless it is a `vmess` link; in a
/// query a colon does not count.
pub proof fn law_no_port(
    scheme: Seq<char>,
    user: Seq<char>,
    host: Seq<char>,
    tag: Option<Seq<char>>,
)
    requires
        !scheme.contains(':'),
        scheme != "vmess"@,
        !user.contains('@'),
        if scheme == "vless"@ || scheme == "trojan"@ || scheme == "tuic"@ {
            !before(host, '?').contains(':')
        } else {
            !host.contains(':')
        },
        proper_tag(user + seq!['@'] + host, tag),
    ensures
        node_of(scheme + "://"@ + tagged(user + seq!['@'] + host, tag)) is None,
{
    lemma_link(scheme, user + seq!['@'] + host, tag);
    lemma_cut_join(user, '@', host);
    if scheme == "vless"@ || scheme == "trojan"@ || scheme == "tuic"@ {
        lemma_cut_none(before(host, '?'), ':');
        lemma_kinds_differ();
    } else {
        lemma_cut_none(host, ':');
    }
}

/// A link whose port does not start with a digit, or that has no server, describes no node, unless
/// it is a `vmess` link.
pub proof fn law_bad_port(
    scheme: Seq<char>,
    user: Seq<char>,
    server: Seq<char>,
    port: Seq<char>,
    tag: Option<Seq<char>>,
)
    requires
        !scheme.contains(':'),
        scheme != "vmess"@,
        !user.contains('@'),
        scheme == "vless"@ || scheme == "trojan"@ || scheme == "tuic"@ ==> !server.contains('?'),
        !port.contains(':'),
        server.len() == 0 || port.len() == 0 || !digit(port[0]),
        proper_tag(body_text(user, server, port, seq![]), tag),
    ensures
        node_of(scheme + "://"@ + tagged(body_text(user, server, port, seq![]), tag)) is None,
{
    let body = body_text(user, server, port, seq![]);
    let host = server + seq![':'] + port;
    lemma_kinds_differ();
    lemma_link(scheme, body, tag);
    assert(body =~= user + seq!['@'] + host);
    lemma_cut_join(user, '@', host);
    lemma_cut_last_join(server, ':', port);
    let base = NodeView { kind: scheme, name: tag_name(tag), ..blank() };
    if scheme == "vless"@ || scheme == "trojan"@ || scheme == "tuic"@ {
        let (front, query) = query_cut(host);
        let rest = query_cut(port).0;
        host.index_of_first_ensures('?');
        port.index_of_first_ensures('?');
        lemma_join_lacks(server, seq![':'], '?');
        if port.contains('?') {
            lemma_cut_parts(port, '?');
            let (_, after) = cut(port, '?')->0;
            lemma_join_lacks(server + seq![':'], rest, '?');
            assert(host =~= (server + seq![':'] + rest) + seq!['?'] + after);
            lemma_cut_join(server + seq![':'] + rest, '?', after);
        } else {
            lemma_join_lacks(server + seq![':'], port, '?');
            lemma_cut_none(port, '?');
            lemma_cut_none(host, '?');
        }
        assert(front == server + seq![':'] + rest);
        assert(!rest.contains(':')) by {
            assert forall|i: int| 0 <= i < rest.len() implies rest[i] != ':' by {
                assert(rest[i] == port[i]);
            }
        }
        lemma_cut_last_join(server, ':', rest);
        let user = url_content(user);
        let start = NodeView {
            uuid: user,
            password: if scheme == "vless"@ {
                base.password
            } else {
                user
            },
            server,
            port: leading(rest, |c: char| digit(c)),
            ..base
        };
        lemma_params_keep(start, pieces(query, '&'));
    }
}

// ---------------------------------------------------------------------------------------------
// Ciphers and UUIDs
// ---------------------------------------------------------------------------------------------

/// The ciphers of `ss`.
pub open spec fn ciphers() -> Seq<Seq<char>> {
    seq![
        "aes-128-gcm"@,
        "aes-192-gcm"@,
        "aes-256-gcm"@,
        "chacha20-ietf-poly1305"@,
        "xchacha20-ietf-poly1305"@,
        "2022-blake3-aes-128-gcm"@,
        "2022-blake3-aes-256-gcm"@,
        "2022-blake3-chacha20-poly1305"@,
        "aes-128-cfb"@,
        "aes-192-cfb"@,
        "aes-256-cfb"@,
        "aes-128-ctr"@,
        "aes-192-ctr"@,
        "aes-256-ctr"@,
        "chacha20-ietf"@,
        "chacha20"@,
        "rc4-md5"@,
        "none"@,
    ]
}

/// A cipher is accepted if and only if it is one of these, letter for letter, and the two older
/// names, and no others, are replaced.
pub proof fn law_ciphers(c: Seq<char>)
    ensures
        valid_cipher(c) <==> ciphers().contains(c),
        canonical_cipher("chacha20-poly1305"@) == "chacha20-ietf-poly1305"@,
        canonical_cipher("xchacha20-poly1305"@) == "xchacha20-ietf-poly1305"@,
        c != "chacha20-poly1305"@ && c != "xchacha20-poly1305"@ ==> canonical_cipher(c) == c,
{
    let all = ciphers();
    assert(all[0] == "aes-128-gcm"@);
    assert(all[1] == "aes-192-gcm"@);
    assert(all[2] == "aes-256-gcm"@);
    assert(all[3] == "chacha20-ietf-poly1305"@);
    assert(all[4] == "xchacha20-ietf-poly1305"@);
    assert(all[5] == "2022-blake3-aes-128-gcm"@);
    assert(all[6] == "2022-blake3-aes-256-gcm"@);
    assert(all[7] == "2022-blake3-chacha20-poly1305"@);
    assert(all[8] == "aes-128-cfb"@);
    assert(all[9] == "aes-192-cfb"@);
    assert(all[10] == "aes-256-cfb"@);
    assert(all[11] == "aes-128-ctr"@);
    assert(all[12] == "aes-192-ctr"@);
    assert(all[13] == "aes-256-ctr"@);
    assert(all[14] == "chacha20-ietf"@);
    assert(all[15] == "chacha20"@);
    assert(all[16] == "rc4-md5"@);
    assert(all[17] == "none"@);
    reveal_strlit("chacha20-poly1305");
    reveal_strlit("xchacha20-poly1305");
    assert("chacha20-poly1305"@.len() == 17);
    assert("xchacha20-poly1305"@.len() == 18);
}

/// Without dashes, a UUID is thirty-two hexadecimal digits.
pub proof fn law_uuid_plain(u: Seq<char>)
    requires
        !u.contains('-'),
    ensures
        valid_uuid(u) <==> u.len() == 32 && forall|i: int|
            0 <= i < u.len() ==> hex_digit(#[trigger] u[i]),
{
    let f = |c: char| c != '-';
    let h = |c: char| hex_digit(c);
    assert forall|i: int| 0 <= i < u.len() implies #[trigger] f(u[i]) by {
        assert(u.contains(u[i]));
    }
    lemma_filter_whole(u, f);
    if valid_uuid(u) {
        assert forall|i: int| 0 <= i < u.len() implies hex_digit(#[trigger] u[i]) by {
            assert(h(u[i]));
        }
    }
}

/// A dash in a UUID does not matter, wherever it stands.
pub proof fn law_uuid_dash(a: Seq<char>, b: Seq<char>)
    ensures
        valid_uuid(a + seq!['-'] + b) <==> valid_uuid(a + b),
{
    let f = |c: char| c != '-';
    let dash = seq!['-'];
    Seq::filter_distributes_over_add(a + dash, b, f);
    Seq::filter_distributes_over_add(a, dash, f);
    Seq::filter_distributes_over_add(a, b, f);
    assert(dash.filter(f) =~= seq![]) by {
        reveal_with_fuel(Seq::filter, 2);
        assert(dash.drop_last() =~= seq![]);
    }
    assert((a + dash + b).filter(f) =~= (a + b).filter(f));
}

proof fn lemma_filter_whole(s: Seq<char>, f: spec_fn(char) -> bool)
    requires
        forall|i: int| 0 <= i < s.len() ==> #[trigger] f(s[i]),
    ensures
        s.filter(f) == s,
    decreases s.len(),
{
    reveal(Seq::filter);
    if s.len() > 0 {
        let front = s.drop_last();
        assert forall|i: int| 0 <= i < front.len() implies #[trigger] f(front[i]) by {
            assert(f(s[i]));
        }
        lemma_filter_whole(front, f);
        assert(f(s[s.len() - 1]));
        assert(front.push(s.last()) =~= s);
    }
}

/// The members of a `vmess` link are the same whether they are taken from an object or one by one.
pub proof fn law_vmess_members(
    base: NodeView,
    m: VmessMembers,
    members: Map<Seq<char>, JsonView>,
)
    requires
        member_of(members, "ps"@) == m.ps@ && member_of(members, "add"@) == m.add@,
        member_of(members, "port"@) == m.port@ && member_of(members, "id"@) == m.id@,
        member_of(members, "aid"@) == m.aid@ && member_of(members, "net"@) == m.net@,
        member_of(members, "host"@) == m.host@ && member_of(members, "path"@) == m.path@,
        member_of(members, "tls"@) == m.tls@ && member_of(members, "sni"@) == m.sni@,
    ensures
        with_vmess(base, m) == with_members(base, members),
{
}

/// What a UUID is without its dashes.
pub proof fn law_uuid_digits(s: Seq<char>)
    ensures
        uuid_digits(s) <==> s.len() == 32 && forall|i: int|
            0 <= i < s.len() ==> hex_digit(#[trigger] s[i]),
{
    let h = |c: char| hex_digit(c);
    if uuid_digits(s) {
        assert forall|i: int| 0 <= i < s.len() implies hex_digit(#[trigger] s[i]) by {
            assert(h(s[i]));
        }
    }
}

} // verus!
