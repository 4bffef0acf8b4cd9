//! What stands in the link of a node, whatever the node holds.

use crate::cut::joined;
use crate::foreign::{base64_text, json_object_text, url_encoded, JsonView};
use crate::link_laws::lemma_kinds_differ;
use crate::link_writer::{link_of, link_text, query_parts, query_text, vmess_members};
use crate::node::NodeView;
use crate::read_laws::{body_text, tagged};
use vstd::prelude::*;
use vstd::utf8::encode_utf8;

verus! {

/// The query that asks for some values: one parameter for each value that is not empty, in their
/// order, percent-encoded; nothing where all are empty.
pub open spec fn query_of(params: Seq<(Seq<char>, Seq<char>)>) -> Seq<char> {
    let given = params.filter(|p: (Seq<char>, Seq<char>)| p.1.len() > 0);
    if given.len() == 0 {
        seq![]
    } else {
        seq!['?'] + joined(
            given.map_values(|p: (Seq<char>, Seq<char>)| p.0 + seq!['='] + url_encoded(p.1)),
            '&',
        )
    }
}

proof fn lemma_query_of(params: Seq<(Seq<char>, Seq<char>)>)
    ensures
        query_parts(params) == params.filter(
            |p: (Seq<char>, Seq<char>)| p.1.len() > 0,
        ).map_values(|p: (Seq<char>, Seq<char>)| p.0 + seq!['='] + url_encoded(p.1)),
    decreases params.len(),
{
    let f = |p: (Seq<char>, Seq<char>)| p.1.len() > 0;
    let g = |p: (Seq<char>, Seq<char>)| p.0 + seq!['='] + url_encoded(p.1);
    reveal(Seq::filter);
    if params.len() > 0 {
        let front = params.drop_last();
        lemma_query_of(front);
        let kept = front.filter(f);
        if f(params.last()) {
            assert(kept.push(params.last()).map_values(g) =~= kept.map_values(g).push(
                g(params.last()),
            ));
        }
    } else {
        assert(query_parts(params) =~= params.filter(f).map_values(g));
    }
}

/// A query holds each value that is not empty under its name, and nothing else.
pub proof fn law_query(params: Seq<(Seq<char>, Seq<char>)>)
    ensures
        query_text(params) == query_of(params),
{
    lemma_query_of(params);
}

/// The user part of a link: cipher and password of an `ss` node in base64, the UUID of a `vless` or
/// `tuic` node, the percent-encoded password of a `trojan` or `hysteria2` node.
pub open spec fn user_of(n: NodeView) -> Seq<char> {
    if n.kind == "ss"@ {
        base64_text(encode_utf8(n.cipher + seq![':'] + n.password))
    } else if n.kind == "vless"@ || n.kind == "tuic"@ {
        n.uuid
    } else {
        url_encoded(n.password)
    }
}

/// The values that the link of a node gives as parameters.
pub open spec fn asked_of(n: NodeView) -> Seq<(Seq<char>, Seq<char>)> {
    if n.kind == "trojan"@ {
        seq![("sni"@, n.sni), ("alpn"@, n.alpn), ("fp"@, n.fp)]
    } else if n.kind == "tuic"@ {
        seq![
            ("password"@, n.password),
            ("sni"@, n.sni),
            ("congestion_control"@, n.congestion_controller),
        ]
    } else if n.kind == "vless"@ {
        seq![
            ("encryption"@, n.encryption),
            ("flow"@, n.flow),
            ("security"@, n.security),
            ("sni"@, n.sni),
            ("fp"@, n.fp),
            ("pbk"@, n.pbk),
            ("sid"@, n.sid),
            ("alpn"@, n.alpn),
            (
                "type"@,
                if n.network.len() > 0 {
                    n.network
                } else {
                    "tcp"@
                },
            ),
            ("host"@, n.host),
            ("path"@, n.path),
        ]
    } else {
        seq![]
    }
}

/// A node has a link if and only if its protocol is one of seven names. But for `vmess`, the link
/// is the scheme, the user part, server and port as they are, the parameters that are not empty,
/// and the percent-encoded name.
pub proof fn law_written(n: NodeView)
    ensures
        link_of(n) is Some <==> (n.kind == "ss"@ || n.kind == "trojan"@ || n.kind == "vless"@
            || n.kind == "tuic"@ || n.kind == "vmess"@ || n.kind == "hysteria2"@ || n.kind
            == "hy2"@),
        link_of(n) is Some && n.kind != "vmess"@ ==> link_of(n) == Some(
            (if n.kind == "hy2"@ {
                "hysteria2"@
            } else {
                n.kind
            }) + "://"@ + tagged(
                body_text(user_of(n), n.server, n.port, query_of(asked_of(n))),
                Some(url_encoded(n.name)),
            ),
        ),
{
    lemma_kinds_differ();
    law_query(asked_of(n));
    law_query(seq![]);
    if link_of(n) is Some && n.kind != "vmess"@ {
        let scheme = if n.kind == "hy2"@ {
            "hysteria2"@
        } else {
            n.kind
        };
        assert(query_of(Seq::<(Seq<char>, Seq<char>)>::empty()) =~= seq![]) by {
            reveal(Seq::filter);
        }
        let query = query_of(asked_of(n));
        let text = link_text(scheme, user_of(n), n.server, n.port, query, n.name);
        assert(link_of(n) == Some(text));
        let rest = tagged(
            body_text(user_of(n), n.server, n.port, query),
            Some(url_encoded(n.name)),
        );
        assert(text =~= scheme + "://"@ + rest);
    }
}

/// The link of a `vmess` node is a JSON object in base64 whose members hold the node: names,
/// server, port, UUID, host, path and server name as they are, an alter id of zero and the
/// network TCP where the node has none, and `tls` where it uses TLS.
pub proof fn law_vmess_written(n: NodeView)
    requires
        n.kind == "vmess"@,
    ensures
        exists|m: Map<Seq<char>, JsonView>| #[trigger]
            vmess_object(n, m) && link_of(n) == Some(
                "vmess"@ + "://"@ + base64_text(encode_utf8(json_object_text(m))),
            ),
{
    lemma_kinds_differ();
    let m = vmess_members(n);
    lemma_vmess_keys();
    reveal_strlit("vmess://");
    reveal_strlit("vmess");
    reveal_strlit("://");
    assert("vmess://"@ =~= "vmess"@ + "://"@);
    assert(vmess_object(n, m));
}

/// The members of the JSON object of a `vmess` link.
pub open spec fn vmess_object(n: NodeView, m: Map<Seq<char>, JsonView>) -> bool {
    let text = |key: Seq<char>, v: Seq<char>| m.contains_key(key) && m[key] == JsonView::Text(v);
    &&& text("v"@, "2"@)
    &&& text("type"@, "none"@)
    &&& text("ps"@, n.name)
    &&& text("add"@, n.server)
    &&& text("port"@, n.port)
    &&& text("id"@, n.uuid)
    &&& text("host"@, n.host)
    &&& text("path"@, n.path)
    &&& text("sni"@, n.sni)
    &&& n.tls ==> text("tls"@, "tls"@)
    &&& !n.tls ==> text("tls"@, seq![])
    &&& n.alter_id.len() > 0 ==> text("aid"@, n.alter_id)
    &&& n.alter_id.len() == 0 ==> text("aid"@, "0"@)
    &&& n.network.len() > 0 ==> text("net"@, n.network)
    &&& n.network.len() == 0 ==> text("net"@, "tcp"@)
}

proof fn lemma_vmess_keys()
    ensures
        "v"@.len() == 1,
        "ps"@.len() == 2 && "ps"@[0] == 'p',
        "add"@.len() == 3 && "add"@[1] == 'd',
        "port"@.len() == 4 && "port"@[1] == 'o',
        "id"@.len() == 2 && "id"@[0] == 'i',
        "aid"@.len() == 3 && "aid"@[1] == 'i',
        "net"@.len() == 3 && "net"@[1] == 'e',
        "type"@.len() == 4 && "type"@[1] == 'y',
        "host"@.len() == 4 && "host"@[0] == 'h' && "host"@[1] == 'o',
        "port"@[0] == 'p',
        "path"@.len() == 4 && "path"@[1] == 'a',
        "tls"@.len() == 3 && "tls"@[1] == 'l',
        "sni"@.len() == 3 && "sni"@[1] == 'n',
{
    reveal_strlit("v");
    reveal_strlit("ps");
    reveal_strlit("add");
    reveal_strlit("port");
    reveal_strlit("id");
    reveal_strlit("aid");
    reveal_strlit("net");
    reveal_strlit("type");
    reveal_strlit("host");
    reveal_strlit("path");
    reveal_strlit("tls");
    reveal_strlit("sni");
}

} // verus!
