//! Writing a node as a share link.

use crate::cut::joined;
use crate::foreign::{
    base64_encode, base64_text, json_document, json_insert, json_object, json_object_text,
    json_to_text, object_members, url_encode, url_encoded, JsonView,
};
use crate::link_laws::{as_read, law_link_round_trip, lemma_kinds_differ, readable};
use crate::link_reader::node_of;
use crate::node::{Node, NodeView};
use crate::text::{chars_of, spells};
use vstd::prelude::*;
use vstd::utf8::encode_utf8;

verus! {

/// A parameter of a query: its name, and its value percent-encoded.
pub open spec fn param_text(p: (Seq<char>, Seq<char>)) -> Seq<char> {
    p.0 + seq!['='] + url_encoded(p.1)
}

/// The parameters of a query whose value is not empty, as they are written.
pub open spec fn query_parts(params: Seq<(Seq<char>, Seq<char>)>) -> Seq<Seq<char>>
    decreases params.len(),
{
    if params.len() == 0 {
        seq![]
    } else if params.last().1.len() == 0 {
        query_parts(params.drop_last())
    } else {
        query_parts(params.drop_last()).push(param_text(params.last()))
    }
}

/// A query: a question mark and the parameters that have a value, or nothing where none has.
pub open spec fn query_text(params: Seq<(Seq<char>, Seq<char>)>) -> Seq<char> {
    let parts = query_parts(params);
    if parts.len() == 0 {
        seq![]
    } else {
        seq!['?'] + joined(parts, '&')
    }
}

/// The names and values of parameters.
pub open spec fn param_list(params: Seq<(&str, &str)>) -> Seq<(Seq<char>, Seq<char>)> {
    params.map_values(|p: (&str, &str)| (p.0@, p.1@))
}

/// Writes a query from the parameters that have a value.
pub fn build_query(params: &[(&str, &str)]) -> (r: String)
    ensures
        r@ == query_text(param_list(params@)),
{
    let ghost list = param_list(params@);
    let mut out = String::new();
    let mut i: usize = 0;
    assert(list.take(0) =~= seq![]);
    while i < params.len()
        invariant
            list == param_list(params@),
            i <= params@.len(),
            out@ == query_text(list.take(i as int)),
        decreases params@.len() - i,
    {
        let ghost before_out = out@;
        let ghost parts = query_parts(list.take(i as int));
        proof {
            assert(list.take(i + 1).drop_last() =~= list.take(i as int));
            assert(list.take(i + 1).last() == (params@[i as int].0@, params@[i as int].1@));
        }
        let (name, value) = params[i];
        if !value.is_empty() {
            if out.as_str().is_empty() {
                out.push('?');
            } else {
                out.push('&');
            }
            out.append(name);
            out.push('=');
            let encoded = url_encode(value);
            out.append(encoded.as_str());
            proof {
                let part = param_text((name@, value@));
                let next = parts.push(part);
                assert(query_parts(list.take(i + 1)) == next);
                assert(next.drop_last() =~= parts);
                if parts.len() == 0 {
                    assert(out@ =~= seq!['?'] + part);
                } else {
                    assert(before_out.len() > 0);
                    assert(out@ =~= before_out + seq!['&'] + part);
                    assert(out@ =~= seq!['?'] + joined(next, '&'));
                }
            }
        }
        i += 1;
    }
    assert(list.take(i as int) =~= list);
    out
}

/// A link: scheme, user part, server, port, query and the percent-encoded name.
pub open spec fn link_text(
    scheme: Seq<char>,
    user: Seq<char>,
    server: Seq<char>,
    port: Seq<char>,
    query: Seq<char>,
    name: Seq<char>,
) -> Seq<char> {
    scheme + "://"@ + user + seq!['@'] + server + seq![':'] + port + query + seq!['#']
        + url_encoded(name)
}

fn write_link(scheme: &str, user: &str, node: &Node, query: &str) -> (r: String)
    ensures
        r@ == link_text(scheme@, user@, node@.server, node@.port, query@, node@.name),
{
    let mut out = String::new();
    out.append(scheme);
    out.append("://");
    out.append(user);
    out.push('@');
    out.append(node.server.as_str());
    out.push(':');
    out.append(node.port.as_str());
    out.append(query);
    out.push('#');
    let name = url_encode(node.name.as_str());
    out.append(name.as_str());
    assert(out@ =~= link_text(scheme@, user@, node@.server, node@.port, query@, node@.name));
    out
}

/// A text, or another where it is empty.
pub open spec fn or_else(s: Seq<char>, default: Seq<char>) -> Seq<char> {
    if s.len() == 0 {
        default
    } else {
        s
    }
}

pub(crate) fn text_or<'a>(s: &'a str, default: &'a str) -> (r: &'a str)
    ensures
        r@ == or_else(s@, default@),
{
    if s.is_empty() {
        default
    } else {
        s
    }
}

/// The members of the JSON object that a `vmess` link carries.
pub open spec fn vmess_members(n: NodeView) -> Map<Seq<char>, JsonView> {
    Map::<Seq<char>, JsonView>::empty().insert("v"@, JsonView::Text("2"@)).insert(
        "ps"@,
        JsonView::Text(n.name),
    ).insert("add"@, JsonView::Text(n.server)).insert("port"@, JsonView::Text(n.port)).insert(
        "id"@,
        JsonView::Text(n.uuid),
    ).insert("aid"@, JsonView::Text(or_else(n.alter_id, "0"@))).insert(
        "net"@,
        JsonView::Text(or_else(n.network, "tcp"@)),
    ).insert("type"@, JsonView::Text("none"@)).insert("host"@, JsonView::Text(n.host)).insert(
        "path"@,
        JsonView::Text(n.path),
    ).insert("tls"@, JsonView::Text(if n.tls { "tls"@ } else { seq![] })).insert(
        "sni"@,
        JsonView::Text(n.sni),
    )
}

/// No member that a `vmess` link carries has the name that marks a raw value.
proof fn lemma_no_raw_value(n: NodeView)
    ensures
        !vmess_members(n).contains_key("$serde_json::private::RawValue"@),
{
    reveal_strlit("v");
    reveal_strlit("ps");
    reveal_strlit("add");
    reveal_strlit("port");
    reveal_strlit("id");
    reveal_strlit("aid");
    reveal_strlit("net");
    reveal_strlit("type");
    reveal_strlit("host");
    reveal_strlit("path");
    reveal_strlit("tls");
    reveal_strlit("sni");
    reveal_strlit("$serde_json::private::RawValue");
    assert("$serde_json::private::RawValue"@.len() == 30);
}

fn vmess_json(node: &Node) -> (r: String)
    ensures
        r@ == json_object_text(vmess_members(node@)),
        json_document(r@) == Some(vmess_members(node@)),
{
    let mut m = json_object();
    assert(object_members(m) =~= Map::<Seq<char>, JsonView>::empty());
    let empty = String::new();
    let tls = if node.tls { "tls" } else { empty.as_str() };
    assert(tls@ =~= (if node@.tls { "tls"@ } else { seq![] }));
    json_insert(&mut m, "v", "2");
    json_insert(&mut m, "ps", node.name.as_str());
    json_insert(&mut m, "add", node.server.as_str());
    json_insert(&mut m, "port", node.port.as_str());
    json_insert(&mut m, "id", node.uuid.as_str());
    json_insert(&mut m, "aid", text_or(node.alter_id.as_str(), "0"));
    json_insert(&mut m, "net", text_or(node.network.as_str(), "tcp"));
    json_insert(&mut m, "type", "none");
    json_insert(&mut m, "host", node.host.as_str());
    json_insert(&mut m, "path", node.path.as_str());
    json_insert(&mut m, "tls", tls);
    json_insert(&mut m, "sni", node.sni.as_str());
    proof {
        lemma_no_raw_value(node@);
    }
    json_to_text(m)
}

/// The parameters that a `trojan` link carries.
pub open spec fn trojan_params(n: NodeView) -> Seq<(Seq<char>, Seq<char>)> {
    seq![("sni"@, n.sni), ("alpn"@, n.alpn), ("fp"@, n.fp)]
}

/// The parameters that a `vless` link carries.
pub open spec fn vless_params(n: NodeView) -> Seq<(Seq<char>, Seq<char>)> {
    seq![
        ("encryption"@, n.encryption),
        ("flow"@, n.flow),
        ("security"@, n.security),
        ("sni"@, n.sni),
        ("fp"@, n.fp),
        ("pbk"@, n.pbk),
        ("sid"@, n.sid),
        ("alpn"@, n.alpn),
        ("type"@, or_else(n.network, "tcp"@)),
        ("host"@, n.host),
        ("path"@, n.path),
    ]
}

/// The parameters that a `tuic` link carries.
pub open spec fn tuic_params(n: NodeView) -> Seq<(Seq<char>, Seq<char>)> {
    seq![
        ("password"@, n.password),
        ("sni"@, n.sni),
        ("congestion_control"@, n.congestion_controller),
    ]
}

/// The user part of an `ss` link: the base64 text of cipher and password.
pub open spec fn ss_user(n: NodeView) -> Seq<char> {
    base64_text(encode_utf8(n.cipher + seq![':'] + n.password))
}

/// The link of a node; nothing where its protocol is not one that can be written.
pub open spec fn link_of(n: NodeView) -> Option<Seq<char>> {
    if n.kind == "ss"@ {
        Some(link_text("ss"@, ss_user(n), n.server, n.port, seq![], n.name))
    } else if n.kind == "trojan"@ {
        Some(
            link_text(
                "trojan"@,
                url_encoded(n.password),
                n.server,
                n.port,
                query_text(trojan_params(n)),
                n.name,
            ),
        )
    } else if n.kind == "vless"@ {
        Some(
            link_text("vless"@, n.uuid, n.server, n.port, query_text(vless_params(n)), n.name),
        )
    } else if n.kind == "vmess"@ {
        Some("vmess://"@ + base64_text(encode_utf8(json_object_text(vmess_members(n)))))
    } else if n.kind == "hy2"@ || n.kind == "hysteria2"@ {
        Some(
            link_text("hysteria2"@, url_encoded(n.password), n.server, n.port, seq![], n.name),
        )
    } else if n.kind == "tuic"@ {
        Some(
            link_text("tuic"@, n.uuid, n.server, n.port, query_text(tuic_params(n)), n.name),
        )
    } else {
        None
    }
}

fn write_uri(node: &Node) -> (r: Option<String>)
    ensures
        match r {
            Some(s) => link_of(node@) == Some(s@),
            None => link_of(node@) is None,
        },
        node@.kind == "vmess"@ ==> json_document(json_object_text(vmess_members(node@))) == Some(
            vmess_members(node@),
        ),
{
    proof {
        lemma_kinds_differ();
    }
    let kind = chars_of(node.kind.as_str());
    let k = kind.as_slice();
    let none = String::new();
    if spells(k, "ss") {
        let mut pair = String::new();
        pair.append(node.cipher.as_str());
        pair.push(':');
        pair.append(node.password.as_str());
        assert(pair@ =~= node@.cipher + seq![':'] + node@.password);
        let user = base64_encode(pair.as_str().as_bytes());
        Some(write_link("ss", user.as_str(), node, none.as_str()))
    } else if spells(k, "trojan") {
        let params: [(&str, &str); 3] = [
            ("sni", node.sni.as_str()),
            ("alpn", node.alpn.as_str()),
            ("fp", node.fp.as_str()),
        ];
        let query = build_query(params.as_slice());
        assert(param_list(params@) =~= trojan_params(node@));
        let user = url_encode(node.password.as_str());
        Some(write_link("trojan", user.as_str(), node, query.as_str()))
    } else if spells(k, "vless") {
        let network = text_or(node.network.as_str(), "tcp");
        let params: [(&str, &str); 11] = [
            ("encryption", node.encryption.as_str()),
            ("flow", node.flow.as_str()),
            ("security", node.security.as_str()),
            ("sni", node.sni.as_str()),
            ("fp", node.fp.as_str()),
            ("pbk", node.pbk.as_str()),
            ("sid", node.sid.as_str()),
            ("alpn", node.alpn.as_str()),
            ("type", network),
            ("host", node.host.as_str()),
            ("path", node.path.as_str()),
        ];
        let query = build_query(params.as_slice());
        assert(param_list(params@) =~= vless_params(node@));
        Some(write_link("vless", node.uuid.as_str(), node, query.as_str()))
    } else if spells(k, "vmess") {
        let json = vmess_json(node);
        let mut out = String::new();
        out.append("vmess://");
        let body = base64_encode(json.as_str().as_bytes());
        out.append(body.as_str());
        assert(out@ =~= "vmess://"@ + body@);
        Some(out)
    } else if spells(k, "hy2") || spells(k, "hysteria2") {
        let user = url_encode(node.password.as_str());
        Some(write_link("hysteria2", user.as_str(), node, none.as_str()))
    } else if spells(k, "tuic") {
        let params: [(&str, &str); 3] = [
            ("password", node.password.as_str()),
            ("sni", node.sni.as_str()),
            ("congestion_control", node.congestion_controller.as_str()),
        ];
        let query = build_query(params.as_slice());
        assert(param_list(params@) =~= tuic_params(node@));
        Some(write_link("tuic", node.uuid.as_str(), node, query.as_str()))
    } else {
        None
    }
}

/// Writes a node as a link, if its protocol is one that can be written. Reading the link gives
/// back what it keeps of the node.
pub fn build_uri(node: &Node) -> (r: Option<String>)
    ensures
        match r {
            Some(s) => link_of(node@) == Some(s@),
            None => link_of(node@) is None,
        },
        readable(node@) ==> r is Some && node_of(r->0@) == Some(as_read(node@)),
{
    let uri = write_uri(node);
    proof {
        if readable(node@) {
            law_link_round_trip(node@);
        }
    }
    uri
}

} // verus!
