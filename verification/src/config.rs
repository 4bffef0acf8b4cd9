//! The full Mihomo configuration.

use crate::config_laws::law_names_differ;
use crate::cut::{pieces, split, trim, trimmed};
use crate::decimal::{decimal, decimal_text, law_decimal_injective};
use crate::link_reader::{node_of, parse_uri_back};
use crate::node::{Node, NodeView};
use crate::proxy_laws::{gives_proxy, group_line, lemma_links_in_config, part_of, same_proxy};
use crate::seen::{lemma_push_contains, Seen};
use crate::text::{chars_of, lemma_join_associative, same_text, slices, spells, text_of, texts};
use vstd::hash_map::StringHashMap;
use vstd::prelude::*;

verus! {

/// What a configuration starts with, whatever the proxies are.
pub const MIHOMO_HEADER: &'static str = "mixed-port: 7890
allow-lan: false
mode: rule
unified-delay: true
log-level: warning
ipv6: false
tcp-concurrent: true
external-controller: 127.0.0.1:9090
profile:
  store-selected: true
  store-fake-ip: false

tun:
  enable: true
  stack: mixed
  dns-hijack:
    - 0.0.0.0:53
  auto-route: true
  auto-detect-interface: true
  strict-route: true
  route-exclude-address:
    - 192.168.0.0/16
    - 10.0.0.0/8
    - 172.16.0.0/12

dns:
  enable: true
  ipv6: true
  listen: 0.0.0.0:1053
  enhanced-mode: fake-ip
  fake-ip-range: 198.18.0.1/16
  default-nameserver:
    - 111.88.96.50
    - 111.88.96.51
    - 1.1.1.1
    - 8.8.8.8
  nameserver:
    - https://xbox-dns.ru/dns-query
    - tls://xbox-dns.ru
    - 111.88.96.50
    - 111.88.96.51
    - \"2a00:ab00:1233:26::50\"
    - \"2a00:ab00:1233:26::51\"
    - https://dns.cloudflare.com/dns-query
    - https://dns.google/dns-query
  fallback:
    - tcp://111.88.96.50
    - tcp://111.88.96.51
    - tcp://1.1.1.1
    - tcp://8.8.8.8

sniffer:
  enable: true
  override-destination: true
  sniff:
    TLS:
      ports:
        - 443
        - 8443
    HTTP:
      ports:
        - 80
        - 8080-8880
";

// ---------------------------------------------------------------------------------------------
// Scalars and lines
// ---------------------------------------------------------------------------------------------

/// A character as it stands between double quotes.
pub open spec fn escaped_char(c: char) -> Seq<char> {
    if c == '\\' {
        seq!['\\', '\\']
    } else if c == '"' {
        seq!['\\', '"']
    } else {
        seq![c]
    }
}

/// A text as it stands between double quotes.
pub open spec fn escaped(s: Seq<char>) -> Seq<char>
    decreases s.len(),
{
    if s.len() == 0 {
        seq![]
    } else {
        escaped(s.drop_last()) + escaped_char(s.last())
    }
}

/// A text as a double-quoted scalar.
pub open spec fn quoted(s: Seq<char>) -> Seq<char> {
    seq!['"'] + escaped(s) + seq!['"']
}

/// Writes a text as a double-quoted scalar.
pub fn yaml_escape(s: &str) -> (r: String)
    ensures
        r@ == quoted(s@),
{
    let chars = chars_of(s);
    let mut out = String::new();
    out.push('"');
    let mut i: usize = 0;
    assert(chars@.take(0) =~= seq![]);
    assert(out@ =~= seq!['"'] + escaped(chars@.take(0)));
    while i < chars.len()
        invariant
            i <= chars@.len(),
            out@ == seq!['"'] + escaped(chars@.take(i as int)),
        decreases chars@.len() - i,
    {
        let ghost before_out = out@;
        assert(chars@.take(i + 1).drop_last() =~= chars@.take(i as int));
        let c = chars[i];
        if c == '\\' || c == '"' {
            out.push('\\');
        }
        out.push(c);
        assert(out@ =~= before_out + escaped_char(c));
        assert(out@ =~= seq!['"'] + escaped(chars@.take(i + 1)));
        i += 1;
    }
    assert(chars@.take(i as int) =~= chars@);
    out.push('"');
    assert(out@ =~= quoted(s@));
    out
}

/// A line: a key and a value as it is.
pub open spec fn plain_line(key: Seq<char>, value: Seq<char>) -> Seq<char> {
    key + value + seq!['\n']
}

/// A line: a key and a quoted value.
pub open spec fn quoted_line(key: Seq<char>, value: Seq<char>) -> Seq<char> {
    plain_line(key, quoted(value))
}

/// A line that is written only where its value is not empty.
pub open spec fn optional_line(key: Seq<char>, value: Seq<char>) -> Seq<char> {
    if value.len() == 0 {
        seq![]
    } else {
        quoted_line(key, value)
    }
}

fn push_plain(out: &mut String, key: &str, value: &str)
    ensures
        final(out)@ == old(out)@ + plain_line(key@, value@),
{
    out.append(key);
    out.append(value);
    out.push('\n');
    assert(out@ =~= old(out)@ + plain_line(key@, value@));
}

fn push_quoted(out: &mut String, key: &str, value: &str)
    ensures
        final(out)@ == old(out)@ + quoted_line(key@, value@),
{
    let text = yaml_escape(value);
    push_plain(out, key, text.as_str());
}

fn push_optional(out: &mut String, key: &str, value: &str)
    ensures
        final(out)@ == old(out)@ + optional_line(key@, value@),
{
    if value.is_empty() {
        assert(out@ =~= old(out)@ + seq![]);
    } else {
        push_quoted(out, key, value);
    }
}

// ---------------------------------------------------------------------------------------------
// Transports
// ---------------------------------------------------------------------------------------------

/// The options of a WebSocket or HTTP transport. Mihomo wants the path and the headers of
/// `http-opts` as lists, and those of `ws-opts` as plain values.
pub open spec fn transport_opts(network: Seq<char>, host: Seq<char>, path: Seq<char>) -> Seq<char> {
    if host.len() == 0 && path.len() == 0 {
        seq![]
    } else if network == "ws"@ {
        "    ws-opts:\n"@ + optional_line("      path: "@, path) + if host.len() == 0 {
            seq![]
        } else {
            "      headers:\n"@ + quoted_line("        Host: "@, host)
        }
    } else if network == "http"@ {
        "    http-opts:\n"@ + if path.len() == 0 {
            seq![]
        } else {
            "      path:\n"@ + quoted_line("        - "@, path)
        } + if host.len() == 0 {
            seq![]
        } else {
            "      headers:\n        Host:\n"@ + quoted_line("          - "@, host)
        }
    } else {
        seq![]
    }
}

/// Appends the options of a WebSocket or HTTP transport.
pub fn write_transport_opts(out: &mut String, network: &str, host: &str, path: &str)
    ensures
        final(out)@ == old(out)@ + transport_opts(network@, host@, path@),
{
    let chars = chars_of(network);
    if host.is_empty() && path.is_empty() {
        assert(out@ =~= old(out)@ + seq![]);
    } else if spells(chars.as_slice(), "ws") {
        out.append("    ws-opts:\n");
        push_optional(out, "      path: ", path);
        if !host.is_empty() {
            out.append("      headers:\n");
            push_quoted(out, "        Host: ", host);
        }
        assert(out@ =~= old(out)@ + transport_opts(network@, host@, path@));
    } else if spells(chars.as_slice(), "http") {
        out.append("    http-opts:\n");
        if !path.is_empty() {
            out.append("      path:\n");
            push_quoted(out, "        - ", path);
        }
        if !host.is_empty() {
            out.append("      headers:\n        Host:\n");
            push_quoted(out, "          - ", host);
        }
        assert(out@ =~= old(out)@ + transport_opts(network@, host@, path@));
    } else {
        assert(out@ =~= old(out)@ + seq![]);
    }
}

/// The transport of a node, by its network.
pub open spec fn transport(n: NodeView) -> Seq<char> {
    if n.network == "ws"@ || n.network == "http"@ {
        transport_opts(n.network, n.host, n.path)
    } else if n.network == "grpc"@ {
        "    grpc-opts:\n"@ + "      grpc-service-name: \"\"\n"@
    } else {
        seq![]
    }
}

fn push_transport(out: &mut String, node: &Node)
    ensures
        final(out)@ == old(out)@ + transport(node@),
{
    let network = chars_of(node.network.as_str());
    if spells(network.as_slice(), "ws") || spells(network.as_slice(), "http") {
        write_transport_opts(
            out,
            node.network.as_str(),
            node.host.as_str(),
            node.path.as_str(),
        );
    } else if spells(network.as_slice(), "grpc") {
        out.append("    grpc-opts:\n");
        out.append("      grpc-service-name: \"\"\n");
        assert(out@ =~= old(out)@ + transport(node@));
    } else {
        assert(out@ =~= old(out)@ + seq![]);
    }
}

// ---------------------------------------------------------------------------------------------
// Proxies
// ---------------------------------------------------------------------------------------------

/// The only flow that Mihomo knows, besides none.
pub open spec fn valid_flow(flow: Seq<char>) -> bool {
    flow == "xtls-rprx-vision"@
}

/// The flow of a `vless` node, where it is one that Mihomo knows.
pub open spec fn vless_flow(n: NodeView) -> Seq<char> {
    if valid_flow(n.flow) {
        quoted_line("    flow: "@, n.flow)
    } else {
        seq![]
    }
}

/// The security of a `vless` node: whether it uses TLS, and for which server name.
pub open spec fn vless_security(n: NodeView) -> Seq<char> {
    if n.security.len() == 0 {
        seq![]
    } else {
        plain_line(
            "    tls: "@,
            if n.security == "tls"@ || n.security == "reality"@ {
                "true"@
            } else {
                "false"@
            },
        ) + optional_line("    servername: "@, n.sni)
    }
}

/// The options of REALITY, where a `vless` node uses it and its public key is known.
pub open spec fn vless_reality(n: NodeView) -> Seq<char> {
    if n.security == "reality"@ && n.pbk.len() > 0 {
        "    reality-opts:\n"@ + quoted_line("      public-key: "@, n.pbk) + optional_line(
            "      short-id: "@,
            n.sid,
        )
    } else {
        seq![]
    }
}

/// What the configuration says of a `vless` node.
pub open spec fn vless_yaml(n: NodeView) -> Seq<char> {
    quoted_line("    uuid: "@, n.uuid) + quoted_line("    network: "@, n.network) + vless_flow(
        n,
    ) + vless_security(n) + vless_reality(n) + optional_line("    client-fingerprint: "@, n.fp)
        + transport(n)
}

/// What the configuration says of a `vmess` node.
pub open spec fn vmess_yaml(n: NodeView) -> Seq<char> {
    quoted_line("    uuid: "@, n.uuid) + plain_line("    alterId: "@, n.alter_id)
        + "    cipher: auto\n"@ + quoted_line("    network: "@, n.network) + plain_line(
        "    tls: "@,
        if n.tls {
            "true"@
        } else {
            "false"@
        },
    ) + optional_line("    servername: "@, n.sni) + transport(n)
}

/// A list of texts, each without white space around it.
pub open spec fn item_lines(items: Seq<Seq<char>>) -> Seq<char>
    decreases items.len(),
{
    if items.len() == 0 {
        seq![]
    } else {
        item_lines(items.drop_last()) + quoted_line("      - "@, trimmed(items.last()))
    }
}

/// The network of a `trojan` node, where it is not plain TCP.
pub open spec fn trojan_network(n: NodeView) -> Seq<char> {
    if n.network == "tcp"@ {
        seq![]
    } else {
        optional_line("    network: "@, n.network)
    }
}

/// The protocols that a `trojan` node negotiates, where any are given.
pub open spec fn trojan_alpn(n: NodeView) -> Seq<char> {
    if n.alpn.len() == 0 {
        seq![]
    } else {
        "    alpn:\n"@ + item_lines(pieces(n.alpn, ','))
    }
}

/// What the configuration says of a `trojan` node.
pub open spec fn trojan_yaml(n: NodeView) -> Seq<char> {
    quoted_line("    password: "@, n.password) + "    tls: true\n"@ + optional_line(
        "    sni: "@,
        n.sni,
    ) + trojan_network(n) + trojan_alpn(n) + transport(n)
}

/// What the configuration says of an `ss` node.
pub open spec fn ss_yaml(n: NodeView) -> Seq<char> {
    quoted_line("    cipher: "@, n.cipher) + quoted_line("    password: "@, n.password)
}

/// What the configuration says of a `hysteria2` node.
pub open spec fn hysteria2_yaml(n: NodeView) -> Seq<char> {
    quoted_line("    password: "@, n.password) + optional_line("    sni: "@, n.sni)
        + "    skip-cert-verify: true\n"@
}

/// What the configuration says of a `tuic` node.
pub open spec fn tuic_yaml(n: NodeView) -> Seq<char> {
    quoted_line("    uuid: "@, n.uuid) + optional_line("    password: "@, n.password)
        + optional_line("    sni: "@, n.sni) + optional_line(
        "    congestion-controller: "@,
        n.congestion_controller,
    )
}

/// What the configuration says of a node beyond its name, protocol, server and port.
pub open spec fn kind_yaml(n: NodeView) -> Seq<char> {
    if n.kind == "vless"@ {
        vless_yaml(n)
    } else if n.kind == "vmess"@ {
        vmess_yaml(n)
    } else if n.kind == "trojan"@ {
        trojan_yaml(n)
    } else if n.kind == "ss"@ {
        ss_yaml(n)
    } else if n.kind == "hysteria2"@ {
        hysteria2_yaml(n)
    } else if n.kind == "tuic"@ {
        tuic_yaml(n)
    } else {
        seq![]
    }
}

/// A node as an entry of the list of proxies.
pub open spec fn node_yaml(n: NodeView) -> Seq<char> {
    quoted_line("  - name: "@, n.name) + quoted_line("    type: "@, n.kind) + quoted_line(
        "    server: "@,
        n.server,
    ) + plain_line("    port: "@, n.port) + kind_yaml(n)
}

fn push_vless_flow(out: &mut String, node: &Node)
    ensures
        final(out)@ == old(out)@ + vless_flow(node@),
{
    if same_text(node.flow.as_str(), "xtls-rprx-vision") {
        push_quoted(out, "    flow: ", node.flow.as_str());
    } else {
        assert(out@ =~= old(out)@ + seq![]);
    }
}

fn push_vless_security(out: &mut String, node: &Node)
    ensures
        final(out)@ == old(out)@ + vless_security(node@),
{
    broadcast use lemma_join_associative;

    if node.security.as_str().is_empty() {
        assert(out@ =~= old(out)@ + seq![]);
    } else {
        let security = chars_of(node.security.as_str());
        let secure = spells(security.as_slice(), "tls") || spells(security.as_slice(), "reality");
        push_plain(
            out,
            "    tls: ",
            if secure {
                "true"
            } else {
                "false"
            },
        );
        push_optional(out, "    servername: ", node.sni.as_str());
    }
}

fn push_vless_reality(out: &mut String, node: &Node)
    ensures
        final(out)@ == old(out)@ + vless_reality(node@),
{
    broadcast use lemma_join_associative;

    if same_text(node.security.as_str(), "reality") && !node.pbk.as_str().is_empty() {
        out.append("    reality-opts:\n");
        push_quoted(out, "      public-key: ", node.pbk.as_str());
        push_optional(out, "      short-id: ", node.sid.as_str());
    } else {
        assert(out@ =~= old(out)@ + seq![]);
    }
}

fn push_vless(out: &mut String, node: &Node)
    ensures
        final(out)@ == old(out)@ + vless_yaml(node@),
{
    broadcast use lemma_join_associative;

    push_quoted(out, "    uuid: ", node.uuid.as_str());
    push_quoted(out, "    network: ", node.network.as_str());
    push_vless_flow(out, node);
    push_vless_security(out, node);
    push_vless_reality(out, node);
    push_optional(out, "    client-fingerprint: ", node.fp.as_str());
    push_transport(out, node);
}

fn push_vmess(out: &mut String, node: &Node)
    ensures
        final(out)@ == old(out)@ + vmess_yaml(node@),
{
    broadcast use lemma_join_associative;

    push_quoted(out, "    uuid: ", node.uuid.as_str());
    push_plain(out, "    alterId: ", node.alter_id.as_str());
    out.append("    cipher: auto\n");
    push_quoted(out, "    network: ", node.network.as_str());
    push_plain(
        out,
        "    tls: ",
        if node.tls {
            "true"
        } else {
            "false"
        },
    );
    push_optional(out, "    servername: ", node.sni.as_str());
    push_transport(out, node);
}

fn push_items(out: &mut String, list: &str)
    ensures
        final(out)@ == old(out)@ + item_lines(pieces(list@, ',')),
{
    let chars = chars_of(list);
    let parts = split(chars.as_slice(), ',');
    let ghost items = slices(parts@);
    let mut i: usize = 0;
    assert(out@ =~= old(out)@ + item_lines(items.take(0)));
    while i < parts.len()
        invariant
            items == slices(parts@),
            i <= parts@.len(),
            out@ == old(out)@ + item_lines(items.take(i as int)),
        decreases parts@.len() - i,
    {
        assert(items.take(i + 1).drop_last() =~= items.take(i as int));
        let item = text_of(trim(parts[i]));
        push_quoted(out, "      - ", item.as_str());
        assert(out@ =~= old(out)@ + item_lines(items.take(i + 1)));
        i += 1;
    }
    assert(items.take(i as int) =~= items);
}

fn push_trojan_network(out: &mut String, node: &Node)
    ensures
        final(out)@ == old(out)@ + trojan_network(node@),
{
    if same_text(node.network.as_str(), "tcp") {
        assert(out@ =~= old(out)@ + seq![]);
    } else {
        push_optional(out, "    network: ", node.network.as_str());
    }
}

fn push_trojan_alpn(out: &mut String, node: &Node)
    ensures
        final(out)@ == old(out)@ + trojan_alpn(node@),
{
    broadcast use lemma_join_associative;

    if node.alpn.as_str().is_empty() {
        assert(out@ =~= old(out)@ + seq![]);
    } else {
        out.append("    alpn:\n");
        push_items(out, node.alpn.as_str());
    }
}

fn push_trojan(out: &mut String, node: &Node)
    ensures
        final(out)@ == old(out)@ + trojan_yaml(node@),
{
    broadcast use lemma_join_associative;

    push_quoted(out, "    password: ", node.password.as_str());
    out.append("    tls: true\n");
    push_optional(out, "    sni: ", node.sni.as_str());
    push_trojan_network(out, node);
    push_trojan_alpn(out, node);
    push_transport(out, node);
}

fn push_ss(out: &mut String, node: &Node)
    ensures
        final(out)@ == old(out)@ + ss_yaml(node@),
{
    broadcast use lemma_join_associative;

    push_quoted(out, "    cipher: ", node.cipher.as_str());
    push_quoted(out, "    password: ", node.password.as_str());
}

fn push_hysteria2(out: &mut String, node: &Node)
    ensures
        final(out)@ == old(out)@ + hysteria2_yaml(node@),
{
    broadcast use lemma_join_associative;

    push_quoted(out, "    password: ", node.password.as_str());
    push_optional(out, "    sni: ", node.sni.as_str());
    out.append("    skip-cert-verify: true\n");
}

fn push_tuic(out: &mut String, node: &Node)
    ensures
        final(out)@ == old(out)@ + tuic_yaml(node@),
{
    broadcast use lemma_join_associative;

    push_quoted(out, "    uuid: ", node.uuid.as_str());
    push_optional(out, "    password: ", node.password.as_str());
    push_optional(out, "    sni: ", node.sni.as_str());
    push_optional(out, "    congestion-controller: ", node.congestion_controller.as_str());
}

/// Writes a node as an entry of the list of proxies.
pub fn node_to_yaml(node: &Node) -> (r: String)
    ensures
        r@ == node_yaml(node@),
{
    let mut out = String::new();
    push_quoted(&mut out, "  - name: ", node.name.as_str());
    push_quoted(&mut out, "    type: ", node.kind.as_str());
    push_quoted(&mut out, "    server: ", node.server.as_str());
    push_plain(&mut out, "    port: ", node.port.as_str());
    let chars = chars_of(node.kind.as_str());
    let kind = chars.as_slice();
    if spells(kind, "vless") {
        push_vless(&mut out, node);
    } else if spells(kind, "vmess") {
        push_vmess(&mut out, node);
    } else if spells(kind, "trojan") {
        push_trojan(&mut out, node);
    } else if spells(kind, "ss") {
        push_ss(&mut out, node);
    } else if spells(kind, "hysteria2") {
        push_hysteria2(&mut out, node);
    } else if spells(kind, "tuic") {
        push_tuic(&mut out, node);
    }
    assert(out@ =~= node_yaml(node@));
    out
}

// ---------------------------------------------------------------------------------------------
// The whole configuration
// ---------------------------------------------------------------------------------------------

/// The nodes of some links: those that describe a node with a name.
pub open spec fn named_nodes(uris: Seq<Seq<char>>) -> Seq<NodeView>
    decreases uris.len(),
{
    if uris.len() == 0 {
        seq![]
    } else {
        let rest = named_nodes(uris.drop_last());
        match node_of(uris.last()) {
            Some(n) => if n.name.len() == 0 {
                rest
            } else {
                rest.push(n)
            },
            None => rest,
        }
    }
}

/// A name with a number: from the second on, the number is added.
pub open spec fn numbered_name(name: Seq<char>, k: nat) -> Seq<char> {
    if k > 1 {
        name + seq![' ', '#'] + decimal(k)
    } else {
        name
    }
}

/// `k` is the first number, from one on, under which a name is not used yet.
pub open spec fn first_free(name: Seq<char>, used: Seq<Seq<char>>, k: nat) -> bool {
    &&& k >= 1
    &&& !used.contains(numbered_name(name, k))
    &&& forall|j: nat| 1 <= j < k ==> used.contains(#[trigger] numbered_name(name, j))
}

/// A name as it is, or with the first number that makes it one that is not used yet.
pub open spec fn free_name(name: Seq<char>, used: Seq<Seq<char>>) -> Seq<char> {
    numbered_name(name, choose|k: nat| first_free(name, used, k))
}

/// A list of nodes in which each name that the nodes before it use is numbered.
pub open spec fn numbered(nodes: Seq<NodeView>) -> Seq<NodeView>
    decreases nodes.len(),
{
    if nodes.len() == 0 {
        seq![]
    } else {
        let rest = numbered(nodes.drop_last());
        rest.push(
            NodeView { name: free_name(nodes.last().name, node_names(rest)), ..nodes.last() },
        )
    }
}

/// The entries of the list of proxies.
pub open spec fn proxy_entries(nodes: Seq<NodeView>) -> Seq<char>
    decreases nodes.len(),
{
    if nodes.len() == 0 {
        seq![]
    } else {
        proxy_entries(nodes.drop_last()) + node_yaml(nodes.last())
    }
}

/// The names of some nodes.
pub open spec fn node_names(nodes: Seq<NodeView>) -> Seq<Seq<char>> {
    nodes.map_values(|n: NodeView| n.name)
}

/// Some names, as the items of a group.
pub open spec fn group_items(names: Seq<Seq<char>>) -> Seq<char>
    decreases names.len(),
{
    if names.len() == 0 {
        seq![]
    } else {
        group_items(names.drop_last()) + quoted_line("      - "@, names.last())
    }
}

/// The names that the group of a configuration selects among.
pub open spec fn group_names(nodes: Seq<NodeView>) -> Seq<Seq<char>> {
    if nodes.len() == 0 {
        seq!["fallback-direct"@]
    } else {
        node_names(nodes)
    }
}

/// The configuration whose proxies are the given nodes; where there are none, its one proxy
/// connects directly. One group selects among all of the proxies, and one rule sends everything
/// to it.
pub open spec fn config_text(nodes: Seq<NodeView>) -> Seq<char> {
    MIHOMO_HEADER@ + "\nproxies:\n"@ + (if nodes.len() == 0 {
        "  - name: fallback-direct\n    type: direct\n"@
    } else {
        proxy_entries(nodes)
    }) + "\nproxy-groups:\n"@ + "  - name: VPN\n"@ + "    type: select\n"@ + "    proxies:\n"@
        + group_items(group_names(nodes)) + "\nrules:\n"@ + "  - MATCH,VPN\n"@
}

fn push_group(out: &mut String, names: &Vec<String>)
    ensures
        final(out)@ == old(out)@ + group_items(texts(names@)),
{
    let ghost all = texts(names@);
    let mut i: usize = 0;
    assert(out@ =~= old(out)@ + group_items(all.take(0)));
    while i < names.len()
        invariant
            all == texts(names@),
            i <= names@.len(),
            out@ == old(out)@ + group_items(all.take(i as int)),
        decreases names@.len() - i,
    {
        assert(all.take(i + 1).drop_last() =~= all.take(i as int));
        push_quoted(out, "      - ", names[i].as_str());
        assert(out@ =~= old(out)@ + group_items(all.take(i + 1)));
        i += 1;
    }
    assert(all.take(i as int) =~= all);
}

pub(crate) proof fn lemma_numbered_injective(name: Seq<char>, j: nat, k: nat)
    requires
        1 <= j,
        1 <= k,
        numbered_name(name, j) == numbered_name(name, k),
    ensures
        j == k,
{
    if j > 1 && k > 1 {
        let mark = name + seq![' ', '#'];
        assert(numbered_name(name, j).skip(mark.len() as int) =~= decimal(j));
        assert(numbered_name(name, k).skip(mark.len() as int) =~= decimal(k));
        law_decimal_injective(j, k);
    } else if j > 1 {
        assert(numbered_name(name, j).len() > name.len());
    } else if k > 1 {
        assert(numbered_name(name, k).len() > name.len());
    }
}

/// Some names with numbers that are all used are no more than the names that are used.
proof fn lemma_numbers_used(name: Seq<char>, used: Seq<Seq<char>>, k: nat)
    requires
        k >= 1,
        forall|j: nat| 1 <= j < k ==> used.contains(#[trigger] numbered_name(name, j)),
    ensures
        k <= used.len() + 1,
    decreases k,
{
    if k > 1 {
        let last = (k - 1) as nat;
        let x = numbered_name(name, last);
        assert(used.contains(x));
        let i = choose|i: int| 0 <= i < used.len() && used[i] == x;
        let fewer = used.remove(i);
        assert forall|j: nat| 1 <= j < last implies fewer.contains(
            #[trigger] numbered_name(name, j),
        ) by {
            let y = numbered_name(name, j);
            if y == x {
                lemma_numbered_injective(name, j, last);
            }
            assert(used.contains(y));
            let p = choose|p: int| 0 <= p < used.len() && used[p] == y;
            assert(fewer[if p < i {
                p
            } else {
                p - 1
            }] == y);
        }
        lemma_numbers_used(name, fewer, last);
    }
}

proof fn lemma_free_from(name: Seq<char>, used: Seq<Seq<char>>, k: nat)
    requires
        k >= 1,
        forall|j: nat| 1 <= j < k ==> used.contains(#[trigger] numbered_name(name, j)),
    ensures
        exists|f: nat| first_free(name, used, f),
    decreases used.len() + 2 - k,
{
    lemma_numbers_used(name, used, k);
    if used.contains(numbered_name(name, k)) {
        assert forall|j: nat| 1 <= j < k + 1 implies used.contains(
            #[trigger] numbered_name(name, j),
        ) by {}
        lemma_numbers_used(name, used, k + 1);
        lemma_free_from(name, used, k + 1);
    } else {
        assert(first_free(name, used, k));
    }
}

/// There is a first number under which a name is free, and only one.
pub proof fn lemma_free_name(name: Seq<char>, used: Seq<Seq<char>>)
    ensures
        exists|k: nat| first_free(name, used, k),
        !used.contains(free_name(name, used)),
        forall|k: nat| #[trigger]
            first_free(name, used, k) ==> free_name(name, used) == numbered_name(name, k),
{
    lemma_free_from(name, used, 1);
    let f = choose|k: nat| first_free(name, used, k);
    assert forall|k: nat| #[trigger] first_free(name, used, k) implies free_name(name, used)
        == numbered_name(name, k) by {
        if k < f {
            assert(used.contains(numbered_name(name, k)));
        } else if f < k {
            assert(used.contains(numbered_name(name, f)));
        }
    }
}

/// For every name that was met, how far its numbers are used.
spec fn tried(m: Map<Seq<char>, usize>, used: Seq<Seq<char>>) -> bool {
    forall|name: Seq<char>, j: nat|
        #![trigger m.contains_key(name), numbered_name(name, j)]
        m.contains_key(name) && 1 <= j < m[name] ==> used.contains(numbered_name(name, j))
}

fn with_number(name: &str, k: usize) -> (r: String)
    ensures
        r@ == numbered_name(name@, k as nat),
{
    let mut out = name.to_owned();
    if k > 1 {
        let digits = decimal_text(k as u64);
        out.push(' ');
        out.push('#');
        out.append(digits.as_str());
        assert(out@ =~= numbered_name(name@, k as nat));
    }
    out
}

/// Picks a free name for a node and remembers that it is used. `next` holds the number from which
/// on to look for one, and `names` is what is used so far.
fn pick_name(
    name: &str,
    used: &mut Seen,
    next: &mut StringHashMap<usize>,
    Ghost(names): Ghost<Seq<Seq<char>>>,
) -> (r: String)
    requires
        old(used)@ == names.to_set(),
        tried(old(next)@, names),
        names.len() < usize::MAX,
    ensures
        r@ == free_name(name@, names),
        final(used)@ == names.push(r@).to_set(),
        tried(final(next)@, names.push(r@)),
{
    let mut k: usize = match next.get(name) {
        Some(start) => if *start > 1 {
            *start
        } else {
            1
        },
        None => 1,
    };
    let mut candidate = with_number(name, k);
    while used.contains(candidate.as_str())
        invariant
            k >= 1,
            names.len() < usize::MAX,
            candidate@ == numbered_name(name@, k as nat),
            used@ == names.to_set(),
            forall|j: nat| 1 <= j < k ==> names.contains(#[trigger] numbered_name(name@, j)),
        decreases names.len() + 2 - k,
    {
        proof {
            assert forall|j: nat| 1 <= j < k + 1 implies names.contains(
                #[trigger] numbered_name(name@, j),
            ) by {}
            lemma_numbers_used(name@, names, k as nat + 1);
        }
        k = k + 1;
        candidate = with_number(name, k);
    }
    let ghost before_next = next@;
    next.insert(name.to_owned(), k);
    used.insert(candidate.clone());
    proof {
        lemma_free_name(name@, names);
        assert(first_free(name@, names, k as nat));
        let more = names.push(candidate@);
        assert forall|x: Seq<char>| more.contains(x) == (names.contains(x) || x == candidate@) by {
            lemma_push_contains(names, candidate@, x);
        }
        assert(used@ =~= more.to_set());
        assert forall|n: Seq<char>, j: nat|
            #![trigger next@.contains_key(n), numbered_name(n, j)]
            next@.contains_key(n) && 1 <= j < next@[n] implies more.contains(
            numbered_name(n, j),
        ) by {
            if n != name@ {
                assert(before_next.contains_key(n));
            }
            assert(names.contains(numbered_name(n, j)));
        }
    }
    candidate
}

/// Numbering changes nothing of a list but names.
pub proof fn lemma_numbered_len(nodes: Seq<NodeView>)
    ensures
        numbered(nodes).len() == nodes.len(),
        forall|i: int|
            0 <= i < nodes.len() ==> (#[trigger] numbered(nodes)[i]) == (NodeView {
                name: numbered(nodes)[i].name,
                ..nodes[i]
            }) && numbered(nodes)[i].name.len() >= nodes[i].name.len(),
    decreases nodes.len(),
{
    if nodes.len() > 0 {
        let front = nodes.drop_last();
        lemma_numbered_len(front);
        assert forall|i: int| 0 <= i < nodes.len() implies (#[trigger] numbered(nodes)[i]) == (
        NodeView { name: numbered(nodes)[i].name, ..nodes[i] }) && numbered(nodes)[i].name.len()
            >= nodes[i].name.len() by {
            if i < front.len() {
                assert(numbered(nodes)[i] == numbered(front)[i]);
                assert(front[i] == nodes[i]);
            }
        }
    }
}

proof fn lemma_named_nodes_bound(uris: Seq<Seq<char>>)
    ensures
        named_nodes(uris).len() <= uris.len(),
    decreases uris.len(),
{
    if uris.len() > 0 {
        lemma_named_nodes_bound(uris.drop_last());
    }
}

/// Writes the configuration whose proxies are the nodes of the given links. A link that
/// describes no node, or a node without a name, is left out. No two proxies have the same name.
pub fn generate_full_config(nodes: &[String]) -> (r: String)
    ensures
        r@ == config_text(numbered(named_nodes(texts(nodes@)))),
        node_names(numbered(named_nodes(texts(nodes@)))).no_duplicates(),
        forall|i: int|
            0 <= i < nodes@.len() && gives_proxy(#[trigger] texts(nodes@)[i]) ==> exists|
                m: NodeView,
            |
                {
                    &&& #[trigger] same_proxy(node_of(texts(nodes@)[i])->0, m)
                    &&& part_of(node_yaml(m), r@)
                    &&& part_of(group_line(m), r@)
                },
{
    let ghost uris = texts(nodes@);
    let mut config = String::new();
    config.append(MIHOMO_HEADER);
    config.append("\nproxies:\n");
    let ghost head = config@;
    let mut names: Vec<String> = Vec::new();
    let mut used = Seen::new();
    let mut next: StringHashMap<usize> = StringHashMap::new();
    let ghost mut done: Seq<NodeView> = seq![];
    let mut i: usize = 0;
    assert(config@ =~= head + proxy_entries(numbered(done)));
    assert(uris.take(0) =~= seq![]);
    assert(texts(names@) =~= node_names(numbered(done)));
    assert(used@ =~= texts(names@).to_set());
    while i < nodes.len()
        invariant
            uris == texts(nodes@),
            i <= nodes@.len(),
            done == named_nodes(uris.take(i as int)),
            config@ == head + proxy_entries(numbered(done)),
            texts(names@) == node_names(numbered(done)),
            used@ == texts(names@).to_set(),
            tried(next@, texts(names@)),
        decreases nodes@.len() - i,
    {
        assert(uris.take(i + 1).drop_last() =~= uris.take(i as int));
        assert(uris.take(i + 1).last() == nodes@[i as int]@);
        proof {
            lemma_named_nodes_bound(uris.take(i as int));
            lemma_numbered_len(done);
        }
        if let Some(mut node) = parse_uri_back(nodes[i].as_str()) {
            if !node.name.as_str().is_empty() {
                let ghost n = node@;
                let ghost before_names = texts(names@);
                let name = pick_name(
                    node.name.as_str(),
                    &mut used,
                    &mut next,
                    Ghost(before_names),
                );
                node.name = name;
                let ghost entry = NodeView { name: free_name(n.name, before_names), ..n };
                assert(node@ == entry);
                let yaml = node_to_yaml(&node);
                config.append(yaml.as_str());
                names.push(node.name);
                proof {
                    assert(done.push(n).drop_last() =~= done);
                    assert(numbered(done.push(n)) == numbered(done).push(entry));
                    assert(numbered(done.push(n)).drop_last() =~= numbered(done));
                    lemma_join_associative(head, proxy_entries(numbered(done)), yaml@);
                    assert(texts(names@) =~= before_names.push(entry.name));
                    assert(node_names(numbered(done).push(entry)) =~= node_names(
                        numbered(done),
                    ).push(entry.name));
                    done = done.push(n);
                }
            }
        }
        i += 1;
    }
    assert(uris.take(i as int) =~= uris);
    let ghost all = numbered(done);
    if names.len() == 0 {
        config.append("  - name: fallback-direct\n    type: direct\n");
        names.push("fallback-direct".to_owned());
    }
    assert(texts(names@) =~= group_names(all));
    config.append("\nproxy-groups:\n");
    config.append("  - name: VPN\n");
    config.append("    type: select\n");
    config.append("    proxies:\n");
    push_group(&mut config, &names);
    config.append("\nrules:\n");
    config.append("  - MATCH,VPN\n");
    assert(config@ =~= config_text(all));
    proof {
        law_names_differ(done);
        lemma_links_in_config(uris);
    }
    config
}

} // verus!
