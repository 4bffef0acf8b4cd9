//! What the entry of a proxy says of its node, line by line.

use crate::config::{
    item_lines, kind_yaml, node_yaml, optional_line, plain_line, quoted, quoted_line, transport,
    transport_opts, trojan_alpn, vless_reality, vless_security,
};
use crate::cut::{pieces, trimmed};
use crate::link_laws::lemma_kinds_differ;
use crate::node::NodeView;
use crate::text::lemma_join_associative;
use vstd::prelude::*;

verus! {

/// Some lines as a text.
pub open spec fn block(lines: Seq<Seq<char>>) -> Seq<char> {
    lines.map_values(|line: Seq<char>| line.push('\n')).flatten()
}

/// A line that gives a value in quotes, where there is a value to give.
pub open spec fn given_line(key: Seq<char>, value: Seq<char>) -> Seq<Seq<char>> {
    line_if(value.len() > 0, key + quoted(value))
}

/// A line that is there under a condition.
pub open spec fn line_if(cond: bool, line: Seq<char>) -> Seq<Seq<char>> {
    if cond {
        seq![line]
    } else {
        seq![]
    }
}

pub(crate) proof fn lemma_block_join(a: Seq<Seq<char>>, b: Seq<Seq<char>>)
    ensures
        block(a + b) == block(a) + block(b),
{
    let g = |line: Seq<char>| line.push('\n');
    vstd::seq_lib::lemma_flatten_concat(a.map_values(g), b.map_values(g));
    assert((a + b).map_values(g) =~= a.map_values(g) + b.map_values(g));
}

pub(crate) proof fn lemma_block_one(line: Seq<char>)
    ensures
        block(seq![line]) == line + seq!['\n'],
        block(Seq::<Seq<char>>::empty()) == Seq::<char>::empty(),
{
    let g = |line: Seq<char>| line.push('\n');
    let one = seq![line].map_values(g);
    one.lemma_flatten_one_element();
    assert(line.push('\n') =~= line + seq!['\n']);
    assert(Seq::<Seq<char>>::empty().map_values(g) =~= Seq::<Seq<char>>::empty());
    assert(block(Seq::<Seq<char>>::empty()) =~= Seq::<char>::empty());
}

proof fn lemma_line(key: Seq<char>, value: Seq<char>)
    ensures
        block(seq![key + quoted(value)]) == quoted_line(key, value),
        block(seq![key + value]) == plain_line(key, value),
        block(given_line(key, value)) == optional_line(key, value),
{
    lemma_block_one(key + quoted(value));
    lemma_block_one(key + value);
}

/// The lines that every entry starts with: name, protocol, server and port.
pub open spec fn head_lines(n: NodeView) -> Seq<Seq<char>> {
    seq![
        "  - name: "@ + quoted(n.name),
        "    type: "@ + quoted(n.kind),
        "    server: "@ + quoted(n.server),
        "    port: "@ + n.port,
    ]
}

proof fn lemma_head_lines(n: NodeView)
    ensures
        block(head_lines(n)) == quoted_line("  - name: "@, n.name) + quoted_line(
            "    type: "@,
            n.kind,
        ) + quoted_line("    server: "@, n.server) + plain_line("    port: "@, n.port),
{
    let a = "  - name: "@ + quoted(n.name);
    let b = "    type: "@ + quoted(n.kind);
    let c = "    server: "@ + quoted(n.server);
    let d = "    port: "@ + n.port;
    lemma_line("  - name: "@, n.name);
    lemma_line("    type: "@, n.kind);
    lemma_line("    server: "@, n.server);
    lemma_line("    port: "@, n.port);
    assert(seq![a, b, c, d] =~= seq![a, b, c] + seq![d]);
    assert(seq![a, b, c] =~= seq![a, b] + seq![c]);
    assert(seq![a, b] =~= seq![a] + seq![b]);
    lemma_block_join(seq![a, b, c], seq![d]);
    lemma_block_join(seq![a, b], seq![c]);
    lemma_block_join(seq![a], seq![b]);
}

/// The entry of a proxy is its first lines and those of its protocol; a protocol that is not known
/// has none.
proof fn lemma_entry(n: NodeView, more: Seq<Seq<char>>)
    requires
        block(more) == kind_yaml(n),
    ensures
        node_yaml(n) == block(head_lines(n) + more),
{
    lemma_head_lines(n);
    lemma_block_join(head_lines(n), more);
}

/// An `ss` proxy gives its cipher and its password.
pub proof fn law_ss_entry(n: NodeView)
    requires
        n.kind == "ss"@,
    ensures
        node_yaml(n) == block(
            head_lines(n) + seq![
                "    cipher: "@ + quoted(n.cipher),
                "    password: "@ + quoted(n.password),
            ],
        ),
{
    lemma_kinds_differ();
    let a = "    cipher: "@ + quoted(n.cipher);
    let b = "    password: "@ + quoted(n.password);
    lemma_line("    cipher: "@, n.cipher);
    lemma_line("    password: "@, n.password);
    lemma_block_join(seq![a], seq![b]);
    assert(seq![a, b] =~= seq![a] + seq![b]);
    lemma_entry(n, seq![a, b]);
}

/// A `hysteria2` proxy gives its password, its server name where it has one, and accepts every
/// certificate.
pub proof fn law_hysteria2_entry(n: NodeView)
    requires
        n.kind == "hysteria2"@,
    ensures
        node_yaml(n) == block(
            head_lines(n) + (seq!["    password: "@ + quoted(n.password)] + given_line(
                "    sni: "@,
                n.sni,
            ) + seq!["    skip-cert-verify: true"@]),
        ),
{
    lemma_kinds_differ();
    let a = seq!["    password: "@ + quoted(n.password)];
    let b = given_line("    sni: "@, n.sni);
    let c = seq!["    skip-cert-verify: true"@];
    lemma_line("    password: "@, n.password);
    lemma_line("    sni: "@, n.sni);
    lemma_block_one("    skip-cert-verify: true"@);
    assert("    skip-cert-verify: true"@ + seq!['\n'] =~= "    skip-cert-verify: true\n"@) by {
        reveal_strlit("    skip-cert-verify: true");
        reveal_strlit("    skip-cert-verify: true\n");
    }
    lemma_block_join(a, b);
    lemma_block_join(a + b, c);
    lemma_entry(n, a + b + c);
}

/// A `tuic` proxy gives its UUID, and its password, server name and congestion control where it has
/// them.
pub proof fn law_tuic_entry(n: NodeView)
    requires
        n.kind == "tuic"@,
    ensures
        node_yaml(n) == block(
            head_lines(n) + (seq!["    uuid: "@ + quoted(n.uuid)] + given_line(
                "    password: "@,
                n.password,
            ) + given_line("    sni: "@, n.sni) + given_line(
                "    congestion-controller: "@,
                n.congestion_controller,
            )),
        ),
{
    lemma_kinds_differ();
    let a = seq!["    uuid: "@ + quoted(n.uuid)];
    let b = given_line("    password: "@, n.password);
    let c = given_line("    sni: "@, n.sni);
    let d = given_line("    congestion-controller: "@, n.congestion_controller);
    lemma_line("    uuid: "@, n.uuid);
    lemma_line("    password: "@, n.password);
    lemma_line("    sni: "@, n.sni);
    lemma_line("    congestion-controller: "@, n.congestion_controller);
    lemma_block_join(a, b);
    lemma_block_join(a + b, c);
    lemma_block_join(a + b + c, d);
    lemma_entry(n, a + b + c + d);
}

// ---------------------------------------------------------------------------------------------
// Transports
// ---------------------------------------------------------------------------------------------

/// The lines of a transport. WebSocket and HTTP say host and path, each where there is one and
/// nothing where there is neither; gRPC names an empty service; another has no lines.
pub open spec fn transport_lines(n: NodeView) -> Seq<Seq<char>> {
    let host = n.host.len() > 0;
    let path = n.path.len() > 0;
    if n.network == "ws"@ {
        line_if(host || path, "    ws-opts:"@) + given_line("      path: "@, n.path) + line_if(
            host,
            "      headers:"@,
        ) + given_line("        Host: "@, n.host)
    } else if n.network == "http"@ {
        line_if(host || path, "    http-opts:"@) + line_if(path, "      path:"@) + given_line(
            "        - "@,
            n.path,
        ) + line_if(host, "      headers:"@) + line_if(host, "        Host:"@) + given_line(
            "          - "@,
            n.host,
        )
    } else if n.network == "grpc"@ {
        seq!["    grpc-opts:"@] + seq!["      grpc-service-name: \"\""@]
    } else {
        seq![]
    }
}

pub(crate) proof fn lemma_line_ends()
    ensures
        "    ws-opts:"@ + seq!['\n'] == "    ws-opts:\n"@,
        "      headers:"@ + seq!['\n'] == "      headers:\n"@,
        "    http-opts:"@ + seq!['\n'] == "    http-opts:\n"@,
        "      path:"@ + seq!['\n'] == "      path:\n"@,
        "      headers:"@ + seq!['\n'] + ("        Host:"@ + seq!['\n'])
            == "      headers:\n        Host:\n"@,
        "    grpc-opts:"@ + seq!['\n'] == "    grpc-opts:\n"@,
        "      grpc-service-name: \"\""@ + seq!['\n'] == "      grpc-service-name: \"\"\n"@,
        "    alpn:"@ + seq!['\n'] == "    alpn:\n"@,
        "    tls: true"@ + seq!['\n'] == "    tls: true\n"@,
        "    cipher: auto"@ + seq!['\n'] == "    cipher: auto\n"@,
        "    reality-opts:"@ + seq!['\n'] == "    reality-opts:\n"@,
        "    tls: "@ + "true"@ == "    tls: true"@,
        "    tls: "@ + "false"@ == "    tls: false"@,
        "ws"@ != "http"@,
        "ws"@ != "grpc"@,
        "http"@ != "grpc"@,
{
    reveal_strlit("    ws-opts:");
    reveal_strlit("    ws-opts:\n");
    reveal_strlit("      headers:");
    reveal_strlit("      headers:\n");
    reveal_strlit("    http-opts:");
    reveal_strlit("    http-opts:\n");
    reveal_strlit("      path:");
    reveal_strlit("      path:\n");
    reveal_strlit("        Host:");
    reveal_strlit("      headers:\n        Host:\n");
    reveal_strlit("    grpc-opts:");
    reveal_strlit("    grpc-opts:\n");
    reveal_strlit("      grpc-service-name: \"\"");
    reveal_strlit("      grpc-service-name: \"\"\n");
    reveal_strlit("    alpn:");
    reveal_strlit("    alpn:\n");
    reveal_strlit("    tls: true");
    reveal_strlit("    tls: true\n");
    reveal_strlit("    cipher: auto");
    reveal_strlit("    cipher: auto\n");
    reveal_strlit("    reality-opts:");
    reveal_strlit("    reality-opts:\n");
    reveal_strlit("    tls: ");
    reveal_strlit("true");
    reveal_strlit("false");
    reveal_strlit("    tls: false");
    reveal_strlit("ws");
    reveal_strlit("http");
    reveal_strlit("grpc");
    assert("ws"@.len() == 2);
    assert("http"@.len() == 4 && "http"@[0] == 'h');
    assert("grpc"@.len() == 4 && "grpc"@[0] == 'g');
}

proof fn lemma_line_if(cond: bool, line: Seq<char>)
    ensures
        block(line_if(cond, line)) == if cond {
            line + seq!['\n']
        } else {
            seq![]
        },
{
    lemma_block_one(line);
}

proof fn lemma_ws(n: NodeView)
    requires
        n.network == "ws"@,
    ensures
        block(transport_lines(n)) == transport(n),
{
    lemma_line_ends();
    let host = n.host.len() > 0;
    let path = n.path.len() > 0;
    let a = line_if(host || path, "    ws-opts:"@);
    let b = given_line("      path: "@, n.path);
    let c = line_if(host, "      headers:"@);
    let d = given_line("        Host: "@, n.host);
    lemma_line_if(host || path, "    ws-opts:"@);
    lemma_line("      path: "@, n.path);
    lemma_line_if(host, "      headers:"@);
    lemma_line("        Host: "@, n.host);
    lemma_block_join(a, b);
    lemma_block_join(a + b, c);
    lemma_block_join(a + b + c, d);
    assert(block(a) + block(b) + block(c) + block(d) =~= transport(n));
}

proof fn lemma_http(n: NodeView)
    requires
        n.network == "http"@,
    ensures
        block(transport_lines(n)) == transport(n),
{
    lemma_line_ends();
    let host = n.host.len() > 0;
    let path = n.path.len() > 0;
    let a = line_if(host || path, "    http-opts:"@);
    let b = line_if(path, "      path:"@);
    let c = given_line("        - "@, n.path);
    let d = line_if(host, "      headers:"@);
    let e = line_if(host, "        Host:"@);
    let f = given_line("          - "@, n.host);
    lemma_line_if(host || path, "    http-opts:"@);
    lemma_line_if(path, "      path:"@);
    lemma_line("        - "@, n.path);
    lemma_line_if(host, "      headers:"@);
    lemma_line_if(host, "        Host:"@);
    lemma_line("          - "@, n.host);
    lemma_block_join(a, b);
    lemma_block_join(a + b, c);
    lemma_block_join(a + b + c, d);
    lemma_block_join(a + b + c + d, e);
    lemma_block_join(a + b + c + d + e, f);
    assert(block(a) + block(b) + block(c) + block(d) + block(e) + block(f) =~= transport(n));
}

proof fn lemma_transport(n: NodeView)
    ensures
        block(transport_lines(n)) == transport(n),
{
    lemma_line_ends();
    if n.network == "ws"@ {
        lemma_ws(n);
    } else if n.network == "http"@ {
        lemma_http(n);
    } else if n.network == "grpc"@ {
        let a = seq!["    grpc-opts:"@];
        let b = seq!["      grpc-service-name: \"\""@];
        lemma_block_one("    grpc-opts:"@);
        lemma_block_one("      grpc-service-name: \"\""@);
        lemma_block_join(a, b);
    } else {
        lemma_block_one("    ws-opts:"@);
    }
}

// ---------------------------------------------------------------------------------------------
// Protocols with a transport
// ---------------------------------------------------------------------------------------------

/// A `vmess` proxy gives its UUID, alter id, network, whether it uses TLS, its server name where it
/// has one, and its transport.
pub proof fn law_vmess_entry(n: NodeView)
    requires
        n.kind == "vmess"@,
    ensures
        node_yaml(n) == block(
            head_lines(n) + (seq!["    uuid: "@ + quoted(n.uuid)] + seq![
                "    alterId: "@ + n.alter_id,
            ] + seq!["    cipher: auto"@] + seq!["    network: "@ + quoted(n.network)] + seq![
                if n.tls {
                    "    tls: true"@
                } else {
                    "    tls: false"@
                },
            ] + given_line("    servername: "@, n.sni) + transport_lines(n)),
        ),
{
    lemma_kinds_differ();
    lemma_line_ends();
    let tls = if n.tls {
        "    tls: true"@
    } else {
        "    tls: false"@
    };
    let a = seq!["    uuid: "@ + quoted(n.uuid)];
    let b = seq!["    alterId: "@ + n.alter_id];
    let c = seq!["    cipher: auto"@];
    let d = seq!["    network: "@ + quoted(n.network)];
    let e = seq![tls];
    let f = given_line("    servername: "@, n.sni);
    lemma_line("    uuid: "@, n.uuid);
    lemma_line("    alterId: "@, n.alter_id);
    lemma_block_one("    cipher: auto"@);
    lemma_line("    network: "@, n.network);
    lemma_line("    tls: "@, "true"@);
    lemma_line("    tls: "@, "false"@);
    lemma_line("    servername: "@, n.sni);
    lemma_transport(n);
    lemma_block_join(a, b);
    lemma_block_join(a + b, c);
    lemma_block_join(a + b + c, d);
    lemma_block_join(a + b + c + d, e);
    lemma_block_join(a + b + c + d + e, f);
    lemma_block_join(a + b + c + d + e + f, transport_lines(n));
    lemma_entry(n, a + b + c + d + e + f + transport_lines(n));
}

/// The lines of a list of protocols, one for each item, without white space around it.
pub open spec fn alpn_lines(alpn: Seq<char>) -> Seq<Seq<char>> {
    if alpn.len() == 0 {
        seq![]
    } else {
        seq!["    alpn:"@] + pieces(alpn, ',').map_values(
            |item: Seq<char>| "      - "@ + quoted(trimmed(item)),
        )
    }
}

proof fn lemma_items(items: Seq<Seq<char>>)
    ensures
        block(items.map_values(|item: Seq<char>| "      - "@ + quoted(trimmed(item))))
            == item_lines(items),
    decreases items.len(),
{
    let g = |item: Seq<char>| "      - "@ + quoted(trimmed(item));
    if items.len() == 0 {
        lemma_block_one("      - "@);
        assert(items.map_values(g) =~= Seq::<Seq<char>>::empty());
    } else {
        let front = items.drop_last();
        lemma_items(front);
        lemma_line("      - "@, trimmed(items.last()));
        lemma_block_join(front.map_values(g), seq![g(items.last())]);
        assert(items.map_values(g) =~= front.map_values(g) + seq![g(items.last())]);
    }
}

proof fn lemma_alpn(n: NodeView)
    ensures
        block(alpn_lines(n.alpn)) == trojan_alpn(n),
{
    lemma_line_ends();
    lemma_block_one("    alpn:"@);
    lemma_items(pieces(n.alpn, ','));
    lemma_block_join(
        seq!["    alpn:"@],
        pieces(n.alpn, ',').map_values(|item: Seq<char>| "      - "@ + quoted(trimmed(item))),
    );
}

/// A `trojan` proxy gives its password, always uses TLS, and gives its server name, its network
/// where that is not TCP, its list of protocols and its transport, each where it has one.
pub proof fn law_trojan_entry(n: NodeView)
    requires
        n.kind == "trojan"@,
    ensures
        node_yaml(n) == block(
            head_lines(n) + (seq!["    password: "@ + quoted(n.password)] + seq![
                "    tls: true"@,
            ] + given_line("    sni: "@, n.sni) + line_if(
                n.network.len() > 0 && n.network != "tcp"@,
                "    network: "@ + quoted(n.network),
            ) + alpn_lines(n.alpn) + transport_lines(n)),
        ),
{
    lemma_kinds_differ();
    lemma_line_ends();
    let network = n.network.len() > 0 && n.network != "tcp"@;
    let a = seq!["    password: "@ + quoted(n.password)];
    let b = seq!["    tls: true"@];
    let c = given_line("    sni: "@, n.sni);
    let d = line_if(network, "    network: "@ + quoted(n.network));
    let e = alpn_lines(n.alpn);
    lemma_line("    password: "@, n.password);
    lemma_block_one("    tls: true"@);
    lemma_line("    sni: "@, n.sni);
    lemma_line("    network: "@, n.network);
    lemma_line_if(network, "    network: "@ + quoted(n.network));
    lemma_alpn(n);
    lemma_transport(n);
    lemma_block_join(a, b);
    lemma_block_join(a + b, c);
    lemma_block_join(a + b + c, d);
    lemma_block_join(a + b + c + d, e);
    lemma_block_join(a + b + c + d + e, transport_lines(n));
    lemma_entry(n, a + b + c + d + e + transport_lines(n));
}

/// The lines on the security of a `vless` proxy. Without a security it has none of them; TLS and
/// REALITY use TLS, and REALITY gives its public key, and its short id where it has one.
pub open spec fn security_lines(n: NodeView) -> Seq<Seq<char>> {
    let keys = n.security == "reality"@ && n.pbk.len() > 0;
    if n.security.len() == 0 {
        seq![]
    } else {
        seq![
            if n.security == "tls"@ || n.security == "reality"@ {
                "    tls: true"@
            } else {
                "    tls: false"@
            },
        ] + given_line("    servername: "@, n.sni) + line_if(keys, "    reality-opts:"@) + line_if(
            keys,
            "      public-key: "@ + quoted(n.pbk),
        ) + line_if(keys && n.sid.len() > 0, "      short-id: "@ + quoted(n.sid))
    }
}

proof fn lemma_security(n: NodeView)
    ensures
        block(security_lines(n)) == vless_security(n) + vless_reality(n),
{
    lemma_line_ends();
    reveal_strlit("reality");
    assert("reality"@.len() == 7);
    let keys = n.security == "reality"@ && n.pbk.len() > 0;
    if n.security.len() == 0 {
        lemma_block_one("    tls: true"@);
        assert(vless_security(n) + vless_reality(n) =~= Seq::<char>::empty());
    } else {
        let tls = if n.security == "tls"@ || n.security == "reality"@ {
            "    tls: true"@
        } else {
            "    tls: false"@
        };
        let a = seq![tls];
        let b = given_line("    servername: "@, n.sni);
        let c = line_if(keys, "    reality-opts:"@);
        let d = line_if(keys, "      public-key: "@ + quoted(n.pbk));
        let e = line_if(keys && n.sid.len() > 0, "      short-id: "@ + quoted(n.sid));
        lemma_line("    tls: "@, "true"@);
        lemma_line("    tls: "@, "false"@);
        lemma_line("    servername: "@, n.sni);
        lemma_line_if(keys, "    reality-opts:"@);
        lemma_line_if(keys, "      public-key: "@ + quoted(n.pbk));
        lemma_line("      public-key: "@, n.pbk);
        lemma_line_if(keys && n.sid.len() > 0, "      short-id: "@ + quoted(n.sid));
        lemma_line("      short-id: "@, n.sid);
        lemma_block_join(a, b);
        lemma_block_join(a + b, c);
        lemma_block_join(a + b + c, d);
        lemma_block_join(a + b + c + d, e);
        assert(block(a) + block(b) + block(c) + block(d) + block(e) =~= vless_security(n)
            + vless_reality(n));
    }
}

/// A `vless` proxy gives its UUID and its network, its flow where Mihomo knows it, its security,
/// its fingerprint where it has one, and its transport.
pub proof fn law_vless_entry(n: NodeView)
    requires
        n.kind == "vless"@,
    ensures
        node_yaml(n) == block(
            head_lines(n) + (seq!["    uuid: "@ + quoted(n.uuid)] + seq![
                "    network: "@ + quoted(n.network),
            ] + line_if(n.flow == "xtls-rprx-vision"@, "    flow: "@ + quoted(n.flow))
                + security_lines(n) + given_line("    client-fingerprint: "@, n.fp)
                + transport_lines(n)),
        ),
{
    lemma_kinds_differ();
    let vision = n.flow == "xtls-rprx-vision"@;
    let a = seq!["    uuid: "@ + quoted(n.uuid)];
    let b = seq!["    network: "@ + quoted(n.network)];
    let c = line_if(vision, "    flow: "@ + quoted(n.flow));
    let d = security_lines(n);
    let e = given_line("    client-fingerprint: "@, n.fp);
    lemma_line("    uuid: "@, n.uuid);
    lemma_line("    network: "@, n.network);
    lemma_line("    flow: "@, n.flow);
    lemma_line_if(vision, "    flow: "@ + quoted(n.flow));
    lemma_security(n);
    lemma_line("    client-fingerprint: "@, n.fp);
    lemma_transport(n);
    lemma_block_join(a, b);
    lemma_block_join(a + b, c);
    lemma_block_join(a + b + c, d);
    lemma_block_join(a + b + c + d, e);
    lemma_block_join(a + b + c + d + e, transport_lines(n));
    lemma_join_associative(block(a + b + c), vless_security(n), vless_reality(n));
    lemma_entry(n, a + b + c + d + e + transport_lines(n));
}

/// A proxy of another protocol gives no more than name, protocol, server and port.
pub proof fn law_other_entry(n: NodeView)
    requires
        n.kind != "vless"@ && n.kind != "vmess"@ && n.kind != "trojan"@,
        n.kind != "ss"@ && n.kind != "hysteria2"@ && n.kind != "tuic"@,
    ensures
        node_yaml(n) == block(head_lines(n)),
{
    lemma_block_one("    type: "@);
    lemma_entry(n, seq![]);
    assert(head_lines(n) + seq![] =~= head_lines(n));
}

/// A network without host and path has nothing to say, nor has one that is neither WebSocket nor
/// HTTP.
pub proof fn law_no_opts(network: Seq<char>, host: Seq<char>, path: Seq<char>)
    requires
        (host.len() == 0 && path.len() == 0) || (network != "ws"@ && network != "http"@),
    ensures
        transport_opts(network, host, path) == Seq::<char>::empty(),
{
}

} // verus!
