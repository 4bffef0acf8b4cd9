//! The full configuration.

use sub_merger::config::{
    generate_full_config, node_to_yaml, write_transport_opts, yaml_escape, MIHOMO_HEADER,
};
use sub_merger::node::Node;

const UUID: &str = "b831381d-6324-4d53-ad4f-8cda48b30811";

fn node(kind: &str) -> Node {
    let mut n = Node::default();
    n.kind = kind.to_string();
    n.name = "N".to_string();
    n.server = "h.example".to_string();
    n.port = "443".to_string();
    n
}

fn config(uris: &[&str]) -> String {
    let v: Vec<String> = uris.iter().map(|s| s.to_string()).collect();
    generate_full_config(&v)
}

fn opts(network: &str, host: &str, path: &str) -> String {
    let mut out = String::from(">");
    write_transport_opts(&mut out, network, host, path);
    out
}

#[test]
fn quoting() {
    assert_eq!(yaml_escape(""), "\"\"");
    assert_eq!(yaml_escape("plain"), "\"plain\"");
    assert_eq!(yaml_escape("a\"b\\c"), "\"a\\\"b\\\\c\"");
    assert_eq!(yaml_escape("\\\""), "\"\\\\\\\"\"");
    assert_eq!(yaml_escape("🇩🇪 x"), "\"🇩🇪 x\"");
    for s in ["", "a\"", "\\", "\\\\\"", "\" #: \""] {
        // Reading the scalar back gives the text.
        let quoted = yaml_escape(s);
        let inner = &quoted[1..quoted.len() - 1];
        let mut text = String::new();
        let mut chars = inner.chars();
        while let Some(c) = chars.next() {
            if c == '\\' {
                text.push(chars.next().unwrap());
            } else {
                assert_ne!(c, '"');
                text.push(c);
            }
        }
        assert_eq!(text, s);
    }
}

#[test]
fn transports() {
    assert_eq!(opts("ws", "", ""), ">");
    assert_eq!(opts("tcp", "h", "/p"), ">");
    assert_eq!(
        opts("ws", "h", "/p"),
        ">    ws-opts:\n      path: \"/p\"\n      headers:\n        Host: \"h\"\n"
    );
    assert_eq!(opts("ws", "", "/p"), ">    ws-opts:\n      path: \"/p\"\n");
    assert_eq!(opts("ws", "h", ""), ">    ws-opts:\n      headers:\n        Host: \"h\"\n");
    assert_eq!(
        opts("http", "h", "/p"),
        ">    http-opts:\n      path:\n        - \"/p\"\n      headers:\n        Host:\n          - \"h\"\n"
    );
    assert_eq!(opts("http", "", "/p"), ">    http-opts:\n      path:\n        - \"/p\"\n");
    assert_eq!(opts("http", "", ""), ">");
}

#[test]
fn vless_entry() {
    let mut n = node("vless");
    n.uuid = UUID.to_string();
    n.network = "tcp".to_string();
    let start = "  - name: \"N\"\n    type: \"vless\"\n    server: \"h.example\"\n    port: 443\n";
    assert_eq!(
        node_to_yaml(&n),
        format!("{}    uuid: \"{}\"\n    network: \"tcp\"\n", start, UUID)
    );
    n.flow = "xtls-rprx-vision".to_string();
    n.security = "reality".to_string();
    n.sni = "s".to_string();
    n.pbk = "k".to_string();
    n.sid = "ab".to_string();
    n.fp = "chrome".to_string();
    n.network = "grpc".to_string();
    let full = format!(
        "{}    uuid: \"{}\"\n    network: \"grpc\"\n    flow: \"xtls-rprx-vision\"\n    tls: true\n    \
         servername: \"s\"\n    reality-opts:\n      public-key: \"k\"\n      short-id: \"ab\"\n    \
         client-fingerprint: \"chrome\"\n    grpc-opts:\n      grpc-service-name: \"\"\n",
        start, UUID
    );
    assert_eq!(node_to_yaml(&n), full);
    // A flow that is not known is left out.
    n.flow = "xtls-rprx-direct".to_string();
    let without = full.replace("    flow: \"xtls-rprx-vision\"\n", "");
    assert_eq!(node_to_yaml(&n), without);
    n.flow = String::new();
    assert_eq!(node_to_yaml(&n), without);
    n.security = "none".to_string();
    assert!(node_to_yaml(&n).contains("    tls: false\n    servername: \"s\"\n"));
    assert!(!node_to_yaml(&n).contains("reality"));
}

#[test]
fn vmess_entry() {
    let mut n = node("vmess");
    n.uuid = "u".to_string();
    n.alter_id = "0".to_string();
    n.network = "ws".to_string();
    n.tls = true;
    n.sni = "s".to_string();
    n.path = "/p".to_string();
    assert_eq!(
        node_to_yaml(&n),
        "  - name: \"N\"\n    type: \"vmess\"\n    server: \"h.example\"\n    port: 443\n    uuid: \"u\"\n    \
         alterId: 0\n    cipher: auto\n    network: \"ws\"\n    tls: true\n    servername: \"s\"\n    ws-opts:\n      \
         path: \"/p\"\n"
    );
}

#[test]
fn trojan_entry() {
    let mut n = node("trojan");
    n.password = "p".to_string();
    let start = "  - name: \"N\"\n    type: \"trojan\"\n    server: \"h.example\"\n    port: 443\n    password: \"p\"\n    tls: true\n";
    assert_eq!(node_to_yaml(&n), start);
    n.network = "tcp".to_string();
    assert_eq!(node_to_yaml(&n), start);
    n.network = "http".to_string();
    n.host = "h".to_string();
    n.sni = "s".to_string();
    n.alpn = "h2, http/1.1".to_string();
    assert_eq!(
        node_to_yaml(&n),
        format!(
            "{}    sni: \"s\"\n    network: \"http\"\n    alpn:\n      - \"h2\"\n      - \"http/1.1\"\n    http-opts:\n      \
             headers:\n        Host:\n          - \"h\"\n",
            start
        )
    );
}

#[test]
fn other_entries() {
    let start = |kind: &str| {
        format!("  - name: \"N\"\n    type: \"{}\"\n    server: \"h.example\"\n    port: 443\n", kind)
    };
    let mut n = node("ss");
    n.cipher = "none".to_string();
    n.password = "p".to_string();
    n.uuid = "u".to_string();
    n.sni = "s".to_string();
    n.congestion_controller = "bbr".to_string();
    assert_eq!(
        node_to_yaml(&n),
        format!("{}    cipher: \"none\"\n    password: \"p\"\n", start("ss"))
    );
    n.kind = "hysteria2".to_string();
    assert_eq!(
        node_to_yaml(&n),
        format!("{}    password: \"p\"\n    sni: \"s\"\n    skip-cert-verify: true\n", start("hysteria2"))
    );
    n.kind = "tuic".to_string();
    assert_eq!(
        node_to_yaml(&n),
        format!(
            "{}    uuid: \"u\"\n    password: \"p\"\n    sni: \"s\"\n    congestion-controller: \"bbr\"\n",
            start("tuic")
        )
    );
    n.kind = "direct".to_string();
    assert_eq!(node_to_yaml(&n), start("direct"));
}

#[test]
fn without_nodes_everything_goes_direct() {
    let expected = format!(
        "{}\nproxies:\n  - name: fallback-direct\n    type: direct\n\nproxy-groups:\n  - name: VPN\n    \
         type: select\n    proxies:\n      - \"fallback-direct\"\n\nrules:\n  - MATCH,VPN\n",
        MIHOMO_HEADER
    );
    assert_eq!(config(&[]), expected);
    // Neither a broken link nor a node without a name is a proxy.
    assert_eq!(config(&["nothing", "trojan://p@h:1", "ss://c3M6c2VjcmV0@h:1#N"]), expected);
    assert!(MIHOMO_HEADER.starts_with("mixed-port: 7890\nallow-lan: false\n"));
    assert!(MIHOMO_HEADER.ends_with("        - 80\n        - 8080-8880\n"));
    assert!(MIHOMO_HEADER.contains("    - \"2a00:ab00:1233:26::50\"\n"));
    assert_eq!(MIHOMO_HEADER.lines().count(), 63);
}

#[test]
fn configuration_is_exact() {
    let entry = |name: &str, server: &str| {
        format!(
            "  - name: \"{}\"\n    type: \"hysteria2\"\n    server: \"{}\"\n    port: 1\n    password: \"p\"\n    \
             skip-cert-verify: true\n",
            name, server
        )
    };
    let expected = format!(
        "{}\nproxies:\n{}{}{}\nproxy-groups:\n  - name: VPN\n    type: select\n    proxies:\n      \
         - \"A\"\n      - \"B\"\n      - \"A #2\"\n\nrules:\n  - MATCH,VPN\n",
        MIHOMO_HEADER,
        entry("A", "a"),
        entry("B", "b"),
        entry("A #2", "c")
    );
    assert_eq!(config(&["hy2://p@a:1#A", "hysteria2://p@b:1#B", "x", "hy2://p@c:1#A"]), expected);
}

fn names(config: &str) -> Vec<String> {
    let group = config.split("    proxies:\n").nth(1).unwrap();
    let group = group.split("\nrules:").next().unwrap();
    group
        .lines()
        .map(|l| l.trim_start_matches("      - ").trim_matches('"').to_string())
        .collect()
}

#[test]
fn repeated_names_are_numbered() {
    let uris: Vec<String> = (0..12).map(|i| format!("hy2://p@h{}:1#A", i)).collect();
    let found = names(&generate_full_config(&uris));
    assert_eq!(found[0], "A");
    assert_eq!(found[1], "A #2");
    assert_eq!(found[11], "A #12");
    let mut distinct = found.clone();
    distinct.sort();
    distinct.dedup();
    assert_eq!(distinct.len(), 12);
    // A name that is used already is passed over, whoever bears it.
    let second = names(&config(&["hy2://p@a:1#A", "hy2://p@b:1#A", "hy2://p@c:1#A%20%232"]));
    assert_eq!(second, ["A", "A #2", "A #2 #2"]);
    let first = names(&config(&["hy2://p@a:1#A%20%232", "hy2://p@b:1#A", "hy2://p@c:1#A", "hy2://p@d:1#A"]));
    assert_eq!(first, ["A #2", "A", "A #3", "A #4"]);
    let mixed = names(&config(&[
        "hy2://p@a:1#A",
        "hy2://p@b:1#A",
        "hy2://p@c:1#A%20%232",
        "hy2://p@d:1#A%20%233",
        "hy2://p@e:1#A",
        "hy2://p@f:1#A%20%232",
    ]));
    assert_eq!(mixed, ["A", "A #2", "A #2 #2", "A #3", "A #4", "A #2 #3"]);
}

#[test]
fn many_nodes_of_one_name() {
    let uris: Vec<String> = (0..3000).map(|i| format!("hy2://p@h{}:1#A", i)).collect();
    let mut found = names(&generate_full_config(&uris));
    assert_eq!(found[2999], "A #3000");
    found.sort();
    found.dedup();
    assert_eq!(found.len(), 3000);
}
