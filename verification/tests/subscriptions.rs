//! Reading subscriptions.

use base64::Engine;
use sub_merger::link_reader::parse_uri_back;
use sub_merger::node::Node;
use sub_merger::seen::Seen;
use sub_merger::service::{batches, merge_links};
use sub_merger::subscription::{
    accepts_response, is_valid_proto, maybe_decode, parse_body, parse_content, parse_uris,
    try_decode_base64, MAX_BODY,
};
use sub_merger::yaml_reader::{apply_yaml_kv, parse_yaml, parse_yaml_value, set_value};

const LINKS: &str =
    "ss://YWVzLTI1Ni1nY206cGFzcw==@h.example:8388#A\ntrojan://pw@t.example:443#B\n";

fn list(items: &[&str]) -> Vec<String> {
    items.iter().map(|s| s.to_string()).collect()
}

fn both() -> Vec<String> {
    list(&["ss://YWVzLTI1Ni1nY206cGFzcw==@h.example:8388#A", "trojan://pw@t.example:443#B"])
}

fn encode(s: &str) -> String {
    base64::engine::general_purpose::STANDARD.encode(s)
}

fn content(s: &str) -> Vec<String> {
    parse_content(s, &mut Seen::new())
}

#[test]
fn schemes() {
    for p in [
        "vless", "vmess", "trojan", "ss", "ssr", "hysteria", "hysteria2", "hy2", "tuic", "snell",
        "wireguard", "wg", "socks", "socks5", "http", "https", "ssh",
    ] {
        assert!(is_valid_proto(p));
    }
    for p in ["", "VLESS", "ftp", "s", "socks4", "ss "] {
        assert!(!is_valid_proto(p));
    }
}

#[test]
fn lists_links() {
    let text = "# comment\r\n  ss://a#1  \nftp://x\n\nvless://b\n://c\na://b\nss://a#1\ntext ss://d\nhttp://p:1";
    let mut seen = Seen::new();
    assert_eq!(parse_uris(text, &mut seen), list(&["ss://a#1", "vless://b", "http://p:1"]));
    // Nothing is new the second time.
    assert_eq!(parse_uris(text, &mut seen), list(&[]));
    assert_eq!(parse_uris("ss://a#1\nss://a#2", &mut seen), list(&["ss://a#2"]));
}

#[test]
fn decodes_base64_with_white_space() {
    assert_eq!(try_decode_base64(" aGVs\r\nbG8= ").unwrap(), "hello");
    assert!(try_decode_base64("aGVsbG8").is_none());
    assert!(try_decode_base64("/w==").is_none());
    assert_eq!(try_decode_base64("").unwrap(), "");
}

#[test]
fn decodes_three_times_at_most() {
    let once = encode(LINKS);
    let twice = encode(&once);
    let thrice = encode(&twice);
    let four = encode(&thrice);
    assert_eq!(maybe_decode(LINKS.to_string()), LINKS);
    assert_eq!(maybe_decode(once.clone()), LINKS);
    assert_eq!(maybe_decode(twice.clone()), LINKS);
    assert_eq!(maybe_decode(thrice.clone()), LINKS);
    assert_eq!(maybe_decode(four.clone()), once);
    assert_eq!(maybe_decode("not, base64".to_string()), "not, base64");
    assert_eq!(maybe_decode("abc".to_string()), "abc");
    assert_eq!(content(&once), both());
    assert_eq!(content(&twice), both());
    assert_eq!(content(&thrice), both());
    assert_eq!(content(&four), list(&[]));
}

#[test]
fn known_base64_subscription() {
    let text = "c3M6Ly9ZV1Z6TFRJMU5pMW5ZMjA2Y0dGemN3PT1AaC5leGFtcGxlOjgzODgj\r\n\
                QQp0cm9qYW46Ly9wd0B0LmV4YW1wbGU6NDQzI0IK\n";
    assert_eq!(content(text), both());
}

#[test]
fn short_texts_are_no_base64() {
    // Twenty characters, which would decode to a link.
    let short = encode("ss://a@b:1#xyz");
    assert_eq!(short.len(), 20);
    assert_eq!(content(&short), list(&[]));
    let longer = encode("ss://a@b:1#xyzxyz");
    assert_eq!(longer.len(), 24);
    assert_eq!(content(&longer), list(&["ss://a@b:1#xyzxyz"]));
}

#[test]
fn a_list_of_links_is_a_subscription() {
    let links = content(LINKS);
    assert_eq!(links, both());
    let again: String = links.iter().map(|l| format!("{}\n", l)).collect();
    assert_eq!(content(&again), links);
    assert_eq!(content(""), list(&[]));
    assert_eq!(content("nothing here"), list(&[]));
}

const YAML: &str = "
port: 7890
proxies:
  - name: 'First: one'
    type: VLESS
    server: v.example
    port: 443
    uuid: b831381d-6324-4d53-ad4f-8cda48b30811
    network: ws
    unknown: x
    no colon here

  - type: ss
    server: \"s.example\"
    port: 8388
    method: aes-256-gcm
    password: pass
    name: A
  - {name: flow, type: ss}
  - name: dropped
    type: direct
proxy-groups:
  - name: VPN
    type: ss
    server: not.a.proxy
rules:
  - MATCH,VPN
";

#[test]
fn reads_yaml() {
    let links = content(YAML);
    assert_eq!(
        links,
        list(&[
            "vless://b831381d-6324-4d53-ad4f-8cda48b30811@v.example:443?type=ws#First%3A%20one",
            "ss://YWVzLTI1Ni1nY206cGFzcw==@s.example:8388#A",
        ])
    );
    let node = parse_uri_back(&links[0]).unwrap();
    assert_eq!(node.name, "First: one");
    assert_eq!(node.network, "ws");
}

#[test]
fn other_sections_add_nothing() {
    let list_only = "proxies:\n  - type: trojan\n    server: t\n    port: 1\n    password: p\n";
    let mut seen = Seen::new();
    let links = parse_yaml(list_only, &mut seen);
    assert_eq!(links, list(&["trojan://p@t:1#"]));
    let more = format!("{}rules:\n  - type: trojan\n    server: u\n    port: 1\n", list_only);
    assert_eq!(parse_yaml(&more, &mut Seen::new()), links);
    let again = format!("{}proxies:\n\t- type: trojan\n\t  server: u\n\t  port: 1\n", more);
    assert_eq!(
        parse_yaml(&again, &mut Seen::new()),
        list(&["trojan://p@t:1#", "trojan://@u:1#"])
    );
    assert_eq!(parse_yaml(&again, &mut seen), list(&["trojan://@u:1#"]));
    assert_eq!(parse_yaml("proxies:\n- type: trojan\n  server: t\n", &mut Seen::new()), list(&[]));
    assert_eq!(parse_yaml("  - type: trojan\n", &mut Seen::new()), list(&[]));
}

#[test]
fn yaml_values() {
    let value = |s: &str| parse_yaml_value(s);
    let pair = |k: &str, v: &str| Some((k.to_string(), v.to_string()));
    assert_eq!(value("name: x"), pair("name", "x"));
    assert_eq!(value(" name : \"a: 'b'\" "), pair("name", "a: 'b"));
    assert_eq!(value("'\"k': ''"), pair("'\"k'", ""));
    assert_eq!(value("k:"), pair("k", ""));
    assert_eq!(value(": v"), pair("", "v"));
    assert_eq!(value("no colon"), None);
}

#[test]
fn yaml_keys() {
    let set = |key: &str, value: &str| {
        let mut n = Node::default();
        apply_yaml_kv(&mut n, key, value);
        n
    };
    assert_eq!(set("name", "N").name, "N");
    assert_eq!(set("type", "VMess").kind, "vmess");
    assert_eq!(set("server", "s").server, "s");
    assert_eq!(set("address", "s").server, "s");
    assert_eq!(set("port", "1").port, "1");
    assert_eq!(set("uuid", "u").uuid, "u");
    assert_eq!(set("id", "u").uuid, "u");
    assert_eq!(set("password", "p").password, "p");
    assert_eq!(set("passwords", "p").password, "p");
    assert_eq!(set("cipher", "c").cipher, "c");
    assert_eq!(set("method", "c").cipher, "c");
    assert_eq!(set("alterId", "1").alter_id, "1");
    assert_eq!(set("alter-id", "1").alter_id, "1");
    assert_eq!(set("network", "ws").network, "ws");
    assert_eq!(set("network-type", "ws").network, "ws");
    assert!(set("tls", "true").tls);
    assert!(!set("tls", "True").tls);
    assert_eq!(set("sni", "s").sni, "s");
    assert_eq!(set("servername", "s").sni, "s");
    assert_eq!(set("host", "h").host, "h");
    assert_eq!(set("path", "/").path, "/");
    assert_eq!(set("flow", "f").flow, "f");
    assert_eq!(set("security", "tls").security, "tls");
    assert_eq!(set("pbk", "k").pbk, "k");
    assert_eq!(set("sid", "1").sid, "1");
    assert_eq!(set("alpn", "h2").alpn, "h2");
    assert_eq!(set("fp", "x").fp, "x");
    assert_eq!(set("fingerprint", "x").fp, "x");
    assert_eq!(set("congestion-controller", "bbr").congestion_controller, "bbr");
    assert_eq!(set("congestionController", "bbr").congestion_controller, "bbr");
    let n = set("encryption", "none");
    assert_eq!(n.encryption, "");
    assert_eq!(n.name, "");
    let mut n = Node::default();
    set_value(&mut n, "type", "VMess");
    assert_eq!(n.kind, "VMess");
}

#[test]
fn bodies() {
    let mut seen = Seen::new();
    assert_eq!(parse_body(LINKS.as_bytes(), &mut seen), both());
    assert_eq!(parse_body(LINKS.as_bytes(), &mut seen), list(&[]));
    // What is no UTF-8 becomes a replacement character.
    assert_eq!(parse_body(b"ss://a#\xffb", &mut seen), list(&["ss://a#\u{fffd}b"]));
    let mut large = LINKS.as_bytes().to_vec();
    large.resize(MAX_BODY, b'\n');
    assert_eq!(parse_body(&large, &mut Seen::new()), both());
    large.push(b'\n');
    assert_eq!(parse_body(&large, &mut Seen::new()), list(&[]));
}

#[test]
fn responses() {
    assert_eq!(MAX_BODY, 100 * 1024 * 1024);
    assert!(accepts_response(true, None));
    assert!(accepts_response(true, Some(MAX_BODY as u64)));
    assert!(!accepts_response(true, Some(MAX_BODY as u64 + 1)));
    assert!(!accepts_response(true, Some(u64::MAX)));
    assert!(!accepts_response(false, None));
    assert!(!accepts_response(false, Some(1)));
}

#[test]
fn batches_hold_all_in_order() {
    for n in 0usize..10 {
        let urls: Vec<String> = (0..n).map(|i| format!("u{}", i)).collect();
        let parts = batches(&urls);
        assert_eq!(parts.len(), n.div_ceil(3));
        assert!(parts.iter().all(|p| !p.is_empty() && p.len() <= 3));
        assert_eq!(parts.concat(), urls);
    }
}

#[test]
fn merging_keeps_the_first() {
    let mut all = Vec::new();
    let mut seen = Seen::new();
    merge_links(&mut all, &mut seen, list(&["a", "b", "a"]));
    merge_links(&mut all, &mut seen, list(&[]));
    merge_links(&mut all, &mut seen, list(&["c", "b", "d", "c"]));
    assert_eq!(all, list(&["a", "b", "c", "d"]));
    assert!(!seen.insert("d".to_string()));
    assert!(seen.insert("e".to_string()));
}
