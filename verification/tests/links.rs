//! Writing links and reading them back.

use base64::Engine;
use sub_merger::codec::{decode_base64, decode_url};
use sub_merger::foreign::JsonScalar;
use sub_merger::link_reader::{
    apply_vmess, get_node_name, is_uuid_digits, is_valid_cipher, normalize_ss_cipher,
    parse_uri_back, VmessMembers,
};
use sub_merger::link_writer::{build_query, build_uri};
use sub_merger::node::Node;

const UUID: &str = "b831381d-6324-4d53-ad4f-8cda48b30811";

fn node(kind: &str, name: &str, server: &str, port: &str) -> Node {
    let mut n = Node::default();
    n.kind = kind.to_string();
    n.name = name.to_string();
    n.server = server.to_string();
    n.port = port.to_string();
    n
}

fn vmess_link(json: &str) -> String {
    format!("vmess://{}", base64::engine::general_purpose::STANDARD.encode(json))
}

fn read(uri: &str) -> Node {
    parse_uri_back(uri).expect("a node")
}

#[test]
fn query_leaves_out_empty_values() {
    assert_eq!(build_query(&[]), "");
    assert_eq!(build_query(&[("a", ""), ("b", "")]), "");
    assert_eq!(build_query(&[("a", ""), ("b", "x y"), ("c", ""), ("d", "1&2")]), "?b=x%20y&d=1%262");
}

#[test]
fn ss_link_is_exact() {
    let mut n = node("ss", "DE 🇩🇪", "h.example", "8388");
    n.cipher = "aes-256-gcm".to_string();
    n.password = "p@ss:word".to_string();
    assert_eq!(
        build_uri(&n).unwrap(),
        "ss://YWVzLTI1Ni1nY206cEBzczp3b3Jk@h.example:8388#DE%20%F0%9F%87%A9%F0%9F%87%AA"
    );
}

#[test]
fn trojan_link_is_exact() {
    let mut n = node("trojan", "T", "t.example", "443");
    n.password = "p@ss/word".to_string();
    n.sni = "s.example".to_string();
    n.fp = "chrome".to_string();
    assert_eq!(
        build_uri(&n).unwrap(),
        "trojan://p%40ss%2Fword@t.example:443?sni=s.example&fp=chrome#T"
    );
}

#[test]
fn vless_link_is_exact() {
    let mut n = node("vless", "V #1", "v.example", "443");
    n.uuid = UUID.to_string();
    assert_eq!(
        build_uri(&n).unwrap(),
        format!("vless://{}@v.example:443?type=tcp#V%20%231", UUID)
    );
    n.encryption = "none".to_string();
    n.flow = "xtls-rprx-vision".to_string();
    n.security = "reality".to_string();
    n.sni = "s.example".to_string();
    n.fp = "chrome".to_string();
    n.pbk = "key+/=".to_string();
    n.sid = "ab12".to_string();
    n.alpn = "h2,http/1.1".to_string();
    n.network = "ws".to_string();
    n.host = "h.example".to_string();
    n.path = "/ray?ed=2048".to_string();
    assert_eq!(
        build_uri(&n).unwrap(),
        format!(
            "vless://{}@v.example:443?encryption=none&flow=xtls-rprx-vision&security=reality\
             &sni=s.example&fp=chrome&pbk=key%2B%2F%3D&sid=ab12&alpn=h2%2Chttp%2F1.1&type=ws\
             &host=h.example&path=%2Fray%3Fed%3D2048#V%20%231",
            UUID
        )
    );
}

#[test]
fn vmess_link_is_exact() {
    let mut n = node("vmess", "Node 1", "vm.example.com", "443");
    n.uuid = UUID.to_string();
    n.network = "ws".to_string();
    n.host = "h.example.com".to_string();
    n.path = "/ray".to_string();
    n.tls = true;
    n.sni = "s.example.com".to_string();
    assert_eq!(
        build_uri(&n).unwrap(),
        "vmess://eyJhZGQiOiJ2bS5leGFtcGxlLmNvbSIsImFpZCI6IjAiLCJob3N0IjoiaC5leGFtcGxlLmNvbSIsImlkIjoi\
         YjgzMTM4MWQtNjMyNC00ZDUzLWFkNGYtOGNkYTQ4YjMwODExIiwibmV0Ijoid3MiLCJwYXRoIjoiL3JheSIsInBvcnQi\
         OiI0NDMiLCJwcyI6Ik5vZGUgMSIsInNuaSI6InMuZXhhbXBsZS5jb20iLCJ0bHMiOiJ0bHMiLCJ0eXBlIjoibm9uZSIs\
         InYiOiIyIn0="
    );
}

#[test]
fn hysteria2_and_tuic_links_are_exact() {
    let mut h = node("hy2", "H", "h.example", "443");
    h.password = "a b".to_string();
    assert_eq!(build_uri(&h).unwrap(), "hysteria2://a%20b@h.example:443#H");
    h.kind = "hysteria2".to_string();
    assert_eq!(build_uri(&h).unwrap(), "hysteria2://a%20b@h.example:443#H");
    let mut t = node("tuic", "", "u.example", "8443");
    t.uuid = UUID.to_string();
    t.password = "pw".to_string();
    t.congestion_controller = "bbr".to_string();
    assert_eq!(
        build_uri(&t).unwrap(),
        format!("tuic://{}@u.example:8443?password=pw&congestion_control=bbr#", UUID)
    );
}

#[test]
fn other_protocols_are_not_written() {
    for kind in ["", "ssr", "snell", "VLESS", "wireguard"] {
        assert!(build_uri(&node(kind, "n", "h", "1")).is_none());
    }
}

#[test]
fn plain_links_round_trip() {
    let mut n = node("vless", "Имя 100%", "v.example", "443");
    n.uuid = UUID.to_string();
    n.security = "reality".to_string();
    n.sni = "s.example".to_string();
    n.pbk = "key".to_string();
    n.sid = "ab12".to_string();
    n.path = "/a&b=c#d".to_string();
    n.host = "  h.example  ".to_string();
    let r = read(&build_uri(&n).unwrap());
    assert_eq!(r.kind, "vless");
    assert_eq!(r.name, "Имя 100%");
    assert_eq!(r.server, "v.example");
    assert_eq!(r.port, "443");
    assert_eq!(r.uuid, UUID);
    assert_eq!(r.password, "");
    assert_eq!(r.security, "reality");
    assert_eq!(r.sni, "s.example");
    assert_eq!(r.pbk, "key");
    assert_eq!(r.sid, "ab12");
    assert_eq!(r.network, "tcp");
    // A value is cut at a `#`, and loses the white space around it.
    assert_eq!(r.path, "/a&b=c");
    assert_eq!(r.host, "h.example");

    let mut t = node("trojan", "T", "2001:db8::1", "443");
    t.password = "p@ss:w/rd?#".to_string();
    t.alpn = "h2".to_string();
    let r = read(&build_uri(&t).unwrap());
    assert_eq!((r.server.as_str(), r.port.as_str()), ("2001:db8::1", "443"));
    assert_eq!(r.password, "p@ss:w/rd?#");
    assert_eq!(r.uuid, "p@ss:w/rd?#");
    assert_eq!(r.alpn, "h2");

    let mut u = node("tuic", "U", "u.example", "8443");
    u.uuid = UUID.to_string();
    let r = read(&build_uri(&u).unwrap());
    assert_eq!((r.uuid.as_str(), r.password.as_str()), (UUID, UUID));
    u.password = "pw".to_string();
    let r = read(&build_uri(&u).unwrap());
    assert_eq!((r.uuid.as_str(), r.password.as_str()), (UUID, "pw"));
}

#[test]
fn ss_and_hysteria2_round_trip() {
    let mut s = node("ss", "S", "s.example", "8388");
    s.cipher = "CHACHA20-poly1305".to_string();
    s.password = "a:b@c".to_string();
    let r = read(&build_uri(&s).unwrap());
    assert_eq!(r.cipher, "chacha20-ietf-poly1305");
    assert_eq!(r.password, "a:b@c");
    assert_eq!((r.server.as_str(), r.port.as_str()), ("s.example", "8388"));
    let mut h = node("hy2", "H", "h.example", "443");
    h.password = "a@b".to_string();
    let r = read(&build_uri(&h).unwrap());
    assert_eq!(r.kind, "hysteria2");
    assert_eq!(r.password, "a@b");
}

#[test]
fn vmess_round_trips() {
    let mut n = node("vmess", "A \"quoted\" \\ name\n", "vm.example", "no number");
    n.uuid = UUID.to_string();
    n.tls = true;
    n.sni = "s#x".to_string();
    let r = read(&build_uri(&n).unwrap());
    assert_eq!(r.name, "A \"quoted\" \\ name\n");
    assert_eq!(r.port, "no number");
    assert_eq!(r.alter_id, "0");
    assert_eq!(r.network, "tcp");
    assert!(r.tls);
    assert_eq!(r.sni, "s");
}

#[test]
fn name_stands_in_the_link() {
    let mut n = node("trojan", "Привет #1", "t.example", "443");
    n.password = "pw".to_string();
    let uri = build_uri(&n).unwrap();
    assert!(uri.ends_with("#%D0%9F%D1%80%D0%B8%D0%B2%D0%B5%D1%82%20%231"));
    assert_eq!(get_node_name(&uri), "Привет #1");
    assert_eq!(get_node_name("ss://x@h:1"), "");
    assert_eq!(get_node_name("a#b#c%20d"), "c d");
    // Bytes that are no UTF-8 give no name.
    assert_eq!(get_node_name("a#%FF"), "");
    assert_eq!(get_node_name("a#50%"), "50%");
}

#[test]
fn percent_decoding_leaves_bad_escapes() {
    assert_eq!(decode_url("a+b%20c"), "a+b c");
    assert_eq!(decode_url("%%41"), "%A");
    assert_eq!(decode_url("%4"), "%4");
    assert_eq!(decode_url("%4g%"), "%4g%");
    assert_eq!(decode_url("%e2%82%AC"), "€");
    assert_eq!(decode_url("%ff"), "");
}

#[test]
fn base64_is_strict() {
    assert_eq!(decode_base64("aGk=").unwrap(), "hi");
    assert_eq!(decode_base64("").unwrap(), "");
    assert!(decode_base64("aGk").is_none());
    assert!(decode_base64("aGl=").is_none());
    assert!(decode_base64("aG k=").is_none());
    assert!(decode_base64("_w==").is_none());
    assert!(decode_base64("/w==").is_none());
}

#[test]
fn reads_parameters() {
    let r = read(&format!(
        "vless://{}@h.example:443/path?servername=a&sni=b%20&type=grpc&sid=zzAB-12&flow=&bad&x=1\
         &encryption=none&alpn=h2%23x#N",
        UUID
    ));
    assert_eq!(r.port, "443");
    assert_eq!(r.sni, "b");
    assert_eq!(r.network, "grpc");
    assert_eq!(r.sid, "AB12");
    assert_eq!(r.flow, "");
    assert_eq!(r.encryption, "none");
    assert_eq!(r.alpn, "h2");
    assert_eq!(r.name, "N");
}

#[test]
fn short_ids_are_checked() {
    let with_sid = |sid: &str| read(&format!("vless://{}@h:1?sid={}#N", UUID, sid)).sid;
    assert_eq!(with_sid("0123456789abcdef"), "0123456789abcdef");
    assert_eq!(with_sid("0123456789abcdef01"), "");
    assert_eq!(with_sid("abc"), "");
    assert_eq!(with_sid("xyz"), "");
}

#[test]
fn links_that_describe_no_node() {
    for uri in [
        "",
        "no link",
        "ssr://abc",
        "http://h:1",
        "vless://h:1",
        "trojan://pw@h",
        "trojan://pw@h:",
        "trojan://pw@h:x",
        "trojan://pw@:443",
        "vless://not-a-uuid@h:1",
        "tuic://b831381d-6324-4d53-ad4f-8cda48b3081@h:1",
        "vless://b831381d-6324-4d53-ad4f-8cda48b3081g@h:1",
        "hysteria2://pw",
        "hysteria2://pw@h",
        "hysteria2://pw@h:x",
        "ss://YWVzLTI1Ni1nY206cEBzczp3b3Jk",
        "ss://YWVzLTI1Ni1nY206cEBzczp3b3Jk@h",
        "ss://%FF@h:1",
        "ss://nocolon@h:1",
        "ss://c3M6c2VjcmV0@h:1",
        "vmess://!!!",
        "vmess://WzEsMl0=",
        "vmess:///w==",
        "vmess://aGk=",
    ] {
        assert!(parse_uri_back(uri).is_none(), "{}", uri);
    }
}

#[test]
fn uuids_may_have_dashes_anywhere_and_any_case() {
    let r = read("vless://B831381D63244D53AD4F8CDA48B30811@h:1#N");
    assert_eq!(r.uuid, "B831381D63244D53AD4F8CDA48B30811");
    let r = read("vless://%62831381d-63244d53ad4f8cda48b30811-@h:1");
    assert_eq!(r.uuid, "b831381d-63244d53ad4f8cda48b30811-");
    assert_eq!(r.name, "");
    assert!(parse_uri_back("vless://b831381d63244d53ad4f8cda48b3081\u{212a}@h:1").is_none());
    assert!(parse_uri_back("vless://b831381d63244d53ad4f8cda48b3081\u{ff11}@h:1").is_none());
    assert!(is_uuid_digits("b831381d63244d53ad4f8cda48b30811"));
    assert!(!is_uuid_digits("b831381d63244d53ad4f8cda48b3081"));
    assert!(!is_uuid_digits("b831381d63244d53ad4f8cda48b3081g"));
}

#[test]
fn ss_secret_may_be_percent_encoded() {
    let r = read("ss://aes-128-gcm:p%40ss@h.example:8388/?plugin=x#N");
    assert_eq!(r.cipher, "aes-128-gcm");
    assert_eq!(r.password, "p@ss");
    assert_eq!(r.server, "h.example");
    assert_eq!(r.port, "8388");
    let r = read("ss://Y2hhY2hhMjAtcG9seTEzMDU6c2VjcmV0@h:1#N");
    assert_eq!(r.cipher, "chacha20-ietf-poly1305");
    let r = read("ss://Q0hBQ0hBMjAtUE9MWTEzMDU6c2VjcmV0@h:1#N");
    assert_eq!(r.cipher, "chacha20-ietf-poly1305");
}

#[test]
fn ciphers_have_canonical_names() {
    assert_eq!(normalize_ss_cipher("chacha20-poly1305"), "chacha20-ietf-poly1305");
    assert_eq!(normalize_ss_cipher("xchacha20-poly1305"), "xchacha20-ietf-poly1305");
    assert_eq!(normalize_ss_cipher("AES-256-GCM"), "AES-256-GCM");
    for cipher in [
        "aes-128-gcm",
        "aes-192-gcm",
        "aes-256-gcm",
        "chacha20-ietf-poly1305",
        "xchacha20-ietf-poly1305",
        "2022-blake3-aes-128-gcm",
        "2022-blake3-aes-256-gcm",
        "2022-blake3-chacha20-poly1305",
        "aes-128-cfb",
        "aes-192-cfb",
        "aes-256-cfb",
        "aes-128-ctr",
        "aes-192-ctr",
        "aes-256-ctr",
        "chacha20-ietf",
        "chacha20",
        "rc4-md5",
        "none",
    ] {
        assert!(is_valid_cipher(cipher));
        assert_eq!(normalize_ss_cipher(cipher), cipher);
    }
    for cipher in ["", "ss", "AES-128-GCM", "chacha20-poly1305", "rc4"] {
        assert!(!is_valid_cipher(cipher));
    }
}

#[test]
fn vmess_members_of_any_type() {
    let r = read(&vmess_link(r#"{"ps":"n","add":"a.example","port":8443,"id":"x","aid":64,"tls":""}"#));
    assert_eq!((r.name.as_str(), r.server.as_str(), r.port.as_str()), ("n", "a.example", "8443"));
    assert_eq!((r.uuid.as_str(), r.alter_id.as_str(), r.network.as_str()), ("x", "64", "tcp"));
    assert!(!r.tls);
    let r = read(&vmess_link(
        r#"{"ps":"n","add":"a.example","id":"x","aid":"","net":"grpc","sni":"one#two"}"#,
    ));
    assert_eq!((r.port.as_str(), r.alter_id.as_str(), r.network.as_str()), ("443", "0", "grpc"));
    assert_eq!(r.sni, "one");
    let r = read(&vmess_link(r#"{"ps":7,"add":"a.example","port":true,"aid":1.5}"#));
    assert_eq!((r.name.as_str(), r.port.as_str(), r.alter_id.as_str()), ("", "443", "0"));
    let r = read(&vmess_link(r#"{"add":"a.example","aid":-7,"port":"80"}"#));
    assert_eq!((r.port.as_str(), r.alter_id.as_str()), ("80", "-7"));
    let r = read(&vmess_link(r#"{"add":"a.example","aid":"16","port":1.5}"#));
    assert_eq!((r.port.as_str(), r.alter_id.as_str()), ("1.5", "16"));
    // The name after a `#` gives way to the one in the object.
    let link = format!("{}#other", vmess_link(r#"{"ps":"inner","add":"a.example"}"#));
    assert_eq!(read(&link).name, "inner");
    assert_eq!(get_node_name(&link), "other");
    assert!(parse_uri_back(&vmess_link(r#"{"add":""}"#)).is_none());
    assert!(parse_uri_back(&vmess_link(r#"{"add":"a","port":""}"#)).is_none());
}

#[test]
fn vmess_fields_from_members() {
    let text = |s: &str| JsonScalar::Text(s.to_string());
    let r = apply_vmess(
        Node::default(),
        VmessMembers {
            ps: text("n"),
            add: text("h.example"),
            port: JsonScalar::Number { text: "443".to_string(), integer: Some(443) },
            id: text("u"),
            aid: JsonScalar::Number { text: "-9223372036854775808".to_string(), integer: Some(i64::MIN) },
            net: JsonScalar::Other,
            host: JsonScalar::Number { text: "1".to_string(), integer: Some(1) },
            path: text("/p"),
            tls: text("tls"),
            sni: text("s"),
        },
    );
    assert_eq!((r.name.as_str(), r.server.as_str(), r.port.as_str()), ("n", "h.example", "443"));
    assert_eq!(r.alter_id, "-9223372036854775808");
    assert_eq!((r.network.as_str(), r.host.as_str(), r.path.as_str()), ("tcp", "", "/p"));
    assert!(r.tls);
}
