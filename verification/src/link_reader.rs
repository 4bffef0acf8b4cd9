//! Reading a share link back into the node that it describes.

use crate::codec::{base64_content, decode_base64, decode_url, url_content};
use crate::cut::{
    all_by, before, cut, cut_last, find, head, keep_by, leading, leading_by, pieces, position,
    rsplit_once, split, split_once, trim, trimmed,
};
use crate::decimal::{signed_decimal, signed_decimal_text};
use crate::foreign::{
    json_document, json_member, lowercase, member_of, parse_json, to_lowercase, url_decode,
    url_decoded, JsonScalar, JsonView,
};
use crate::link_writer::{or_else, text_or};
use crate::node::{blank, Node, NodeView};
use crate::text::{
    chars_of, digit, hex_digit, is_digit, is_hex_digit, same_text, slices, spells, text_of,
};
use vstd::prelude::*;
use vstd::slice::slice_subrange;

verus! {

/// The name under which Mihomo knows a cipher; some sources use an older, shorter one.
pub open spec fn canonical_cipher(c: Seq<char>) -> Seq<char> {
    if c == "chacha20-poly1305"@ {
        "chacha20-ietf-poly1305"@
    } else if c == "xchacha20-poly1305"@ {
        "xchacha20-ietf-poly1305"@
    } else {
        c
    }
}

/// Replaces the older names of ciphers by those that Mihomo knows.
pub fn normalize_ss_cipher(cipher: &str) -> (r: String)
    ensures
        r@ == canonical_cipher(cipher@),
{
    if same_text(cipher, "chacha20-poly1305") {
        "chacha20-ietf-poly1305".to_owned()
    } else if same_text(cipher, "xchacha20-poly1305") {
        "xchacha20-ietf-poly1305".to_owned()
    } else {
        cipher.to_owned()
    }
}

/// The ciphers of `ss` that Mihomo accepts.
pub open spec fn valid_cipher(c: Seq<char>) -> bool {
    ||| c == "aes-128-gcm"@
    ||| c == "aes-192-gcm"@
    ||| c == "aes-256-gcm"@
    ||| c == "chacha20-ietf-poly1305"@
    ||| c == "xchacha20-ietf-poly1305"@
    ||| c == "2022-blake3-aes-128-gcm"@
    ||| c == "2022-blake3-aes-256-gcm"@
    ||| c == "2022-blake3-chacha20-poly1305"@
    ||| c == "aes-128-cfb"@
    ||| c == "aes-192-cfb"@
    ||| c == "aes-256-cfb"@
    ||| c == "aes-128-ctr"@
    ||| c == "aes-192-ctr"@
    ||| c == "aes-256-ctr"@
    ||| c == "chacha20-ietf"@
    ||| c == "chacha20"@
    ||| c == "rc4-md5"@
    ||| c == "none"@
}

/// Tells whether Mihomo accepts a cipher.
pub fn is_valid_cipher(cipher: &str) -> (r: bool)
    ensures
        r == valid_cipher(cipher@),
{
    let chars = chars_of(cipher);
    let c = chars.as_slice();
    spells(c, "aes-128-gcm") || spells(c, "aes-192-gcm") || spells(c, "aes-256-gcm") || spells(
        c,
        "chacha20-ietf-poly1305",
    ) || spells(c, "xchacha20-ietf-poly1305") || spells(c, "2022-blake3-aes-128-gcm") || spells(
        c,
        "2022-blake3-aes-256-gcm",
    ) || spells(c, "2022-blake3-chacha20-poly1305") || spells(c, "aes-128-cfb") || spells(
        c,
        "aes-192-cfb",
    ) || spells(c, "aes-256-cfb") || spells(c, "aes-128-ctr") || spells(c, "aes-192-ctr") || spells(
        c,
        "aes-256-ctr",
    ) || spells(c, "chacha20-ietf") || spells(c, "chacha20") || spells(c, "rc4-md5") || spells(
        c,
        "none",
    )
}

/// What stands before and after the `://` of a link.
pub open spec fn scheme_and_rest(uri: Seq<char>) -> Option<(Seq<char>, Seq<char>)> {
    match position(uri, "://"@) {
        Some(i) => Some((uri.take(i), uri.skip(i + 3))),
        None => None,
    }
}

/// A link after its scheme, parted into what stands before the last `#` and the name after it.
pub open spec fn body_and_name(rest: Seq<char>) -> (Seq<char>, Seq<char>) {
    match cut_last(rest, '#') {
        Some((body, name)) => (body, url_content(name)),
        None => (rest, seq![]),
    }
}

/// The value of a parameter: percent-decoded, cut at the first `#`, without white space around
/// it.
pub open spec fn param_value(raw: Seq<char>) -> Seq<char> {
    trimmed(before(url_content(raw), '#'))
}

/// A short id is kept if its hexadecimal digits are sixteen at most and even in number.
pub open spec fn with_sid(n: NodeView, v: Seq<char>) -> NodeView {
    let sid = v.filter(|c: char| hex_digit(c));
    if sid.len() <= 16 && sid.len() % 2 == 0 {
        NodeView { sid, ..n }
    } else {
        n
    }
}

/// A node with the field set that a parameter names.
pub open spec fn with_field(n: NodeView, key: Seq<char>, v: Seq<char>) -> NodeView {
    if key == "sni"@ || key == "servername"@ {
        NodeView { sni: v, ..n }
    } else if key == "fp"@ {
        NodeView { fp: v, ..n }
    } else if key == "pbk"@ {
        NodeView { pbk: v, ..n }
    } else if key == "sid"@ {
        with_sid(n, v)
    } else if key == "alpn"@ {
        NodeView { alpn: v, ..n }
    } else if key == "flow"@ {
        NodeView { flow: v, ..n }
    } else if key == "security"@ {
        NodeView { security: v, ..n }
    } else if key == "type"@ {
        NodeView { network: v, ..n }
    } else if key == "host"@ {
        NodeView { host: v, ..n }
    } else if key == "path"@ {
        NodeView { path: v, ..n }
    } else if key == "password"@ {
        NodeView { password: v, ..n }
    } else if key == "congestion_control"@ {
        NodeView { congestion_controller: v, ..n }
    } else if key == "encryption"@ {
        NodeView { encryption: v, ..n }
    } else {
        n
    }
}

/// A node with one parameter of a query applied. A parameter without `=` or without a value
/// changes nothing.
pub open spec fn with_param(n: NodeView, param: Seq<char>) -> NodeView {
    match cut(param, '=') {
        Some((key, raw)) => {
            let v = param_value(raw);
            if v.len() == 0 {
                n
            } else {
                with_field(n, key, v)
            }
        },
        None => n,
    }
}

/// A node with the parameters of a query applied, from first to last.
pub open spec fn with_params(n: NodeView, params: Seq<Seq<char>>) -> NodeView
    decreases params.len(),
{
    if params.len() == 0 {
        n
    } else {
        with_param(with_params(n, params.drop_last()), params.last())
    }
}

/// What a UUID is without its dashes: thirty-two hexadecimal digits.
pub open spec fn uuid_digits(s: Seq<char>) -> bool {
    s.len() == 32 && s.all(|c: char| hex_digit(c))
}

/// A UUID: thirty-two hexadecimal digits, with any number of dashes among them.
pub open spec fn valid_uuid(u: Seq<char>) -> bool {
    uuid_digits(u.filter(|c: char| c != '-'))
}

/// Tells whether a text is what a UUID is without its dashes.
pub fn is_uuid_digits(s: &str) -> (r: bool)
    ensures
        r == uuid_digits(s@),
{
    let digits = chars_of(s);
    digits.len() == 32 && all_by(digits.as_slice(), is_hex_digit, Ghost(|c: char| hex_digit(c)))
}

fn is_no_dash(c: char) -> (r: bool)
    ensures
        r == (c != '-'),
{
    c != '-'
}

fn is_valid_uuid(uuid: &str) -> (r: bool)
    ensures
        r == valid_uuid(uuid@),
{
    let chars = chars_of(uuid);
    let kept = keep_by(chars.as_slice(), is_no_dash, Ghost(|c: char| c != '-'));
    let plain = text_of(kept.as_slice());
    is_uuid_digits(plain.as_str())
}

fn apply_field(node: &mut Node, key: &[char], value: String)
    ensures
        final(node)@ == with_field(old(node)@, key@, value@),
{
    if spells(key, "sni") || spells(key, "servername") {
        node.sni = value;
    } else if spells(key, "fp") {
        node.fp = value;
    } else if spells(key, "pbk") {
        node.pbk = value;
    } else if spells(key, "sid") {
        let chars = chars_of(value.as_str());
        let kept = keep_by(chars.as_slice(), is_hex_digit, Ghost(|c: char| hex_digit(c)));
        if kept.len() <= 16 && kept.len() % 2 == 0 {
            node.sid = text_of(kept.as_slice());
        }
    } else if spells(key, "alpn") {
        node.alpn = value;
    } else if spells(key, "flow") {
        node.flow = value;
    } else if spells(key, "security") {
        node.security = value;
    } else if spells(key, "type") {
        node.network = value;
    } else if spells(key, "host") {
        node.host = value;
    } else if spells(key, "path") {
        node.path = value;
    } else if spells(key, "password") {
        node.password = value;
    } else if spells(key, "congestion_control") {
        node.congestion_controller = value;
    } else if spells(key, "encryption") {
        node.encryption = value;
    }
}

fn apply_param(node: &mut Node, param: &[char])
    ensures
        final(node)@ == with_param(old(node)@, param@),
{
    if let Some((key, raw)) = split_once(param, '=') {
        let decoded = decode_url(text_of(raw).as_str());
        let chars = chars_of(decoded.as_str());
        let value = trim(head(chars.as_slice(), '#'));
        if value.len() > 0 {
            apply_field(node, key, text_of(value));
        }
    }
}

fn apply_params(node: &mut Node, query: &[char])
    ensures
        final(node)@ == with_params(old(node)@, pieces(query@, '&')),
{
    let params = split(query, '&');
    let ghost list = slices(params@);
    let mut i: usize = 0;
    while i < params.len()
        invariant
            list == slices(params@),
            i <= params@.len(),
            node@ == with_params(old(node)@, list.take(i as int)),
        decreases params@.len() - i,
    {
        assert(list.take(i + 1).drop_last() =~= list.take(i as int));
        apply_param(node, params[i]);
        i += 1;
    }
    assert(list.take(i as int) =~= list);
}

/// The query of a link and what stands before it.
pub open spec fn query_cut(s: Seq<char>) -> (Seq<char>, Seq<char>) {
    match cut(s, '?') {
        Some((a, b)) => (a, b),
        None => (s, seq![]),
    }
}

/// A node read from the body of a `vless`, `trojan` or `tuic` link.
pub open spec fn read_plain(base: NodeView, body: Seq<char>) -> Option<NodeView> {
    match cut(body, '@') {
        Some((auth, host_part)) => {
            let (host_port, query) = query_cut(host_part);
            match cut_last(host_port, ':') {
                Some((server, port)) => {
                    let digits = leading(port, |c: char| digit(c));
                    let user = url_content(auth);
                    let start = NodeView {
                        uuid: user,
                        password: if base.kind == "trojan"@ || base.kind == "tuic"@ {
                            user
                        } else {
                            base.password
                        },
                        server,
                        port: digits,
                        ..base
                    };
                    let n = with_params(start, pieces(query, '&'));
                    if digits.len() == 0 {
                        None
                    } else if (base.kind == "vless"@ || base.kind == "tuic"@) && !valid_uuid(
                        n.uuid,
                    ) {
                        None
                    } else {
                        Some(n)
                    }
                },
                None => None,
            }
        },
        None => None,
    }
}

/// The text that a member of a JSON object is, or another where it is no text.
pub open spec fn text_member(m: JsonView, default: Seq<char>) -> Seq<char> {
    match m {
        JsonView::Text(t) => t,
        _ => default,
    }
}

/// The port that a member of a JSON object gives.
pub open spec fn port_member(m: JsonView) -> Seq<char> {
    match m {
        JsonView::Number { text, .. } => text,
        JsonView::Text(t) => t,
        JsonView::Other => "443"@,
    }
}

/// The alter id that a member of a JSON object gives.
pub open spec fn alter_id_member(m: JsonView) -> Seq<char> {
    match m {
        JsonView::Text(t) => or_else(t, "0"@),
        JsonView::Number { integer: Some(i), .. } => signed_decimal(i as int),
        _ => "0"@,
    }
}

/// The members of the JSON object of a `vmess` link that are read.
pub struct VmessMembers {
    pub ps: JsonScalar,
    pub add: JsonScalar,
    pub port: JsonScalar,
    pub id: JsonScalar,
    pub aid: JsonScalar,
    pub net: JsonScalar,
    pub host: JsonScalar,
    pub path: JsonScalar,
    pub tls: JsonScalar,
    pub sni: JsonScalar,
}

/// A node with the members of a `vmess` link.
pub open spec fn with_vmess(base: NodeView, m: VmessMembers) -> NodeView {
    NodeView {
        name: text_member(m.ps@, seq![]),
        server: text_member(m.add@, seq![]),
        port: port_member(m.port@),
        uuid: text_member(m.id@, seq![]),
        alter_id: alter_id_member(m.aid@),
        network: text_member(m.net@, "tcp"@),
        host: text_member(m.host@, seq![]),
        path: text_member(m.path@, seq![]),
        tls: text_member(m.tls@, seq![]) == "tls"@,
        sni: text_member(m.sni@, seq![]),
        ..base
    }
}

/// A node with the members of the JSON object of a `vmess` link.
pub open spec fn with_members(base: NodeView, m: Map<Seq<char>, JsonView>) -> NodeView {
    NodeView {
        name: text_member(member_of(m, "ps"@), seq![]),
        server: text_member(member_of(m, "add"@), seq![]),
        port: port_member(member_of(m, "port"@)),
        uuid: text_member(member_of(m, "id"@), seq![]),
        alter_id: alter_id_member(member_of(m, "aid"@)),
        network: text_member(member_of(m, "net"@), "tcp"@),
        host: text_member(member_of(m, "host"@), seq![]),
        path: text_member(member_of(m, "path"@), seq![]),
        tls: text_member(member_of(m, "tls"@), seq![]) == "tls"@,
        sni: text_member(member_of(m, "sni"@), seq![]),
        ..base
    }
}

/// A node read from the body of a `vmess` link.
pub open spec fn read_vmess(base: NodeView, body: Seq<char>) -> Option<NodeView> {
    match base64_content(body) {
        Some(text) => match json_document(text) {
            Some(m) => Some(with_members(base, m)),
            None => None,
        },
        None => None,
    }
}

/// Cipher and password of an `ss` link: base64, or percent-encoded where it is no base64.
pub open spec fn ss_secret(auth: Seq<char>) -> Option<Seq<char>> {
    match base64_content(auth) {
        Some(s) => Some(s),
        None => url_decoded(auth),
    }
}

/// A node read from the body of an `ss` link.
pub open spec fn read_ss(base: NodeView, body: Seq<char>) -> Option<NodeView> {
    match cut(body, '@') {
        Some((auth, host_part)) => match (cut_last(host_part, ':'), ss_secret(auth)) {
            (Some((server, port)), Some(secret)) => match cut(secret, ':') {
                Some((method, password)) => {
                    let cipher = canonical_cipher(lowercase(method));
                    if valid_cipher(cipher) {
                        Some(
                            NodeView {
                                cipher,
                                password,
                                server,
                                port: leading(port, |c: char| digit(c)),
                                ..base
                            },
                        )
                    } else {
                        None
                    }
                },
                None => None,
            },
            _ => None,
        },
        None => None,
    }
}

/// A node read from the body of a `hysteria2` link.
pub open spec fn read_hysteria2(base: NodeView, body: Seq<char>) -> Option<NodeView> {
    match cut(body, '@') {
        Some((auth, host_part)) => match cut_last(host_part, ':') {
            Some((server, port)) => Some(
                NodeView {
                    kind: "hysteria2"@,
                    password: url_content(auth),
                    server,
                    port: leading(port, |c: char| digit(c)),
                    ..base
                },
            ),
            None => None,
        },
        None => None,
    }
}

/// A node read from the body of a link, by the protocol that its scheme names.
pub open spec fn read_body(base: NodeView, body: Seq<char>) -> Option<NodeView> {
    let kind = base.kind;
    if kind == "vless"@ || kind == "trojan"@ || kind == "tuic"@ {
        read_plain(base, body)
    } else if kind == "vmess"@ {
        read_vmess(base, body)
    } else if kind == "ss"@ {
        read_ss(base, body)
    } else if kind == "hysteria2"@ || kind == "hy2"@ {
        read_hysteria2(base, body)
    } else {
        None
    }
}

/// A node is of use if its server and its port are known; its server name ends at a `#`.
pub open spec fn finished(n: NodeView) -> Option<NodeView> {
    if n.server.len() == 0 || n.port.len() == 0 {
        None
    } else {
        Some(NodeView { sni: before(n.sni, '#'), ..n })
    }
}

/// The node that a link describes, if it is a link of a known protocol that describes one.
pub open spec fn node_of(uri: Seq<char>) -> Option<NodeView> {
    match scheme_and_rest(uri) {
        Some((kind, rest)) => {
            let (body, name) = body_and_name(rest);
            match read_body(NodeView { kind, name, ..blank() }, body) {
                Some(n) => finished(n),
                None => None,
            }
        },
        None => None,
    }
}

fn parse_plain(base: Node, body: &[char]) -> (r: Option<Node>)
    ensures
        match r {
            Some(n) => read_plain(base@, body@) == Some(n@),
            None => read_plain(base@, body@) is None,
        },
{
    let (auth, host_part) = match split_once(body, '@') {
        Some(parts) => parts,
        None => return None,
    };
    let (host_port, query) = match split_once(host_part, '?') {
        Some(parts) => parts,
        None => (host_part, slice_subrange(host_part, 0, 0)),
    };
    assert(query_cut(host_part@).1 =~= query@);
    let (server, port) = match rsplit_once(host_port, ':') {
        Some(parts) => parts,
        None => return None,
    };
    let digits = leading_by(port, is_digit, Ghost(|c: char| digit(c)));
    if digits.len() == 0 {
        return None;
    }
    let mut node = base;
    let kind = chars_of(node.kind.as_str());
    let is_vless = spells(kind.as_slice(), "vless");
    let is_trojan = spells(kind.as_slice(), "trojan");
    let is_tuic = spells(kind.as_slice(), "tuic");
    let user = decode_url(text_of(auth).as_str());
    if is_trojan || is_tuic {
        node.password = user.clone();
    }
    node.uuid = user;
    node.server = text_of(server);
    node.port = text_of(digits);
    apply_params(&mut node, query);
    if (is_vless || is_tuic) && !is_valid_uuid(node.uuid.as_str()) {
        return None;
    }
    Some(node)
}

fn take_text(m: JsonScalar, default: &str) -> (r: String)
    ensures
        r@ == text_member(m@, default@),
{
    match m {
        JsonScalar::Text(t) => t,
        _ => default.to_owned(),
    }
}

fn take_port(m: JsonScalar) -> (r: String)
    ensures
        r@ == port_member(m@),
{
    match m {
        JsonScalar::Number { text, .. } => text,
        JsonScalar::Text(t) => t,
        JsonScalar::Other => "443".to_owned(),
    }
}

fn take_alter_id(m: JsonScalar) -> (r: String)
    ensures
        r@ == alter_id_member(m@),
{
    match m {
        JsonScalar::Text(t) => text_or(t.as_str(), "0").to_owned(),
        JsonScalar::Number { integer: Some(i), .. } => signed_decimal_text(i),
        _ => "0".to_owned(),
    }
}

/// Sets the fields of a node that a `vmess` link carries.
pub fn apply_vmess(base: Node, m: VmessMembers) -> (r: Node)
    ensures
        r@ == with_vmess(base@, m),
{
    let mut node = base;
    let empty = String::new();
    assert(empty@ =~= seq![]);
    node.name = take_text(m.ps, empty.as_str());
    node.server = take_text(m.add, empty.as_str());
    node.port = take_port(m.port);
    node.uuid = take_text(m.id, empty.as_str());
    node.alter_id = take_alter_id(m.aid);
    node.network = take_text(m.net, "tcp");
    node.host = take_text(m.host, empty.as_str());
    node.path = take_text(m.path, empty.as_str());
    let tls = take_text(m.tls, empty.as_str());
    node.tls = same_text(tls.as_str(), "tls");
    node.sni = take_text(m.sni, empty.as_str());
    node
}

fn parse_vmess(base: Node, body: &[char]) -> (r: Option<Node>)
    ensures
        match r {
            Some(n) => read_vmess(base@, body@) == Some(n@),
            None => read_vmess(base@, body@) is None,
        },
{
    let text = match decode_base64(text_of(body).as_str()) {
        Some(text) => text,
        None => return None,
    };
    let value = match parse_json(text.as_str()) {
        Some(value) => value,
        None => return None,
    };
    let members = VmessMembers {
        ps: json_member(&value, "ps"),
        add: json_member(&value, "add"),
        port: json_member(&value, "port"),
        id: json_member(&value, "id"),
        aid: json_member(&value, "aid"),
        net: json_member(&value, "net"),
        host: json_member(&value, "host"),
        path: json_member(&value, "path"),
        tls: json_member(&value, "tls"),
        sni: json_member(&value, "sni"),
    };
    Some(apply_vmess(base, members))
}

fn parse_ss(base: Node, body: &[char]) -> (r: Option<Node>)
    ensures
        match r {
            Some(n) => read_ss(base@, body@) == Some(n@),
            None => read_ss(base@, body@) is None,
        },
{
    let (auth, host_part) = match split_once(body, '@') {
        Some(parts) => parts,
        None => return None,
    };
    let (server, port) = match rsplit_once(host_part, ':') {
        Some(parts) => parts,
        None => return None,
    };
    let auth_text = text_of(auth);
    let secret = match decode_base64(auth_text.as_str()) {
        Some(s) => s,
        None => match url_decode(auth_text.as_str()) {
            Some(s) => s,
            None => return None,
        },
    };
    let secret_chars = chars_of(secret.as_str());
    let (method, password) = match split_once(secret_chars.as_slice(), ':') {
        Some(parts) => parts,
        None => return None,
    };
    let lowered = to_lowercase(text_of(method).as_str());
    let cipher = normalize_ss_cipher(lowered.as_str());
    if !is_valid_cipher(cipher.as_str()) {
        return None;
    }
    let mut node = base;
    node.cipher = cipher;
    node.password = text_of(password);
    node.server = text_of(server);
    node.port = text_of(leading_by(port, is_digit, Ghost(|c: char| digit(c))));
    Some(node)
}

fn parse_hysteria2(base: Node, body: &[char]) -> (r: Option<Node>)
    ensures
        match r {
            Some(n) => read_hysteria2(base@, body@) == Some(n@),
            None => read_hysteria2(base@, body@) is None,
        },
{
    let (auth, host_part) = match split_once(body, '@') {
        Some(parts) => parts,
        None => return None,
    };
    let (server, port) = match rsplit_once(host_part, ':') {
        Some(parts) => parts,
        None => return None,
    };
    let mut node = base;
    node.kind = "hysteria2".to_owned();
    node.password = decode_url(text_of(auth).as_str());
    node.server = text_of(server);
    node.port = text_of(leading_by(port, is_digit, Ghost(|c: char| digit(c))));
    Some(node)
}

fn parse_body(base: Node, body: &[char]) -> (r: Option<Node>)
    ensures
        match r {
            Some(n) => read_body(base@, body@) == Some(n@),
            None => read_body(base@, body@) is None,
        },
{
    let kind = chars_of(base.kind.as_str());
    let k = kind.as_slice();
    if spells(k, "vless") || spells(k, "trojan") || spells(k, "tuic") {
        parse_plain(base, body)
    } else if spells(k, "vmess") {
        parse_vmess(base, body)
    } else if spells(k, "ss") {
        parse_ss(base, body)
    } else if spells(k, "hysteria2") || spells(k, "hy2") {
        parse_hysteria2(base, body)
    } else {
        None
    }
}

/// Cuts a link at the first `://`.
pub(crate) fn split_scheme<'a>(uri: &'a [char]) -> (r: Option<(&'a [char], &'a [char])>)
    ensures
        match r {
            Some((a, b)) => scheme_and_rest(uri@) == Some((a@, b@)),
            None => scheme_and_rest(uri@) is None,
        },
{
    let mark = chars_of("://");
    proof {
        reveal_strlit("://");
    }
    match find(uri, mark.as_slice()) {
        Some(i) => {
            let n: usize = uri.len();
            let scheme = slice_subrange(uri, 0, i);
            let rest = slice_subrange(uri, i + 3, n);
            Some((scheme, rest))
        },
        None => None,
    }
}

/// Reads a link back into the node that it describes.
pub fn parse_uri_back(uri: &str) -> (r: Option<Node>)
    ensures
        match r {
            Some(n) => node_of(uri@) == Some(n@),
            None => node_of(uri@) is None,
        },
{
    let chars = chars_of(uri);
    let (scheme, rest) = match split_scheme(chars.as_slice()) {
        Some(parts) => parts,
        None => return None,
    };
    let mut base = Node::default();
    base.kind = text_of(scheme);
    let body = match rsplit_once(rest, '#') {
        Some((body, name)) => {
            base.name = decode_url(text_of(name).as_str());
            body
        },
        None => rest,
    };
    assert(base@ == (NodeView { kind: scheme@, name: body_and_name(rest@).1, ..blank() }));
    let mut node = match parse_body(base, body) {
        Some(node) => node,
        None => return None,
    };
    let sni = chars_of(node.sni.as_str());
    node.sni = text_of(head(sni.as_slice(), '#'));
    if node.server.as_str().is_empty() || node.port.as_str().is_empty() {
        return None;
    }
    Some(node)
}

/// The name of a node in its link: what stands after the last `#`, percent-decoded.
pub open spec fn name_of(uri: Seq<char>) -> Seq<char> {
    match cut_last(uri, '#') {
        Some((_, name)) => url_content(name),
        None => seq![],
    }
}

/// The name that a link gives to its node.
pub fn get_node_name(uri: &str) -> (r: String)
    ensures
        r@ == name_of(uri@),
{
    let chars = chars_of(uri);
    match rsplit_once(chars.as_slice(), '#') {
        Some((_, name)) => decode_url(text_of(name).as_str()),
        None => String::new(),
    }
}

} // verus!
