//! A configuration that was written is read back: the reader of proxies finds each field where the
//! writer put it.

use crate::config::{node_yaml, quoted};
use crate::content_laws::{law_trimmed, lemma_first_line};
use crate::cut::{lemma_no_index, line_list, trimmed};
use crate::entry_laws::{
    alpn_lines, block, given_line, head_lines, law_hysteria2_entry, law_ss_entry, law_trojan_entry,
    law_tuic_entry, law_vless_entry, law_vmess_entry, lemma_block_join, lemma_block_one,
    lemma_line_ends, line_if, security_lines, transport_lines,
};
use crate::foreign::{ascii_lower, lowercase};
use crate::link_laws::lemma_kinds_differ;
use crate::node::{blank, NodeView};
use crate::proxy_laws::lemma_escaped_plain;
use crate::text::{digit, white_space};
use crate::yaml_laws::{
    blanks, item, item_open, law_keys, law_line, law_next_line, lemma_keys, lemma_list_start,
    listing, proxies_in, quotes, section, tight,
};
use crate::yaml_reader::{key_value, law_unread_key, with_entry, with_line, yaml_key};
use vstd::prelude::*;
use vstd::utf8::is_ascii_chars;

verus! {

/// A value on one line, without quotes and backslashes.
pub open spec fn simple(s: Seq<char>) -> bool {
    forall|i: int|
        0 <= i < s.len() ==> #[trigger] s[i] != '\n' && s[i] != '\r' && s[i] != '"' && s[i] != '\''
            && s[i] != '\\'
}

/// Every value of a node is simple, its port is a number, and so is the alter id of a `vmess` node.
pub open spec fn simple_node(n: NodeView) -> bool {
    &&& simple(n.name) && simple(n.server) && simple(n.uuid) && simple(n.password)
    &&& simple(n.cipher) && simple(n.network) && simple(n.sni) && simple(n.flow)
    &&& simple(n.fp) && simple(n.congestion_controller)
    &&& n.port.len() > 0 && n.port.all(|c: char| digit(c))
    &&& n.kind == "vmess"@ ==> n.alter_id.len() > 0 && n.alter_id.all(|c: char| digit(c))
}

/// A proxy is being read in the list of proxies: it is `n` so far, and `was` stand before it.
spec fn reading(lines: Seq<Seq<char>>, was: Seq<NodeView>, n: NodeView) -> bool {
    listing(lines) && item_open(lines) && proxies_in(lines) == was.push(n)
}

/// A line of a proxy that gives a value under a key.
spec fn says(line: Seq<char>, key: Seq<char>, v: Seq<char>) -> bool {
    &&& !section(line)
    &&& !item(line)
    &&& trimmed(line).len() > 0
    &&& key_value(trimmed(line)) == Some((key, v))
}

proof fn lemma_says(lines: Seq<Seq<char>>, was: Seq<NodeView>, n: NodeView, line: Seq<char>)
    requires
        reading(lines, was, n),
        !section(line),
        !item(line),
        trimmed(line).len() > 0,
    ensures
        reading(lines.push(line), was, with_line(n, trimmed(line))),
{
    law_next_line(lines, line);
    lemma_list_start(lines, line);
    assert(was.push(n).drop_last() =~= was);
}

/// A key as a line may start with it.
spec fn plain_key(key: Seq<char>) -> bool {
    &&& key.len() > 0
    &&& !key.contains(':')
    &&& tight(key)
    &&& key[0] != '-'
}

/// What a line says that starts with spaces, a key, a colon and a space.
proof fn lemma_line_says(start: Seq<char>, pad: Seq<char>, key: Seq<char>, v: Seq<char>)
    requires
        start == pad + key + seq![':', ' '],
        pad.len() > 0,
        forall|i: int| 0 <= i < pad.len() ==> #[trigger] pad[i] == ' ',
        plain_key(key),
        simple(v),
    ensures
        says(start + quoted(v), key, v),
        v.len() > 0 && tight(v) ==> says(start + v, key, v),
{
    lemma_escaped_plain(v);
    let q = seq!['"'];
    let none: Seq<char> = seq![];
    let w = |c: char| white_space(c);
    let one = seq![' '];
    assert(blanks(none));
    assert(blanks(one));
    assert forall|i: int| 0 <= i < pad.len() implies #[trigger] w(pad[i]) by {
        assert(pad[i] == ' ');
    }
    assert(quotes(q));
    assert(quotes(none));
    // In quotes.
    let text = key + seq![':', ' '] + quoted(v);
    assert(tight(text));
    assert(start + quoted(v) =~= pad + text + none);
    law_trimmed(pad, text, none);
    assert((start + quoted(v))[0] == pad[0]);
    assert(text[0] == key[0]);
    assert(q + v + q =~= quoted(v));
    assert(none + key + none + seq![':'] + (one + (q + v + q) + none) =~= text);
    law_line(key, q, v, q, (none, none, one, none));
    // As it is.
    if v.len() > 0 && tight(v) {
        let plain = key + seq![':', ' '] + v;
        assert(tight(plain));
        assert(start + v =~= pad + plain + none);
        law_trimmed(pad, plain, none);
        assert((start + v)[0] == pad[0]);
        assert(plain[0] == key[0]);
        assert(none + v + none =~= v);
        assert(none + key + none + seq![':'] + (one + (none + v + none) + none) =~= plain);
        law_line(key, none, v, none, (none, none, one, none));
    }
}

/// One line more of a proxy.
proof fn lemma_next(
    lines: Seq<Seq<char>>,
    was: Seq<NodeView>,
    n: NodeView,
    line: Seq<char>,
    key: Seq<char>,
    v: Seq<char>,
)
    requires
        reading(lines, was, n),
        says(line, key, v),
    ensures
        reading(lines + seq![line], was, with_entry(n, key, v)),
{
    lemma_says(lines, was, n, line);
    assert(lines + seq![line] =~= lines.push(line));
}

/// One line more where there is a value to give.
proof fn lemma_next_given(
    lines: Seq<Seq<char>>,
    was: Seq<NodeView>,
    n: NodeView,
    start: Seq<char>,
    key: Seq<char>,
    v: Seq<char>,
)
    requires
        reading(lines, was, n),
        says(start + quoted(v), key, v),
    ensures
        v.len() > 0 ==> reading(lines + given_line(start, v), was, with_entry(n, key, v)),
        v.len() == 0 ==> reading(lines + given_line(start, v), was, n),
{
    if v.len() > 0 {
        lemma_next(lines, was, n, start + quoted(v), key, v);
    } else {
        assert(lines + given_line(start, v) =~= lines);
    }
}

/// The first line of a proxy.
proof fn lemma_first(lines: Seq<Seq<char>>, name: Seq<char>)
    requires
        listing(lines),
        simple(name),
    ensures
        reading(
            lines + seq!["  - name: "@ + quoted(name)],
            proxies_in(lines),
            NodeView { name, ..blank() },
        ),
{
    let line = "  - name: "@ + quoted(name);
    let none: Seq<char> = seq![];
    let one = seq![' '];
    let q = seq!['"'];
    let key = "name"@;
    reveal_strlit("  - name: ");
    reveal_strlit("name");
    lemma_escaped_plain(name);
    let text = seq!['-', ' '] + (key + seq![':', ' '] + quoted(name));
    let pad = seq![' ', ' '];
    assert(blanks(pad));
    assert(blanks(none));
    assert(blanks(one));
    assert(quotes(q));
    assert(tight(text));
    assert(line =~= pad + text + none);
    law_trimmed(pad, text, none);
    assert(text.skip(2) =~= key + seq![':', ' '] + quoted(name));
    assert(q + name + q =~= quoted(name));
    assert(none + key + none + seq![':'] + (one + (q + name + q) + none) =~= text.skip(2));
    assert(!key.contains(':'));
    law_line(key, q, name, q, (none, none, one, none));
    assert(seq!['-', ' '].is_prefix_of(text));
    law_next_line(lines, line);
    lemma_list_start(lines, line);
    assert(lines + seq![line] =~= lines.push(line));
    law_keys(blank(), name);
}

/// A line of an entry starts so where it gives a value under a key.
spec fn starts_line(start: Seq<char>, key: Seq<char>) -> bool {
    &&& start == seq![' ', ' ', ' ', ' '] + key + seq![':', ' ']
    &&& plain_key(key)
    &&& clean_text(start)
}

/// A text without line ends.
spec fn clean_text(s: Seq<char>) -> bool {
    forall|i: int| 0 <= i < s.len() ==> #[trigger] s[i] != '\n' && s[i] != '\r'
}

/// Lines without line ends in them.
spec fn clean(lines: Seq<Seq<char>>) -> bool {
    forall|i: int| 0 <= i < lines.len() ==> clean_text(#[trigger] lines[i])
}

proof fn lemma_starts()
    ensures
        starts_line("    type: "@, "type"@),
        starts_line("    server: "@, "server"@),
        starts_line("    port: "@, "port"@),
        starts_line("    uuid: "@, "uuid"@),
        starts_line("    password: "@, "password"@),
        starts_line("    cipher: "@, "cipher"@),
        starts_line("    alterId: "@, "alterId"@),
        starts_line("    network: "@, "network"@),
        starts_line("    tls: "@, "tls"@),
        starts_line("    sni: "@, "sni"@),
        starts_line("    servername: "@, "servername"@),
        starts_line("    flow: "@, "flow"@),
        starts_line("    congestion-controller: "@, "congestion-controller"@),
        starts_line("    client-fingerprint: "@, "client-fingerprint"@),
        starts_line("    skip-cert-verify: "@, "skip-cert-verify"@),
{
    reveal_strlit("    type: ");
    reveal_strlit("type");
    reveal_strlit("    server: ");
    reveal_strlit("server");
    reveal_strlit("    port: ");
    reveal_strlit("port");
    reveal_strlit("    uuid: ");
    reveal_strlit("uuid");
    reveal_strlit("    password: ");
    reveal_strlit("password");
    reveal_strlit("    cipher: ");
    reveal_strlit("cipher");
    reveal_strlit("    alterId: ");
    reveal_strlit("alterId");
    reveal_strlit("    network: ");
    reveal_strlit("network");
    reveal_strlit("    tls: ");
    reveal_strlit("tls");
    reveal_strlit("    sni: ");
    reveal_strlit("sni");
    reveal_strlit("    servername: ");
    reveal_strlit("servername");
    reveal_strlit("    flow: ");
    reveal_strlit("flow");
    reveal_strlit("    congestion-controller: ");
    reveal_strlit("congestion-controller");
    reveal_strlit("    client-fingerprint: ");
    reveal_strlit("client-fingerprint");
    reveal_strlit("    skip-cert-verify: ");
    reveal_strlit("skip-cert-verify");
    assert("    type: "@ =~= seq![' ', ' ', ' ', ' '] + "type"@ + seq![':', ' ']);
    assert("    server: "@ =~= seq![' ', ' ', ' ', ' '] + "server"@ + seq![':', ' ']);
    assert("    port: "@ =~= seq![' ', ' ', ' ', ' '] + "port"@ + seq![':', ' ']);
    assert("    uuid: "@ =~= seq![' ', ' ', ' ', ' '] + "uuid"@ + seq![':', ' ']);
    assert("    password: "@ =~= seq![' ', ' ', ' ', ' '] + "password"@ + seq![':', ' ']);
    assert("    cipher: "@ =~= seq![' ', ' ', ' ', ' '] + "cipher"@ + seq![':', ' ']);
    assert("    alterId: "@ =~= seq![' ', ' ', ' ', ' '] + "alterId"@ + seq![':', ' ']);
    assert("    network: "@ =~= seq![' ', ' ', ' ', ' '] + "network"@ + seq![':', ' ']);
    assert("    tls: "@ =~= seq![' ', ' ', ' ', ' '] + "tls"@ + seq![':', ' ']);
    assert("    sni: "@ =~= seq![' ', ' ', ' ', ' '] + "sni"@ + seq![':', ' ']);
    assert("    servername: "@ =~= seq![' ', ' ', ' ', ' '] + "servername"@ + seq![':', ' ']);
    assert("    flow: "@ =~= seq![' ', ' ', ' ', ' '] + "flow"@ + seq![':', ' ']);
    assert("    congestion-controller: "@ =~= seq![' ', ' ', ' ', ' '] + "congestion-controller"@
        + seq![':', ' ']);
    assert("    client-fingerprint: "@ =~= seq![' ', ' ', ' ', ' '] + "client-fingerprint"@
        + seq![':', ' ']);
    assert("    skip-cert-verify: "@ =~= seq![' ', ' ', ' ', ' '] + "skip-cert-verify"@
        + seq![':', ' ']);
}

/// A line that starts so says what it holds.
proof fn lemma_entry_line(start: Seq<char>, key: Seq<char>, v: Seq<char>)
    requires
        starts_line(start, key),
        simple(v),
    ensures
        says(start + quoted(v), key, v),
        v.len() > 0 && tight(v) ==> says(start + v, key, v),
        clean_text(start + quoted(v)),
        clean_text(start + v),
        clean(given_line(start, v)),
{
    lemma_line_says(start, seq![' ', ' ', ' ', ' '], key, v);
    lemma_escaped_plain(v);
    let line = start + quoted(v);
    assert forall|i: int| 0 <= i < line.len() implies #[trigger] line[i] != '\n' && line[i]
        != '\r' by {
        if i < start.len() {
            assert(line[i] == start[i]);
        } else if start.len() < i < line.len() - 1 {
            assert(line[i] == v[i - start.len() - 1]);
        }
    }
    let plain = start + v;
    assert forall|i: int| 0 <= i < plain.len() implies #[trigger] plain[i] != '\n' && plain[i]
        != '\r' by {
        if i < start.len() {
            assert(plain[i] == start[i]);
        } else {
            assert(plain[i] == v[i - start.len()]);
        }
    }
}

proof fn lemma_clean_join(a: Seq<Seq<char>>, b: Seq<Seq<char>>)
    requires
        clean(a),
        clean(b),
    ensures
        clean(a + b),
{
    assert forall|i: int| 0 <= i < (a + b).len() implies clean_text(#[trigger] (a + b)[i]) by {
        if i < a.len() {
            assert((a + b)[i] == a[i]);
        } else {
            assert((a + b)[i] == b[i - a.len()]);
        }
    }
}

/// The lines of a text that was put together from lines are these.
proof fn lemma_block_lines(lines: Seq<Seq<char>>)
    requires
        clean(lines),
    ensures
        line_list(block(lines)) == lines,
    decreases lines.len(),
{
    if lines.len() == 0 {
        lemma_block_one(seq![]);
        assert(lines =~= Seq::<Seq<char>>::empty());
        lemma_no_index(block(lines), '\n');
        assert(line_list(block(lines)) =~= lines);
    } else {
        let first = lines[0];
        let rest = lines.skip(1);
        assert(clean(rest)) by {
            assert forall|i: int| 0 <= i < rest.len() implies clean_text(#[trigger] rest[i]) by {
                assert(rest[i] == lines[i + 1]);
            }
        }
        lemma_block_lines(rest);
        assert(lines =~= seq![first] + rest);
        lemma_block_join(seq![first], rest);
        lemma_block_one(first);
        assert(clean_text(first));
        assert(!first.contains('\n'));
        lemma_first_line(first, block(rest));
        if first.len() > 0 {
            assert(first[first.len() - 1] != '\r');
        }
    }
}

/// The protocols are written in lower case.
proof fn lemma_kind(kind: Seq<char>)
    requires
        kind == "ss"@ || kind == "trojan"@ || kind == "vless"@ || kind == "vmess"@ || kind
            == "hysteria2"@ || kind == "tuic"@,
    ensures
        lowercase(kind) == kind,
        simple(kind),
{
    reveal_strlit("ss");
    reveal_strlit("trojan");
    reveal_strlit("vless");
    reveal_strlit("vmess");
    reveal_strlit("hysteria2");
    reveal_strlit("tuic");
    assert(is_ascii_chars(kind));
    assert(kind.map_values(|c: char| ascii_lower(c)) =~= kind);
}

proof fn lemma_number_value(v: Seq<char>)
    requires
        v.len() > 0,
        v.all(|c: char| digit(c)),
    ensures
        simple(v),
        tight(v),
{
    let f = |c: char| digit(c);
    assert forall|i: int| 0 <= i < v.len() implies #[trigger] v[i] != '\n' && v[i] != '\r' && v[i]
        != '"' && v[i] != '\'' && v[i] != '\\' by {
        assert(f(v[i]));
    }
    assert(f(v[0]) && f(v[v.len() - 1]));
}

/// The first lines of an entry.
proof fn lemma_head_read(lines: Seq<Seq<char>>, n: NodeView)
    requires
        listing(lines),
        simple_node(n),
        n.kind == "ss"@ || n.kind == "trojan"@ || n.kind == "vless"@ || n.kind == "vmess"@
            || n.kind == "hysteria2"@ || n.kind == "tuic"@,
    ensures
        reading(
            lines + head_lines(n),
            proxies_in(lines),
            NodeView { name: n.name, kind: n.kind, server: n.server, port: n.port, ..blank() },
        ),
        clean(head_lines(n)),
{
    let was = proxies_in(lines);
    let a = "  - name: "@ + quoted(n.name);
    let b = "    type: "@ + quoted(n.kind);
    let c = "    server: "@ + quoted(n.server);
    let d = "    port: "@ + n.port;
    let n1 = NodeView { name: n.name, ..blank() };
    let n2 = NodeView { kind: n.kind, ..n1 };
    let n3 = NodeView { server: n.server, ..n2 };
    lemma_starts();
    lemma_kind(n.kind);
    lemma_number_value(n.port);
    lemma_entry_line("    type: "@, "type"@, n.kind);
    lemma_entry_line("    server: "@, "server"@, n.server);
    lemma_entry_line("    port: "@, "port"@, n.port);
    lemma_first(lines, n.name);
    lemma_next(lines + seq![a], was, n1, b, "type"@, n.kind);
    law_keys(n1, n.kind);
    lemma_next(lines + seq![a] + seq![b], was, n2, c, "server"@, n.server);
    law_keys(n2, n.server);
    lemma_next(lines + seq![a] + seq![b] + seq![c], was, n3, d, "port"@, n.port);
    law_keys(n3, n.port);
    assert(lines + seq![a] + seq![b] + seq![c] + seq![d] =~= lines + head_lines(n));
    assert(clean_text(a)) by {
        reveal_strlit("  - name: ");
        lemma_escaped_plain(n.name);
        let start = "  - name: "@;
        assert forall|i: int| 0 <= i < a.len() implies #[trigger] a[i] != '\n' && a[i] != '\r' by {
            if i < start.len() {
                assert(a[i] == start[i]);
            } else if start.len() < i < a.len() - 1 {
                assert(a[i] == n.name[i - start.len() - 1]);
            }
        }
    }
}

/// What is read back of a node: the fields that its protocol uses and that the reader knows.
pub open spec fn as_listed(n: NodeView) -> NodeView {
    let head = NodeView {
        name: n.name,
        kind: n.kind,
        server: n.server,
        port: n.port,
        ..blank()
    };
    if n.kind == "ss"@ {
        NodeView { cipher: n.cipher, password: n.password, ..head }
    } else if n.kind == "hysteria2"@ {
        NodeView { password: n.password, sni: n.sni, ..head }
    } else if n.kind == "tuic"@ {
        NodeView {
            uuid: n.uuid,
            password: n.password,
            sni: n.sni,
            congestion_controller: n.congestion_controller,
            ..head
        }
    } else if n.kind == "trojan"@ {
        NodeView {
            password: n.password,
            tls: true,
            sni: n.sni,
            network: if n.network == "tcp"@ {
                seq![]
            } else {
                n.network
            },
            ..head
        }
    } else if n.kind == "vmess"@ {
        NodeView {
            uuid: n.uuid,
            alter_id: n.alter_id,
            cipher: "auto"@,
            network: n.network,
            tls: n.tls,
            sni: n.sni,
            ..head
        }
    } else {
        NodeView {
            uuid: n.uuid,
            network: n.network,
            flow: if n.flow == "xtls-rprx-vision"@ {
                n.flow
            } else {
                seq![]
            },
            tls: n.security == "tls"@ || n.security == "reality"@,
            sni: if n.security.len() > 0 {
                n.sni
            } else {
                seq![]
            },
            ..head
        }
    }
}

proof fn lemma_ss_read(lines: Seq<Seq<char>>, n: NodeView)
    requires
        listing(lines),
        simple_node(n),
        n.kind == "ss"@,
    ensures
        proxies_in(lines + line_list(node_yaml(n))) == proxies_in(lines).push(as_listed(n)),
{
    let was = proxies_in(lines);
    let head = head_lines(n);
    let n0 = NodeView { name: n.name, kind: n.kind, server: n.server, port: n.port, ..blank() };
    let n1 = NodeView { cipher: n.cipher, ..n0 };
    let a = "    cipher: "@ + quoted(n.cipher);
    let b = "    password: "@ + quoted(n.password);
    lemma_head_read(lines, n);
    lemma_starts();
    lemma_entry_line("    cipher: "@, "cipher"@, n.cipher);
    lemma_entry_line("    password: "@, "password"@, n.password);
    lemma_next(lines + head, was, n0, a, "cipher"@, n.cipher);
    law_keys(n0, n.cipher);
    lemma_next(lines + head + seq![a], was, n1, b, "password"@, n.password);
    law_keys(n1, n.password);
    law_ss_entry(n);
    lemma_clean_join(head, seq![a, b]);
    lemma_block_lines(head + seq![a, b]);
    assert(lines + head + seq![a] + seq![b] =~= lines + (head + seq![a, b]));
    lemma_kinds_differ();
}

proof fn lemma_hysteria2_read(lines: Seq<Seq<char>>, n: NodeView)
    requires
        listing(lines),
        simple_node(n),
        n.kind == "hysteria2"@,
    ensures
        proxies_in(lines + line_list(node_yaml(n))) == proxies_in(lines).push(as_listed(n)),
{
    let was = proxies_in(lines);
    let head = head_lines(n);
    let n0 = NodeView { name: n.name, kind: n.kind, server: n.server, port: n.port, ..blank() };
    let n1 = NodeView { password: n.password, ..n0 };
    let n2 = NodeView { sni: n.sni, ..n1 };
    let a = "    password: "@ + quoted(n.password);
    let b = given_line("    sni: "@, n.sni);
    let c = "    skip-cert-verify: "@ + "true"@;
    let none: Seq<char> = seq![];
    lemma_true();
    lemma_head_read(lines, n);
    lemma_starts();
    lemma_entry_line("    password: "@, "password"@, n.password);
    lemma_entry_line("    sni: "@, "sni"@, n.sni);
    lemma_entry_line("    skip-cert-verify: "@, "skip-cert-verify"@, "true"@);
    lemma_next(lines + head, was, n0, a, "password"@, n.password);
    law_keys(n0, n.password);
    lemma_next_given(lines + head + seq![a], was, n1, "    sni: "@, "sni"@, n.sni);
    law_keys(n1, n.sni);
    if n.sni.len() == 0 {
        assert(n.sni =~= none);
    }
    lemma_next(lines + head + seq![a] + b, was, n2, c, "skip-cert-verify"@, "true"@);
    lemma_unread_keys();
    law_unread_key(n2, "skip-cert-verify"@, "true"@);
    law_hysteria2_entry(n);
    let more = seq![a] + b + seq![c];
    lemma_clean_join(seq![a], b);
    lemma_clean_join(seq![a] + b, seq![c]);
    lemma_clean_join(head, more);
    lemma_block_lines(head + more);
    assert(lines + head + seq![a] + b + seq![c] =~= lines + (head + more));
    lemma_kinds_differ();
}

proof fn lemma_true()
    ensures
        "    skip-cert-verify: "@ + "true"@ == "    skip-cert-verify: true"@,
        "    cipher: "@ + "auto"@ == "    cipher: auto"@,
        simple("true"@) && tight("true"@) && "true"@.len() > 0,
        simple("false"@) && tight("false"@) && "false"@.len() > 0,
        simple("auto"@) && tight("auto"@) && "auto"@.len() > 0,
        "true"@ != "false"@,
{
    reveal_strlit("    skip-cert-verify: ");
    reveal_strlit("    skip-cert-verify: true");
    reveal_strlit("    cipher: ");
    reveal_strlit("    cipher: auto");
    reveal_strlit("true");
    reveal_strlit("false");
    reveal_strlit("auto");
    assert("    skip-cert-verify: "@ + "true"@ =~= "    skip-cert-verify: true"@);
    assert("    cipher: "@ + "auto"@ =~= "    cipher: auto"@);
    assert("true"@.len() == 4 && "false"@.len() == 5);
}

/// Keys that the reader does not know.
proof fn lemma_unread_keys()
    ensures
        !yaml_key("skip-cert-verify"@),
        !yaml_key("client-fingerprint"@),
{
    lemma_keys();
    reveal_strlit("skip-cert-verify");
    reveal_strlit("client-fingerprint");
    assert("skip-cert-verify"@.len() == 16);
    assert("client-fingerprint"@.len() == 18);
}

proof fn lemma_tuic_read(lines: Seq<Seq<char>>, n: NodeView)
    requires
        listing(lines),
        simple_node(n),
        n.kind == "tuic"@,
    ensures
        proxies_in(lines + line_list(node_yaml(n))) == proxies_in(lines).push(as_listed(n)),
{
    let was = proxies_in(lines);
    let head = head_lines(n);
    let none: Seq<char> = seq![];
    let n0 = NodeView { name: n.name, kind: n.kind, server: n.server, port: n.port, ..blank() };
    let n1 = NodeView { uuid: n.uuid, ..n0 };
    let n2 = NodeView { password: n.password, ..n1 };
    let n3 = NodeView { sni: n.sni, ..n2 };
    let cc = n.congestion_controller;
    let a = "    uuid: "@ + quoted(n.uuid);
    let b = given_line("    password: "@, n.password);
    let c = given_line("    sni: "@, n.sni);
    let d = given_line("    congestion-controller: "@, cc);
    lemma_head_read(lines, n);
    lemma_starts();
    lemma_entry_line("    uuid: "@, "uuid"@, n.uuid);
    lemma_entry_line("    password: "@, "password"@, n.password);
    lemma_entry_line("    sni: "@, "sni"@, n.sni);
    lemma_entry_line("    congestion-controller: "@, "congestion-controller"@, cc);
    lemma_next(lines + head, was, n0, a, "uuid"@, n.uuid);
    law_keys(n0, n.uuid);
    let s1 = lines + head + seq![a];
    lemma_next_given(s1, was, n1, "    password: "@, "password"@, n.password);
    law_keys(n1, n.password);
    if n.password.len() == 0 {
        assert(n.password =~= none);
    }
    lemma_next_given(s1 + b, was, n2, "    sni: "@, "sni"@, n.sni);
    law_keys(n2, n.sni);
    if n.sni.len() == 0 {
        assert(n.sni =~= none);
    }
    lemma_next_given(
        s1 + b + c,
        was,
        n3,
        "    congestion-controller: "@,
        "congestion-controller"@,
        cc,
    );
    law_keys(n3, cc);
    if cc.len() == 0 {
        assert(cc =~= none);
    }
    law_tuic_entry(n);
    let more = seq![a] + b + c + d;
    lemma_clean_join(seq![a], b);
    lemma_clean_join(seq![a] + b, c);
    lemma_clean_join(seq![a] + b + c, d);
    lemma_clean_join(head, more);
    lemma_block_lines(head + more);
    assert(s1 + b + c + d =~= lines + (head + more));
    lemma_kinds_differ();
}

/// No transport has lines of its own.
pub open spec fn bare_network(n: NodeView) -> bool {
    n.network != "ws"@ && n.network != "http"@ && n.network != "grpc"@
}

proof fn lemma_trojan_read(lines: Seq<Seq<char>>, n: NodeView)
    requires
        listing(lines),
        simple_node(n),
        n.kind == "trojan"@,
        bare_network(n),
        n.alpn.len() == 0,
    ensures
        proxies_in(lines + line_list(node_yaml(n))) == proxies_in(lines).push(as_listed(n)),
{
    let was = proxies_in(lines);
    let head = head_lines(n);
    let none: Seq<char> = seq![];
    let network = if n.network == "tcp"@ {
        none
    } else {
        n.network
    };
    let n0 = NodeView { name: n.name, kind: n.kind, server: n.server, port: n.port, ..blank() };
    let n1 = NodeView { password: n.password, ..n0 };
    let n2 = NodeView { tls: true, ..n1 };
    let n3 = NodeView { sni: n.sni, ..n2 };
    let a = "    password: "@ + quoted(n.password);
    let b = "    tls: "@ + "true"@;
    let c = given_line("    sni: "@, n.sni);
    let d = given_line("    network: "@, network);
    lemma_true();
    lemma_line_ends();
    lemma_head_read(lines, n);
    lemma_starts();
    lemma_entry_line("    password: "@, "password"@, n.password);
    lemma_entry_line("    tls: "@, "tls"@, "true"@);
    lemma_entry_line("    sni: "@, "sni"@, n.sni);
    lemma_entry_line("    network: "@, "network"@, network);
    lemma_next(lines + head, was, n0, a, "password"@, n.password);
    law_keys(n0, n.password);
    let s1 = lines + head + seq![a];
    lemma_next(s1, was, n1, b, "tls"@, "true"@);
    law_keys(n1, "true"@);
    let s2 = s1 + seq![b];
    lemma_next_given(s2, was, n2, "    sni: "@, "sni"@, n.sni);
    law_keys(n2, n.sni);
    if n.sni.len() == 0 {
        assert(n.sni =~= none);
    }
    lemma_next_given(s2 + c, was, n3, "    network: "@, "network"@, network);
    law_keys(n3, network);
    if network.len() == 0 {
        assert(network =~= none);
    }
    law_trojan_entry(n);
    let more = seq![a] + seq![b] + c + d;
    assert(line_if(
        n.network.len() > 0 && n.network != "tcp"@,
        "    network: "@ + quoted(n.network),
    ) == d);
    assert(more + alpn_lines(n.alpn) + transport_lines(n) =~= more);
    lemma_clean_join(seq![a], seq![b]);
    lemma_clean_join(seq![a] + seq![b], c);
    lemma_clean_join(seq![a] + seq![b] + c, d);
    lemma_clean_join(head, more);
    lemma_block_lines(head + more);
    assert(s2 + c + d =~= lines + (head + more));
    lemma_kinds_differ();
}

/// The lines of a `vmess` proxy without options of a transport.
proof fn lemma_vmess_lines(n: NodeView)
    requires
        simple_node(n),
        n.kind == "vmess"@,
        bare_network(n),
        clean(head_lines(n)),
    ensures
        ({
            let front = seq!["    uuid: "@ + quoted(n.uuid)] + seq!["    alterId: "@ + n.alter_id]
                + seq!["    cipher: "@ + "auto"@] + seq!["    network: "@ + quoted(n.network)]
                + seq!["    tls: "@ + if n.tls {
                "true"@
            } else {
                "false"@
            }];
            line_list(node_yaml(n)) == head_lines(n) + (front + given_line(
                "    servername: "@,
                n.sni,
            ))
        }),
{
    let tls = if n.tls {
        "true"@
    } else {
        "false"@
    };
    let a = "    uuid: "@ + quoted(n.uuid);
    let b = "    alterId: "@ + n.alter_id;
    let c = "    cipher: "@ + "auto"@;
    let d = "    network: "@ + quoted(n.network);
    let e = "    tls: "@ + tls;
    let f = given_line("    servername: "@, n.sni);
    let head = head_lines(n);
    lemma_true();
    lemma_line_ends();
    lemma_number_value(n.alter_id);
    lemma_starts();
    lemma_entry_line("    uuid: "@, "uuid"@, n.uuid);
    lemma_entry_line("    alterId: "@, "alterId"@, n.alter_id);
    lemma_entry_line("    cipher: "@, "cipher"@, "auto"@);
    lemma_entry_line("    network: "@, "network"@, n.network);
    lemma_entry_line("    tls: "@, "tls"@, tls);
    lemma_entry_line("    servername: "@, "servername"@, n.sni);
    law_vmess_entry(n);
    let front = seq![a] + seq![b] + seq![c] + seq![d] + seq![e];
    let more = front + f;
    assert(more + transport_lines(n) =~= more);
    assert(clean(front));
    lemma_clean_join(front, f);
    lemma_clean_join(head, more);
    lemma_block_lines(head + more);
}

proof fn lemma_vmess_read(lines: Seq<Seq<char>>, n: NodeView)
    requires
        listing(lines),
        simple_node(n),
        n.kind == "vmess"@,
        bare_network(n),
    ensures
        proxies_in(lines + line_list(node_yaml(n))) == proxies_in(lines).push(as_listed(n)),
{
    let was = proxies_in(lines);
    let none: Seq<char> = seq![];
    let tls = if n.tls {
        "true"@
    } else {
        "false"@
    };
    let n0 = NodeView { name: n.name, kind: n.kind, server: n.server, port: n.port, ..blank() };
    let n1 = NodeView { uuid: n.uuid, ..n0 };
    let n2 = NodeView { alter_id: n.alter_id, ..n1 };
    let n3 = NodeView { cipher: "auto"@, ..n2 };
    let n4 = NodeView { network: n.network, ..n3 };
    let n5 = NodeView { tls: n.tls, ..n4 };
    let n6 = NodeView { sni: n.sni, ..n5 };
    let a = "    uuid: "@ + quoted(n.uuid);
    let b = "    alterId: "@ + n.alter_id;
    let c = "    cipher: "@ + "auto"@;
    let d = "    network: "@ + quoted(n.network);
    let e = "    tls: "@ + tls;
    let f = given_line("    servername: "@, n.sni);
    lemma_true();
    lemma_number_value(n.alter_id);
    lemma_head_read(lines, n);
    lemma_starts();
    lemma_entry_line("    uuid: "@, "uuid"@, n.uuid);
    lemma_entry_line("    alterId: "@, "alterId"@, n.alter_id);
    lemma_entry_line("    cipher: "@, "cipher"@, "auto"@);
    lemma_entry_line("    network: "@, "network"@, n.network);
    lemma_entry_line("    tls: "@, "tls"@, tls);
    lemma_entry_line("    servername: "@, "servername"@, n.sni);
    let s0 = head_lines(n);
    let s1 = s0 + seq![a];
    let s2 = s1 + seq![b];
    let s3 = s2 + seq![c];
    let s4 = s3 + seq![d];
    let s5 = s4 + seq![e];
    assert(with_entry(n0, "uuid"@, n.uuid) == n1) by {
        law_keys(n0, n.uuid);
    }
    lemma_more(lines, s0, was, n0, a, "uuid"@, n.uuid);
    assert(with_entry(n1, "alterId"@, n.alter_id) == n2) by {
        law_keys(n1, n.alter_id);
    }
    lemma_more(lines, s1, was, n1, b, "alterId"@, n.alter_id);
    assert(with_entry(n2, "cipher"@, "auto"@) == n3) by {
        law_keys(n2, "auto"@);
    }
    lemma_more(lines, s2, was, n2, c, "cipher"@, "auto"@);
    assert(with_entry(n3, "network"@, n.network) == n4) by {
        law_keys(n3, n.network);
    }
    lemma_more(lines, s3, was, n3, d, "network"@, n.network);
    assert(with_entry(n4, "tls"@, tls) == n5) by {
        law_keys(n4, tls);
    }
    lemma_more(lines, s4, was, n4, e, "tls"@, tls);
    assert(with_entry(n5, "servername"@, n.sni) == n6) by {
        law_keys(n5, n.sni);
    }
    lemma_more_given(lines, s5, was, n5, "    servername: "@, "servername"@, n.sni);
    assert(n.sni.len() == 0 ==> n5 == n6) by {
        assert(n.sni.len() == 0 ==> n.sni =~= none);
    }
    assert(reading(lines + (s5 + f), was, n6));
    assert(n6 == as_listed(n)) by {
        lemma_kinds_differ();
    }
    lemma_vmess_lines(n);
    lemma_six(s0, seq![a], seq![b], seq![c], seq![d], seq![e], f);
}

/// Joining lists of lines is associative.
proof fn lemma_six(
    h: Seq<Seq<char>>,
    a: Seq<Seq<char>>,
    b: Seq<Seq<char>>,
    c: Seq<Seq<char>>,
    d: Seq<Seq<char>>,
    e: Seq<Seq<char>>,
    f: Seq<Seq<char>>,
)
    ensures
        h + (a + b + c + d + e + f) == h + a + b + c + d + e + f,
        h + (a + b + c + (d + e) + f) == h + a + b + c + d + e + f,
{
    assert(h + (a + b + c + d + e + f) =~= h + a + b + c + d + e + f);
    assert(h + (a + b + c + (d + e) + f) =~= h + a + b + c + d + e + f);
}

/// One line more behind the lines of a proxy.
proof fn lemma_more(
    lines: Seq<Seq<char>>,
    s: Seq<Seq<char>>,
    was: Seq<NodeView>,
    n: NodeView,
    line: Seq<char>,
    key: Seq<char>,
    v: Seq<char>,
)
    requires
        reading(lines + s, was, n),
        says(line, key, v),
    ensures
        reading(lines + (s + seq![line]), was, with_entry(n, key, v)),
{
    lemma_next(lines + s, was, n, line, key, v);
    assert(lines + s + seq![line] =~= lines + (s + seq![line]));
}

/// The same where there is a value to give.
proof fn lemma_more_given(
    lines: Seq<Seq<char>>,
    s: Seq<Seq<char>>,
    was: Seq<NodeView>,
    n: NodeView,
    start: Seq<char>,
    key: Seq<char>,
    v: Seq<char>,
)
    requires
        reading(lines + s, was, n),
        says(start + quoted(v), key, v),
    ensures
        v.len() > 0 ==> reading(lines + (s + given_line(start, v)), was, with_entry(n, key, v)),
        v.len() == 0 ==> reading(lines + (s + given_line(start, v)), was, n),
{
    lemma_next_given(lines + s, was, n, start, key, v);
    assert(lines + s + given_line(start, v) =~= lines + (s + given_line(start, v)));
}

/// The lines of a `vless` proxy without keys of REALITY and options of a transport.
proof fn lemma_vless_lines(n: NodeView)
    requires
        simple_node(n),
        n.kind == "vless"@,
        bare_network(n),
        n.security != "reality"@ || n.pbk.len() == 0,
        clean(head_lines(n)),
    ensures
        ({
            let on = n.security == "tls"@ || n.security == "reality"@;
            let tls = if on {
                "true"@
            } else {
                "false"@
            };
            let flow = if n.flow == "xtls-rprx-vision"@ {
                n.flow
            } else {
                seq![]
            };
            let sni = if n.security.len() > 0 {
                n.sni
            } else {
                seq![]
            };
            let secure = line_if(n.security.len() > 0, "    tls: "@ + tls);
            line_list(node_yaml(n)) == head_lines(n) + (seq!["    uuid: "@ + quoted(n.uuid)]
                + seq!["    network: "@ + quoted(n.network)] + given_line("    flow: "@, flow) + (
            secure + given_line("    servername: "@, sni)) + given_line(
                "    client-fingerprint: "@,
                n.fp,
            ))
        }),
{
    let none: Seq<char> = seq![];
    let secure = n.security.len() > 0;
    let on = n.security == "tls"@ || n.security == "reality"@;
    let tls = if on {
        "true"@
    } else {
        "false"@
    };
    let flow = if n.flow == "xtls-rprx-vision"@ {
        n.flow
    } else {
        none
    };
    let sni = if secure {
        n.sni
    } else {
        none
    };
    let head = head_lines(n);
    let a = "    uuid: "@ + quoted(n.uuid);
    let b = "    network: "@ + quoted(n.network);
    let c = given_line("    flow: "@, flow);
    let d = line_if(secure, "    tls: "@ + tls);
    let e = given_line("    servername: "@, sni);
    let f = given_line("    client-fingerprint: "@, n.fp);
    lemma_true();
    lemma_line_ends();
    lemma_security_words();
    lemma_starts();
    lemma_entry_line("    uuid: "@, "uuid"@, n.uuid);
    lemma_entry_line("    network: "@, "network"@, n.network);
    lemma_entry_line("    flow: "@, "flow"@, flow);
    lemma_entry_line("    tls: "@, "tls"@, tls);
    lemma_entry_line("    servername: "@, "servername"@, sni);
    lemma_entry_line("    client-fingerprint: "@, "client-fingerprint"@, n.fp);
    law_vless_entry(n);
    let front = seq![a] + seq![b] + c;
    let more = front + (d + e) + f;
    assert(line_if(n.flow == "xtls-rprx-vision"@, "    flow: "@ + quoted(n.flow)) == c);
    assert(security_lines(n) =~= d + e);
    assert(more + transport_lines(n) =~= more);
    lemma_clean_join(seq![a], seq![b]);
    lemma_clean_join(seq![a] + seq![b], c);
    lemma_clean_join(d, e);
    lemma_clean_join(front, d + e);
    lemma_clean_join(front + (d + e), f);
    lemma_clean_join(head, more);
    lemma_block_lines(head + more);
}

proof fn lemma_vless_read(lines: Seq<Seq<char>>, n: NodeView)
    requires
        listing(lines),
        simple_node(n),
        n.kind == "vless"@,
        bare_network(n),
        n.security != "reality"@ || n.pbk.len() == 0,
    ensures
        proxies_in(lines + line_list(node_yaml(n))) == proxies_in(lines).push(as_listed(n)),
{
    let was = proxies_in(lines);
    let none: Seq<char> = seq![];
    let secure = n.security.len() > 0;
    let on = n.security == "tls"@ || n.security == "reality"@;
    let tls = if on {
        "true"@
    } else {
        "false"@
    };
    let flow = if n.flow == "xtls-rprx-vision"@ {
        n.flow
    } else {
        none
    };
    let sni = if secure {
        n.sni
    } else {
        none
    };
    let n0 = NodeView { name: n.name, kind: n.kind, server: n.server, port: n.port, ..blank() };
    let n1 = NodeView { uuid: n.uuid, ..n0 };
    let n2 = NodeView { network: n.network, ..n1 };
    let n3 = NodeView { flow, ..n2 };
    let n4 = NodeView { tls: on, ..n3 };
    let n5 = NodeView { sni, ..n4 };
    let a = "    uuid: "@ + quoted(n.uuid);
    let b = "    network: "@ + quoted(n.network);
    let c = given_line("    flow: "@, flow);
    let d = line_if(secure, "    tls: "@ + tls);
    let e = given_line("    servername: "@, sni);
    let f = given_line("    client-fingerprint: "@, n.fp);
    lemma_true();
    lemma_security_words();
    lemma_head_read(lines, n);
    lemma_starts();
    lemma_entry_line("    uuid: "@, "uuid"@, n.uuid);
    lemma_entry_line("    network: "@, "network"@, n.network);
    lemma_entry_line("    flow: "@, "flow"@, flow);
    lemma_entry_line("    tls: "@, "tls"@, tls);
    lemma_entry_line("    servername: "@, "servername"@, sni);
    lemma_entry_line("    client-fingerprint: "@, "client-fingerprint"@, n.fp);
    let s0 = head_lines(n);
    let s1 = s0 + seq![a];
    let s2 = s1 + seq![b];
    let s3 = s2 + c;
    let s4 = s3 + d;
    let s5 = s4 + e;
    assert(with_entry(n0, "uuid"@, n.uuid) == n1) by {
        law_keys(n0, n.uuid);
    }
    lemma_more(lines, s0, was, n0, a, "uuid"@, n.uuid);
    assert(with_entry(n1, "network"@, n.network) == n2) by {
        law_keys(n1, n.network);
    }
    lemma_more(lines, s1, was, n1, b, "network"@, n.network);
    assert(with_entry(n2, "flow"@, flow) == n3) by {
        law_keys(n2, flow);
    }
    lemma_more_given(lines, s2, was, n2, "    flow: "@, "flow"@, flow);
    assert(flow.len() == 0 ==> n2 == n3) by {
        assert(flow.len() == 0 ==> flow =~= none);
    }
    assert(reading(lines + s3, was, n3));
    if secure {
        assert(with_entry(n3, "tls"@, tls) == n4) by {
            law_keys(n3, tls);
        }
        lemma_more(lines, s3, was, n3, "    tls: "@ + tls, "tls"@, tls);
    } else {
        assert(s4 =~= s3);
    }
    assert(reading(lines + s4, was, n4));
    assert(with_entry(n4, "servername"@, sni) == n5) by {
        law_keys(n4, sni);
    }
    lemma_more_given(lines, s4, was, n4, "    servername: "@, "servername"@, sni);
    assert(sni.len() == 0 ==> n4 == n5) by {
        assert(sni.len() == 0 ==> sni =~= none);
    }
    assert(reading(lines + s5, was, n5));
    lemma_unread_keys();
    law_unread_key(n5, "client-fingerprint"@, n.fp);
    lemma_more_given(
        lines,
        s5,
        was,
        n5,
        "    client-fingerprint: "@,
        "client-fingerprint"@,
        n.fp,
    );
    assert(n5 == as_listed(n)) by {
        lemma_kinds_differ();
    }
    lemma_vless_lines(n);
    lemma_six(s0, seq![a], seq![b], c, d, e, f);
}

proof fn lemma_security_words()
    ensures
        "tls"@.len() == 3,
        "reality"@.len() == 7,
        "xtls-rprx-vision"@.len() == 16,
{
    reveal_strlit("tls");
    reveal_strlit("reality");
    reveal_strlit("xtls-rprx-vision");
}

/// The entry of a proxy, put behind the lines of a list of proxies, is read as one more proxy that
/// agrees with the node in every field that its protocol uses. The values are simple, and the entry
/// holds no lists and no options of a transport, which the reader does not tell from entries.
pub proof fn law_entry_read_back(lines: Seq<Seq<char>>, n: NodeView)
    requires
        listing(lines),
        simple_node(n),
        n.kind == "ss"@ || n.kind == "hysteria2"@ || n.kind == "tuic"@ || (bare_network(n) && (
        n.kind == "vmess"@ || (n.kind == "trojan"@ && n.alpn.len() == 0) || (n.kind == "vless"@
            && (n.security != "reality"@ || n.pbk.len() == 0)))),
    ensures
        proxies_in(lines + line_list(node_yaml(n))) == proxies_in(lines).push(as_listed(n)),
{
    lemma_kinds_differ();
    if n.kind == "ss"@ {
        lemma_ss_read(lines, n);
    } else if n.kind == "hysteria2"@ {
        lemma_hysteria2_read(lines, n);
    } else if n.kind == "tuic"@ {
        lemma_tuic_read(lines, n);
    } else if n.kind == "trojan"@ {
        lemma_trojan_read(lines, n);
    } else if n.kind == "vmess"@ {
        lemma_vmess_read(lines, n);
    } else {
        lemma_vless_read(lines, n);
    }
}

} // verus!
