//! What is read from the list of proxies of a YAML configuration.

use crate::cut::{lemma_cut_join, lemma_cut_none, trimmed, trimmed_end, trimmed_start};
use crate::foreign::lowercase;
use crate::link_writer::link_of;
use crate::node::{blank, NodeView};
use crate::text::white_space;
use crate::yaml_reader::{
    all_read, key_value, links_of, quote, with_entry, with_line, with_value, yaml_run,
};
use vstd::prelude::*;

verus! {

// ---------------------------------------------------------------------------------------------
// The entries of a proxy
// ---------------------------------------------------------------------------------------------

/// What tells the keys of a proxy apart.
pub(crate) proof fn lemma_keys()
    ensures
        "name"@.len() == 4 && "name"@[0] == 'n',
        "type"@.len() == 4 && "type"@[0] == 't',
        "server"@.len() == 6 && "server"@[0] == 's',
        "address"@.len() == 7 && "address"@[0] == 'a',
        "port"@.len() == 4 && "port"@[0] == 'p',
        "uuid"@.len() == 4 && "uuid"@[0] == 'u',
        "id"@.len() == 2 && "id"@[0] == 'i',
        "password"@.len() == 8 && "password"@[0] == 'p',
        "passwords"@.len() == 9 && "passwords"@[0] == 'p',
        "cipher"@.len() == 6 && "cipher"@[0] == 'c',
        "method"@.len() == 6 && "method"@[0] == 'm',
        "alterId"@.len() == 7 && "alterId"@[0] == 'a',
        "alter-id"@.len() == 8 && "alter-id"@[0] == 'a',
        "network"@.len() == 7 && "network"@[0] == 'n',
        "network-type"@.len() == 12 && "network-type"@[0] == 'n',
        "tls"@.len() == 3 && "tls"@[0] == 't',
        "sni"@.len() == 3 && "sni"@[0] == 's',
        "servername"@.len() == 10 && "servername"@[0] == 's',
        "host"@.len() == 4 && "host"@[0] == 'h',
        "path"@.len() == 4 && "path"@[0] == 'p',
        "flow"@.len() == 4 && "flow"@[0] == 'f',
        "security"@.len() == 8 && "security"@[0] == 's',
        "pbk"@.len() == 3 && "pbk"@[0] == 'p',
        "sid"@.len() == 3 && "sid"@[0] == 's',
        "alpn"@.len() == 4 && "alpn"@[0] == 'a',
        "fp"@.len() == 2 && "fp"@[0] == 'f',
        "fingerprint"@.len() == 11 && "fingerprint"@[0] == 'f',
        "congestion-controller"@.len() == 21 && "congestion-controller"@[0] == 'c',
        "congestionController"@.len() == 20 && "congestionController"@[0] == 'c',
        "port"@[1] == 'o' && "path"@[1] == 'a',
        "address"@[1] == 'd' && "alterId"@[1] == 'l',
        "sni"@[1] == 'n' && "sid"@[1] == 'i',
{
    reveal_strlit("name");
    reveal_strlit("type");
    reveal_strlit("server");
    reveal_strlit("address");
    reveal_strlit("port");
    reveal_strlit("uuid");
    reveal_strlit("id");
    reveal_strlit("password");
    reveal_strlit("passwords");
    reveal_strlit("cipher");
    reveal_strlit("method");
    reveal_strlit("alterId");
    reveal_strlit("alter-id");
    reveal_strlit("network");
    reveal_strlit("network-type");
    reveal_strlit("tls");
    reveal_strlit("sni");
    reveal_strlit("servername");
    reveal_strlit("host");
    reveal_strlit("path");
    reveal_strlit("flow");
    reveal_strlit("security");
    reveal_strlit("pbk");
    reveal_strlit("sid");
    reveal_strlit("alpn");
    reveal_strlit("fp");
    reveal_strlit("fingerprint");
    reveal_strlit("congestion-controller");
    reveal_strlit("congestionController");
}

/// Each key of a proxy sets the one field that it names and leaves every other field of the node as
/// it was.
pub proof fn law_keys(n: NodeView, v: Seq<char>)
    ensures
        with_entry(n, "name"@, v) == (NodeView { name: v, ..n }),
        with_entry(n, "type"@, v) == (NodeView { kind: lowercase(v), ..n }),
        with_entry(n, "server"@, v) == (NodeView { server: v, ..n }),
        with_entry(n, "address"@, v) == (NodeView { server: v, ..n }),
        with_entry(n, "port"@, v) == (NodeView { port: v, ..n }),
        with_entry(n, "uuid"@, v) == (NodeView { uuid: v, ..n }),
        with_entry(n, "id"@, v) == (NodeView { uuid: v, ..n }),
        with_entry(n, "password"@, v) == (NodeView { password: v, ..n }),
        with_entry(n, "passwords"@, v) == (NodeView { password: v, ..n }),
        with_entry(n, "cipher"@, v) == (NodeView { cipher: v, ..n }),
        with_entry(n, "method"@, v) == (NodeView { cipher: v, ..n }),
        with_entry(n, "alterId"@, v) == (NodeView { alter_id: v, ..n }),
        with_entry(n, "alter-id"@, v) == (NodeView { alter_id: v, ..n }),
        with_entry(n, "network"@, v) == (NodeView { network: v, ..n }),
        with_entry(n, "network-type"@, v) == (NodeView { network: v, ..n }),
        with_entry(n, "tls"@, v) == (NodeView { tls: v == "true"@, ..n }),
        with_entry(n, "sni"@, v) == (NodeView { sni: v, ..n }),
        with_entry(n, "servername"@, v) == (NodeView { sni: v, ..n }),
        with_entry(n, "host"@, v) == (NodeView { host: v, ..n }),
        with_entry(n, "path"@, v) == (NodeView { path: v, ..n }),
        with_entry(n, "flow"@, v) == (NodeView { flow: v, ..n }),
        with_entry(n, "security"@, v) == (NodeView { security: v, ..n }),
        with_entry(n, "pbk"@, v) == (NodeView { pbk: v, ..n }),
        with_entry(n, "sid"@, v) == (NodeView { sid: v, ..n }),
        with_entry(n, "alpn"@, v) == (NodeView { alpn: v, ..n }),
        with_entry(n, "fp"@, v) == (NodeView { fp: v, ..n }),
        with_entry(n, "fingerprint"@, v) == (NodeView { fp: v, ..n }),
        with_entry(n, "congestion-controller"@, v) == (NodeView { congestion_controller: v, ..n }),
        with_entry(n, "congestionController"@, v) == (NodeView { congestion_controller: v, ..n }),
{
    lemma_keys();
}

/// A field of a node is set by the keys that name it, and by no other.
pub proof fn law_entry_sets(n: NodeView, key: Seq<char>, v: Seq<char>)
    ensures
        ({
            let m = with_value(n, key, v);
            let set = |a: Seq<char>, b: Seq<char>, was: Seq<char>|
                if key == a || key == b {
                    v
                } else {
                    was
                };
            &&& m.name == set("name"@, "name"@, n.name)
            &&& m.kind == set("type"@, "type"@, n.kind)
            &&& m.server == set("server"@, "address"@, n.server)
            &&& m.port == set("port"@, "port"@, n.port)
            &&& m.uuid == set("uuid"@, "id"@, n.uuid)
            &&& m.password == set("password"@, "passwords"@, n.password)
            &&& m.cipher == set("cipher"@, "method"@, n.cipher)
            &&& m.alter_id == set("alterId"@, "alter-id"@, n.alter_id)
            &&& m.network == set("network"@, "network-type"@, n.network)
            &&& m.sni == set("sni"@, "servername"@, n.sni)
            &&& m.host == set("host"@, "host"@, n.host)
            &&& m.path == set("path"@, "path"@, n.path)
            &&& m.flow == set("flow"@, "flow"@, n.flow)
            &&& m.security == set("security"@, "security"@, n.security)
            &&& m.pbk == set("pbk"@, "pbk"@, n.pbk)
            &&& m.sid == set("sid"@, "sid"@, n.sid)
            &&& m.alpn == set("alpn"@, "alpn"@, n.alpn)
            &&& m.fp == set("fp"@, "fingerprint"@, n.fp)
            &&& m.congestion_controller == set(
                "congestion-controller"@,
                "congestionController"@,
                n.congestion_controller,
            )
            &&& m.tls == if key == "tls"@ {
                v == "true"@
            } else {
                n.tls
            }
            &&& m.encryption == n.encryption
        }),
        key != "type"@ ==> with_entry(n, key, v) == with_value(n, key, v),
        with_entry(n, "type"@, v) == with_value(n, "type"@, lowercase(v)),
{
    lemma_keys();
}

/// The last value that some entries give under one of two keys, or the empty text where none gives
/// one.
pub open spec fn last_value(
    entries: Seq<(Seq<char>, Seq<char>)>,
    key: Seq<char>,
    other: Seq<char>,
) -> Seq<char>
    decreases entries.len(),
{
    if entries.len() == 0 {
        seq![]
    } else {
        let (k, v) = entries.last();
        if k == key || k == other {
            v
        } else {
            last_value(entries.drop_last(), key, other)
        }
    }
}

/// The node that the entries of a proxy describe: for each field what the last entry says that
/// names it.
pub open spec fn described(entries: Seq<(Seq<char>, Seq<char>)>) -> NodeView {
    NodeView {
        name: last_value(entries, "name"@, "name"@),
        kind: last_type(entries),
        server: last_value(entries, "server"@, "address"@),
        port: last_value(entries, "port"@, "port"@),
        uuid: last_value(entries, "uuid"@, "id"@),
        password: last_value(entries, "password"@, "passwords"@),
        cipher: last_value(entries, "cipher"@, "method"@),
        alter_id: last_value(entries, "alterId"@, "alter-id"@),
        network: last_value(entries, "network"@, "network-type"@),
        sni: last_value(entries, "sni"@, "servername"@),
        host: last_value(entries, "host"@, "host"@),
        path: last_value(entries, "path"@, "path"@),
        flow: last_value(entries, "flow"@, "flow"@),
        security: last_value(entries, "security"@, "security"@),
        pbk: last_value(entries, "pbk"@, "pbk"@),
        sid: last_value(entries, "sid"@, "sid"@),
        alpn: last_value(entries, "alpn"@, "alpn"@),
        fp: last_value(entries, "fp"@, "fingerprint"@),
        congestion_controller: last_value(
            entries,
            "congestion-controller"@,
            "congestionController"@,
        ),
        tls: last_value(entries, "tls"@, "tls"@) == "true"@,
        encryption: seq![],
    }
}

/// The protocol of a proxy: the last `type` among its entries, in lower case.
pub open spec fn last_type(entries: Seq<(Seq<char>, Seq<char>)>) -> Seq<char>
    decreases entries.len(),
{
    if entries.len() == 0 {
        seq![]
    } else if entries.last().0 == "type"@ {
        lowercase(entries.last().1)
    } else {
        last_type(entries.drop_last())
    }
}

/// One more entry changes the node as the entry says.
proof fn lemma_described(entries: Seq<(Seq<char>, Seq<char>)>, k: Seq<char>, v: Seq<char>)
    ensures
        described(entries.push((k, v))) == with_entry(described(entries), k, v),
        described(seq![]) == blank(),
{
    assert(entries.push((k, v)).drop_last() =~= entries);
    lemma_keys();
    reveal_strlit("true");
    assert("true"@.len() == 4);
    let value = if k == "type"@ {
        lowercase(v)
    } else {
        v
    };
    law_entry_sets(described(entries), k, value);
    assert(described(seq![]) =~= blank());
}

// ---------------------------------------------------------------------------------------------
// Lines
// ---------------------------------------------------------------------------------------------

proof fn lemma_trimmed_start_join(a: Seq<char>, s: Seq<char>, f: spec_fn(char) -> bool)
    requires
        a.all(f),
        s.len() > 0 ==> !f(s[0]),
    ensures
        trimmed_start(a + s, f) == s,
    decreases a.len(),
{
    if a.len() == 0 {
        assert(a + s =~= s);
    } else {
        let fewer = a.skip(1);
        assert(f(a[0]));
        assert forall|i: int| 0 <= i < fewer.len() implies #[trigger] f(fewer[i]) by {
            assert(f(a[i + 1]));
        }
        lemma_trimmed_start_join(fewer, s, f);
        assert((a + s).skip(1) =~= fewer + s);
    }
}

proof fn lemma_trimmed_end_join(s: Seq<char>, b: Seq<char>, f: spec_fn(char) -> bool)
    requires
        b.all(f),
        s.len() > 0 ==> !f(s.last()),
    ensures
        trimmed_end(s + b, f) == s,
    decreases b.len(),
{
    if b.len() == 0 {
        assert(s + b =~= s);
    } else {
        let fewer = b.drop_last();
        assert(f(b[b.len() - 1]));
        assert forall|i: int| 0 <= i < fewer.len() implies #[trigger] f(fewer[i]) by {
            assert(f(b[i]));
        }
        lemma_trimmed_end_join(s, fewer, f);
        assert((s + b).drop_last() =~= s + fewer);
    }
}

/// A text between two runs of characters that are taken away is what is left.
pub(crate) proof fn lemma_padded(
    a: Seq<char>,
    s: Seq<char>,
    b: Seq<char>,
    f: spec_fn(char) -> bool,
)
    requires
        a.all(f),
        b.all(f),
        s.len() > 0 ==> !f(s[0]) && !f(s.last()),
    ensures
        trimmed_end(trimmed_start(a + s + b, f), f) == s,
{
    if s.len() == 0 {
        assert forall|i: int| 0 <= i < (a + b).len() implies #[trigger] f((a + b)[i]) by {
            if i < a.len() {
                assert(f(a[i]));
            } else {
                assert(f(b[i - a.len()]));
            }
        }
        assert(a + s + b =~= (a + b) + s);
        lemma_trimmed_start_join(a + b, s, f);
        assert(s =~= s + s);
        lemma_trimmed_end_join(s, s, f);
    } else {
        assert(a + s + b =~= a + (s + b));
        lemma_trimmed_start_join(a, s + b, f);
        lemma_trimmed_end_join(s, b, f);
    }
}

/// White space.
pub open spec fn blanks(s: Seq<char>) -> bool {
    s.all(|c: char| white_space(c))
}

/// A text that neither starts nor ends with white space.
pub open spec fn tight(s: Seq<char>) -> bool {
    s.len() > 0 ==> !white_space(s[0]) && !white_space(s.last())
}

/// Quotes.
pub open spec fn quotes(s: Seq<char>) -> bool {
    s.all(|c: char| quote(c))
}

/// The quotes that are taken away are the single and the double one.
pub proof fn law_quotes(c: char)
    ensures
        quote(c) <==> c == '\'' || c == '"',
{
}

/// A line gives the key before its first colon and the value behind it, whatever white space stands
/// around them and whatever quotes around the value.
pub proof fn law_line(
    key: Seq<char>,
    left: Seq<char>,
    value: Seq<char>,
    right: Seq<char>,
    pads: (Seq<char>, Seq<char>, Seq<char>, Seq<char>),
)
    requires
        !key.contains(':'),
        tight(key),
        value.len() > 0 ==> !quote(value[0]) && !quote(value.last()),
        quotes(left) && quotes(right),
        tight(left + value + right),
        blanks(pads.0) && blanks(pads.1) && blanks(pads.2) && blanks(pads.3),
    ensures
        key_value(
            pads.0 + key + pads.1 + seq![':'] + (pads.2 + (left + value + right) + pads.3),
        ) == Some((key, value)),
{
    let w = |c: char| white_space(c);
    let front = pads.0 + key + pads.1;
    let back = pads.2 + (left + value + right) + pads.3;
    assert(!white_space(':'));
    assert(!front.contains(':')) by {
        assert forall|i: int| 0 <= i < front.len() implies front[i] != ':' by {
            if i < pads.0.len() {
                assert(w(pads.0[i]));
            } else if i < pads.0.len() + key.len() {
                assert(front[i] == key[i - pads.0.len()]);
            } else {
                assert(w(pads.1[i - pads.0.len() - key.len()]));
            }
        }
    }
    lemma_cut_join(front, ':', back);
    lemma_padded(pads.0, key, pads.1, w);
    lemma_padded(pads.2, left + value + right, pads.3, w);
    lemma_padded(left, value, right, |c: char| quote(c));
}

/// A line without a colon changes nothing.
pub proof fn law_bare_line(n: NodeView, line: Seq<char>)
    requires
        !line.contains(':'),
    ensures
        key_value(line) is None,
        with_line(n, line) == n,
{
    lemma_cut_none(line, ':');
}

// ---------------------------------------------------------------------------------------------
// Documents
// ---------------------------------------------------------------------------------------------

/// A line that starts a section of a document: it is not empty, and not indented.
pub open spec fn section(line: Seq<char>) -> bool {
    trimmed(line).len() > 0 && line[0] != ' ' && line[0] != '\t'
}

/// The last section of some lines is the list of proxies.
pub open spec fn listing(lines: Seq<Seq<char>>) -> bool {
    exists|i: int| list_start(lines, i)
}

/// The list of proxies starts at line `i`, and no other section behind it.
pub open spec fn list_start(lines: Seq<Seq<char>>, i: int) -> bool {
    &&& 0 <= i < lines.len()
    &&& section(lines[i])
    &&& trimmed(lines[i]) == "proxies:"@
    &&& forall|j: int| i < j < lines.len() ==> !section(#[trigger] lines[j])
}

/// A line that starts a proxy.
pub open spec fn item(line: Seq<char>) -> bool {
    seq!['-', ' '].is_prefix_of(trimmed(line))
}

/// A proxy was started in the list that is the last section of some lines.
pub open spec fn item_open(lines: Seq<Seq<char>>) -> bool {
    exists|i: int, j: int| #[trigger] item_start(lines, i, j)
}

/// The list starts at line `i`, and a proxy at line `j` behind it.
pub open spec fn item_start(lines: Seq<Seq<char>>, i: int, j: int) -> bool {
    list_start(lines, i) && i < j < lines.len() && item(lines[j])
}

/// The proxies that some lines hold.
pub open spec fn proxies_in(lines: Seq<Seq<char>>) -> Seq<NodeView> {
    all_read(yaml_run(lines))
}

pub(crate) proof fn lemma_list_start(lines: Seq<Seq<char>>, line: Seq<char>)
    ensures
        section(line) ==> (listing(lines.push(line)) <==> trimmed(line) == "proxies:"@),
        section(line) ==> !item_open(lines.push(line)),
        !section(line) ==> (listing(lines.push(line)) <==> listing(lines)),
        !section(line) ==> (item_open(lines.push(line)) <==> item_open(lines) || (listing(lines)
            && item(line))),
{
    let more = lines.push(line);
    let last: int = lines.len() as int;
    assert(more[last] == line);
    assert forall|i: int| 0 <= i < last implies more[i] == lines[i] by {}
    assert forall|i: int| list_start(more, i) && section(line) implies i == last by {
        if i < last {
            assert(!section(more[last]));
        }
    }
    if section(line) {
        if trimmed(line) == "proxies:"@ {
            assert(list_start(more, last));
        } else if listing(more) {
            let i = choose|i: int| list_start(more, i);
            assert(i == last);
        }
    } else {
        assert forall|i: int| list_start(more, i) <==> list_start(lines, i) by {
            if list_start(more, i) {
                assert(i != last);
                assert forall|j: int| i < j < lines.len() implies !section(#[trigger] lines[j]) by {
                    assert(!section(more[j]));
                }
            }
        }
        if listing(more) {
            let i = choose|i: int| list_start(more, i);
            assert(list_start(lines, i));
        }
        if listing(lines) {
            let i = choose|i: int| list_start(lines, i);
            assert(list_start(more, i));
            if item(line) {
                assert(item_start(more, i, last));
            }
        }
        if item_open(lines) {
            let (i, j) = choose|i: int, j: int| item_start(lines, i, j);
            assert(item_start(more, i, j));
        }
        if item_open(more) {
            let (i, j) = choose|i: int, j: int| item_start(more, i, j);
            assert(list_start(lines, i));
            if j < last {
                assert(item_start(lines, i, j));
            }
        }
    }
}

/// How far the reading is follows from which lines were read.
proof fn lemma_state(lines: Seq<Seq<char>>)
    ensures
        yaml_run(lines).in_proxies == listing(lines),
        yaml_run(lines).current is Some == item_open(lines),
    decreases lines.len(),
{
    if lines.len() > 0 {
        let fewer = lines.drop_last();
        let line = lines.last();
        lemma_state(fewer);
        lemma_list_start(fewer, line);
        assert(fewer.push(line) =~= lines);
        let text = trimmed(line);
        if text.len() > 0 && line.len() == 0 {
            lemma_trimmed_empty(line);
        }
        if item(line) {
            assert(text.len() >= 2);
        }
        if item_open(fewer) {
            let (i, j) = choose|i: int, j: int| item_start(fewer, i, j);
            assert(list_start(fewer, i));
        }
    }
}

pub(crate) proof fn lemma_trimmed_empty(s: Seq<char>)
    requires
        s.len() == 0,
    ensures
        trimmed(s).len() == 0,
{
}

/// What one more line of a document does. In the list of proxies, a line that starts with `- ` adds
/// a proxy, and a line of the proxy that is being read changes that one; a blank line, a line that
/// starts a section, a line of another section and one before the first proxy change nothing.
pub proof fn law_next_line(lines: Seq<Seq<char>>, line: Seq<char>)
    ensures
        ({
            let was = proxies_in(lines);
            let now = proxies_in(lines.push(line));
            let text = trimmed(line);
            if section(line) || text.len() == 0 || !listing(lines) {
                now == was
            } else if item(line) {
                now == was.push(with_line(blank(), text.skip(2)))
            } else if item_open(lines) {
                was.len() > 0 && now == was.drop_last().push(with_line(was.last(), text))
            } else {
                now == was
            }
        }),
{
    lemma_state(lines);
    assert(lines.push(line).drop_last() =~= lines);
    let s = yaml_run(lines);
    if let Some(n) = s.current {
        assert(s.done.push(n).drop_last() =~= s.done);
    }
    if trimmed(line).len() > 0 && line.len() == 0 {
        lemma_trimmed_empty(line);
    }
}

/// Some lines write the entries of a proxy, one on each line, with `- ` before the first.
pub open spec fn write_proxy(
    lines: Seq<Seq<char>>,
    entries: Seq<(Seq<char>, Seq<char>)>,
) -> bool {
    &&& lines.len() == entries.len() > 0
    &&& item(lines[0])
    &&& key_value(trimmed(lines[0]).skip(2)) == Some(entries[0])
    &&& !section(lines[0])
    &&& forall|i: int|
        0 < i < lines.len() ==> !section(#[trigger] lines[i]) && !item(lines[i]) && key_value(
            trimmed(lines[i]),
        ) == Some(entries[i])
}

/// A proxy that is written in the list of proxies is read with each field as its entries say,
/// behind the proxies that stand before it.
pub proof fn law_proxy(
    lines: Seq<Seq<char>>,
    more: Seq<Seq<char>>,
    entries: Seq<(Seq<char>, Seq<char>)>,
)
    requires
        listing(lines),
        write_proxy(more, entries),
    ensures
        proxies_in(lines + more) == proxies_in(lines).push(described(entries)),
        listing(lines + more),
        item_open(lines + more),
    decreases more.len(),
{
    let line = more.last();
    let all = lines + more.drop_last();
    assert(lines + more =~= all.push(line));
    let (k, v) = entries.last();
    let fewer = entries.drop_last();
    assert(fewer.push((k, v)) =~= entries);
    lemma_described(fewer, k, v);
    law_next_line(all, line);
    lemma_list_start(all, line);
    let none: Seq<char> = seq![];
    if more.len() == 1 {
        assert(all =~= lines);
        assert(fewer =~= seq![]);
        assert(trimmed(line).len() >= 2);
    } else {
        law_proxy(lines, more.drop_last(), fewer);
        assert(line == more[more.len() - 1]);
        if trimmed(line).len() == 0 {
            assert(trimmed(line) =~= none);
            lemma_cut_none(none, ':');
        }
        let was = proxies_in(lines);
        assert(was.push(described(fewer)).drop_last() =~= was);
    }
}

// ---------------------------------------------------------------------------------------------
// Links
// ---------------------------------------------------------------------------------------------

/// The links of some nodes are one for each node that can be written, in the order of the nodes.
pub proof fn law_links_of(nodes: Seq<NodeView>)
    ensures
        links_of(nodes) == nodes.filter(|n: NodeView| link_of(n) is Some).map_values(
            |n: NodeView| link_of(n)->0,
        ),
        forall|i: int|
            0 <= i < nodes.len() && link_of(#[trigger] nodes[i]) is Some ==> links_of(
                nodes,
            ).contains(link_of(nodes[i])->0),
    decreases nodes.len(),
{
    let f = |n: NodeView| link_of(n) is Some;
    let g = |n: NodeView| link_of(n)->0;
    reveal(Seq::filter);
    if nodes.len() == 0 {
        assert(links_of(nodes) =~= nodes.filter(f).map_values(g));
    } else {
        let fewer = nodes.drop_last();
        law_links_of(fewer);
        let kept = fewer.filter(f);
        if f(nodes.last()) {
            assert(kept.push(nodes.last()).map_values(g) =~= kept.map_values(g).push(
                g(nodes.last()),
            ));
        }
        assert(links_of(nodes) =~= nodes.filter(f).map_values(g));
        assert forall|i: int|
            0 <= i < nodes.len() && link_of(#[trigger] nodes[i]) is Some implies links_of(
            nodes,
        ).contains(link_of(nodes[i])->0) by {
            let rest = links_of(fewer);
            if i < fewer.len() {
                assert(nodes[i] == fewer[i]);
                let k = choose|k: int| 0 <= k < rest.len() && rest[k] == link_of(nodes[i])->0;
                assert(links_of(nodes)[k] == rest[k]);
            } else {
                assert(links_of(nodes)[rest.len() as int] == link_of(nodes[i])->0);
            }
        }
    }
}

} // verus!
