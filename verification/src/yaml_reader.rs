//! Reading the proxies of a YAML configuration.

use crate::cut::{
    cut, line_list, lines, split_once, starts_with, trim, trim_by, trimmed, trimmed_end,
    trimmed_start,
};
use crate::foreign::{lowercase, to_lowercase};
use crate::link_writer::{build_uri, link_of};
use crate::node::{blank, Node, NodeView};
use crate::seen::{fresh, met, push_fresh, Seen};
use crate::text::{chars_of, same_text, slices, spells, text_of, texts};
use vstd::prelude::*;
use vstd::slice::slice_subrange;

verus! {

/// The quotes that may stand around a value.
pub open spec fn quote(c: char) -> bool {
    c == '\'' || c == '"'
}

fn is_quote(c: char) -> (r: bool)
    ensures
        r == quote(c),
{
    c == '\'' || c == '"'
}

/// A text without the quotes at both ends.
pub open spec fn unquoted(s: Seq<char>) -> Seq<char> {
    trimmed_end(trimmed_start(s, |c: char| quote(c)), |c: char| quote(c))
}

/// The key and the value of a line: what stands before the first colon, and what stands after
/// it without quotes.
pub open spec fn key_value(line: Seq<char>) -> Option<(Seq<char>, Seq<char>)> {
    match cut(line, ':') {
        Some((key, value)) => Some((trimmed(key), unquoted(trimmed(value)))),
        None => None,
    }
}

fn split_key_value<'a>(line: &'a [char]) -> (r: Option<(&'a [char], &'a [char])>)
    ensures
        match r {
            Some((k, v)) => key_value(line@) == Some((k@, v@)),
            None => key_value(line@) is None,
        },
{
    match split_once(line, ':') {
        Some((key, value)) => Some(
            (trim(key), trim_by(trim(value), is_quote, Ghost(|c: char| quote(c)))),
        ),
        None => None,
    }
}

/// The key and the value of a line of YAML, if it has a colon.
pub fn parse_yaml_value(line: &str) -> (r: Option<(String, String)>)
    ensures
        match r {
            Some((k, v)) => key_value(line@) == Some((k@, v@)),
            None => key_value(line@) is None,
        },
{
    let chars = chars_of(line);
    match split_key_value(chars.as_slice()) {
        Some((key, value)) => Some((text_of(key), text_of(value))),
        None => None,
    }
}

/// The keys of a proxy that are read.
pub open spec fn yaml_key(key: Seq<char>) -> bool {
    ||| key == "name"@
    ||| key == "type"@
    ||| key == "server"@
    ||| key == "address"@
    ||| key == "port"@
    ||| key == "uuid"@
    ||| key == "id"@
    ||| key == "password"@
    ||| key == "passwords"@
    ||| key == "cipher"@
    ||| key == "method"@
    ||| key == "alterId"@
    ||| key == "alter-id"@
    ||| key == "network"@
    ||| key == "network-type"@
    ||| key == "tls"@
    ||| key == "sni"@
    ||| key == "servername"@
    ||| key == "host"@
    ||| key == "path"@
    ||| key == "flow"@
    ||| key == "security"@
    ||| key == "pbk"@
    ||| key == "sid"@
    ||| key == "alpn"@
    ||| key == "fp"@
    ||| key == "fingerprint"@
    ||| key == "congestion-controller"@
    ||| key == "congestionController"@
}

/// A node with the field set that a key of a proxy names. A key that is not read changes
/// nothing.
pub open spec fn with_value(n: NodeView, key: Seq<char>, v: Seq<char>) -> NodeView {
    if key == "name"@ {
        NodeView { name: v, ..n }
    } else if key == "type"@ {
        NodeView { kind: v, ..n }
    } else if key == "server"@ || key == "address"@ {
        NodeView { server: v, ..n }
    } else if key == "port"@ {
        NodeView { port: v, ..n }
    } else if key == "uuid"@ || key == "id"@ {
        NodeView { uuid: v, ..n }
    } else if key == "password"@ || key == "passwords"@ {
        NodeView { password: v, ..n }
    } else if key == "cipher"@ || key == "method"@ {
        NodeView { cipher: v, ..n }
    } else if key == "alterId"@ || key == "alter-id"@ {
        NodeView { alter_id: v, ..n }
    } else if key == "network"@ || key == "network-type"@ {
        NodeView { network: v, ..n }
    } else if key == "tls"@ {
        NodeView { tls: v == "true"@, ..n }
    } else if key == "sni"@ || key == "servername"@ {
        NodeView { sni: v, ..n }
    } else if key == "host"@ {
        NodeView { host: v, ..n }
    } else if key == "path"@ {
        NodeView { path: v, ..n }
    } else if key == "flow"@ {
        NodeView { flow: v, ..n }
    } else if key == "security"@ {
        NodeView { security: v, ..n }
    } else if key == "pbk"@ {
        NodeView { pbk: v, ..n }
    } else if key == "sid"@ {
        NodeView { sid: v, ..n }
    } else if key == "alpn"@ {
        NodeView { alpn: v, ..n }
    } else if key == "fp"@ || key == "fingerprint"@ {
        NodeView { fp: v, ..n }
    } else if key == "congestion-controller"@ || key == "congestionController"@ {
        NodeView { congestion_controller: v, ..n }
    } else {
        n
    }
}

/// A node with an entry of a proxy applied. The protocol is taken in lower case.
pub open spec fn with_entry(n: NodeView, key: Seq<char>, v: Seq<char>) -> NodeView {
    with_value(
        n,
        key,
        if key == "type"@ {
            lowercase(v)
        } else {
            v
        },
    )
}

/// A key that is not read changes nothing.
pub proof fn law_unread_key(n: NodeView, key: Seq<char>, v: Seq<char>)
    requires
        !yaml_key(key),
    ensures
        with_entry(n, key, v) == n,
{
}

/// Sets the field of a node that a key of a proxy names.
pub fn set_value(node: &mut Node, key: &str, value: &str)
    ensures
        final(node)@ == with_value(old(node)@, key@, value@),
{
    let chars = chars_of(key);
    let k = chars.as_slice();
    if spells(k, "name") {
        node.name = value.to_owned();
    } else if spells(k, "type") {
        node.kind = value.to_owned();
    } else if spells(k, "server") || spells(k, "address") {
        node.server = value.to_owned();
    } else if spells(k, "port") {
        node.port = value.to_owned();
    } else if spells(k, "uuid") || spells(k, "id") {
        node.uuid = value.to_owned();
    } else if spells(k, "password") || spells(k, "passwords") {
        node.password = value.to_owned();
    } else if spells(k, "cipher") || spells(k, "method") {
        node.cipher = value.to_owned();
    } else if spells(k, "alterId") || spells(k, "alter-id") {
        node.alter_id = value.to_owned();
    } else if spells(k, "network") || spells(k, "network-type") {
        node.network = value.to_owned();
    } else if spells(k, "tls") {
        node.tls = same_text(value, "true");
    } else if spells(k, "sni") || spells(k, "servername") {
        node.sni = value.to_owned();
    } else if spells(k, "host") {
        node.host = value.to_owned();
    } else if spells(k, "path") {
        node.path = value.to_owned();
    } else if spells(k, "flow") {
        node.flow = value.to_owned();
    } else if spells(k, "security") {
        node.security = value.to_owned();
    } else if spells(k, "pbk") {
        node.pbk = value.to_owned();
    } else if spells(k, "sid") {
        node.sid = value.to_owned();
    } else if spells(k, "alpn") {
        node.alpn = value.to_owned();
    } else if spells(k, "fp") || spells(k, "fingerprint") {
        node.fp = value.to_owned();
    } else if spells(k, "congestion-controller") || spells(k, "congestionController") {
        node.congestion_controller = value.to_owned();
    }
}

/// Applies an entry of a proxy to a node. The protocol is taken in lower case.
pub fn apply_yaml_kv(node: &mut Node, key: &str, value: &str)
    ensures
        final(node)@ == with_entry(old(node)@, key@, value@),
{
    if same_text(key, "type") {
        let lowered = to_lowercase(value);
        set_value(node, key, lowered.as_str());
    } else {
        set_value(node, key, value);
    }
}

/// A node with a line of its entry applied.
pub open spec fn with_line(n: NodeView, line: Seq<char>) -> NodeView {
    match key_value(line) {
        Some((k, v)) => with_entry(n, k, v),
        None => n,
    }
}

fn apply_line(node: &mut Node, line: &[char])
    ensures
        final(node)@ == with_line(old(node)@, line@),
{
    if let Some((key, value)) = split_key_value(line) {
        apply_yaml_kv(node, text_of(key).as_str(), text_of(value).as_str());
    }
}

/// How far the reading of a configuration is: whether the list of proxies is being read, the
/// proxy that is being read, and the proxies that were read.
pub struct YamlState {
    pub in_proxies: bool,
    pub current: Option<NodeView>,
    pub done: Seq<NodeView>,
}

/// Nothing was read yet.
pub open spec fn yaml_start() -> YamlState {
    YamlState { in_proxies: false, current: None, done: seq![] }
}

/// The proxies that were read, with the one that was being read.
pub open spec fn all_read(s: YamlState) -> Seq<NodeView> {
    match s.current {
        Some(n) => s.done.push(n),
        None => s.done,
    }
}

/// A line that is not indented starts a section of the document.
pub open spec fn top_level(line: Seq<char>) -> bool {
    !(line.len() > 0 && (line[0] == ' ' || line[0] == '\t'))
}

/// Reading one line. A blank line changes nothing. A line that is not indented ends the list of
/// proxies, or starts it where it is `proxies:`. In the list, `- ` starts a proxy, and every
/// other line belongs to the proxy that is being read.
pub open spec fn yaml_step(s: YamlState, line: Seq<char>) -> YamlState {
    let text = trimmed(line);
    if text.len() == 0 {
        s
    } else if top_level(line) {
        YamlState { in_proxies: text == "proxies:"@, current: None, done: all_read(s) }
    } else if !s.in_proxies {
        s
    } else if seq!['-', ' '].is_prefix_of(text) {
        YamlState { current: Some(with_line(blank(), text.skip(2))), done: all_read(s), ..s }
    } else {
        match s.current {
            Some(n) => YamlState { current: Some(with_line(n, text)), ..s },
            None => s,
        }
    }
}

/// Reading some lines, from first to last.
pub open spec fn yaml_run(lines: Seq<Seq<char>>) -> YamlState
    decreases lines.len(),
{
    if lines.len() == 0 {
        yaml_start()
    } else {
        yaml_step(yaml_run(lines.drop_last()), lines.last())
    }
}

/// The proxies of a configuration.
pub open spec fn yaml_nodes(text: Seq<char>) -> Seq<NodeView> {
    all_read(yaml_run(line_list(text)))
}

/// The links of some nodes: of those whose protocol can be written.
pub open spec fn links_of(nodes: Seq<NodeView>) -> Seq<Seq<char>>
    decreases nodes.len(),
{
    if nodes.len() == 0 {
        seq![]
    } else {
        let rest = links_of(nodes.drop_last());
        match link_of(nodes.last()) {
            Some(uri) => rest.push(uri),
            None => rest,
        }
    }
}

spec fn opt_view(n: Option<Node>) -> Option<NodeView> {
    match n {
        Some(n) => Some(n@),
        None => None,
    }
}

/// The proxies that were read are all that matters outside the list.
spec fn tidy(s: YamlState) -> bool {
    s.current is Some ==> s.in_proxies
}

fn flush(
    current: &mut Option<Node>,
    results: &mut Vec<String>,
    seen: &mut Seen,
    Ghost(done): Ghost<Seq<NodeView>>,
    Ghost(start): Ghost<Set<Seq<char>>>,
)
    requires
        texts(old(results)@) == fresh(links_of(done), start),
        old(seen)@ == met(links_of(done), start),
    ensures
        *final(current) is None,
        ({
            let all = match opt_view(*old(current)) {
                Some(n) => done.push(n),
                None => done,
            };
            &&& texts(final(results)@) == fresh(links_of(all), start)
            &&& final(seen)@ == met(links_of(all), start)
        }),
{
    if let Some(node) = current.take() {
        assert(done.push(node@).drop_last() =~= done);
        if let Some(uri) = build_uri(&node) {
            push_fresh(results, uri, seen, Ghost(links_of(done)), Ghost(start));
        }
    }
}

/// Reads the proxies of a configuration and returns their links, without those that were seen
/// before; all of them are then remembered.
pub fn parse_yaml(text: &str, seen: &mut Seen) -> (r: Vec<String>)
    ensures
        texts(r@) == fresh(links_of(yaml_nodes(text@)), old(seen)@),
        final(seen)@ == met(links_of(yaml_nodes(text@)), old(seen)@),
{
    let ghost start = seen@;
    let chars = chars_of(text);
    let rows = lines(chars.as_slice());
    let ghost list = slices(rows@);
    let dash = chars_of("- ");
    let mut results: Vec<String> = Vec::new();
    let mut current: Option<Node> = None;
    let mut in_proxies = false;
    let ghost mut state = yaml_start();
    let mut i: usize = 0;
    proof {
        reveal_strlit("- ");
        assert(dash@ =~= seq!['-', ' ']);
        assert(list.take(0) =~= seq![]);
        assert(links_of(state.done) =~= seq![]);
        assert(texts(results@) =~= fresh(links_of(state.done), start));
        assert(seen@ =~= met(links_of(state.done), start));
    }
    while i < rows.len()
        invariant
            list == slices(rows@),
            dash@ == seq!['-', ' '],
            i <= rows@.len(),
            state == yaml_run(list.take(i as int)),
            tidy(state),
            in_proxies == state.in_proxies,
            opt_view(current) == state.current,
            texts(results@) == fresh(links_of(state.done), start),
            seen@ == met(links_of(state.done), start),
        decreases rows@.len() - i,
    {
        assert(list.take(i + 1).drop_last() =~= list.take(i as int));
        let line = rows[i];
        let row = trim(line);
        let ghost next = yaml_step(state, line@);
        if row.len() > 0 {
            if line[0] != ' ' && line[0] != '\t' {
                flush(&mut current, &mut results, seen, Ghost(state.done), Ghost(start));
                in_proxies = spells(row, "proxies:");
            } else if in_proxies {
                if starts_with(row, dash.as_slice()) {
                    flush(&mut current, &mut results, seen, Ghost(state.done), Ghost(start));
                    let mut node = Node::default();
                    apply_line(&mut node, slice_subrange(row, 2, row.len()));
                    current = Some(node);
                } else if let Some(mut node) = current.take() {
                    apply_line(&mut node, row);
                    current = Some(node);
                }
            }
        }
        proof {
            state = next;
        }
        i += 1;
    }
    assert(list.take(i as int) =~= list);
    flush(&mut current, &mut results, seen, Ghost(state.done), Ghost(start));
    results
}

} // verus!
