//! Which proxies a configuration holds, and where.

use crate::config::{
    config_text, escaped, first_free, group_items, group_names, lemma_free_name,
    lemma_numbered_injective, lemma_numbered_len, named_nodes, node_names, node_yaml, numbered,
    numbered_name, proxy_entries, quoted, quoted_line, MIHOMO_HEADER,
};
use crate::decimal::decimal;
use crate::link_reader::node_of;
use crate::node::NodeView;
use crate::text::lemma_join_associative;
use vstd::prelude::*;

verus! {

// ---------------------------------------------------------------------------------------------
// The proxies of a list of links
// ---------------------------------------------------------------------------------------------

/// A link that describes a node with a name.
pub open spec fn gives_proxy(uri: Seq<char>) -> bool {
    node_of(uri) matches Some(n) && n.name.len() > 0
}

/// The nodes of a configuration are exactly those that the links describe and that have a name, one
/// for each such link, in the order of the links and whatever their protocol.
pub proof fn law_nodes_of_links(uris: Seq<Seq<char>>)
    ensures
        named_nodes(uris) == uris.filter(|uri: Seq<char>| gives_proxy(uri)).map_values(
            |uri: Seq<char>| node_of(uri)->0,
        ),
    decreases uris.len(),
{
    let f = |uri: Seq<char>| gives_proxy(uri);
    let g = |uri: Seq<char>| node_of(uri)->0;
    reveal(Seq::filter);
    if uris.len() > 0 {
        let fewer = uris.drop_last();
        law_nodes_of_links(fewer);
        let kept = fewer.filter(f);
        if f(uris.last()) {
            assert(kept.push(uris.last()).map_values(g) =~= kept.map_values(g).push(
                g(uris.last()),
            ));
        }
        assert(named_nodes(uris) =~= uris.filter(f).map_values(g));
    } else {
        assert(named_nodes(uris) =~= uris.filter(f).map_values(g));
    }
}

/// The nodes of two lists of links are those of the first, and then those of the second.
pub proof fn law_nodes_in_turn(a: Seq<Seq<char>>, b: Seq<Seq<char>>)
    ensures
        named_nodes(a + b) == named_nodes(a) + named_nodes(b),
{
    let f = |uri: Seq<char>| gives_proxy(uri);
    let g = |uri: Seq<char>| node_of(uri)->0;
    law_nodes_of_links(a);
    law_nodes_of_links(b);
    law_nodes_of_links(a + b);
    Seq::filter_distributes_over_add(a, b, f);
    assert((a.filter(f) + b.filter(f)).map_values(g) =~= a.filter(f).map_values(g) + b.filter(
        f,
    ).map_values(g));
}

/// A node may stand under a number behind its name, and is the same otherwise.
pub open spec fn same_proxy(n: NodeView, m: NodeView) -> bool {
    &&& m == (NodeView { name: m.name, ..n })
    &&& m.name == n.name || exists|k: nat|
        k >= 2 && m.name == #[trigger] (n.name + " #"@ + decimal(k))
}

/// A text holds another.
pub open spec fn part_of(part: Seq<char>, whole: Seq<char>) -> bool {
    exists|a: Seq<char>, b: Seq<char>| whole == #[trigger] (a + part + b)
}

/// Numbering changes nothing but names, and a name only by a number behind it.
pub proof fn law_numbered(nodes: Seq<NodeView>)
    ensures
        numbered(nodes).len() == nodes.len(),
        forall|i: int|
            0 <= i < nodes.len() ==> same_proxy(nodes[i], #[trigger] numbered(nodes)[i]),
    decreases nodes.len(),
{
    if nodes.len() > 0 {
        let front = nodes.drop_last();
        let rest = numbered(front);
        law_numbered(front);
        let n = nodes.last();
        lemma_free_name(n.name, node_names(rest));
        reveal_strlit(" #");
        assert(" #"@ =~= seq![' ', '#']);
        let k = choose|k: nat| first_free(n.name, node_names(rest), k);
        let m = numbered(nodes).last();
        assert(m.name == numbered_name(n.name, k));
        if k > 1 {
            assert(m.name == n.name + " #"@ + decimal(k));
        }
        assert forall|i: int| 0 <= i < nodes.len() implies same_proxy(
            nodes[i],
            #[trigger] numbered(nodes)[i],
        ) by {
            if i < front.len() {
                assert(numbered(nodes)[i] == rest[i]);
                assert(front[i] == nodes[i]);
            }
        }
    }
}

/// A number is given only where it is needed: a node keeps its name unless a node before it has it,
/// and takes the first number that no node before it has.
pub proof fn law_first_number(nodes: Seq<NodeView>, i: int, k: nat)
    requires
        0 <= i < nodes.len(),
    ensures
        node_names(numbered(nodes.take(i))).contains(nodes[i].name) || numbered(nodes)[i].name
            == nodes[i].name,
        k >= 2 && numbered(nodes)[i].name == nodes[i].name + " #"@ + decimal(k) ==> {
            let used = node_names(numbered(nodes.take(i)));
            &&& !used.contains(numbered(nodes)[i].name)
            &&& used.contains(nodes[i].name)
            &&& forall|j: nat|
                2 <= j < k ==> used.contains(#[trigger] (nodes[i].name + " #"@ + decimal(j)))
        },
    decreases nodes.len(),
{
    let front = nodes.drop_last();
    if i < front.len() {
        law_first_number(front, i, k);
        lemma_numbered_len(front);
        assert(front.take(i) =~= nodes.take(i));
        assert(numbered(nodes)[i] == numbered(front)[i]);
        assert(front[i] == nodes[i]);
    } else {
        assert(nodes.take(i) =~= front);
        let used = node_names(numbered(front));
        let name = nodes[i].name;
        lemma_free_name(name, used);
        lemma_numbered_len(front);
        assert(numbered(nodes)[i] == numbered(nodes).last());
        reveal_strlit(" #");
        assert(" #"@ =~= seq![' ', '#']);
        let f = choose|f: nat| first_free(name, used, f);
        assert(numbered(nodes)[i].name == numbered_name(name, f));
        if f > 1 {
            assert(used.contains(numbered_name(name, 1)));
        }
        if k >= 2 && numbered(nodes)[i].name == name + " #"@ + decimal(k) {
            assert(numbered_name(name, k) == name + " #"@ + decimal(k));
            lemma_numbered_injective(name, f, k);
            assert forall|j: nat| 2 <= j < k implies used.contains(
                #[trigger] (name + " #"@ + decimal(j)),
            ) by {
                assert(numbered_name(name, j) == name + " #"@ + decimal(j));
            }
        }
    }
}

/// Every link that describes a node with a name has its proxy in the configuration, and the
/// proxies stand there one for each such link, in the order of the links.
pub proof fn law_every_proxy(uris: Seq<Seq<char>>)
    ensures
        ({
            let proxies = numbered(named_nodes(uris));
            let given = uris.filter(|uri: Seq<char>| gives_proxy(uri));
            &&& proxies.len() == given.len()
            &&& forall|k: int|
                0 <= k < given.len() ==> same_proxy(
                    node_of(#[trigger] given[k])->0,
                    proxies[k],
                )
            &&& forall|i: int|
                0 <= i < uris.len() && gives_proxy(#[trigger] uris[i]) ==> exists|k: int|
                    0 <= k < proxies.len() && same_proxy(
                        node_of(uris[i])->0,
                        #[trigger] proxies[k],
                    )
        }),
{
    let f = |uri: Seq<char>| gives_proxy(uri);
    let g = |uri: Seq<char>| node_of(uri)->0;
    let nodes = named_nodes(uris);
    let proxies = numbered(nodes);
    let given = uris.filter(f);
    law_nodes_of_links(uris);
    law_numbered(nodes);
    assert forall|k: int| 0 <= k < given.len() implies same_proxy(
        node_of(#[trigger] given[k])->0,
        proxies[k],
    ) by {
        assert(nodes[k] == g(given[k]));
    }
    assert forall|i: int| 0 <= i < uris.len() && gives_proxy(#[trigger] uris[i]) implies exists|
        k: int,
    |
        0 <= k < proxies.len() && same_proxy(node_of(uris[i])->0, #[trigger] proxies[k]) by {
        assert(f(uris[i]));
        uris.lemma_filter_contains(f, i);
        let k = choose|k: int| 0 <= k < given.len() && given[k] == uris[i];
        assert(same_proxy(node_of(given[k])->0, proxies[k]));
    }
}

/// One link that describes a node with a name gives a configuration with that node and no other,
/// under its own name.
pub proof fn law_one_proxy(uri: Seq<char>)
    ensures
        node_of(uri) matches Some(n) && n.name.len() > 0 ==> numbered(named_nodes(seq![uri]))
            == seq![node_of(uri)->0],
        !gives_proxy(uri) ==> named_nodes(seq![uri]) == Seq::<NodeView>::empty(),
{
    let one = seq![uri];
    assert(one.drop_last() =~= seq![]);
    reveal_with_fuel(named_nodes, 2);
    if gives_proxy(uri) {
        let n = node_of(uri)->0;
        let nodes = named_nodes(one);
        assert(nodes =~= seq![n]);
        law_first_number(nodes, 0, 0);
        law_numbered(nodes);
        assert(nodes.take(0) =~= seq![]);
        assert(node_names(numbered(nodes.take(0))) =~= seq![]);
        assert(same_proxy(nodes[0], numbered(nodes)[0]));
        assert(numbered(nodes) =~= seq![n]);
    }
}

// ---------------------------------------------------------------------------------------------
// The text of a configuration
// ---------------------------------------------------------------------------------------------

proof fn lemma_entries(nodes: Seq<NodeView>)
    ensures
        proxy_entries(nodes) == nodes.map_values(|n: NodeView| node_yaml(n)).flatten(),
    decreases nodes.len(),
{
    let g = |n: NodeView| node_yaml(n);
    if nodes.len() > 0 {
        let front = nodes.drop_last();
        lemma_entries(front);
        front.map_values(g).lemma_flatten_push(node_yaml(nodes.last()));
        assert(nodes.map_values(g) =~= front.map_values(g).push(node_yaml(nodes.last())));
    }
}

/// How a group names a proxy.
pub open spec fn group_line(n: NodeView) -> Seq<char> {
    "      - "@ + quoted(n.name) + seq!['\n']
}

proof fn lemma_group_lines(nodes: Seq<NodeView>)
    ensures
        group_items(node_names(nodes)) == nodes.map_values(|n: NodeView| group_line(n)).flatten(),
    decreases nodes.len(),
{
    let g = |n: NodeView| group_line(n);
    if nodes.len() > 0 {
        let front = nodes.drop_last();
        lemma_group_lines(front);
        front.map_values(g).lemma_flatten_push(group_line(nodes.last()));
        assert(nodes.map_values(g) =~= front.map_values(g).push(group_line(nodes.last())));
        assert(node_names(nodes).drop_last() =~= node_names(front));
    }
}

/// The text of a configuration with proxies: the header, the entries of the proxies one after the
/// other, a group that names each of them in the same order, and one rule. Without proxies the
/// group names one that connects directly.
pub proof fn law_config_parts(nodes: Seq<NodeView>)
    ensures
        nodes.len() > 0 ==> config_text(nodes) == MIHOMO_HEADER@ + "\nproxies:\n"@
            + nodes.map_values(|n: NodeView| node_yaml(n)).flatten()
            + "\nproxy-groups:\n  - name: VPN\n    type: select\n    proxies:\n"@
            + nodes.map_values(|n: NodeView| group_line(n)).flatten()
            + "\nrules:\n  - MATCH,VPN\n"@,
        nodes.len() == 0 ==> config_text(nodes) == MIHOMO_HEADER@ + "\nproxies:\n"@
            + "  - name: fallback-direct\n    type: direct\n"@
            + "\nproxy-groups:\n  - name: VPN\n    type: select\n    proxies:\n"@
            + "      - \"fallback-direct\"\n"@ + "\nrules:\n  - MATCH,VPN\n"@,
{
    lemma_entries(nodes);
    lemma_group_lines(nodes);
    lemma_sections();
    lemma_fallback();
    let groups = "\nproxy-groups:\n  - name: VPN\n    type: select\n    proxies:\n"@;
    let rules = "\nrules:\n  - MATCH,VPN\n"@;
    let head = MIHOMO_HEADER@ + "\nproxies:\n"@;
    let entries = if nodes.len() == 0 {
        "  - name: fallback-direct\n    type: direct\n"@
    } else {
        proxy_entries(nodes)
    };
    let items = group_items(group_names(nodes));
    lemma_join_four(
        head + entries,
        "\nproxy-groups:\n"@,
        "  - name: VPN\n"@,
        "    type: select\n"@,
        "    proxies:\n"@,
    );
    lemma_join_associative(head + entries + groups + items, "\nrules:\n"@, "  - MATCH,VPN\n"@);
    assert(config_text(nodes) == head + entries + groups + items + rules);
}

proof fn lemma_join_four(
    s: Seq<char>,
    a: Seq<char>,
    b: Seq<char>,
    c: Seq<char>,
    d: Seq<char>,
)
    ensures
        s + a + b + c + d == s + (a + b + c + d),
{
    assert(s + a + b + c + d =~= s + (a + b + c + d));
}

proof fn lemma_sections()
    ensures
        "\nproxy-groups:\n  - name: VPN\n    type: select\n    proxies:\n"@ == "\nproxy-groups:\n"@
            + "  - name: VPN\n"@ + "    type: select\n"@ + "    proxies:\n"@,
        "\nrules:\n  - MATCH,VPN\n"@ == "\nrules:\n"@ + "  - MATCH,VPN\n"@,
{
    reveal_strlit("\nproxy-groups:\n  - name: VPN\n    type: select\n    proxies:\n");
    reveal_strlit("\nproxy-groups:\n");
    reveal_strlit("  - name: VPN\n");
    reveal_strlit("    type: select\n");
    reveal_strlit("    proxies:\n");
    reveal_strlit("\nrules:\n  - MATCH,VPN\n");
    reveal_strlit("\nrules:\n");
    reveal_strlit("  - MATCH,VPN\n");
}

proof fn lemma_fallback()
    ensures
        group_items(seq!["fallback-direct"@]) == "      - \"fallback-direct\"\n"@,
{
    let name = "fallback-direct"@;
    let names = seq![name];
    reveal_strlit("fallback-direct");
    reveal_strlit("      - \"fallback-direct\"\n");
    reveal_strlit("      - ");
    lemma_escaped_plain(name);
    assert(names.drop_last() =~= seq![]);
    reveal_with_fuel(group_items, 2);
    assert(group_items(names) =~= quoted_line("      - "@, name));
    assert(quoted_line("      - "@, name) =~= "      - \"fallback-direct\"\n"@);
}

pub(crate) proof fn lemma_escaped_plain(s: Seq<char>)
    requires
        forall|i: int| 0 <= i < s.len() ==> #[trigger] s[i] != '\\' && s[i] != '"',
    ensures
        escaped(s) == s,
    decreases s.len(),
{
    if s.len() > 0 {
        let front = s.drop_last();
        assert forall|i: int| 0 <= i < front.len() implies #[trigger] front[i] != '\\' && front[i]
            != '"' by {
            assert(front[i] == s[i]);
        }
        lemma_escaped_plain(front);
        assert(s.last() == s[s.len() - 1]);
        assert(front + seq![s.last()] =~= s);
    }
}

/// One more proxy adds its entry behind the entries of the others and its name behind their names,
/// and leaves everything else of the text as it was.
pub proof fn law_config_grows(nodes: Seq<NodeView>, n: NodeView)
    requires
        nodes.len() > 0,
    ensures
        exists|a: Seq<char>, b: Seq<char>, c: Seq<char>|
            #![trigger (a + b + c)]
            {
                &&& config_text(nodes) == a + b + c
                &&& config_text(nodes.push(n)) == a + node_yaml(n) + b + group_line(n) + c
            },
{
    let more = nodes.push(n);
    let g = |n: NodeView| node_yaml(n);
    let h = |n: NodeView| group_line(n);
    law_config_parts(nodes);
    law_config_parts(more);
    nodes.map_values(g).lemma_flatten_push(node_yaml(n));
    nodes.map_values(h).lemma_flatten_push(group_line(n));
    assert(more.map_values(g) =~= nodes.map_values(g).push(node_yaml(n)));
    assert(more.map_values(h) =~= nodes.map_values(h).push(group_line(n)));
    let a = MIHOMO_HEADER@ + "\nproxies:\n"@ + nodes.map_values(g).flatten();
    let b = "\nproxy-groups:\n  - name: VPN\n    type: select\n    proxies:\n"@
        + nodes.map_values(h).flatten();
    let c = "\nrules:\n  - MATCH,VPN\n"@;
    assert(config_text(nodes) =~= a + b + c);
    assert(config_text(more) =~= a + node_yaml(n) + b + group_line(n) + c);
}

proof fn lemma_flatten_holds(parts: Seq<Seq<char>>, k: int)
    requires
        0 <= k < parts.len(),
    ensures
        part_of(parts[k], parts.flatten()),
    decreases parts.len(),
{
    let front = parts.drop_last();
    let last = parts.last();
    front.lemma_flatten_push(last);
    assert(front.push(last) =~= parts);
    if k < front.len() {
        lemma_flatten_holds(front, k);
        let (a, b) = choose|a: Seq<char>, b: Seq<char>|
            front.flatten() == #[trigger] (a + front[k] + b);
        assert(parts.flatten() =~= a + parts[k] + (b + last));
    } else {
        let none: Seq<char> = seq![];
        assert(parts.flatten() =~= front.flatten() + parts[k] + none);
    }
}

/// The text of a configuration holds the entry of each of its proxies, and names each in the group.
pub proof fn law_proxy_in_text(nodes: Seq<NodeView>, k: int)
    requires
        0 <= k < nodes.len(),
    ensures
        part_of(node_yaml(nodes[k]), config_text(nodes)),
        part_of(group_line(nodes[k]), config_text(nodes)),
{
    let g = |n: NodeView| node_yaml(n);
    let h = |n: NodeView| group_line(n);
    law_config_parts(nodes);
    let entries = nodes.map_values(g).flatten();
    let names = nodes.map_values(h).flatten();
    lemma_flatten_holds(nodes.map_values(g), k);
    lemma_flatten_holds(nodes.map_values(h), k);
    assert(nodes.map_values(g)[k] == node_yaml(nodes[k]));
    assert(nodes.map_values(h)[k] == group_line(nodes[k]));
    let head = MIHOMO_HEADER@ + "\nproxies:\n"@;
    let mid = "\nproxy-groups:\n  - name: VPN\n    type: select\n    proxies:\n"@;
    let tail = "\nrules:\n  - MATCH,VPN\n"@;
    assert(config_text(nodes) == head + entries + mid + names + tail);
    lemma_part_within(node_yaml(nodes[k]), entries, head, mid + names + tail);
    lemma_join_four(head + entries, mid, names, tail, seq![]);
    assert(head + entries + mid + names + tail + seq![] =~= head + entries + mid + names + tail);
    assert(mid + names + tail + seq![] =~= mid + names + tail);
    lemma_part_within(group_line(nodes[k]), names, head + entries + mid, tail);
}

proof fn lemma_part_within(part: Seq<char>, mid: Seq<char>, a: Seq<char>, b: Seq<char>)
    requires
        part_of(part, mid),
    ensures
        part_of(part, a + mid + b),
{
    let (c, d) = choose|c: Seq<char>, d: Seq<char>| mid == #[trigger] (c + part + d);
    assert(a + mid + b =~= (a + c) + part + (d + b));
}

/// The configuration of some links holds, for each link that describes a node with a name, the
/// entry of that node, and a line of the group that names it.
pub proof fn law_link_in_config(uris: Seq<Seq<char>>, i: int)
    requires
        0 <= i < uris.len(),
    ensures
        gives_proxy(uris[i]) ==> exists|m: NodeView|
            {
                &&& #[trigger] same_proxy(node_of(uris[i])->0, m)
                &&& part_of(node_yaml(m), config_text(numbered(named_nodes(uris))))
                &&& part_of(group_line(m), config_text(numbered(named_nodes(uris))))
            },
{
    if gives_proxy(uris[i]) {
        let proxies = numbered(named_nodes(uris));
        law_every_proxy(uris);
        let k = choose|k: int|
            0 <= k < proxies.len() && same_proxy(node_of(uris[i])->0, #[trigger] proxies[k]);
        law_proxy_in_text(proxies, k);
        assert(same_proxy(node_of(uris[i])->0, proxies[k]));
    }
}

/// The same of every link.
pub(crate) proof fn lemma_links_in_config(uris: Seq<Seq<char>>)
    ensures
        ({
            let text = config_text(numbered(named_nodes(uris)));
            forall|i: int|
                0 <= i < uris.len() && gives_proxy(#[trigger] uris[i]) ==> exists|m: NodeView|
                    {
                        &&& #[trigger] same_proxy(node_of(uris[i])->0, m)
                        &&& part_of(node_yaml(m), text)
                        &&& part_of(group_line(m), text)
                    }
        }),
{
    let text = config_text(numbered(named_nodes(uris)));
    assert forall|i: int| 0 <= i < uris.len() && gives_proxy(#[trigger] uris[i]) implies exists|
        m: NodeView,
    |
        {
            &&& #[trigger] same_proxy(node_of(uris[i])->0, m)
            &&& part_of(node_yaml(m), text)
            &&& part_of(group_line(m), text)
        } by {
        law_link_in_config(uris, i);
    }
}

} // verus!
