//! What holds of every configuration.

use crate::config::{
    escaped, escaped_char, first_free, free_name, group_names, lemma_free_name, lemma_numbered_len,
    named_nodes, node_names, node_yaml, numbered, numbered_name, quoted, valid_flow,
};
use crate::cut::lemma_cut_last_join;
use crate::decimal::{decimal, law_decimal_injective, lemma_decimal_digits};
use crate::link_laws::{law_usable, usable};
use crate::node::NodeView;
use vstd::prelude::*;

verus! {

// ---------------------------------------------------------------------------------------------
// Scalars
// ---------------------------------------------------------------------------------------------

/// Reads a double-quoted scalar from behind its opening quote: the text that it stands for, and
/// what follows its closing quote. A backslash stands before a character that is taken as it is.
pub open spec fn scalar(t: Seq<char>) -> Option<(Seq<char>, Seq<char>)>
    decreases t.len(),
{
    if t.len() == 0 {
        None
    } else if t[0] == '"' {
        Some((seq![], t.skip(1)))
    } else if t[0] == '\\' {
        if t.len() == 1 {
            None
        } else {
            match scalar(t.skip(2)) {
                Some((s, rest)) => Some((seq![t[1]] + s, rest)),
                None => None,
            }
        }
    } else {
        match scalar(t.skip(1)) {
            Some((s, rest)) => Some((seq![t[0]] + s, rest)),
            None => None,
        }
    }
}

proof fn lemma_escaped_cons(s: Seq<char>)
    requires
        s.len() > 0,
    ensures
        escaped(s) == escaped_char(s[0]) + escaped(s.skip(1)),
    decreases s.len(),
{
    let rest = s.skip(1);
    if s.len() == 1 {
        assert(s.drop_last() =~= seq![]);
        assert(rest =~= seq![]);
        assert(escaped(s) =~= escaped_char(s[0]) + escaped(rest));
    } else {
        lemma_escaped_cons(s.drop_last());
        assert(s.drop_last().skip(1) =~= rest.drop_last());
        assert(rest.last() == s.last());
        assert(escaped(s) =~= escaped_char(s[0]) + escaped(rest));
    }
}

proof fn lemma_scalar(s: Seq<char>, rest: Seq<char>)
    ensures
        scalar(escaped(s) + seq!['"'] + rest) == Some((s, rest)),
    decreases s.len(),
{
    let t = escaped(s) + seq!['"'] + rest;
    if s.len() == 0 {
        assert(t.skip(1) =~= rest);
        assert(s =~= seq![]);
    } else {
        let tail = s.skip(1);
        let after = escaped(tail) + seq!['"'] + rest;
        lemma_escaped_cons(s);
        lemma_scalar(tail, rest);
        assert(seq![s[0]] + tail =~= s);
        if s[0] == '\\' || s[0] == '"' {
            assert(t.skip(2) =~= after);
        } else {
            assert(t.skip(1) =~= after);
        }
    }
}

/// A quoted text is read as the text that was quoted, whatever it holds and whatever follows it.
pub proof fn law_quoted(s: Seq<char>, rest: Seq<char>)
    ensures
        (quoted(s) + rest)[0] == '"',
        scalar((quoted(s) + rest).skip(1)) == Some((s, rest)),
{
    lemma_scalar(s, rest);
    assert((quoted(s) + rest).skip(1) =~= escaped(s) + seq!['"'] + rest);
}

// ---------------------------------------------------------------------------------------------
// Proxies
// ---------------------------------------------------------------------------------------------

/// A flow that Mihomo does not know leaves no trace in the configuration.
pub proof fn law_unknown_flow(n: NodeView)
    requires
        !valid_flow(n.flow),
    ensures
        node_yaml(n) == node_yaml(NodeView { flow: seq![], ..n }),
{
    reveal_strlit("xtls-rprx-vision");
    let none: Seq<char> = seq![];
    assert(none.len() == 0 && "xtls-rprx-vision"@.len() == 16);
}

/// Every proxy of a configuration is usable and has a name, whatever the links are that it was made
/// of.
pub proof fn law_proxies_usable(uris: Seq<Seq<char>>)
    ensures
        forall|i: int|
            0 <= i < named_nodes(uris).len() ==> {
                &&& usable(#[trigger] numbered(named_nodes(uris))[i])
                &&& numbered(named_nodes(uris))[i].name.len() > 0
            },
{
    lemma_named_usable(uris);
    let nodes = named_nodes(uris);
    lemma_numbered_len(nodes);
    assert forall|i: int| 0 <= i < nodes.len() implies usable(#[trigger] numbered(nodes)[i])
        && numbered(nodes)[i].name.len() > 0 by {
        assert(usable(nodes[i]));
    }
}

proof fn lemma_named_usable(uris: Seq<Seq<char>>)
    ensures
        forall|i: int|
            0 <= i < named_nodes(uris).len() ==> usable(#[trigger] named_nodes(uris)[i])
                && named_nodes(uris)[i].name.len() > 0,
    decreases uris.len(),
{
    if uris.len() > 0 {
        let rest = named_nodes(uris.drop_last());
        lemma_named_usable(uris.drop_last());
        law_usable(uris.last());
        assert forall|i: int| 0 <= i < named_nodes(uris).len() implies usable(
            #[trigger] named_nodes(uris)[i],
        ) && named_nodes(uris)[i].name.len() > 0 by {
            if i < rest.len() {
                assert(named_nodes(uris)[i] == rest[i]);
            }
        }
    }
}

/// The group of a configuration is never empty, and holds the proxies in their order where there
/// are any.
pub proof fn law_group(nodes: Seq<NodeView>)
    ensures
        group_names(nodes).len() > 0,
        nodes.len() > 0 ==> group_names(nodes) == node_names(nodes),
{
}

// ---------------------------------------------------------------------------------------------
// Names
// ---------------------------------------------------------------------------------------------

/// The names of the proxies are different from one another, whatever the names of the nodes are.
pub proof fn law_names_differ(nodes: Seq<NodeView>)
    ensures
        node_names(numbered(nodes)).no_duplicates(),
    decreases nodes.len(),
{
    if nodes.len() > 0 {
        let rest = numbered(nodes.drop_last());
        let used = node_names(rest);
        let name = free_name(nodes.last().name, used);
        law_names_differ(nodes.drop_last());
        lemma_free_name(nodes.last().name, used);
        let names = node_names(numbered(nodes));
        assert(names =~= used.push(name));
        assert forall|i: int, j: int| 0 <= i < j < names.len() implies names[i] != names[j] by {
            if j == used.len() {
                assert(used.contains(used[i]));
            }
        }
    }
}

/// How many nodes of a list have a name.
pub open spec fn bearers(nodes: Seq<NodeView>, name: Seq<char>) -> nat
    decreases nodes.len(),
{
    if nodes.len() == 0 {
        0
    } else {
        bearers(nodes.drop_last(), name) + if nodes.last().name == name {
            1nat
        } else {
            0nat
        }
    }
}

proof fn lemma_numbered_name_injective(a: Seq<char>, j: nat, b: Seq<char>, k: nat)
    requires
        j > 1,
        k > 1,
        numbered_name(a, j) == numbered_name(b, k),
    ensures
        a == b,
        j == k,
{
    lemma_decimal_digits(j);
    lemma_decimal_digits(k);
    let left = a + seq![' '];
    let right = b + seq![' '];
    assert(numbered_name(a, j) =~= left + seq!['#'] + decimal(j));
    assert(numbered_name(b, k) =~= right + seq!['#'] + decimal(k));
    lemma_cut_last_join(left, '#', decimal(j));
    lemma_cut_last_join(right, '#', decimal(k));
    assert(left.drop_last() =~= a);
    assert(right.drop_last() =~= b);
    law_decimal_injective(j, k);
}

/// Going further, a name has no fewer bearers, and one more where it is borne again.
proof fn lemma_bearers_grow(nodes: Seq<NodeView>, name: Seq<char>, p: int, q: int)
    requires
        0 <= p <= q <= nodes.len(),
    ensures
        bearers(nodes.take(p), name) <= bearers(nodes.take(q), name),
        p < q && nodes[q - 1].name == name ==> bearers(nodes.take(p), name) < bearers(
            nodes.take(q),
            name,
        ),
    decreases q - p,
{
    if p < q {
        lemma_bearers_grow(nodes, name, p, q - 1);
        assert(nodes.take(q).drop_last() =~= nodes.take(q - 1));
        assert(nodes.take(q).last() == nodes[q - 1]);
    }
}

/// A name that is borne has a bearer of each number up to how many there are.
proof fn lemma_bearer_of(nodes: Seq<NodeView>, name: Seq<char>, k: nat) -> (p: int)
    requires
        1 <= k <= bearers(nodes, name),
    ensures
        0 <= p < nodes.len(),
        nodes[p].name == name,
        bearers(nodes.take(p + 1), name) == k,
    decreases nodes.len(),
{
    let front = nodes.drop_last();
    if k <= bearers(front, name) {
        let p = lemma_bearer_of(front, name, k);
        assert(front.take(p + 1) =~= nodes.take(p + 1));
        p
    } else {
        assert(nodes.take(nodes.len() as int) =~= nodes);
        nodes.len() - 1
    }
}

/// No node has the name that a repeated name gets by its number.
pub open spec fn clear_names(nodes: Seq<NodeView>) -> bool {
    forall|i: int, j: int, k: nat|
        #![trigger nodes[j], numbered_name(nodes[i].name, k)]
        0 <= i < nodes.len() && 0 <= j < nodes.len() && 2 <= k <= bearers(nodes, nodes[i].name)
            ==> nodes[j].name != numbered_name(nodes[i].name, k)
}

proof fn lemma_numbered_differ(a: Seq<char>, j: nat, b: Seq<char>, k: nat)
    requires
        1 <= j,
        1 <= k,
        a == b ==> j < k,
        j > 1 ==> b != numbered_name(a, j),
        k > 1 ==> a != numbered_name(b, k),
    ensures
        numbered_name(a, j) != numbered_name(b, k),
{
    if numbered_name(a, j) == numbered_name(b, k) {
        if j > 1 && k > 1 {
            lemma_numbered_name_injective(a, j, b, k);
        }
    }
}

proof fn lemma_clear_front(nodes: Seq<NodeView>)
    requires
        nodes.len() > 0,
        clear_names(nodes),
    ensures
        clear_names(nodes.drop_last()),
{
    let front = nodes.drop_last();
    assert forall|i: int, j: int, k: nat|
        #![trigger front[j], numbered_name(front[i].name, k)]
        0 <= i < front.len() && 0 <= j < front.len() && 2 <= k <= bearers(
            front,
            front[i].name,
        ) implies front[j].name != numbered_name(front[i].name, k) by {
        assert(front[i] == nodes[i] && front[j] == nodes[j]);
        assert(bearers(nodes, nodes[i].name) >= bearers(front, nodes[i].name));
        assert(nodes[j].name != numbered_name(nodes[i].name, k));
    }
}

/// Where no node has the name that another gets by its number, the first bearer of a name keeps
/// it, and every later one gets the number that counts it.
pub proof fn law_numbers_count(nodes: Seq<NodeView>)
    requires
        clear_names(nodes),
    ensures
        forall|i: int|
            0 <= i < nodes.len() ==> (#[trigger] numbered(nodes)[i]).name == numbered_name(
                nodes[i].name,
                bearers(nodes.take(i + 1), nodes[i].name),
            ),
    decreases nodes.len(),
{
    if nodes.len() > 0 {
        let front = nodes.drop_last();
        lemma_clear_front(nodes);
        law_numbers_count(front);
        lemma_numbered_len(front);
        assert forall|i: int| 0 <= i < nodes.len() implies (#[trigger] numbered(nodes)[i]).name
            == numbered_name(nodes[i].name, bearers(nodes.take(i + 1), nodes[i].name)) by {
            if i < front.len() {
                assert(numbered(nodes)[i] == numbered(front)[i]);
                assert(front[i] == nodes[i]);
                assert(front.take(i + 1) =~= nodes.take(i + 1));
            } else {
                assert(nodes.take(i + 1) =~= nodes);
                assert forall|p: int| 0 <= p < nodes.len() - 1 implies (#[trigger] numbered(
                    front,
                )[p]).name == numbered_name(
                    nodes[p].name,
                    bearers(nodes.take(p + 1), nodes[p].name),
                ) by {
                    assert(front[p] == nodes[p]);
                    assert(front.take(p + 1) =~= nodes.take(p + 1));
                }
                lemma_last_count(nodes);
            }
        }
    }
}

proof fn lemma_last_count(nodes: Seq<NodeView>)
    requires
        nodes.len() > 0,
        clear_names(nodes),
        forall|i: int|
            0 <= i < nodes.len() - 1 ==> (#[trigger] numbered(nodes.drop_last())[i]).name
                == numbered_name(
                nodes[i].name,
                bearers(nodes.take(i + 1), nodes[i].name),
            ),
    ensures
        free_name(nodes.last().name, node_names(numbered(nodes.drop_last()))) == numbered_name(
            nodes.last().name,
            bearers(nodes, nodes.last().name),
        ),
{
    let front = nodes.drop_last();
    let used = node_names(numbered(front));
    let q = nodes.len() - 1;
    let a = nodes[q].name;
    let c = bearers(nodes, a);
    lemma_numbered_len(front);
    assert(nodes.take(nodes.len() as int) =~= nodes);
    assert forall|j: nat| 1 <= j < c implies used.contains(#[trigger] numbered_name(a, j)) by {
        let p = lemma_bearer_of(front, a, j);
        assert(front.take(p + 1) =~= nodes.take(p + 1));
        assert(front[p] == nodes[p]);
        assert(numbered(front)[p].name == numbered_name(a, j));
        assert(used[p] == numbered_name(a, j));
    }
    assert(!used.contains(numbered_name(a, c))) by {
        if used.contains(numbered_name(a, c)) {
            let p = choose|p: int| 0 <= p < used.len() && used[p] == numbered_name(a, c);
            let b = nodes[p].name;
            let k = bearers(nodes.take(p + 1), b);
            assert(numbered(front)[p].name == numbered_name(b, k));
            lemma_bearers_grow(nodes, b, 0, p + 1);
            lemma_bearers_grow(nodes, b, p + 1, nodes.len() as int);
            assert(nodes[q].name == a);
            lemma_numbered_differ(b, k, a, c);
        }
    }
    lemma_free_name(a, used);
    assert(first_free(a, used, c));
}

} // verus!
