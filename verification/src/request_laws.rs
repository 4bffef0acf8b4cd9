//! What the parameters of a request select.

use crate::cut::{
    joined, law_joined_pieces, law_pieces_joined, lemma_cut_none, lemma_nothing_to_trim,
    lemma_position, occurs_in, trimmed,
};
use crate::foreign::{pattern_language, regex_builds, seeded_order};
use crate::link_laws::law_scheme;
use crate::link_reader::name_of;
use crate::read_laws::{law_name, proper_tag, tag_name, tagged};
use crate::request::{
    given, limited, listed, may_return, meaning, passes, passing, proper_items, request_urls,
    type_allowed, Params,
};
use crate::seen::{fresh, law_fresh};
use crate::text::lemma_filter_among;
use crate::yaml_laws::tight;
use vstd::prelude::*;

verus! {

// ---------------------------------------------------------------------------------------------
// Protocols
// ---------------------------------------------------------------------------------------------

/// Items without a comma, one at least.
pub open spec fn plain_items(items: Seq<Seq<char>>) -> bool {
    items.len() > 0 && forall|i: int|
        0 <= i < items.len() ==> !(#[trigger] items[i]).contains(',')
}

/// A link is selected by its protocol if and only if its scheme is one of the items of the list,
/// white space around an item apart.
pub proof fn law_types(items: Seq<Seq<char>>, scheme: Seq<char>, rest: Seq<char>)
    requires
        plain_items(items),
        !scheme.contains(':'),
    ensures
        type_allowed(scheme + "://"@ + rest, joined(items, ',')) <==> exists|i: int|
            0 <= i < items.len() && trimmed(#[trigger] items[i]) == scheme,
{
    law_scheme(scheme, rest);
    law_pieces_joined(items, ',');
}

/// Where one protocol is asked for, a link is selected if and only if its scheme is that one: no
/// shorter, no longer and no other one.
pub proof fn law_one_type(wanted: Seq<char>, scheme: Seq<char>, rest: Seq<char>)
    requires
        !wanted.contains(','),
        tight(wanted),
        !scheme.contains(':'),
    ensures
        type_allowed(scheme + "://"@ + rest, wanted) <==> scheme == wanted,
{
    let items = seq![wanted];
    law_types(items, scheme, rest);
    assert(joined(items, ',') =~= wanted) by {
        lemma_cut_none(wanted, ',');
        law_joined_pieces(wanted, ',');
    }
    lemma_nothing_to_trim(wanted);
    if scheme == wanted {
        assert(trimmed(items[0]) == scheme);
    }
}

/// A text without a scheme is not selected by protocol.
pub proof fn law_untyped(s: Seq<char>, types: Seq<char>)
    requires
        !occurs_in(s, "://"@),
    ensures
        !type_allowed(s, types),
{
    lemma_position(s, "://"@);
}

// ---------------------------------------------------------------------------------------------
// Filters
// ---------------------------------------------------------------------------------------------

/// A name matches a pattern of a request, letter case apart. A pattern that cannot be compiled
/// within the limits counts as none.
pub open spec fn matched(pattern: Seq<char>, name: Seq<char>, otherwise: bool) -> bool {
    if regex_builds("(?i)"@ + pattern, 65536, 262144, usize::BITS as nat) {
        pattern_language("(?i)"@ + pattern).contains(name)
    } else {
        otherwise
    }
}

/// A link passes the filters of a request if and only if its protocol is asked for, its name
/// matches the pattern that is asked for, and does not match the pattern that is refused; what is
/// not asked for does not count.
pub proof fn law_passes(uri: Seq<char>, p: Params)
    ensures
        ({
            let kept = {
                &&& p.types matches Some(t) ==> type_allowed(uri, t@)
                &&& p.include_pattern matches Some(s) ==> matched(s@, name_of(uri), true)
                &&& p.exclude_pattern matches Some(s) ==> !matched(s@, name_of(uri), false)
            };
            passing(seq![uri], p) == if kept {
                seq![uri]
            } else {
                seq![]
            }
        }),
{
    reveal_with_fuel(Seq::filter, 2);
    let one = seq![uri];
    assert(one.drop_last() =~= Seq::<Seq<char>>::empty());
    let pred = |uri: Seq<char>|
        passes(
            uri,
            given(p.types),
            meaning(given(p.include_pattern)),
            meaning(given(p.exclude_pattern)),
        );
    assert(one.filter(pred) =~= if pred(uri) {
        seq![uri]
    } else {
        seq![]
    });
}

/// The same of a link whose scheme and name are known: its scheme is to be among the items of the
/// list, and the patterns speak of its name.
pub proof fn law_link_passes(
    scheme: Seq<char>,
    body: Seq<char>,
    tag: Option<Seq<char>>,
    items: Option<Seq<Seq<char>>>,
    p: Params,
)
    requires
        !scheme.contains(':'),
        proper_tag(scheme + "://"@ + body, tag),
        match (p.types, items) {
            (Some(t), Some(list)) => plain_items(list) && t@ == joined(list, ','),
            (None, None) => true,
            _ => false,
        },
    ensures
        ({
            let uri = scheme + "://"@ + tagged(body, tag);
            let name = tag_name(tag);
            let kept = {
                &&& items matches Some(list) ==> exists|i: int|
                    0 <= i < list.len() && trimmed(#[trigger] list[i]) == scheme
                &&& p.include_pattern matches Some(s) ==> matched(s@, name, true)
                &&& p.exclude_pattern matches Some(s) ==> !matched(s@, name, false)
            };
            passing(seq![uri], p) == if kept {
                seq![uri]
            } else {
                seq![]
            }
        }),
{
    let uri = scheme + "://"@ + tagged(body, tag);
    if let Some(list) = items {
        law_types(list, scheme, tagged(body, tag));
    }
    law_name(scheme + "://"@ + body, tag);
    assert(uri =~= tagged(scheme + "://"@ + body, tag));
    law_passes(uri, p);
}

/// Each link passes the filters by itself, and those that pass keep their order.
pub proof fn law_passing_each(a: Seq<Seq<char>>, b: Seq<Seq<char>>, p: Params)
    ensures
        passing(a + b, p) == passing(a, p) + passing(b, p),
{
    let pred = |uri: Seq<char>|
        passes(
            uri,
            given(p.types),
            meaning(given(p.include_pattern)),
            meaning(given(p.exclude_pattern)),
        );
    Seq::filter_distributes_over_add(a, b, pred);
}

/// A limit keeps the first links, as many as it says; no limit, or zero, keeps all.
pub proof fn law_limit(uris: Seq<Seq<char>>, limit: Option<usize>)
    ensures
        limited(uris, limit).is_prefix_of(uris),
        limited(uris, limit).len() == match limit {
            Some(n) => if n == 0 || n > uris.len() {
                uris.len()
            } else {
                n as nat
            },
            None => uris.len(),
        },
{
}

/// The links that a request is answered with are among those that pass its filters, none more often
/// than there, and as many as there are or as the limit says.
pub proof fn law_answer(
    uris: Seq<Seq<char>>,
    p: Params,
    order: Seq<Seq<char>>,
    r: Seq<Seq<char>>,
)
    ensures
        may_return(uris, p, order, r) ==> {
            let all = passing(uris, p);
            &&& r.to_multiset().subset_of(all.to_multiset())
            &&& r.len() == match p.limit {
                Some(n) => if n == 0 || n > all.len() {
                    all.len()
                } else {
                    n as nat
                },
                None => all.len(),
            }
        },
{
    broadcast use vstd::seq_lib::group_to_multiset_ensures;

    if may_return(uris, p, order, r) {
        law_limit(order, p.limit);
        order.to_multiset_ensures();
        passing(uris, p).to_multiset_ensures();
        assert(order.len() == passing(uris, p).len());
        let rest = order.skip(r.len() as int);
        assert(order =~= r + rest);
        vstd::seq_lib::lemma_multiset_commutative(r, rest);
        assert(order.to_multiset() =~= r.to_multiset().add(rest.to_multiset()));
        assert forall|x: Seq<char>|
            r.to_multiset().count(x) <= passing(uris, p).to_multiset().count(x) by {
            assert(order.to_multiset().count(x) == r.to_multiset().count(x)
                + rest.to_multiset().count(x));
        }
    }
}

// ---------------------------------------------------------------------------------------------
// Subscriptions that are asked for
// ---------------------------------------------------------------------------------------------

/// A parameter is a list of some items; one that is missing has none.
pub open spec fn lists(p: Option<String>, items: Seq<Seq<char>>) -> bool {
    match p {
        Some(s) => plain_items(items) && s@ == joined(items, ','),
        None => items.len() == 0,
    }
}

proof fn lemma_proper_filter(items: Seq<Seq<char>>)
    ensures
        proper_items(items) == items.map_values(|s: Seq<char>| trimmed(s)).filter(
            |s: Seq<char>| s.len() > 0,
        ),
    decreases items.len(),
{
    let g = |s: Seq<char>| trimmed(s);
    let f = |s: Seq<char>| s.len() > 0;
    reveal(Seq::filter);
    if items.len() > 0 {
        lemma_proper_filter(items.drop_last());
        assert(items.map_values(g).drop_last() =~= items.drop_last().map_values(g));
    }
}

/// The subscriptions that a request asks for are the items of `url` and then those of `urls`,
/// without white space around them and without empty ones, each where it first stands.
pub proof fn law_urls_asked(p: Params, a: Seq<Seq<char>>, b: Seq<Seq<char>>)
    requires
        lists(p.url, a),
        lists(p.urls, b),
    ensures
        request_urls(p) == fresh(
            (a + b).map_values(|s: Seq<char>| trimmed(s)).filter(|s: Seq<char>| s.len() > 0),
            Set::empty(),
        ),
        forall|x: Seq<char>| #[trigger]
            request_urls(p).contains(x) <==> x.len() > 0 && exists|i: int|
                0 <= i < (a + b).len() && trimmed(#[trigger] (a + b)[i]) == x,
{
    let g = |s: Seq<char>| trimmed(s);
    let f = |s: Seq<char>| s.len() > 0;
    lemma_lists(p.url, a);
    lemma_lists(p.urls, b);
    let all = (a + b).map_values(g);
    assert(all =~= a.map_values(g) + b.map_values(g));
    Seq::filter_distributes_over_add(a.map_values(g), b.map_values(g), f);
    law_fresh(all.filter(f), Set::empty());
    assert forall|x: Seq<char>| #[trigger]
        request_urls(p).contains(x) <==> x.len() > 0 && exists|i: int|
            0 <= i < (a + b).len() && trimmed(#[trigger] (a + b)[i]) == x by {
        if request_urls(p).contains(x) {
            let kept = all.filter(f);
            assert(kept.contains(x));
            let k = choose|k: int| 0 <= k < kept.len() && kept[k] == x;
            all.lemma_filter_pred(f, k);
            lemma_filter_among(all, f, x);
            let i = choose|i: int| 0 <= i < all.len() && all[i] == x;
            assert(trimmed((a + b)[i]) == x);
        }
        if x.len() > 0 && exists|i: int|
            0 <= i < (a + b).len() && trimmed(#[trigger] (a + b)[i]) == x {
            let i = choose|i: int| 0 <= i < (a + b).len() && trimmed(#[trigger] (a + b)[i]) == x;
            assert(all[i] == x);
            assert(f(all[i]));
            all.lemma_filter_contains(f, i);
        }
    }
}

proof fn lemma_lists(p: Option<String>, items: Seq<Seq<char>>)
    requires
        lists(p, items),
    ensures
        listed(p) == items.map_values(|s: Seq<char>| trimmed(s)).filter(
            |s: Seq<char>| s.len() > 0,
        ),
{
    lemma_proper_filter(items);
    if let Some(s) = p {
        law_pieces_joined(items, ',');
    } else {
        assert(items =~= seq![]);
    }
}

/// With a seed the order is the one that the seed gives to the links that pass, and the limit keeps
/// the start of it.
pub proof fn law_seed(
    uris: Seq<Seq<char>>,
    p: Params,
    seed: u64,
    order: Seq<Seq<char>>,
    r: Seq<Seq<char>>,
)
    requires
        p.seed == Some(seed),
    ensures
        may_return(uris, p, order, r) ==> r.is_prefix_of(seeded_order(passing(uris, p), seed)),
        may_return(uris, p, order, r) && p.limit is None ==> r == seeded_order(
            passing(uris, p),
            seed,
        ),
{
    law_limit(order, p.limit);
}

} // verus!
