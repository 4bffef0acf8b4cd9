//! What a request asks for: where to fetch from, and which of the nodes to return.

use crate::cut::{law_trimmed_twice, lemma_trimmed_lacks, pieces, split, trim, trimmed};
use crate::foreign::{
    build_regex, pattern_language, regex_builds, regex_is_match, regex_language, seeded_order,
    shuffle_randomly, shuffle_seeded,
};
use crate::link_reader::{get_node_name, name_of, scheme_and_rest, split_scheme};
use crate::seen::{fresh, law_fresh, met, push_fresh, Seen};
use crate::text::{chars_of, lemma_filter_among, same, slices, text_of, texts, white_space};
use vstd::prelude::*;

verus! {

/// The parameters of a request.
#[derive(Debug, Clone)]
pub struct Params {
    /// Subscriptions, separated by commas.
    pub url: Option<String>,
    /// More subscriptions, separated by commas.
    pub urls: Option<String>,
    /// The schemes to return, separated by commas; all where it is not given.
    pub types: Option<String>,
    /// A regular expression that the names of returned nodes match.
    pub include_pattern: Option<String>,
    /// A regular expression that the names of returned nodes do not match.
    pub exclude_pattern: Option<String>,
    /// How many nodes to return at most; all where it is not given or zero.
    pub limit: Option<usize>,
    /// `yaml` for a full configuration.
    pub format: Option<String>,
    /// With a seed the order of the nodes follows from it; without, it is random each time.
    pub seed: Option<u64>,
}

/// The text of a parameter, where it is given.
pub open spec fn given(p: Option<String>) -> Option<Seq<char>> {
    match p {
        Some(s) => Some(s@),
        None => None,
    }
}

// ---------------------------------------------------------------------------------------------
// Subscriptions
// ---------------------------------------------------------------------------------------------

/// The items of a list that are not empty, without white space around them.
pub open spec fn proper_items(items: Seq<Seq<char>>) -> Seq<Seq<char>>
    decreases items.len(),
{
    if items.len() == 0 {
        seq![]
    } else {
        let rest = proper_items(items.drop_last());
        let item = trimmed(items.last());
        if item.len() == 0 {
            rest
        } else {
            rest.push(item)
        }
    }
}

/// The items of a parameter that lists some, separated by commas.
pub open spec fn listed(p: Option<String>) -> Seq<Seq<char>> {
    match p {
        Some(s) => proper_items(pieces(s@, ',')),
        None => seq![],
    }
}

/// The subscriptions of a request: those of both parameters, each at the place where it first
/// stands.
pub open spec fn request_urls(p: Params) -> Seq<Seq<char>> {
    fresh(listed(p.url) + listed(p.urls), Set::empty())
}

fn collect_items(
    param: &Option<String>,
    urls: &mut Vec<String>,
    seen: &mut Seen,
    Ghost(done): Ghost<Seq<Seq<char>>>,
)
    requires
        texts(old(urls)@) == fresh(done, Set::empty()),
        old(seen)@ == met(done, Set::empty()),
    ensures
        texts(final(urls)@) == fresh(done + listed(*param), Set::empty()),
        final(seen)@ == met(done + listed(*param), Set::empty()),
{
    match param {
        Some(list) => {
            let chars = chars_of(list.as_str());
            let parts = split(chars.as_slice(), ',');
            let ghost items = slices(parts@);
            let mut i: usize = 0;
            assert(done + proper_items(items.take(0)) =~= done);
            while i < parts.len()
                invariant
                    items == slices(parts@),
                    i <= parts@.len(),
                    texts(urls@) == fresh(done + proper_items(items.take(i as int)), Set::empty()),
                    seen@ == met(done + proper_items(items.take(i as int)), Set::empty()),
                decreases parts@.len() - i,
            {
                let ghost sofar = done + proper_items(items.take(i as int));
                assert(items.take(i + 1).drop_last() =~= items.take(i as int));
                let item = trim(parts[i]);
                if item.len() > 0 {
                    push_fresh(urls, text_of(item), seen, Ghost(sofar), Ghost(Set::empty()));
                    assert(sofar.push(item@) =~= done + proper_items(items.take(i + 1)));
                }
                i += 1;
            }
            assert(items.take(i as int) =~= items);
        },
        None => {
            assert(done + seq![] =~= done);
        },
    }
}

/// The subscriptions of a request, without repetitions.
pub fn extract_urls(p: &Params) -> (r: Vec<String>)
    ensures
        texts(r@) == request_urls(*p),
{
    let mut urls: Vec<String> = Vec::new();
    let mut seen = Seen::new();
    let ghost none: Seq<Seq<char>> = seq![];
    assert(texts(urls@) =~= fresh(none, Set::empty()));
    assert(seen@ =~= met(none, Set::empty()));
    collect_items(&p.url, &mut urls, &mut seen, Ghost(none));
    assert(none + listed(p.url) =~= listed(p.url));
    collect_items(&p.urls, &mut urls, &mut seen, Ghost(listed(p.url)));
    urls
}

// ---------------------------------------------------------------------------------------------
// Selecting nodes
// ---------------------------------------------------------------------------------------------

/// The scheme of a link is one of a list, separated by commas.
pub open spec fn type_allowed(uri: Seq<char>, types: Seq<char>) -> bool {
    match scheme_and_rest(uri) {
        Some((scheme, _)) => exists|i: int|
            0 <= i < pieces(types, ',').len() && trimmed(#[trigger] pieces(types, ',')[i])
                == scheme,
        None => false,
    }
}

/// A link passes: its scheme is allowed, its name is among those that are wanted, and not among
/// those that are not. What is not given does not count.
pub open spec fn passes(
    uri: Seq<char>,
    types: Option<Seq<char>>,
    wanted: Option<Set<Seq<char>>>,
    unwanted: Option<Set<Seq<char>>>,
) -> bool {
    &&& types matches Some(t) ==> type_allowed(uri, t)
    &&& wanted matches Some(names) ==> names.contains(name_of(uri))
    &&& unwanted matches Some(names) ==> !names.contains(name_of(uri))
}

/// The links that pass, in their order.
pub open spec fn selection(
    uris: Seq<Seq<char>>,
    types: Option<Seq<char>>,
    wanted: Option<Set<Seq<char>>>,
    unwanted: Option<Set<Seq<char>>>,
) -> Seq<Seq<char>> {
    uris.filter(|uri: Seq<char>| passes(uri, types, wanted, unwanted))
}

/// The names that a compiled expression matches, where there is one.
pub open spec fn language(re: Option<regex::Regex>) -> Option<Set<Seq<char>>> {
    match re {
        Some(re) => Some(regex_language(re)),
        None => None,
    }
}

fn is_type_allowed(uri: &str, types: &str) -> (r: bool)
    ensures
        r == type_allowed(uri@, types@),
{
    let uri_chars = chars_of(uri);
    match split_scheme(uri_chars.as_slice()) {
        Some((scheme, _)) => {
            let type_chars = chars_of(types);
            let allowed = split(type_chars.as_slice(), ',');
            let ghost list = slices(allowed@);
            let mut i: usize = 0;
            while i < allowed.len()
                invariant
                    list == slices(allowed@),
                    list == pieces(types@, ','),
                    scheme_and_rest(uri@) matches Some((s, _)) && s == scheme@,
                    i <= allowed@.len(),
                    forall|j: int| 0 <= j < i ==> trimmed(#[trigger] list[j]) != scheme@,
                decreases allowed@.len() - i,
            {
                assert(list[i as int] == allowed@[i as int]@);
                if same(trim(allowed[i]), scheme) {
                    return true;
                }
                i += 1;
            }
            false
        },
        None => false,
    }
}

/// Tells whether a link is selected, by its scheme and by what the expressions of a request find
/// in its name.
pub fn is_selected(
    uri: &str,
    types: &Option<String>,
    wanted: Option<bool>,
    unwanted: Option<bool>,
) -> (r: bool)
    ensures
        r == ((given(*types) matches Some(t) ==> type_allowed(uri@, t)) && wanted != Some(false)
            && unwanted != Some(true)),
{
    if let Some(false) = wanted {
        return false;
    }
    if let Some(true) = unwanted {
        return false;
    }
    match types {
        Some(t) => is_type_allowed(uri, t.as_str()),
        None => true,
    }
}

fn finds(re: &Option<regex::Regex>, name: &str) -> (r: Option<bool>)
    ensures
        match language(*re) {
            Some(names) => r == Some(names.contains(name@)),
            None => r is None,
        },
{
    match re {
        Some(re) => Some(regex_is_match(re, name)),
        None => None,
    }
}

fn does_pass(
    uri: &str,
    types: &Option<String>,
    wanted: &Option<regex::Regex>,
    unwanted: &Option<regex::Regex>,
) -> (r: bool)
    ensures
        r == passes(uri@, given(*types), language(*wanted), language(*unwanted)),
{
    let name = get_node_name(uri);
    is_selected(uri, types, finds(wanted, name.as_str()), finds(unwanted, name.as_str()))
}

/// Keeps the links that pass, in their order.
pub fn select_nodes(
    nodes: Vec<String>,
    types: &Option<String>,
    wanted: &Option<regex::Regex>,
    unwanted: &Option<regex::Regex>,
) -> (r: Vec<String>)
    ensures
        texts(r@) == selection(
            texts(nodes@),
            given(*types),
            language(*wanted),
            language(*unwanted),
        ),
{
    let ghost uris = texts(nodes@);
    let ghost pred = |uri: Seq<char>|
        passes(uri, given(*types), language(*wanted), language(*unwanted));
    let mut out: Vec<String> = Vec::new();
    let mut i: usize = 0;
    proof {
        reveal(Seq::filter);
        assert(uris.take(0) =~= seq![]);
        assert(texts(out@) =~= uris.take(0).filter(pred));
    }
    while i < nodes.len()
        invariant
            uris == texts(nodes@),
            pred == (|uri: Seq<char>|
                passes(uri, given(*types), language(*wanted), language(*unwanted))),
            i <= nodes@.len(),
            texts(out@) == uris.take(i as int).filter(pred),
        decreases nodes@.len() - i,
    {
        proof {
            reveal(Seq::filter);
            assert(uris.take(i + 1).drop_last() =~= uris.take(i as int));
            assert(uris.take(i + 1).last() == nodes@[i as int]@);
        }
        if does_pass(nodes[i].as_str(), types, wanted, unwanted) {
            let ghost before_out = out@;
            out.push(nodes[i].clone());
            assert(texts(out@) =~= texts(before_out).push(nodes@[i as int]@));
        }
        i += 1;
    }
    assert(uris.take(i as int) =~= uris);
    out
}

/// The size that a compiled expression may have, in bytes.
pub const REGEX_SIZE_LIMIT: usize = 65536;

/// The size that the cache of a compiled expression may have, in bytes.
pub const REGEX_CACHE_LIMIT: usize = 262144;

/// The source of an expression that does not tell letter case apart.
pub open spec fn blind_source(pattern: Seq<char>) -> Seq<char> {
    "(?i)"@ + pattern
}

/// An expression compiles within the limits.
pub open spec fn compiles(pattern: Seq<char>) -> bool {
    regex_builds(
        blind_source(pattern),
        REGEX_SIZE_LIMIT as nat,
        REGEX_CACHE_LIMIT as nat,
        usize::BITS as nat,
    )
}

/// Compiles an expression that does not tell letter case apart, if it compiles within the limits.
pub fn safe_regex(pattern: &str) -> (r: Option<regex::Regex>)
    ensures
        r is Some == compiles(pattern@),
        r matches Some(re) ==> regex_language(re) == pattern_language(blind_source(pattern@)),
{
    let mut source = String::new();
    source.append("(?i)");
    source.append(pattern);
    assert(source@ =~= blind_source(pattern@));
    build_regex(source.as_str(), REGEX_SIZE_LIMIT, REGEX_CACHE_LIMIT)
}

/// Shuffles nodes: by a seed where it is given, so that the same nodes come out in the same
/// order again, and at random otherwise.
pub fn shuffle_nodes(nodes: &mut [String], seed: Option<u64>)
    ensures
        texts(final(nodes)@).to_multiset() == texts(old(nodes)@).to_multiset(),
        seed matches Some(s) ==> texts(final(nodes)@) == seeded_order(texts(old(nodes)@), s),
{
    match seed {
        Some(s) => shuffle_seeded(nodes, s),
        None => shuffle_randomly(nodes),
    }
}

/// The first nodes of a list, up to a limit; all where no limit is given or it is zero.
pub open spec fn limited(uris: Seq<Seq<char>>, limit: Option<usize>) -> Seq<Seq<char>> {
    match limit {
        Some(n) => if 0 < n < uris.len() {
            uris.take(n as int)
        } else {
            uris
        },
        None => uris,
    }
}

/// Keeps the first nodes up to a limit.
pub fn limit_nodes(nodes: &mut Vec<String>, limit: Option<usize>)
    ensures
        texts(final(nodes)@) == limited(texts(old(nodes)@), limit),
{
    if let Some(n) = limit {
        if n > 0 && nodes.len() > n {
            nodes.truncate(n);
            assert(texts(nodes@) =~= texts(old(nodes)@).take(n as int));
        }
    }
}

/// The names that an expression of a request matches; nothing where it is not given or does not
/// compile, and then it does not count.
pub open spec fn meaning(pattern: Option<Seq<char>>) -> Option<Set<Seq<char>>> {
    match pattern {
        Some(p) => if compiles(p) {
            Some(pattern_language(blind_source(p)))
        } else {
            None
        },
        None => None,
    }
}

/// The links that pass the selection of a request, in their order.
pub open spec fn passing(uris: Seq<Seq<char>>, p: Params) -> Seq<Seq<char>> {
    selection(
        uris,
        given(p.types),
        meaning(given(p.include_pattern)),
        meaning(given(p.exclude_pattern)),
    )
}

/// What filtering may return: the links that pass, shuffled and cut at the limit.
pub open spec fn may_return(
    uris: Seq<Seq<char>>,
    p: Params,
    order: Seq<Seq<char>>,
    r: Seq<Seq<char>>,
) -> bool {
    &&& order.to_multiset() == passing(uris, p).to_multiset()
    &&& p.seed matches Some(s) ==> order == seeded_order(passing(uris, p), s)
    &&& r == limited(order, p.limit)
}

fn compile(pattern: &Option<String>) -> (r: Option<regex::Regex>)
    ensures
        language(r) == meaning(given(*pattern)),
{
    match pattern {
        Some(s) => safe_regex(s.as_str()),
        None => None,
    }
}

/// Selects, shuffles and limits nodes as a request asks. An expression that does not compile
/// does not count.
pub fn apply_filters(nodes: Vec<String>, p: &Params) -> (r: Vec<String>)
    ensures
        exists|order: Seq<Seq<char>>| may_return(texts(nodes@), *p, order, texts(r@)),
        p.seed matches Some(s) ==> texts(r@) == limited(
            seeded_order(passing(texts(nodes@), *p), s),
            p.limit,
        ),
{
    let wanted = compile(&p.include_pattern);
    let unwanted = compile(&p.exclude_pattern);
    let mut out = select_nodes(nodes, &p.types, &wanted, &unwanted);
    shuffle_nodes(out.as_mut_slice(), p.seed);
    let ghost order = texts(out@);
    limit_nodes(&mut out, p.limit);
    assert(may_return(texts(nodes@), *p, order, texts(out@)));
    out
}

// ---------------------------------------------------------------------------------------------
// Laws
// ---------------------------------------------------------------------------------------------

/// A subscription as a request names it: not empty, without white space around it and without
/// a comma.
pub open spec fn proper_item(s: Seq<char>) -> bool {
    s.len() > 0 && trimmed(s) == s && !s.contains(',')
}

pub(crate) proof fn lemma_pieces_lack(s: Seq<char>, c: char)
    ensures
        forall|i: int| 0 <= i < pieces(s, c).len() ==> !(#[trigger] pieces(s, c)[i]).contains(c),
    decreases s.len(),
{
    s.index_of_first_ensures(c);
    match s.index_of_first(c) {
        Some(k) => {
            let rest = pieces(s.skip(k + 1), c);
            lemma_pieces_lack(s.skip(k + 1), c);
            assert(!s.take(k).contains(c)) by {
                if s.take(k).contains(c) {
                    let j = choose|j: int| 0 <= j < k && s.take(k)[j] == c;
                    assert(s[j] == c);
                }
            }
            assert forall|i: int| 0 <= i < pieces(s, c).len() implies !(#[trigger] pieces(
                s,
                c,
            )[i]).contains(c) by {
                if i > 0 {
                    assert(pieces(s, c)[i] == rest[i - 1]);
                }
            }
        },
        None => {},
    }
}

proof fn lemma_proper_items(items: Seq<Seq<char>>)
    requires
        forall|i: int| 0 <= i < items.len() ==> !(#[trigger] items[i]).contains(','),
    ensures
        forall|i: int|
            0 <= i < proper_items(items).len() ==> proper_item(#[trigger] proper_items(items)[i]),
    decreases items.len(),
{
    if items.len() > 0 {
        let front = items.drop_last();
        assert forall|i: int| 0 <= i < front.len() implies !(#[trigger] front[i]).contains(
            ',',
        ) by {
            assert(front[i] == items[i]);
        }
        lemma_proper_items(front);
        let last = items.last();
        assert(last == items[items.len() - 1]);
        law_trimmed_twice(last);
        lemma_trimmed_lacks(last, |c: char| white_space(c), ',');
        let rest = proper_items(front);
        assert forall|i: int| 0 <= i < proper_items(items).len() implies proper_item(
            #[trigger] proper_items(items)[i],
        ) by {
            if i < rest.len() {
                assert(proper_items(items)[i] == rest[i]);
            }
        }
    }
}

proof fn lemma_listed_items(p: Option<String>)
    ensures
        forall|i: int| 0 <= i < listed(p).len() ==> proper_item(#[trigger] listed(p)[i]),
{
    match p {
        Some(s) => {
            lemma_pieces_lack(s@, ',');
            lemma_proper_items(pieces(s@, ','));
        },
        None => {},
    }
}

/// A request names no subscription twice, and none that is empty.
pub proof fn law_request_urls(p: Params)
    ensures
        request_urls(p).no_duplicates(),
        forall|i: int|
            0 <= i < request_urls(p).len() ==> proper_item(#[trigger] request_urls(p)[i]),
{
    let all = listed(p.url) + listed(p.urls);
    law_fresh(all, Set::empty());
    lemma_listed_items(p.url);
    lemma_listed_items(p.urls);
    assert forall|i: int| 0 <= i < request_urls(p).len() implies proper_item(
        #[trigger] request_urls(p)[i],
    ) by {
        let x = request_urls(p)[i];
        assert(request_urls(p).contains(x));
        let j = choose|j: int| 0 <= j < all.len() && all[j] == x;
        if j < listed(p.url).len() {
            assert(all[j] == listed(p.url)[j]);
        } else {
            assert(all[j] == listed(p.urls)[j - listed(p.url).len()]);
        }
    }
}

/// Whatever chance brings, every returned link was there and passes, and no more are returned than
/// the limit allows.
pub proof fn law_filters_select(
    uris: Seq<Seq<char>>,
    p: Params,
    order: Seq<Seq<char>>,
    r: Seq<Seq<char>>,
)
    ensures
        may_return(uris, p, order, r) ==> {
            &&& forall|x: Seq<char>| #[trigger]
                r.contains(x) ==> uris.contains(x) && passes(
                    x,
                    given(p.types),
                    meaning(given(p.include_pattern)),
                    meaning(given(p.exclude_pattern)),
                )
            &&& p.limit matches Some(n) ==> n > 0 ==> r.len() <= n
        },
{
    broadcast use vstd::seq_lib::group_to_multiset_ensures;

    if may_return(uris, p, order, r) {
        let wanted = meaning(given(p.include_pattern));
        let unwanted = meaning(given(p.exclude_pattern));
        let pred = |uri: Seq<char>| passes(uri, given(p.types), wanted, unwanted);
        let kept = passing(uris, p);
        assert forall|x: Seq<char>| #[trigger] r.contains(x) implies uris.contains(x) && passes(
            x,
            given(p.types),
            wanted,
            unwanted,
        ) by {
            let i = choose|i: int| 0 <= i < r.len() && r[i] == x;
            assert(order[i] == x);
            assert(order.contains(x));
            assert(order.to_multiset().count(x) > 0);
            assert(kept.contains(x));
            let j = choose|j: int| 0 <= j < kept.len() && kept[j] == x;
            uris.lemma_filter_pred(pred, j);
            lemma_filter_among(uris, pred, x);
        }
    }
}

/// Where nothing is cut off, every link that passes is returned, as often as it was there.
pub proof fn law_filters_keep(
    uris: Seq<Seq<char>>,
    p: Params,
    order: Seq<Seq<char>>,
    r: Seq<Seq<char>>,
)
    ensures
        may_return(uris, p, order, r) && !(p.limit matches Some(n) && 0 < n < order.len())
            ==> r.to_multiset() == passing(uris, p).to_multiset(),
{
}

/// A request that asks for no selection gets all of the links.
pub proof fn law_no_filters(
    uris: Seq<Seq<char>>,
    p: Params,
    order: Seq<Seq<char>>,
    r: Seq<Seq<char>>,
)
    requires
        p.types is None,
        p.include_pattern is None,
        p.exclude_pattern is None,
        p.limit is None || p.limit == Some(0usize),
    ensures
        may_return(uris, p, order, r) ==> r.to_multiset() == uris.to_multiset(),
{
    if may_return(uris, p, order, r) {
        let pred = |uri: Seq<char>|
            passes(
                uri,
                given(p.types),
                meaning(given(p.include_pattern)),
                meaning(given(p.exclude_pattern)),
            );
        lemma_filter_all_pass(uris, pred);
    }
}

proof fn lemma_filter_all_pass(s: Seq<Seq<char>>, pred: spec_fn(Seq<char>) -> bool)
    requires
        forall|x: Seq<char>| #[trigger] pred(x),
    ensures
        s.filter(pred) == s,
    decreases s.len(),
{
    reveal(Seq::filter);
    if s.len() > 0 {
        lemma_filter_all_pass(s.drop_last(), pred);
        assert(pred(s.last()));
        assert(s.drop_last().push(s.last()) =~= s);
    }
}

/// With a seed, the same request for the same links gets the same answer again, expressions or
/// not. Each answer is given with the order that it was cut from.
pub proof fn law_seed_repeats(
    uris: Seq<Seq<char>>,
    p: Params,
    first: (Seq<Seq<char>>, Seq<Seq<char>>),
    second: (Seq<Seq<char>>, Seq<Seq<char>>),
)
    requires
        p.seed is Some,
    ensures
        may_return(uris, p, first.0, first.1) && may_return(uris, p, second.0, second.1)
            ==> first.1 == second.1,
{
}

} // verus!
