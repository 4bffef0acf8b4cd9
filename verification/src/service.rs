//! What the service does with a request, but for the fetching itself.

use crate::cache::{cache_key, key_of};
use crate::config::{config_text, generate_full_config, named_nodes, numbered};
use crate::request::{extract_urls, given, request_urls, Params};
use crate::seen::{fresh, law_fresh, law_fresh_in_turn, lemma_met_push, met, Seen};
use crate::text::{same_text, texts};
use vstd::prelude::*;

verus! {

/// How many subscriptions are fetched at a time.
pub const BATCH_SIZE: usize = 3;

/// What to do with a request.
pub enum Plan {
    /// It names no subscription: show the landing page.
    Landing,
    /// Merge these subscriptions, and keep their links under this key.
    Merge { urls: Vec<String>, key: String },
}

/// Decides what to do with a request.
pub fn plan_request(p: &Params) -> (r: Plan)
    ensures
        match r {
            Plan::Landing => request_urls(*p).len() == 0,
            Plan::Merge { urls, key } => {
                &&& request_urls(*p).len() > 0
                &&& texts(urls@) == request_urls(*p)
                &&& key@ == key_of(request_urls(*p))
            },
        },
{
    let urls = extract_urls(p);
    assert(texts(urls@).len() == urls@.len());
    if urls.len() == 0 {
        Plan::Landing
    } else {
        let key = cache_key(&urls);
        Plan::Merge { urls, key }
    }
}

/// The subscriptions in batches: each but the last is full.
pub open spec fn batch(urls: Seq<Seq<char>>, i: int) -> Seq<Seq<char>> {
    let end = (i + 1) * BATCH_SIZE;
    urls.subrange(
        i * BATCH_SIZE,
        if end < urls.len() {
            end
        } else {
            urls.len() as int
        },
    )
}

/// Parts subscriptions into batches that are fetched one after the other.
pub fn batches(urls: &Vec<String>) -> (r: Vec<Vec<String>>)
    ensures
        (r@.len() - 1) * BATCH_SIZE < urls@.len() <= r@.len() * BATCH_SIZE,
        forall|i: int| 0 <= i < r@.len() ==> texts((#[trigger] r@[i])@) == batch(texts(urls@), i),
{
    let ghost all = texts(urls@);
    let n: usize = urls.len();
    let mut out: Vec<Vec<String>> = Vec::new();
    let mut i: usize = 0;
    while i < n
        invariant
            n == urls@.len(),
            all == texts(urls@),
            i <= n,
            i == out@.len() * BATCH_SIZE || i == n,
            (out@.len() - 1) * BATCH_SIZE < i <= out@.len() * BATCH_SIZE,
            forall|j: int| 0 <= j < out@.len() ==> texts((#[trigger] out@[j])@) == batch(all, j),
        decreases n - i,
    {
        let ghost start = i;
        let ghost k = out@.len() as int;
        let mut part: Vec<String> = Vec::new();
        while i < n && part.len() < BATCH_SIZE
            invariant
                n == urls@.len(),
                all == texts(urls@),
                start <= i <= n,
                part@.len() <= BATCH_SIZE,
                i == start + part@.len(),
                texts(part@) == all.subrange(start as int, i as int),
            decreases n - i,
        {
            let ghost before_part = part@;
            part.push(urls[i].clone());
            assert(texts(part@) =~= texts(before_part).push(all[i as int]));
            i += 1;
            assert(texts(part@) =~= all.subrange(start as int, i as int));
        }
        out.push(part);
    }
    out
}

/// All batches of some subscriptions, one after the other.
pub open spec fn batch_list(urls: Seq<Seq<char>>, n: nat) -> Seq<Seq<Seq<char>>> {
    Seq::new(n, |i: int| batch(urls, i))
}

proof fn lemma_batches_join(urls: Seq<Seq<char>>, n: nat)
    requires
        (n - 1) * BATCH_SIZE < urls.len() || n == 0,
    ensures
        batch_list(urls, n).flatten_alt() == urls.take(
            if n * BATCH_SIZE < urls.len() {
                (n * BATCH_SIZE) as int
            } else {
                urls.len() as int
            },
        ),
    decreases n,
{
    if n == 0 {
        assert(batch_list(urls, n).flatten_alt() =~= urls.take(0));
    } else {
        let k = (n - 1) as nat;
        lemma_batches_join(urls, k);
        assert(batch_list(urls, n).drop_last() =~= batch_list(urls, k));
        let end = if n * BATCH_SIZE < urls.len() {
            (n * BATCH_SIZE) as int
        } else {
            urls.len() as int
        };
        assert(urls.take((k * BATCH_SIZE) as int) + batch(urls, k as int) =~= urls.take(end));
    }
}

/// The batches hold all of the subscriptions in their order, none is empty, none is larger than a
/// batch may be, and each but the last holds three.
pub proof fn law_batches(urls: Seq<Seq<char>>, n: nat)
    requires
        (n - 1) * BATCH_SIZE < urls.len() <= n * BATCH_SIZE,
    ensures
        batch_list(urls, n).flatten() == urls,
        forall|i: int| 0 <= i < n ==> 0 < (#[trigger] batch(urls, i)).len() <= BATCH_SIZE,
        forall|i: int| 0 <= i < n - 1 ==> (#[trigger] batch(urls, i)).len() == 3,
{
    lemma_batches_join(urls, n);
    batch_list(urls, n).lemma_flatten_and_flatten_alt_are_equivalent();
    assert(urls.take(urls.len() as int) =~= urls);
}

/// Appends those of some links that were not met before, and remembers all of them.
pub fn merge_links(all: &mut Vec<String>, seen: &mut Seen, items: Vec<String>)
    ensures
        texts(final(all)@) == texts(old(all)@) + fresh(texts(items@), old(seen)@),
        final(seen)@ == met(texts(items@), old(seen)@),
{
    let ghost list = texts(items@);
    let ghost base = texts(all@);
    let ghost start = seen@;
    let mut i: usize = 0;
    assert(list.take(0) =~= seq![]);
    assert(texts(all@) =~= base + fresh(list.take(0), start));
    assert(seen@ =~= met(list.take(0), start));
    while i < items.len()
        invariant
            list == texts(items@),
            i <= items@.len(),
            texts(all@) == base + fresh(list.take(i as int), start),
            seen@ == met(list.take(i as int), start),
        decreases items@.len() - i,
    {
        let ghost done = list.take(i as int);
        let ghost before_all = all@;
        let item = items[i].clone();
        let ghost x = item@;
        proof {
            assert(list.take(i + 1) =~= done.push(x));
            lemma_met_push(done, start, x);
        }
        if seen.insert(item.clone()) {
            all.push(item);
            assert(texts(all@) =~= texts(before_all).push(x));
            assert(texts(all@) =~= base + fresh(done.push(x), start));
        }
        i += 1;
    }
    assert(list.take(i as int) =~= list);
}

/// The links of some subscriptions, merged in their order: each link at the place where it first
/// stands.
pub open spec fn merged(lists: Seq<Seq<Seq<char>>>) -> Seq<Seq<char>> {
    fresh(lists.flatten_alt(), Set::empty())
}

/// Merging one subscription more appends those of its links that none before it gave.
pub proof fn law_merged_in_turn(lists: Seq<Seq<Seq<char>>>, items: Seq<Seq<char>>)
    ensures
        merged(lists.push(items)) == merged(lists) + fresh(
            items,
            met(lists.flatten_alt(), Set::empty()),
        ),
        met(lists.push(items).flatten_alt(), Set::empty()) == met(
            items,
            met(lists.flatten_alt(), Set::empty()),
        ),
{
    assert(lists.push(items).drop_last() =~= lists);
    law_fresh_in_turn(lists.flatten_alt(), items, Set::empty());
}

/// A link is among the merged ones if and only if one of the subscriptions gives it, and it is
/// there once.
pub proof fn law_merged(lists: Seq<Seq<Seq<char>>>, x: Seq<char>)
    ensures
        merged(lists).contains(x) <==> exists|i: int|
            0 <= i < lists.len() && (#[trigger] lists[i]).contains(x),
        merged(lists).no_duplicates(),
{
    law_fresh(lists.flatten_alt(), Set::empty());
    lemma_flat_contains(lists, x);
}

proof fn lemma_flat_contains(lists: Seq<Seq<Seq<char>>>, x: Seq<char>)
    ensures
        lists.flatten_alt().contains(x) <==> exists|i: int|
            0 <= i < lists.len() && (#[trigger] lists[i]).contains(x),
    decreases lists.len(),
{
    if lists.len() > 0 {
        let front = lists.drop_last();
        let last = lists.last();
        lemma_flat_contains(front, x);
        let a = front.flatten_alt();
        assert(lists.flatten_alt() == a + last);
        if (a + last).contains(x) {
            let k = choose|k: int| 0 <= k < (a + last).len() && (a + last)[k] == x;
            if k < a.len() {
                assert(a[k] == x);
                let i = choose|i: int| 0 <= i < front.len() && (#[trigger] front[i]).contains(x);
                assert(lists[i].contains(x));
            } else {
                assert(last[k - a.len()] == x);
                assert(lists[lists.len() - 1].contains(x));
            }
        }
        if exists|i: int| 0 <= i < lists.len() && (#[trigger] lists[i]).contains(x) {
            let i = choose|i: int| 0 <= i < lists.len() && (#[trigger] lists[i]).contains(x);
            if i < front.len() {
                assert(front[i].contains(x));
                let k = choose|k: int| 0 <= k < a.len() && a[k] == x;
                assert((a + last)[k] == x);
            } else {
                let k = choose|k: int| 0 <= k < last.len() && last[k] == x;
                assert((a + last)[a.len() + k] == x);
            }
        }
    }
}

/// A response: its content type, whether it is sent in chunks, how many nodes it lists, and its
/// body in parts.
pub struct Reply {
    pub content_type: String,
    pub chunked: bool,
    pub count: usize,
    pub parts: Vec<String>,
}

/// A request asks for a full configuration.
pub open spec fn wants_yaml(p: Params) -> bool {
    given(p.format) == Some("yaml"@)
}

/// Some links, each with the line feed that ends its line.
pub open spec fn as_lines(uris: Seq<Seq<char>>) -> Seq<Seq<char>> {
    uris.map_values(|uri: Seq<char>| uri.push('\n'))
}

/// A configuration is asked for by `format=yaml` and by nothing else; without it each link is
/// returned on a line of its own, as it is.
pub proof fn law_reply(p: Params, uris: Seq<Seq<char>>)
    ensures
        wants_yaml(p) <==> (p.format matches Some(f) && f@ == "yaml"@),
        as_lines(uris).len() == uris.len(),
        forall|i: int|
            0 <= i < uris.len() ==> #[trigger] as_lines(uris)[i] == uris[i] + seq!['\n'],
{
    assert forall|i: int| 0 <= i < uris.len() implies #[trigger] as_lines(uris)[i] == uris[i]
        + seq!['\n'] by {
        assert(uris[i].push('\n') =~= uris[i] + seq!['\n']);
    }
}

fn to_lines(nodes: &Vec<String>) -> (r: Vec<String>)
    ensures
        texts(r@) == as_lines(texts(nodes@)),
{
    let mut out: Vec<String> = Vec::new();
    let mut i: usize = 0;
    while i < nodes.len()
        invariant
            i <= nodes@.len(),
            texts(out@) == as_lines(texts(nodes@)).take(i as int),
        decreases nodes@.len() - i,
    {
        let ghost before_out = out@;
        let mut line = nodes[i].clone();
        line.push('\n');
        out.push(line);
        assert(texts(out@) =~= texts(before_out).push(nodes@[i as int]@.push('\n')));
        i += 1;
    }
    assert(as_lines(texts(nodes@)).take(i as int) =~= as_lines(texts(nodes@)));
    out
}

/// Writes the response to a request: a full configuration where it asks for one, and otherwise
/// the links, one to a line.
pub fn write_reply(p: &Params, nodes: &Vec<String>) -> (r: Reply)
    ensures
        r.count == nodes@.len(),
        wants_yaml(*p) ==> {
            &&& r.content_type@ == "text/yaml;charset=utf-8"@
            &&& !r.chunked
            &&& texts(r.parts@) == seq![config_text(numbered(named_nodes(texts(nodes@))))]
        },
        !wants_yaml(*p) ==> {
            &&& r.content_type@ == "text/plain;charset=utf-8"@
            &&& r.chunked
            &&& texts(r.parts@) == as_lines(texts(nodes@))
        },
{
    let yaml = match &p.format {
        Some(format) => same_text(format.as_str(), "yaml"),
        None => false,
    };
    let count: usize = nodes.len();
    if yaml {
        let mut parts: Vec<String> = Vec::new();
        parts.push(generate_full_config(nodes.as_slice()));
        assert(texts(parts@) =~= seq![config_text(numbered(named_nodes(texts(nodes@))))]);
        Reply { content_type: "text/yaml;charset=utf-8".to_owned(), chunked: false, count, parts }
    } else {
        let parts = to_lines(nodes);
        Reply { content_type: "text/plain;charset=utf-8".to_owned(), chunked: true, count, parts }
    }
}

} // verus!
