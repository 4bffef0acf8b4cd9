//! The cache of merged subscriptions.

use crate::cut::{joined, law_pieces_joined};
use crate::order::{law_sorted_of_permutation, law_text_order, sort_texts, sorted, text_order};
use crate::seen::lemma_push_contains;
use crate::text::texts;
use vstd::hash_map::StringHashMap;
use vstd::prelude::*;

verus! {

/// How long an entry is used, in nanoseconds: one hour.
pub const CACHE_TTL: u64 = 3600000000000;

/// The key of some subscriptions.
pub open spec fn key_of(urls: Seq<Seq<char>>) -> Seq<char> {
    joined(sorted(urls), '|')
}

/// The key under which the links of some subscriptions are kept.
pub fn cache_key(urls: &Vec<String>) -> (r: String)
    ensures
        r@ == key_of(texts(urls@)),
{
    let list = sort_texts(urls);
    let ghost all = texts(list@);
    let mut out = String::new();
    let mut i: usize = 0;
    assert(all.take(0) =~= seq![]);
    assert(out@ =~= joined(all.take(0), '|'));
    while i < list.len()
        invariant
            all == texts(list@),
            i <= list@.len(),
            out@ == joined(all.take(i as int), '|'),
        decreases list@.len() - i,
    {
        let ghost before_out = out@;
        if i > 0 {
            out.push('|');
        }
        out.append(list[i].as_str());
        proof {
            assert(all.take(i + 1).drop_last() =~= all.take(i as int));
            if i == 0 {
                assert(out@ =~= all[0]);
            } else {
                assert(out@ =~= before_out + seq!['|'] + all[i as int]);
            }
        }
        i += 1;
    }
    assert(all.take(i as int) =~= all);
    out
}

/// The key does not depend on the order in which the subscriptions are given.
pub proof fn law_key_ignores_order(a: Seq<Seq<char>>, b: Seq<Seq<char>>)
    requires
        a.to_multiset() == b.to_multiset(),
    ensures
        key_of(a) == key_of(b),
{
    law_sorted_of_permutation(a, b);
}

/// How much time passed between two moments; none where the first is the later one.
pub open spec fn elapsed(since: u64, now: u64) -> int {
    if since <= now {
        now - since
    } else {
        0
    }
}

/// An entry is used as long as less than the time to live passed.
pub open spec fn live(stored: u64, now: u64) -> bool {
    elapsed(stored, now) < CACHE_TTL
}

/// An entry: links, and the moment at which they were fetched, in nanoseconds.
pub struct CacheEntry {
    data: Vec<String>,
    stored: u64,
}

/// The model of an entry.
pub struct EntryView {
    pub data: Seq<Seq<char>>,
    pub stored: u64,
}

impl View for CacheEntry {
    type V = EntryView;

    closed spec fn view(&self) -> EntryView {
        EntryView { data: texts(self.data@), stored: self.stored }
    }
}

impl CacheEntry {
    fn is_live(&self, now: u64) -> (r: bool)
        ensures
            r == live(self@.stored, now),
    {
        now < self.stored || now - self.stored < CACHE_TTL
    }

    fn links(&self) -> (r: Vec<String>)
        ensures
            texts(r@) == self@.data,
    {
        let mut out: Vec<String> = Vec::new();
        let mut i: usize = 0;
        while i < self.data.len()
            invariant
                i <= self.data@.len(),
                texts(out@) == texts(self.data@).take(i as int),
            decreases self.data@.len() - i,
        {
            let ghost before_out = out@;
            out.push(self.data[i].clone());
            assert(texts(out@) =~= texts(before_out).push(self.data@[i as int]@));
            i += 1;
        }
        assert(texts(self.data@).take(i as int) =~= texts(self.data@));
        out
    }
}

/// Entries by their keys, and a list of the keys.
struct Entries {
    entries: StringHashMap<CacheEntry>,
    keys: Vec<String>,
}

impl View for Entries {
    type V = Map<Seq<char>, EntryView>;

    closed spec fn view(&self) -> Map<Seq<char>, EntryView> {
        self.entries@.map_values(|e: CacheEntry| e@)
    }
}

/// The links that were fetched, by the key of their subscriptions.
pub struct Cache {
    inner: Entries,
}

impl View for Cache {
    type V = Map<Seq<char>, EntryView>;

    closed spec fn view(&self) -> Map<Seq<char>, EntryView> {
        self.inner@
    }
}

/// The links under a key, where they are still used.
pub open spec fn found(m: Map<Seq<char>, EntryView>, key: Seq<char>, now: u64) -> Option<
    Seq<Seq<char>>,
> {
    if m.contains_key(key) && live(m[key].stored, now) {
        Some(m[key].data)
    } else {
        None
    }
}

/// The entries that are still used.
pub open spec fn live_entries(m: Map<Seq<char>, EntryView>, now: u64) -> Map<Seq<char>, EntryView> {
    Map::new(|k: Seq<char>| m.contains_key(k) && live(m[k].stored, now), |k: Seq<char>| m[k])
}

impl Entries {
    /// The list of keys names every entry once.
    spec fn well_formed(&self) -> bool {
        &&& texts(self.keys@).no_duplicates()
        &&& forall|k: Seq<char>|
            self.entries@.contains_key(k) <==> #[trigger] texts(self.keys@).contains(k)
    }

    fn new() -> (r: Entries)
        ensures
            r.well_formed(),
            r@ == Map::<Seq<char>, EntryView>::empty(),
    {
        let r = Entries { entries: StringHashMap::new(), keys: Vec::new() };
        assert(r@ =~= Map::<Seq<char>, EntryView>::empty());
        r
    }

    fn lookup(&self, key: &str, now: u64) -> (r: Option<Vec<String>>)
        ensures
            match r {
                Some(data) => found(self@, key@, now) == Some(texts(data@)),
                None => found(self@, key@, now) is None,
            },
    {
        match self.entries.get(key) {
            Some(entry) => if entry.is_live(now) {
                Some(entry.links())
            } else {
                None
            },
            None => None,
        }
    }

    fn store(&mut self, key: String, data: Vec<String>, now: u64)
        requires
            old(self).well_formed(),
        ensures
            final(self).well_formed(),
            final(self)@ == old(self)@.insert(
                key@,
                EntryView { data: texts(data@), stored: now },
            ),
    {
        let ghost names = texts(self.keys@);
        let entry = CacheEntry { data, stored: now };
        assert(self.entries@.contains_key(key@) == names.contains(key@));
        if !self.entries.contains_key(key.as_str()) {
            self.keys.push(key.clone());
            proof {
                assert(texts(self.keys@) =~= names.push(key@));
                assert forall|k: Seq<char>| #[trigger]
                    texts(self.keys@).contains(k) == (names.contains(k) || k == key@) by {
                    if names.contains(k) {
                        let i = choose|i: int| 0 <= i < names.len() && names[i] == k;
                        assert(texts(self.keys@)[i] == k);
                    }
                    assert(texts(self.keys@)[names.len() as int] == key@);
                }
            }
        }
        self.entries.insert(key, entry);
        assert(self@ =~= old(self)@.insert(key@, entry@));
    }

    fn evict(&mut self, now: u64) -> (r: usize)
        requires
            old(self).well_formed(),
        ensures
            final(self).well_formed(),
            final(self)@ == live_entries(old(self)@, now),
            r == old(self)@.dom().difference(final(self)@.dom()).len(),
    {
        let mut kept: Vec<String> = Vec::new();
        let mut dropped: usize = 0;
        let ghost names = texts(self.keys@);
        let ghost all = self.entries@;
        let ghost mut gone: Set<Seq<char>> = Set::empty();
        let mut i: usize = 0;
        while i < self.keys.len()
            invariant
                names == texts(self.keys@),
                names.no_duplicates(),
                forall|k: Seq<char>| all.contains_key(k) <==> #[trigger] names.contains(k),
                i <= names.len(),
                dropped <= i,
                gone.finite(),
                gone.len() == dropped,
                forall|k: Seq<char>| #[trigger]
                    gone.contains(k) <==> names.take(i as int).contains(k) && !live(
                        all[k]@.stored,
                        now,
                    ),
                forall|k: Seq<char>| #[trigger]
                    texts(kept@).contains(k) <==> names.take(i as int).contains(k) && live(
                        all[k]@.stored,
                        now,
                    ),
                texts(kept@).no_duplicates(),
                forall|k: Seq<char>| #[trigger]
                    self.entries@.contains_key(k) <==> all.contains_key(k) && !gone.contains(k),
                forall|k: Seq<char>| #[trigger]
                    self.entries@.contains_key(k) ==> self.entries@[k] == all[k],
            decreases names.len() - i,
        {
            let ghost key = names[i as int];
            let ghost kept_before = texts(kept@);
            proof {
                assert(names.contains(key));
                assert(names.take(i + 1) =~= names.take(i as int).push(key));
                assert(!names.take(i as int).contains(key)) by {
                    if names.take(i as int).contains(key) {
                        let j = choose|j: int|
                            0 <= j < i && names.take(i as int)[j] == key;
                        assert(names[j] == names[i as int]);
                    }
                }
                assert forall|k: Seq<char>| #[trigger]
                    names.take(i + 1).contains(k) == (names.take(i as int).contains(k) || k
                        == key) by {
                    lemma_push_contains(names.take(i as int), key, k);
                }
            }
            let name = self.keys[i].clone();
            let is_live = match self.entries.get(name.as_str()) {
                Some(entry) => entry.is_live(now),
                None => false,
            };
            if is_live {
                kept.push(name);
                proof {
                    assert(texts(kept@) =~= kept_before.push(key));
                    assert forall|k: Seq<char>| #[trigger]
                        texts(kept@).contains(k) == (kept_before.contains(k) || k == key) by {
                        lemma_push_contains(kept_before, key, k);
                    }
                    assert(!kept_before.contains(key));
                }
            } else {
                self.entries.remove(name.as_str());
                dropped += 1;
                proof {
                    assert(!gone.contains(key));
                    gone = gone.insert(key);
                }
            }
            i += 1;
        }
        assert(names.take(i as int) =~= names);
        self.keys = kept;
        proof {
            assert(self@ =~= live_entries(old(self)@, now));
            assert(old(self)@.dom().difference(self@.dom()) =~= gone);
        }
        dropped
    }
}

impl Cache {
    #[verifier::type_invariant]
    spec fn well_formed(&self) -> bool {
        self.inner.well_formed()
    }

    /// A cache without entries.
    pub fn new() -> (r: Cache)
        ensures
            r@ == Map::<Seq<char>, EntryView>::empty(),
    {
        Cache { inner: Entries::new() }
    }

    /// The links under a key, where they are still used.
    pub fn lookup(&self, key: &str, now: u64) -> (r: Option<Vec<String>>)
        ensures
            match r {
                Some(data) => found(self@, key@, now) == Some(texts(data@)),
                None => found(self@, key@, now) is None,
            },
    {
        self.inner.lookup(key, now)
    }

    /// Keeps links under a key, in place of those that were there.
    pub fn store(&mut self, key: String, data: Vec<String>, now: u64)
        ensures
            final(self)@ == old(self)@.insert(
                key@,
                EntryView { data: texts(data@), stored: now },
            ),
    {
        proof {
            use_type_invariant(&*self);
        }
        let mut inner = Entries::new();
        std::mem::swap(&mut inner, &mut self.inner);
        inner.store(key, data, now);
        self.inner = inner;
    }

    /// Drops the entries that are no longer used, and returns how many there were.
    pub fn evict(&mut self, now: u64) -> (r: usize)
        ensures
            final(self)@ == live_entries(old(self)@, now),
            r == old(self)@.dom().difference(final(self)@.dom()).len(),
    {
        proof {
            use_type_invariant(&*self);
        }
        let mut inner = Entries::new();
        std::mem::swap(&mut inner, &mut self.inner);
        let dropped = inner.evict(now);
        self.inner = inner;
        dropped
    }
}

// ---------------------------------------------------------------------------------------------
// Laws
// ---------------------------------------------------------------------------------------------

/// The key tells different subscriptions apart, as long as none of them holds the separator.
pub proof fn law_key_tells_apart(a: Seq<Seq<char>>, b: Seq<Seq<char>>)
    requires
        a.len() > 0,
        b.len() > 0,
        forall|i: int| 0 <= i < a.len() ==> !(#[trigger] a[i]).contains('|'),
        forall|i: int| 0 <= i < b.len() ==> !(#[trigger] b[i]).contains('|'),
        key_of(a) == key_of(b),
    ensures
        a.to_multiset() == b.to_multiset(),
{
    lemma_sorted_lacks(a);
    lemma_sorted_lacks(b);
    law_pieces_joined(sorted(a), '|');
    law_pieces_joined(sorted(b), '|');
}

proof fn lemma_sorted_lacks(a: Seq<Seq<char>>)
    requires
        forall|i: int| 0 <= i < a.len() ==> !(#[trigger] a[i]).contains('|'),
    ensures
        sorted(a).len() == a.len(),
        sorted(a).to_multiset() == a.to_multiset(),
        forall|i: int| 0 <= i < a.len() ==> !(#[trigger] sorted(a)[i]).contains('|'),
{
    broadcast use vstd::seq_lib::group_to_multiset_ensures;

    law_text_order();
    a.lemma_sort_by_ensures(text_order());
    let s = sorted(a);
    assert(s.len() == s.to_multiset().len());
    assert(a.len() == a.to_multiset().len());
    assert forall|i: int| 0 <= i < a.len() implies !(#[trigger] s[i]).contains('|') by {
        assert(s.contains(s[i]));
        assert(a.contains(s[i]));
    }
}

/// What was stored under a key is found under it for an hour, and not after that.
pub proof fn law_store(m: Map<Seq<char>, EntryView>, key: Seq<char>, e: EntryView, now: u64)
    requires
        e.stored <= now,
    ensures
        now - e.stored < CACHE_TTL ==> found(m.insert(key, e), key, now) == Some(e.data),
        now - e.stored >= CACHE_TTL ==> found(m.insert(key, e), key, now) is None,
{
}

/// Storing under one key changes nothing under another.
pub proof fn law_store_elsewhere(
    m: Map<Seq<char>, EntryView>,
    key: Seq<char>,
    e: EntryView,
    other: Seq<char>,
    now: u64,
)
    requires
        other != key,
    ensures
        found(m.insert(key, e), other, now) == found(m, other, now),
{
}

/// Dropping what is no longer used changes nothing that can be found from then on.
pub proof fn law_evict(m: Map<Seq<char>, EntryView>, dropped: u64, key: Seq<char>, now: u64)
    requires
        dropped <= now,
    ensures
        found(live_entries(m, dropped), key, now) == found(m, key, now),
{
}

/// An entry is used for an hour after it was stored, counted in nanoseconds, and also where the
/// clock was set back since; dropping removes exactly the entries that are no longer used and
/// changes none of the others.
pub proof fn law_hour(m: Map<Seq<char>, EntryView>, key: Seq<char>, now: u64)
    ensures
        ({
            let used = m.contains_key(key) && now < m[key].stored + 3_600_000_000_000;
            &&& found(m, key, now) == if used {
                Some(m[key].data)
            } else {
                None
            }
            &&& live_entries(m, now).contains_key(key) <==> used
            &&& used ==> live_entries(m, now)[key] == m[key]
        }),
{
}

} // verus!
