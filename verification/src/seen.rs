//! Keeping the first of equal texts.

use crate::text::texts;
use vstd::hash_set::StringHashSet;
use vstd::prelude::*;

verus! {

/// The texts that were met before.
pub struct Seen {
    items: StringHashSet,
}

impl View for Seen {
    type V = Set<Seq<char>>;

    closed spec fn view(&self) -> Set<Seq<char>> {
        self.items@
    }
}

impl Seen {
    /// Nothing was met yet.
    pub fn new() -> (r: Seen)
        ensures
            r@ == Set::<Seq<char>>::empty(),
    {
        Seen { items: StringHashSet::new() }
    }

    /// Remembers a text, and tells whether it is met for the first time.
    pub fn insert(&mut self, item: String) -> (r: bool)
        ensures
            final(self)@ == old(self)@.insert(item@),
            r == !old(self)@.contains(item@),
    {
        self.items.insert(item)
    }

    /// Tells whether a text was met.
    pub fn contains(&self, item: &str) -> (r: bool)
        ensures
            r == self@.contains(item@),
    {
        self.items.contains(item)
    }
}

/// The texts of a list that were not met before, each at the place where it first stands.
pub open spec fn fresh(items: Seq<Seq<char>>, seen: Set<Seq<char>>) -> Seq<Seq<char>>
    decreases items.len(),
{
    if items.len() == 0 {
        seq![]
    } else {
        let rest = fresh(items.drop_last(), seen);
        if seen.contains(items.last()) || items.drop_last().contains(items.last()) {
            rest
        } else {
            rest.push(items.last())
        }
    }
}

/// What was met after a list was gone through.
pub open spec fn met(items: Seq<Seq<char>>, seen: Set<Seq<char>>) -> Set<Seq<char>> {
    seen.union(items.to_set())
}

/// A list that was extended holds what it held, and the new text.
pub proof fn lemma_push_contains(s: Seq<Seq<char>>, x: Seq<char>, k: Seq<char>)
    ensures
        s.push(x).contains(k) == (s.contains(k) || k == x),
{
    if s.contains(k) {
        let j = choose|j: int| 0 <= j < s.len() && s[j] == k;
        assert(s.push(x)[j] == k);
    }
    if k == x {
        assert(s.push(x)[s.len() as int] == k);
    }
    if s.push(x).contains(k) {
        let j = choose|j: int| 0 <= j < s.len() + 1 && s.push(x)[j] == k;
        assert(j < s.len() ==> s[j] == k);
    }
}

/// Going one text further.
pub proof fn lemma_met_push(items: Seq<Seq<char>>, seen: Set<Seq<char>>, item: Seq<char>)
    ensures
        met(items.push(item), seen) == met(items, seen).insert(item),
        met(items, seen).contains(item) == (seen.contains(item) || items.contains(item)),
        fresh(items.push(item), seen) == (if met(items, seen).contains(item) {
            fresh(items, seen)
        } else {
            fresh(items, seen).push(item)
        }),
{
    let more = items.push(item);
    assert(more.drop_last() =~= items);
    assert forall|x: Seq<char>| more.to_set().contains(x) == items.to_set().insert(item).contains(
        x,
    ) by {
        if items.contains(x) {
            let i = choose|i: int| 0 <= i < items.len() && items[i] == x;
            assert(more[i] == x);
        }
        if x == item {
            assert(more[items.len() as int] == x);
        }
        if more.contains(x) {
            let i = choose|i: int| 0 <= i < more.len() && more[i] == x;
            assert(i < items.len() ==> items[i] == x);
        }
    }
    assert(met(more, seen) =~= met(items, seen).insert(item));
}

/// Appends a text that was not met before, and remembers it. `done` is what was gone through
/// so far, and `start` what was met before that.
pub(crate) fn push_fresh(
    out: &mut Vec<String>,
    item: String,
    seen: &mut Seen,
    Ghost(done): Ghost<Seq<Seq<char>>>,
    Ghost(start): Ghost<Set<Seq<char>>>,
)
    requires
        texts(old(out)@) == fresh(done, start),
        old(seen)@ == met(done, start),
    ensures
        texts(final(out)@) == fresh(done.push(item@), start),
        final(seen)@ == met(done.push(item@), start),
{
    proof {
        lemma_met_push(done, start, item@);
    }
    if seen.insert(item.clone()) {
        out.push(item);
        assert(texts(out@) =~= texts(old(out)@).push(item@));
    }
}

// ---------------------------------------------------------------------------------------------
// Laws
// ---------------------------------------------------------------------------------------------

/// What is kept of a list is every text of it that was not met before, and each of them once.
pub proof fn law_fresh(items: Seq<Seq<char>>, seen: Set<Seq<char>>)
    ensures
        fresh(items, seen).no_duplicates(),
        forall|x: Seq<char>| #[trigger]
            fresh(items, seen).contains(x) <==> items.contains(x) && !seen.contains(x),
    decreases items.len(),
{
    if items.len() > 0 {
        let front = items.drop_last();
        let last = items.last();
        law_fresh(front, seen);
        let rest = fresh(front, seen);
        assert forall|x: Seq<char>| #[trigger] fresh(items, seen).contains(x) <==> items.contains(x)
            && !seen.contains(x) by {
            lemma_push_contains(front, last, x);
            assert(front.push(last) =~= items);
            lemma_push_contains(rest, last, x);
            assert(rest.contains(x) <==> front.contains(x) && !seen.contains(x));
        }
        assert(rest.contains(last) <==> front.contains(last) && !seen.contains(last));
        if !(seen.contains(last) || front.contains(last)) {
            let all = rest.push(last);
            assert forall|i: int, j: int| 0 <= i < all.len() && 0 <= j < all.len() && i != j implies
                all[i] != all[j] by {
                if i < rest.len() && j == rest.len() {
                    assert(rest.contains(rest[i]));
                }
                if j < rest.len() && i == rest.len() {
                    assert(rest.contains(rest[j]));
                }
            }
        }
    }
}

/// Going through one list and then another is going through both of them, one after the other.
pub proof fn law_fresh_in_turn(a: Seq<Seq<char>>, b: Seq<Seq<char>>, seen: Set<Seq<char>>)
    ensures
        fresh(a + b, seen) == fresh(a, seen) + fresh(b, met(a, seen)),
        met(a + b, seen) == met(b, met(a, seen)),
    decreases b.len(),
{
    if b.len() == 0 {
        assert(a + b =~= a);
        assert(fresh(a, seen) + fresh(b, met(a, seen)) =~= fresh(a, seen));
        assert(met(b, met(a, seen)) =~= met(a, seen));
    } else {
        let front = b.drop_last();
        let last = b.last();
        law_fresh_in_turn(a, front, seen);
        assert(a + b =~= (a + front).push(last));
        assert(front.push(last) =~= b);
        lemma_met_push(a + front, seen, last);
        lemma_met_push(front, met(a, seen), last);
        assert(fresh(a + b, seen) =~= fresh(a, seen) + fresh(b, met(a, seen)));
    }
}

/// Going through a list a second time gives nothing.
pub proof fn law_fresh_again(items: Seq<Seq<char>>, seen: Set<Seq<char>>)
    ensures
        fresh(items, met(items, seen)).len() == 0,
{
    let again = fresh(items, met(items, seen));
    law_fresh(items, met(items, seen));
    if again.len() > 0 {
        assert(again.contains(again[0]));
        assert(items.to_set().contains(again[0]));
    }
}

/// A list without repetitions, none of whose texts was met before, is kept whole.
pub proof fn law_fresh_whole(items: Seq<Seq<char>>, seen: Set<Seq<char>>)
    requires
        items.no_duplicates(),
        forall|x: Seq<char>| #[trigger] items.contains(x) ==> !seen.contains(x),
    ensures
        fresh(items, seen) == items,
    decreases items.len(),
{
    if items.len() > 0 {
        let front = items.drop_last();
        let last = items.last();
        assert(items.contains(last));
        assert(!front.contains(last)) by {
            if front.contains(last) {
                let j = choose|j: int| 0 <= j < front.len() && front[j] == last;
                assert(items[j] == items[items.len() - 1]);
            }
        }
        assert forall|x: Seq<char>| #[trigger] front.contains(x) implies !seen.contains(x) by {
            lemma_push_contains(front, last, x);
            assert(front.push(last) =~= items);
            assert(items.contains(x));
        }
        law_fresh_whole(front, seen);
        assert(front.push(last) =~= items);
    }
}

} // verus!
