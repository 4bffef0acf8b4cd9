//! Finding, cutting and trimming text.

use crate::text::{is_white_space, slices, white_space};
use vstd::prelude::*;
use vstd::slice::slice_subrange;

verus! {

// ---------------------------------------------------------------------------------------------
// Finding a pattern
// ---------------------------------------------------------------------------------------------

/// The pattern `p` stands in `s` at position `i`.
pub open spec fn occurs_at(s: Seq<char>, p: Seq<char>, i: int) -> bool {
    &&& 0 <= i
    &&& i + p.len() <= s.len()
    &&& s.subrange(i, i + p.len()) == p
}

/// The pattern `p` stands somewhere in `s`.
pub open spec fn occurs_in(s: Seq<char>, p: Seq<char>) -> bool {
    exists|i: int| occurs_at(s, p, i)
}

/// The pattern `p` stands in `s` at position `i` and nowhere before it.
pub open spec fn first_at(s: Seq<char>, p: Seq<char>, i: int) -> bool {
    &&& occurs_at(s, p, i)
    &&& forall|j: int| 0 <= j < i ==> !occurs_at(s, p, j)
}

/// The position at which the pattern `p` first stands in `s`.
pub open spec fn position(s: Seq<char>, p: Seq<char>) -> Option<int> {
    if occurs_in(s, p) {
        Some(choose|i: int| first_at(s, p, i))
    } else {
        None
    }
}

proof fn lemma_some_first(s: Seq<char>, p: Seq<char>, i: int)
    requires
        occurs_at(s, p, i),
    ensures
        exists|j: int| first_at(s, p, j),
    decreases i,
{
    if forall|j: int| 0 <= j < i ==> !occurs_at(s, p, j) {
        assert(first_at(s, p, i));
    } else {
        let j = choose|j: int| 0 <= j < i && occurs_at(s, p, j);
        lemma_some_first(s, p, j);
    }
}

/// What [`position`] returns is the one place where the pattern first stands.
pub proof fn lemma_position(s: Seq<char>, p: Seq<char>)
    ensures
        match position(s, p) {
            Some(i) => first_at(s, p, i) && 0 <= i && i + p.len() <= s.len(),
            None => forall|i: int| !occurs_at(s, p, i),
        },
{
    if occurs_in(s, p) {
        let i = choose|i: int| occurs_at(s, p, i);
        lemma_some_first(s, p, i);
    }
}

/// The first place where a pattern stands is its position.
pub proof fn lemma_position_is(s: Seq<char>, p: Seq<char>, i: int)
    requires
        first_at(s, p, i),
    ensures
        position(s, p) == Some(i),
{
    lemma_position(s, p);
    let k = position(s, p)->0;
    if k < i {
        assert(!occurs_at(s, p, k));
    } else if i < k {
        assert(!occurs_at(s, p, i));
    }
}

fn occurs(s: &[char], p: &[char], i: usize) -> (r: bool)
    requires
        i <= s@.len(),
    ensures
        r == occurs_at(s@, p@, i as int),
{
    let n: usize = s.len();
    if n - i < p.len() {
        return false;
    }
    let mut k: usize = 0;
    while k < p.len()
        invariant
            k <= p@.len(),
            n == s@.len(),
            i + p@.len() <= n,
            forall|j: int| 0 <= j < k ==> s@[i + j] == p@[j],
        decreases p@.len() - k,
    {
        if s[i + k] != p[k] {
            assert(s@.subrange(i as int, i + p@.len())[k as int] != p@[k as int]);
            return false;
        }
        k += 1;
    }
    assert(s@.subrange(i as int, i + p@.len()) =~= p@);
    true
}

/// The position at which a pattern first stands.
pub fn find(s: &[char], p: &[char]) -> (r: Option<usize>)
    ensures
        match r {
            Some(i) => position(s@, p@) == Some(i as int) && i + p@.len() <= s@.len(),
            None => position(s@, p@) is None,
        },
        r is Some == occurs_in(s@, p@),
{
    let mut i: usize = 0;
    while i < s.len()
        invariant
            i <= s@.len(),
            forall|j: int| 0 <= j < i ==> !occurs_at(s@, p@, j),
        decreases s@.len() - i,
    {
        if occurs(s, p, i) {
            proof {
                lemma_position_is(s@, p@, i as int);
            }
            return Some(i);
        }
        i += 1;
    }
    if occurs(s, p, i) {
        proof {
            lemma_position_is(s@, p@, i as int);
        }
        return Some(i);
    }
    None
}

/// Tells whether a pattern stands in a text.
pub fn contains(s: &[char], p: &[char]) -> (r: bool)
    ensures
        r == occurs_in(s@, p@),
{
    find(s, p).is_some()
}

/// Tells whether a text starts with a pattern.
pub fn starts_with(s: &[char], p: &[char]) -> (r: bool)
    ensures
        r == p@.is_prefix_of(s@),
{
    occurs(s, p, 0)
}

// ---------------------------------------------------------------------------------------------
// Cutting at a character
// ---------------------------------------------------------------------------------------------

/// What stands before and after the first `c` of `s`.
pub open spec fn cut(s: Seq<char>, c: char) -> Option<(Seq<char>, Seq<char>)> {
    match s.index_of_first(c) {
        Some(i) => Some((s.take(i), s.skip(i + 1))),
        None => None,
    }
}

/// What stands before and after the last `c` of `s`.
pub open spec fn cut_last(s: Seq<char>, c: char) -> Option<(Seq<char>, Seq<char>)> {
    match s.index_of_last(c) {
        Some(i) => Some((s.take(i), s.skip(i + 1))),
        None => None,
    }
}

/// What stands before the first `c` of `s`; all of `s` where there is none.
pub open spec fn before(s: Seq<char>, c: char) -> Seq<char> {
    match cut(s, c) {
        Some((a, _)) => a,
        None => s,
    }
}

/// What stands after the last `c` of `s`; all of `s` where there is none.
pub open spec fn after_last(s: Seq<char>, c: char) -> Seq<char> {
    match cut_last(s, c) {
        Some((_, b)) => b,
        None => s,
    }
}

/// The pieces of `s` between the characters `c`.
pub open spec fn pieces(s: Seq<char>, c: char) -> Seq<Seq<char>>
    decreases s.len(),
{
    match s.index_of_first(c) {
        Some(i) => {
            proof {
                s.index_of_first_ensures(c);
            }
            seq![s.take(i)] + pieces(s.skip(i + 1), c)
        },
        None => seq![s],
    }
}

/// A line without the carriage return that may end it.
pub open spec fn without_return(s: Seq<char>) -> Seq<char> {
    if s.len() > 0 && s.last() == '\r' {
        s.drop_last()
    } else {
        s
    }
}

/// The lines of `s`. A line ends at a line feed, which may follow a carriage return; what
/// stands after the last line feed is a line if it is not empty.
pub open spec fn line_list(s: Seq<char>) -> Seq<Seq<char>>
    decreases s.len(),
{
    match s.index_of_first('\n') {
        Some(i) => {
            proof {
                s.index_of_first_ensures('\n');
            }
            seq![without_return(s.take(i))] + line_list(s.skip(i + 1))
        },
        None => if s.len() == 0 {
            seq![]
        } else {
            seq![s]
        },
    }
}

/// Some texts with a character between each two.
pub open spec fn joined(parts: Seq<Seq<char>>, c: char) -> Seq<char>
    decreases parts.len(),
{
    if parts.len() == 0 {
        seq![]
    } else if parts.len() == 1 {
        parts[0]
    } else {
        joined(parts.drop_last(), c) + seq![c] + parts.last()
    }
}

/// Putting a text in front of others and joining them.
pub(crate) proof fn lemma_joined_cons(a: Seq<char>, rest: Seq<Seq<char>>, c: char)
    requires
        rest.len() > 0,
    ensures
        joined(seq![a] + rest, c) == a + seq![c] + joined(rest, c),
    decreases rest.len(),
{
    let all = seq![a] + rest;
    assert(all.drop_last() =~= seq![a] + rest.drop_last());
    assert(all.last() == rest.last());
    if rest.len() == 1 {
        assert(rest.drop_last() =~= seq![]);
        assert(all.drop_last() =~= seq![a]);
        assert(joined(all.drop_last(), c) == a);
    } else {
        lemma_joined_cons(a, rest.drop_last(), c);
        assert(a + seq![c] + joined(rest.drop_last(), c) + seq![c] + rest.last() =~= a + seq![c] + (
        joined(rest.drop_last(), c) + seq![c] + rest.last()));
    }
}

/// Joining the pieces of a text gives the text back.
pub proof fn law_joined_pieces(s: Seq<char>, c: char)
    ensures
        joined(pieces(s, c), c) == s,
        pieces(s, c).len() > 0,
    decreases s.len(),
{
    s.index_of_first_ensures(c);
    match s.index_of_first(c) {
        Some(i) => {
            let rest = s.skip(i + 1);
            law_joined_pieces(rest, c);
            lemma_joined_cons(s.take(i), pieces(rest, c), c);
            assert(s =~= s.take(i) + seq![c] + rest);
        },
        None => {},
    }
}

/// Cutting joined texts apart gives the texts back, where none of them holds the separator.
pub proof fn law_pieces_joined(parts: Seq<Seq<char>>, c: char)
    requires
        parts.len() > 0,
        forall|i: int| 0 <= i < parts.len() ==> !(#[trigger] parts[i]).contains(c),
    ensures
        pieces(joined(parts, c), c) == parts,
    decreases parts.len(),
{
    let p = parts[0];
    if parts.len() == 1 {
        lemma_cut_none(p, c);
        assert(parts =~= seq![p]);
    } else {
        let rest = parts.skip(1);
        assert(parts =~= seq![p] + rest);
        assert forall|i: int| 0 <= i < rest.len() implies !(#[trigger] rest[i]).contains(c) by {
            assert(rest[i] == parts[i + 1]);
        }
        law_pieces_joined(rest, c);
        lemma_joined_cons(p, rest, c);
        let s = joined(parts, c);
        assert forall|k: int| 0 <= k < p.len() implies s[k] != c by {
            assert(s[k] == p[k]);
            assert(p.contains(p[k]));
        }
        assert(s[p.len() as int] == c);
        lemma_first_index(s, c, p.len() as int);
        assert(s.take(p.len() as int) =~= p);
        assert(s.skip(p.len() as int + 1) =~= joined(rest, c));
    }
}

/// The position of the first `c`, where it is known.
pub proof fn lemma_first_index(s: Seq<char>, c: char, i: int)
    requires
        0 <= i < s.len(),
        s[i] == c,
        forall|j: int| 0 <= j < i ==> s[j] != c,
    ensures
        s.index_of_first(c) == Some(i),
{
    s.index_of_first_ensures(c);
    assert(s.contains(c));
}

/// The position of the last `c`, where it is known.
pub proof fn lemma_last_index(s: Seq<char>, c: char, i: int)
    requires
        0 <= i < s.len(),
        s[i] == c,
        forall|j: int| i < j < s.len() ==> s[j] != c,
    ensures
        s.index_of_last(c) == Some(i),
{
    s.index_of_last_ensures(c);
    assert(s.contains(c));
}

/// A text without `c` has no first or last `c`.
pub proof fn lemma_no_index(s: Seq<char>, c: char)
    requires
        !s.contains(c),
    ensures
        s.index_of_first(c) is None,
        s.index_of_last(c) is None,
{
    s.index_of_first_ensures(c);
    s.index_of_last_ensures(c);
}

/// Cutting at the first `c` undoes joining with `c` where the left part has none.
pub proof fn lemma_cut_join(a: Seq<char>, c: char, b: Seq<char>)
    requires
        !a.contains(c),
    ensures
        cut(a + seq![c] + b, c) == Some((a, b)),
{
    let s = a + seq![c] + b;
    assert forall|j: int| 0 <= j < a.len() implies s[j] != c by {
        assert(s[j] == a[j]);
        assert(a.contains(a[j]));
    }
    lemma_first_index(s, c, a.len() as int);
    assert(s.take(a.len() as int) =~= a);
    assert(s.skip(a.len() as int + 1) =~= b);
}

/// Cutting at the last `c` undoes joining with `c` where the right part has none.
pub proof fn lemma_cut_last_join(a: Seq<char>, c: char, b: Seq<char>)
    requires
        !b.contains(c),
    ensures
        cut_last(a + seq![c] + b, c) == Some((a, b)),
{
    let s = a + seq![c] + b;
    assert forall|j: int| a.len() < j < s.len() implies s[j] != c by {
        assert(s[j] == b[j - a.len() - 1]);
        assert(b.contains(b[j - a.len() - 1]));
    }
    lemma_last_index(s, c, a.len() as int);
    assert(s.take(a.len() as int) =~= a);
    assert(s.skip(a.len() as int + 1) =~= b);
}

/// A text without `c` cannot be cut at `c`.
pub proof fn lemma_cut_none(s: Seq<char>, c: char)
    requires
        !s.contains(c),
    ensures
        cut(s, c) is None,
        cut_last(s, c) is None,
        before(s, c) == s,
        after_last(s, c) == s,
        pieces(s, c) == seq![s],
{
    lemma_no_index(s, c);
}

/// The position of the first `c` in a slice.
fn first_index(s: &[char], c: char) -> (r: Option<usize>)
    ensures
        match r {
            Some(i) => s@.index_of_first(c) == Some(i as int) && i < s@.len(),
            None => s@.index_of_first(c) is None,
        },
{
    let mut i: usize = 0;
    while i < s.len()
        invariant
            i <= s@.len(),
            forall|j: int| 0 <= j < i ==> s@[j] != c,
        decreases s@.len() - i,
    {
        if s[i] == c {
            proof {
                lemma_first_index(s@, c, i as int);
            }
            return Some(i);
        }
        i += 1;
    }
    proof {
        lemma_no_index(s@, c);
    }
    None
}

/// The position of the last `c` in a slice.
fn last_index(s: &[char], c: char) -> (r: Option<usize>)
    ensures
        match r {
            Some(i) => s@.index_of_last(c) == Some(i as int) && i < s@.len(),
            None => s@.index_of_last(c) is None,
        },
{
    let mut i: usize = s.len();
    while i > 0
        invariant
            i <= s@.len(),
            forall|j: int| i <= j < s@.len() ==> s@[j] != c,
        decreases i,
    {
        i -= 1;
        if s[i] == c {
            proof {
                lemma_last_index(s@, c, i as int);
            }
            return Some(i);
        }
    }
    proof {
        lemma_no_index(s@, c);
    }
    None
}

/// Cuts a text at the first `c`.
pub fn split_once<'a>(s: &'a [char], c: char) -> (r: Option<(&'a [char], &'a [char])>)
    ensures
        match r {
            Some((a, b)) => cut(s@, c) == Some((a@, b@)),
            None => cut(s@, c) is None,
        },
{
    match first_index(s, c) {
        Some(i) => {
            let n: usize = s.len();
            let a = slice_subrange(s, 0, i);
            let b = slice_subrange(s, i + 1, n);
            Some((a, b))
        },
        None => None,
    }
}

/// Cuts a text at the last `c`.
pub fn rsplit_once<'a>(s: &'a [char], c: char) -> (r: Option<(&'a [char], &'a [char])>)
    ensures
        match r {
            Some((a, b)) => cut_last(s@, c) == Some((a@, b@)),
            None => cut_last(s@, c) is None,
        },
{
    match last_index(s, c) {
        Some(i) => {
            let n: usize = s.len();
            let a = slice_subrange(s, 0, i);
            let b = slice_subrange(s, i + 1, n);
            Some((a, b))
        },
        None => None,
    }
}

/// The part of a text before its first `c`.
pub fn head<'a>(s: &'a [char], c: char) -> (r: &'a [char])
    ensures
        r@ == before(s@, c),
{
    match split_once(s, c) {
        Some((a, _)) => a,
        None => s,
    }
}

/// The part of a text after its last `c`.
pub fn tail<'a>(s: &'a [char], c: char) -> (r: &'a [char])
    ensures
        r@ == after_last(s@, c),
{
    match rsplit_once(s, c) {
        Some((_, b)) => b,
        None => s,
    }
}

/// Cuts a text apart at every `c`.
pub fn split<'a>(s: &'a [char], c: char) -> (r: Vec<&'a [char]>)
    ensures
        slices(r@) == pieces(s@, c),
{
    let mut out: Vec<&'a [char]> = Vec::new();
    let mut rest: &'a [char] = s;
    loop
        invariant
            slices(out@) + pieces(rest@, c) == pieces(s@, c),
        decreases rest@.len(),
    {
        let ghost before_out = out@;
        match first_index(rest, c) {
            Some(i) => {
                let piece = slice_subrange(rest, 0, i);
                let n: usize = rest.len();
                let next = slice_subrange(rest, i + 1, n);
                out.push(piece);
                assert(slices(out@) =~= slices(before_out) + seq![rest@.take(i as int)]);
                assert(slices(out@) + pieces(next@, c) =~= slices(before_out) + pieces(rest@, c));
                rest = next;
            },
            None => {
                out.push(rest);
                assert(slices(out@) =~= slices(before_out) + seq![rest@]);
                return out;
            },
        }
    }
}

fn drop_return<'a>(s: &'a [char]) -> (r: &'a [char])
    ensures
        r@ == without_return(s@),
{
    if s.len() > 0 && s[s.len() - 1] == '\r' {
        slice_subrange(s, 0, s.len() - 1)
    } else {
        s
    }
}

/// Cuts a text into its lines.
pub fn lines<'a>(s: &'a [char]) -> (r: Vec<&'a [char]>)
    ensures
        slices(r@) == line_list(s@),
{
    let mut out: Vec<&'a [char]> = Vec::new();
    let mut rest: &'a [char] = s;
    loop
        invariant
            slices(out@) + line_list(rest@) == line_list(s@),
        decreases rest@.len(),
    {
        let ghost before_out = out@;
        match first_index(rest, '\n') {
            Some(i) => {
                let line = drop_return(slice_subrange(rest, 0, i));
                let n: usize = rest.len();
                let next = slice_subrange(rest, i + 1, n);
                out.push(line);
                assert(slices(out@) =~= slices(before_out) + seq![line@]);
                assert(slices(out@) + line_list(next@) =~= slices(before_out) + line_list(rest@));
                rest = next;
            },
            None => {
                if rest.len() > 0 {
                    out.push(rest);
                    assert(slices(out@) =~= slices(before_out) + seq![rest@]);
                } else {
                    assert(slices(out@) + line_list(rest@) =~= slices(out@));
                }
                return out;
            },
        }
    }
}

// ---------------------------------------------------------------------------------------------
// Trimming
// ---------------------------------------------------------------------------------------------

/// `s` without the characters at its start of which `f` holds.
pub open spec fn trimmed_start(s: Seq<char>, f: spec_fn(char) -> bool) -> Seq<char>
    decreases s.len(),
{
    if s.len() > 0 && f(s[0]) {
        trimmed_start(s.skip(1), f)
    } else {
        s
    }
}

/// `s` without the characters at its end of which `f` holds.
pub open spec fn trimmed_end(s: Seq<char>, f: spec_fn(char) -> bool) -> Seq<char>
    decreases s.len(),
{
    if s.len() > 0 && f(s.last()) {
        trimmed_end(s.drop_last(), f)
    } else {
        s
    }
}

/// The characters at the start of `s` up to the first of which `f` does not hold.
pub open spec fn leading(s: Seq<char>, f: spec_fn(char) -> bool) -> Seq<char>
    decreases s.len(),
{
    if s.len() > 0 && f(s[0]) {
        seq![s[0]] + leading(s.skip(1), f)
    } else {
        seq![]
    }
}

/// `s` without the white space at both ends.
pub open spec fn trimmed(s: Seq<char>) -> Seq<char> {
    trimmed_end(trimmed_start(s, |c: char| white_space(c)), |c: char| white_space(c))
}

/// Trimming takes characters away, and no other: what was not there does not appear.
pub proof fn lemma_trimmed_lacks(s: Seq<char>, f: spec_fn(char) -> bool, c: char)
    requires
        !s.contains(c),
    ensures
        !trimmed_start(s, f).contains(c),
        !trimmed_end(s, f).contains(c),
        !trimmed_end(trimmed_start(s, f), f).contains(c),
{
    lemma_trimmed_start_lacks(s, f, c);
    lemma_trimmed_end_lacks(s, f, c);
    lemma_trimmed_end_lacks(trimmed_start(s, f), f, c);
}

proof fn lemma_trimmed_start_lacks(s: Seq<char>, f: spec_fn(char) -> bool, c: char)
    requires
        !s.contains(c),
    ensures
        !trimmed_start(s, f).contains(c),
    decreases s.len(),
{
    if s.len() > 0 && f(s[0]) {
        assert forall|i: int| 0 <= i < s.skip(1).len() implies s.skip(1)[i] != c by {
            assert(s.contains(s[i + 1]));
        }
        lemma_trimmed_start_lacks(s.skip(1), f, c);
    }
}

proof fn lemma_trimmed_end_lacks(s: Seq<char>, f: spec_fn(char) -> bool, c: char)
    requires
        !s.contains(c),
    ensures
        !trimmed_end(s, f).contains(c),
    decreases s.len(),
{
    if s.len() > 0 && f(s.last()) {
        assert forall|i: int| 0 <= i < s.drop_last().len() implies s.drop_last()[i] != c by {
            assert(s.contains(s[i]));
        }
        lemma_trimmed_end_lacks(s.drop_last(), f, c);
    }
}

/// What remains at the start of a text after trimming is no character that is trimmed.
proof fn lemma_trimmed_start_first(s: Seq<char>, f: spec_fn(char) -> bool)
    ensures
        trimmed_start(s, f).len() > 0 ==> !f(trimmed_start(s, f)[0]),
    decreases s.len(),
{
    if s.len() > 0 && f(s[0]) {
        lemma_trimmed_start_first(s.skip(1), f);
    }
}

/// Trimming at the end keeps the start of a text, up to the last character that is not trimmed.
pub proof fn lemma_trimmed_end_keeps(s: Seq<char>, f: spec_fn(char) -> bool)
    ensures
        trimmed_end(s, f).is_prefix_of(s),
        trimmed_end(s, f).len() > 0 ==> !f(trimmed_end(s, f).last()),
        forall|i: int| 0 <= i < s.len() && !f(#[trigger] s[i]) ==> i < trimmed_end(s, f).len(),
    decreases s.len(),
{
    if s.len() > 0 && f(s.last()) {
        lemma_trimmed_end_keeps(s.drop_last(), f);
        assert forall|i: int| 0 <= i < s.len() && !f(#[trigger] s[i]) implies i < trimmed_end(
            s,
            f,
        ).len() by {
            assert(s.drop_last()[i] == s[i]);
        }
    }
}

/// A trimmed text has no white space at either end.
pub proof fn lemma_trimmed_ends(s: Seq<char>)
    ensures
        trimmed(s).len() > 0 ==> !white_space(trimmed(s)[0]) && !white_space(trimmed(s).last()),
{
    let f = |c: char| white_space(c);
    lemma_trimmed_start_first(s, f);
    lemma_trimmed_end_keeps(trimmed_start(s, f), f);
}

/// A text with no white space at either end is left as it is.
pub proof fn lemma_nothing_to_trim(s: Seq<char>)
    requires
        s.len() > 0 ==> !white_space(s[0]) && !white_space(s.last()),
    ensures
        trimmed(s) == s,
{
}

/// Trimming a text a second time changes nothing.
pub proof fn law_trimmed_twice(s: Seq<char>)
    ensures
        trimmed(trimmed(s)) == trimmed(s),
{
    lemma_trimmed_ends(s);
}

/// `p` is what the executable test `f` decides.
pub open spec fn decides<F: Fn(char) -> bool>(f: F, p: spec_fn(char) -> bool) -> bool {
    &&& forall|c: char| #[trigger] f.requires((c,))
    &&& forall|c: char, r: bool| #[trigger] f.ensures((c,), r) ==> r == p(c)
}

/// Removes the characters at the start of which a test holds.
pub(crate) fn trim_start_by<'a, F: Fn(char) -> bool>(
    s: &'a [char],
    f: F,
    Ghost(p): Ghost<spec_fn(char) -> bool>,
) -> (r: &'a [char])
    requires
        decides(f, p),
    ensures
        r@ == trimmed_start(s@, p),
{
    let mut cur: &'a [char] = s;
    while cur.len() > 0 && f(cur[0])
        invariant
            decides(f, p),
            trimmed_start(cur@, p) == trimmed_start(s@, p),
        decreases cur@.len(),
    {
        cur = slice_subrange(cur, 1, cur.len());
    }
    cur
}

/// Removes the characters at both ends of which a test holds.
pub(crate) fn trim_by<'a, F: Copy + Fn(char) -> bool>(
    s: &'a [char],
    f: F,
    Ghost(p): Ghost<spec_fn(char) -> bool>,
) -> (r: &'a [char])
    requires
        decides(f, p),
    ensures
        r@ == trimmed_end(trimmed_start(s@, p), p),
{
    let mut cur: &'a [char] = trim_start_by(s, f, Ghost(p));
    while cur.len() > 0 && f(cur[cur.len() - 1])
        invariant
            decides(f, p),
            trimmed_end(cur@, p) == trimmed_end(trimmed_start(s@, p), p),
        decreases cur@.len(),
    {
        cur = slice_subrange(cur, 0, cur.len() - 1);
    }
    cur
}

/// Removes the white space at both ends.
pub fn trim<'a>(s: &'a [char]) -> (r: &'a [char])
    ensures
        r@ == trimmed(s@),
{
    trim_by(s, is_white_space, Ghost(|c: char| white_space(c)))
}

/// The characters at the start of a text up to the first of which a test does not hold.
pub(crate) fn leading_by<'a, F: Fn(char) -> bool>(
    s: &'a [char],
    f: F,
    Ghost(p): Ghost<spec_fn(char) -> bool>,
) -> (r: &'a [char])
    requires
        decides(f, p),
    ensures
        r@ == leading(s@, p),
{
    let n: usize = s.len();
    let mut i: usize = 0;
    assert(s@.skip(0) =~= s@);
    assert(s@.take(0) + leading(s@, p) =~= leading(s@, p));
    while i < n && f(s[i])
        invariant
            decides(f, p),
            n == s@.len(),
            i <= n,
            leading(s@, p) == s@.take(i as int) + leading(s@.skip(i as int), p),
        decreases n - i,
    {
        assert(s@.skip(i as int).skip(1) =~= s@.skip(i + 1));
        assert(s@.take(i as int) + (seq![s@[i as int]] + leading(s@.skip(i + 1), p)) =~= s@.take(
            i + 1,
        ) + leading(s@.skip(i + 1), p));
        i += 1;
    }
    assert(s@.take(i as int) + seq![] =~= s@.take(i as int));
    slice_subrange(s, 0, i)
}

/// The characters of a text of which a test holds.
pub(crate) fn keep_by<F: Fn(char) -> bool>(
    s: &[char],
    f: F,
    Ghost(p): Ghost<spec_fn(char) -> bool>,
) -> (r: Vec<char>)
    requires
        decides(f, p),
    ensures
        r@ == s@.filter(p),
{
    let mut out: Vec<char> = Vec::new();
    let mut i: usize = 0;
    assert(s@.take(0) =~= Seq::empty());
    while i < s.len()
        invariant
            decides(f, p),
            i <= s@.len(),
            out@ == s@.take(i as int).filter(p),
        decreases s@.len() - i,
    {
        assert(s@.take(i + 1).drop_last() =~= s@.take(i as int));
        reveal(Seq::filter);
        if f(s[i]) {
            out.push(s[i]);
        }
        i += 1;
    }
    assert(s@.take(i as int) =~= s@);
    out
}

/// Tells whether a test holds of every character of a text.
pub(crate) fn all_by<F: Fn(char) -> bool>(
    s: &[char],
    f: F,
    Ghost(p): Ghost<spec_fn(char) -> bool>,
) -> (r: bool)
    requires
        decides(f, p),
    ensures
        r == s@.all(p),
{
    let mut i: usize = 0;
    while i < s.len()
        invariant
            decides(f, p),
            i <= s@.len(),
            forall|j: int| 0 <= j < i ==> p(s@[j]),
        decreases s@.len() - i,
    {
        if !f(s[i]) {
            return false;
        }
        i += 1;
    }
    true
}

} // verus!
