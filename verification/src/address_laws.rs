//! Which texts are addresses, and of what.

use crate::address::{
    digit_value, dotted, hex_group, hex_groups, ipv4_address, ipv6_address, number, numeral, octet,
    quad, side_groups,
};
use crate::cut::{
    joined, law_pieces_joined, lemma_cut_none, lemma_joined_cons, lemma_position, lemma_position_is,
    occurs_at, position,
};
use crate::decimal::{decimal, digit_char, signed_decimal};
use crate::link_laws::lemma_join_lacks;
use vstd::prelude::*;

verus! {

// ---------------------------------------------------------------------------------------------
// Numbers
// ---------------------------------------------------------------------------------------------

/// A number in base eight.
pub open spec fn octal(n: nat) -> Seq<char>
    decreases n,
{
    if n < 8 {
        seq![hex_letter(n)]
    } else {
        octal(n / 8).push(hex_letter(n % 8))
    }
}

/// A number in base sixteen.
pub open spec fn hexadecimal(n: nat) -> Seq<char>
    decreases n,
{
    if n < 16 {
        seq![hex_letter(n)]
    } else {
        hexadecimal(n / 16).push(hex_letter(n % 16))
    }
}

/// The digit of a value under sixteen.
pub open spec fn hex_letter(v: nat) -> char {
    "0123456789abcdef"@[v as int]
}

proof fn lemma_letters(v: nat)
    requires
        v < 16,
    ensures
        digit_value(hex_letter(v)) == v,
        hex_letter(v) != '.' && hex_letter(v) != ':' && hex_letter(v) != 'x',
        v < 10 ==> hex_letter(v) == digit_char(v),
        v > 0 ==> hex_letter(v) != '0',
{
    reveal_strlit("0123456789abcdef");
    let s = "0123456789abcdef"@;
    assert(s[0] == '0' && s[1] == '1' && s[2] == '2' && s[3] == '3' && s[4] == '4');
    assert(s[5] == '5' && s[6] == '6' && s[7] == '7' && s[8] == '8' && s[9] == '9');
    assert(s[10] == 'a' && s[11] == 'b' && s[12] == 'c' && s[13] == 'd' && s[14] == 'e');
    assert(s[15] == 'f');
}

proof fn lemma_octal(n: nat)
    ensures
        numeral(octal(n), 8) == Some(n),
        octal(n).len() > 0,
        octal(n)[0] != 'x',
        !octal(n).contains('.'),
    decreases n,
{
    lemma_letters(n % 8);
    if n < 8 {
        assert(octal(n).drop_last() =~= seq![]);
        reveal_with_fuel(numeral, 2);
    } else {
        let front = octal(n / 8);
        lemma_octal(n / 8);
        assert(octal(n).drop_last() =~= front);
        assert forall|i: int| 0 <= i < octal(n).len() implies octal(n)[i] != '.' by {
            if i < front.len() {
                assert(octal(n)[i] == front[i]);
            }
        }
    }
}

proof fn lemma_hexadecimal(n: nat)
    ensures
        numeral(hexadecimal(n), 16) == Some(n),
        hexadecimal(n).len() > 0,
        !hexadecimal(n).contains('.'),
        !hexadecimal(n).contains(':'),
    decreases n,
{
    lemma_letters(n % 16);
    if n < 16 {
        assert(hexadecimal(n).drop_last() =~= seq![]);
        reveal_with_fuel(numeral, 2);
    } else {
        let front = hexadecimal(n / 16);
        lemma_hexadecimal(n / 16);
        assert(hexadecimal(n).drop_last() =~= front);
        assert forall|i: int| 0 <= i < hexadecimal(n).len() implies hexadecimal(n)[i] != '.'
            && hexadecimal(n)[i] != ':' by {
            if i < front.len() {
                assert(hexadecimal(n)[i] == front[i]);
            }
        }
    }
}

proof fn lemma_decimal(n: nat)
    ensures
        numeral(decimal(n), 10) == Some(n),
        decimal(n).len() > 0,
        n > 0 ==> decimal(n)[0] != '0',
        n < 10 ==> decimal(n).len() == 1,
        !decimal(n).contains('.'),
        !decimal(n).contains(':'),
    decreases n,
{
    lemma_letters(n % 10);
    if n < 10 {
        assert(decimal(n).drop_last() =~= seq![]);
        reveal_with_fuel(numeral, 2);
    } else {
        let front = decimal(n / 10);
        lemma_decimal(n / 10);
        assert(decimal(n).drop_last() =~= front);
        assert(decimal(n)[0] == front[0]);
        assert forall|i: int| 0 <= i < decimal(n).len() implies decimal(n)[i] != '.'
            && decimal(n)[i] != ':' by {
            if i < front.len() {
                assert(decimal(n)[i] == front[i]);
            }
        }
    }
}

/// A text writes a number: in base ten, in base eight behind a zero, or in base sixteen behind
/// `0x`.
pub open spec fn writes(s: Seq<char>, n: nat) -> bool {
    s == decimal(n) || s == seq!['0'] + octal(n) || s == seq!['0', 'x'] + hexadecimal(n)
}

/// A number is read in each of the three writings.
pub proof fn law_number(s: Seq<char>, n: nat)
    requires
        writes(s, n),
    ensures
        number(s) == Some(n),
        !s.contains('.'),
{
    if s == decimal(n) {
        lemma_decimal(n);
    } else if s == seq!['0'] + octal(n) {
        lemma_octal(n);
        assert(s.skip(1) =~= octal(n));
        assert forall|i: int| 0 <= i < s.len() implies s[i] != '.' by {
            if i > 0 {
                assert(s[i] == octal(n)[i - 1]);
            }
        }
    } else {
        lemma_hexadecimal(n);
        assert(s.skip(2) =~= hexadecimal(n));
        assert forall|i: int| 0 <= i < s.len() implies s[i] != '.' by {
            if i > 1 {
                assert(s[i] == hexadecimal(n)[i - 2]);
            }
        }
    }
}

// ---------------------------------------------------------------------------------------------
// IPv4
// ---------------------------------------------------------------------------------------------

/// The address that one to four numbers stand for: the last fills what the others leave.
pub open spec fn address_of(v: Seq<nat>) -> Option<nat> {
    if v.len() == 1 && v[0] < 0x1_0000_0000 {
        Some(v[0])
    } else if v.len() == 2 && v[0] < 256 && v[1] < 0x100_0000 {
        Some(v[0] * 0x100_0000 + v[1])
    } else if v.len() == 3 && v[0] < 256 && v[1] < 256 && v[2] < 0x1_0000 {
        Some(v[0] * 0x100_0000 + v[1] * 0x1_0000 + v[2])
    } else if v.len() == 4 && v[0] < 256 && v[1] < 256 && v[2] < 256 && v[3] < 256 {
        Some(v[0] * 0x100_0000 + v[1] * 0x1_0000 + v[2] * 0x100 + v[3])
    } else {
        None
    }
}

/// An IPv4 address is read in every writing: of one to four numbers with dots between them, each in
/// base ten, eight or sixteen.
pub proof fn law_ipv4_writings(parts: Seq<Seq<char>>, v: Seq<nat>)
    requires
        parts.len() == v.len() > 0,
        forall|i: int| 0 <= i < v.len() ==> writes(#[trigger] parts[i], v[i]),
    ensures
        ipv4_address(joined(parts, '.')) == address_of(v),
{
    assert forall|i: int| 0 <= i < parts.len() implies !(#[trigger] parts[i]).contains('.')
        && number(parts[i]) == Some(v[i]) by {
        law_number(parts[i], v[i]);
    }
    law_pieces_joined(parts, '.');
    assert(forall|i: int| 0 <= i < parts.len() ==> number(#[trigger] parts[i]) == Some(v[i]));
}

// ---------------------------------------------------------------------------------------------
// IPv6
// ---------------------------------------------------------------------------------------------

/// Groups of sixteen bits.
pub open spec fn groups(g: Seq<nat>) -> bool {
    forall|i: int| 0 <= i < g.len() ==> #[trigger] g[i] < 0x1_0000
}

/// Groups as texts.
pub open spec fn group_texts(g: Seq<nat>) -> Seq<Seq<char>> {
    g.map_values(|v: nat| hexadecimal(v))
}

/// Groups as a text, with colons between them.
pub open spec fn groups_text(g: Seq<nat>) -> Seq<char> {
    joined(group_texts(g), ':')
}

proof fn lemma_group_text(v: nat)
    requires
        v < 0x1_0000,
    ensures
        hex_group(hexadecimal(v)) == Some(v),
        quad(hexadecimal(v)) is None,
{
    lemma_hexadecimal(v);
    reveal_with_fuel(hexadecimal, 5);
    assert(hexadecimal(v).len() <= 4) by {
        assert(v / 16 < 0x1000);
        assert(v / 16 / 16 < 0x100);
        assert(v / 16 / 16 / 16 < 0x10);
    }
    lemma_cut_none(hexadecimal(v), '.');
}

proof fn lemma_group_texts(g: Seq<nat>)
    requires
        groups(g),
    ensures
        hex_groups(group_texts(g)) == Some(g),
    decreases g.len(),
{
    if g.len() == 0 {
        assert(group_texts(g) =~= seq![]);
        assert(g =~= seq![]);
    } else {
        let front = g.drop_last();
        assert forall|i: int| 0 <= i < front.len() implies #[trigger] front[i] < 0x1_0000 by {
            assert(front[i] == g[i]);
        }
        lemma_group_texts(front);
        assert(group_texts(g).drop_last() =~= group_texts(front));
        assert(g.last() == g[g.len() - 1]);
        lemma_group_text(g.last());
        assert(front.push(g.last()) =~= g);
    }
}

/// Texts that are not empty and hold no colon.
spec fn colon_free(parts: Seq<Seq<char>>) -> bool {
    forall|i: int|
        0 <= i < parts.len() ==> (#[trigger] parts[i]).len() > 0 && !parts[i].contains(':')
}

proof fn lemma_no_double(parts: Seq<Seq<char>>)
    requires
        parts.len() > 0,
        colon_free(parts),
    ensures
        ({
            let s = joined(parts, ':');
            &&& forall|i: int| 0 <= i < s.len() - 1 ==> !(#[trigger] s[i] == ':' && s[i + 1] == ':')
            &&& s.len() > 0
            &&& s[0] != ':'
            &&& s.last() != ':'
        }),
    decreases parts.len(),
{
    let s = joined(parts, ':');
    let p = parts[0];
    assert(p.len() > 0 && !p.contains(':'));
    assert(p.contains(p[0]) && p.contains(p[p.len() - 1]));
    if parts.len() > 1 {
        let rest = parts.skip(1);
        assert(parts =~= seq![p] + rest);
        assert(colon_free(rest)) by {
            assert forall|i: int| 0 <= i < rest.len() implies (#[trigger] rest[i]).len() > 0
                && !rest[i].contains(':') by {
                assert(rest[i] == parts[i + 1]);
            }
        }
        lemma_no_double(rest);
        lemma_joined_cons(p, rest, ':');
        let more = joined(rest, ':');
        assert(s.last() == more.last());
        assert forall|i: int| 0 <= i < s.len() - 1 implies !(#[trigger] s[i] == ':' && s[i + 1]
            == ':') by {
            if i < p.len() {
                assert(p.contains(p[i]));
                assert(s[i] == p[i]);
            } else if i == p.len() {
                assert(s[i + 1] == more[0]);
            } else {
                let k = i - p.len() - 1;
                assert(s[i] == more[k] && s[i + 1] == more[k + 1]);
            }
        }
    } else {
        assert(s == p);
        assert forall|i: int| 0 <= i < s.len() - 1 implies !(#[trigger] s[i] == ':' && s[i + 1]
            == ':') by {
            assert(p.contains(p[i]));
        }
    }
}

proof fn lemma_colon_free(g: Seq<nat>)
    ensures
        colon_free(group_texts(g)),
{
    let parts = group_texts(g);
    assert forall|i: int| 0 <= i < parts.len() implies (#[trigger] parts[i]).len() > 0
        && !parts[i].contains(':') by {
        lemma_hexadecimal(g[i]);
    }
}

/// What the groups on one side of an address are.
proof fn lemma_side(g: Seq<nat>, end: bool)
    requires
        groups(g),
    ensures
        side_groups(groups_text(g), end) == Some(g),
{
    let parts = group_texts(g);
    if g.len() == 0 {
        assert(groups_text(g) =~= seq![]);
        assert(g =~= seq![]);
    } else {
        lemma_colon_free(g);
        lemma_no_double(parts);
        law_pieces_joined(parts, ':');
        lemma_group_texts(g);
        assert(parts.last() == hexadecimal(g[g.len() - 1]));
        lemma_group_text(g[g.len() - 1]);
    }
}

/// The same of groups with an IPv4 address behind them.
proof fn lemma_side_dotted(g: Seq<nat>, a: u8, b: u8, c: u8, d: u8)
    requires
        groups(g),
    ensures
        side_groups(joined(group_texts(g).push(dotted(a, b, c, d)), ':'), true) == Some(
            g.push((a * 256 + b) as nat).push((c * 256 + d) as nat),
        ),
        colon_free(group_texts(g).push(dotted(a, b, c, d))),
{
    let last = dotted(a, b, c, d);
    let parts = group_texts(g).push(last);
    lemma_colon_free(g);
    lemma_quad(a, b, c, d);
    assert(colon_free(parts)) by {
        assert forall|i: int| 0 <= i < parts.len() implies (#[trigger] parts[i]).len() > 0
            && !parts[i].contains(':') by {
            if i < g.len() {
                assert(parts[i] == group_texts(g)[i]);
            }
        }
    }
    lemma_no_double(parts);
    law_pieces_joined(parts, ':');
    assert(parts.drop_last() =~= group_texts(g));
    lemma_group_texts(g);
}

proof fn lemma_quad(a: u8, b: u8, c: u8, d: u8)
    ensures
        quad(dotted(a, b, c, d)) == Some(((a * 256 + b) as nat, (c * 256 + d) as nat)),
        dotted(a, b, c, d).len() > 0,
        !dotted(a, b, c, d).contains(':'),
{
    let w = decimal(a as nat);
    let x = decimal(b as nat);
    let y = decimal(c as nat);
    let z = decimal(d as nat);
    lemma_decimal(a as nat);
    lemma_decimal(b as nat);
    lemma_decimal(c as nat);
    lemma_decimal(d as nat);
    let parts = seq![w, x, y, z];
    assert(joined(parts, '.') =~= dotted(a, b, c, d)) by {
        assert(parts.drop_last() =~= seq![w, x, y]);
        assert(seq![w, x, y].drop_last() =~= seq![w, x]);
        assert(seq![w, x].drop_last() =~= seq![w]);
        reveal_with_fuel(joined, 4);
    }
    law_pieces_joined(parts, '.');
    let dot = seq!['.'];
    assert(!dot.contains(':'));
    lemma_join_lacks(w, dot, ':');
    lemma_join_lacks(w + dot, x, ':');
    lemma_join_lacks(w + dot + x, dot, ':');
    lemma_join_lacks(w + dot + x + dot, y, ':');
    lemma_join_lacks(w + dot + x + dot + y, dot, ':');
    lemma_join_lacks(w + dot + x + dot + y + dot, z, ':');
}

proof fn lemma_no_run(s: Seq<char>)
    requires
        forall|i: int| 0 <= i < s.len() - 1 ==> !(#[trigger] s[i] == ':' && s[i + 1] == ':'),
    ensures
        position(s, "::"@) is None,
{
    reveal_strlit("::");
    lemma_position(s, "::"@);
    if let Some(i) = position(s, "::"@) {
        assert(s.subrange(i, i + 2)[0] == s[i]);
        assert(s.subrange(i, i + 2)[1] == s[i + 1]);
    }
}

/// An IPv6 address of eight groups is read as these groups.
pub proof fn law_eight(g: Seq<nat>)
    requires
        g.len() == 8,
        groups(g),
    ensures
        ipv6_address(groups_text(g)) == Some(g),
{
    lemma_colon_free(g);
    lemma_no_double(group_texts(g));
    lemma_no_run(groups_text(g));
    lemma_side(g, true);
}

proof fn lemma_run(left: Seq<char>, right: Seq<char>)
    requires
        forall|i: int|
            0 <= i < left.len() - 1 ==> !(#[trigger] left[i] == ':' && left[i + 1] == ':'),
        left.len() > 0 ==> left.last() != ':',
    ensures
        position(left + "::"@ + right, "::"@) == Some(left.len() as int),
{
    reveal_strlit("::");
    let s = left + "::"@ + right;
    let n = left.len() as int;
    assert(s.subrange(n, n + 2) =~= "::"@);
    assert forall|j: int| 0 <= j < n implies !occurs_at(s, "::"@, j) by {
        if occurs_at(s, "::"@, j) {
            assert(s.subrange(j, j + 2)[0] == s[j]);
            assert(s.subrange(j, j + 2)[1] == s[j + 1]);
            assert(s[j] == left[j]);
            if j < n - 1 {
                assert(s[j + 1] == left[j + 1]);
            }
        }
    }
    lemma_position_is(s, "::"@, n);
}

proof fn lemma_groups_end(g: Seq<nat>)
    ensures
        ({
            let s = groups_text(g);
            &&& forall|i: int| 0 <= i < s.len() - 1 ==> !(#[trigger] s[i] == ':' && s[i + 1] == ':')
            &&& s.len() > 0 ==> s.last() != ':'
        }),
{
    if g.len() > 0 {
        lemma_colon_free(g);
        lemma_no_double(group_texts(g));
    }
}

/// A double colon stands for as many groups of zeros as are missing, one at least.
pub proof fn law_zeros(a: Seq<nat>, b: Seq<nat>)
    requires
        groups(a) && groups(b),
    ensures
        ipv6_address(groups_text(a) + "::"@ + groups_text(b)) == if a.len() + b.len() <= 7 {
            Some(a + Seq::new((8 - a.len() - b.len()) as nat, |i: int| 0nat) + b)
        } else {
            None
        },
{
    reveal_strlit("::");
    let left = groups_text(a);
    let right = groups_text(b);
    let s = left + "::"@ + right;
    lemma_groups_end(a);
    lemma_run(left, right);
    lemma_side(a, false);
    lemma_side(b, true);
    assert(s.take(left.len() as int) =~= left);
    assert(s.skip(left.len() as int + 2) =~= right);
}

/// The last two groups may be written as an IPv4 address.
pub proof fn law_dotted_end(g: Seq<nat>, h: Seq<nat>, a: u8, b: u8, c: u8, d: u8)
    requires
        groups(g) && groups(h),
    ensures
        ({
            let tail = h.push((a * 256 + b) as nat).push((c * 256 + d) as nat);
            let right = joined(group_texts(h).push(dotted(a, b, c, d)), ':');
            &&& h.len() == 6 ==> ipv6_address(right) == Some(tail)
            &&& ipv6_address(groups_text(g) + "::"@ + right) == if g.len() + tail.len() <= 7 {
                Some(g + Seq::new((8 - g.len() - tail.len()) as nat, |i: int| 0nat) + tail)
            } else {
                None
            }
        }),
{
    reveal_strlit("::");
    let parts = group_texts(h).push(dotted(a, b, c, d));
    let left = groups_text(g);
    let right = joined(parts, ':');
    let s = left + "::"@ + right;
    lemma_side_dotted(h, a, b, c, d);
    lemma_no_double(parts);
    lemma_no_run(right);
    lemma_groups_end(g);
    lemma_run(left, right);
    lemma_side(g, false);
    assert(s.take(left.len() as int) =~= left);
    assert(s.skip(left.len() as int + 2) =~= right);
}

/// A group has four digits at most, and a part of an IPv4 address inside an IPv6 address no zero in
/// front.
pub proof fn law_strict_parts(s: Seq<char>)
    ensures
        s.len() == 0 || s.len() > 4 ==> hex_group(s) is None,
        s.len() > 1 && s[0] == '0' ==> octet(s) is None,
        octet(s) matches Some(v) ==> v < 256 && s == decimal(v),
{
    if let Some(v) = octet(s) {
        lemma_octet_text(s, v);
    }
}

proof fn lemma_octet_text(s: Seq<char>, v: nat)
    requires
        s.len() > 0,
        s.len() > 1 ==> s[0] != '0',
        numeral(s, 10) == Some(v),
    ensures
        s == decimal(v),
    decreases s.len(),
{
    let front = s.drop_last();
    let c = s.last();
    lemma_letters(digit_value(c));
    if s.len() == 1 {
        assert(front =~= seq![]);
        assert(s =~= seq![c]);
    } else {
        let w = numeral(front, 10)->0;
        assert(front[0] == s[0]);
        lemma_octet_text(front, w);
        assert(w > 0) by {
            if w == 0 {
                assert(front == decimal(0));
            }
        }
        assert(v == w * 10 + digit_value(c));
        assert(v / 10 == w && v % 10 == digit_value(c));
        assert(s =~= front.push(c));
    }
}

/// The decimal digits of a number are those that it is read from, and a negative number has a minus
/// sign before them.
pub proof fn law_decimal(n: nat)
    ensures
        numeral(decimal(n), 10) == Some(n),
        n > 0 ==> decimal(n)[0] != '0',
        signed_decimal(n as int) == decimal(n),
        n > 0 ==> signed_decimal(-(n as int)) == seq!['-'] + decimal(n),
{
    lemma_decimal(n);
}

} // verus!
