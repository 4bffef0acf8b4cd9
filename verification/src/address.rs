//! Reading IP addresses as the host of a URL holds them.

use crate::cut::{find, joined, law_joined_pieces, law_pieces_joined, pieces, position, split};
use crate::decimal::{decimal, digit_char, lemma_decimal_digits};
use crate::text::{chars_of, slices};
use vstd::prelude::*;
use vstd::slice::slice_subrange;

verus! {

// ---------------------------------------------------------------------------------------------
// Numbers
// ---------------------------------------------------------------------------------------------

/// The value of a digit, letters of lower case among them; sixteen where it is none.
pub open spec fn digit_value(c: char) -> nat {
    if '0' <= c <= '9' {
        (c as int - '0' as int) as nat
    } else if 'a' <= c <= 'f' {
        (c as int - 'a' as int + 10) as nat
    } else {
        16
    }
}

/// The value of some digits to a base; nothing where one of them is no digit of it.
pub open spec fn numeral(s: Seq<char>, base: nat) -> Option<nat>
    decreases s.len(),
{
    if s.len() == 0 {
        Some(0)
    } else {
        match numeral(s.drop_last(), base) {
            Some(v) => if digit_value(s.last()) < base {
                Some(v * base + digit_value(s.last()))
            } else {
                None
            },
            None => None,
        }
    }
}

/// The value of a number in an address: hexadecimal after `0x`, octal after `0`, else decimal.
pub open spec fn number(s: Seq<char>) -> Option<nat> {
    if s.len() == 0 {
        None
    } else if s.len() >= 2 && s[0] == '0' && s[1] == 'x' {
        numeral(s.skip(2), 16)
    } else if s.len() >= 2 && s[0] == '0' {
        numeral(s.skip(1), 8)
    } else {
        numeral(s, 10)
    }
}

fn value_of(c: char) -> (r: u64)
    ensures
        r == digit_value(c),
        r <= 16,
{
    if '0' <= c && c <= '9' {
        c as u64 - 48
    } else if 'a' <= c && c <= 'f' {
        c as u64 - 87
    } else {
        16
    }
}

/// Digits that have no value have none with more behind them.
proof fn lemma_no_numeral(s: Seq<char>, base: nat, i: int)
    requires
        0 <= i <= s.len(),
        numeral(s.take(i), base) is None,
    ensures
        numeral(s, base) is None,
    decreases s.len() - i,
{
    if i == s.len() {
        assert(s.take(i) =~= s);
    } else {
        assert(s.take(i + 1).drop_last() =~= s.take(i));
        lemma_no_numeral(s, base, i + 1);
    }
}

/// The value of some digits, where it fits in thirty-two bits.
fn parse_numeral(s: &[char], base: u64) -> (r: Option<u32>)
    requires
        base == 8 || base == 10 || base == 16,
    ensures
        match r {
            Some(v) => numeral(s@, base as nat) == Some(v as nat),
            None => !(numeral(s@, base as nat) matches Some(v) && v < 0x1_0000_0000),
        },
{
    let mut value: u64 = 0;
    let mut large = false;
    let mut i: usize = 0;
    while i < s.len()
        invariant
            i <= s@.len(),
            base == 8 || base == 10 || base == 16,
            numeral(s@.take(i as int), base as nat) matches Some(v) && (if large {
                v >= 0x1_0000_0000
            } else {
                v == value && value < 0x1_0000_0000
            }),
        decreases s@.len() - i,
    {
        let d = value_of(s[i]);
        assert(s@.take(i + 1).drop_last() =~= s@.take(i as int));
        if d >= base {
            proof {
                lemma_no_numeral(s@, base as nat, i + 1);
            }
            return None;
        }
        let ghost v = numeral(s@.take(i as int), base as nat)->0;
        assert(v * 8 + d >= v && v * 10 + d >= v && v * 16 + d >= v);
        if !large {
            assert(value * base <= 0x1_0000_0000 * 16) by (nonlinear_arith)
                requires
                    value < 0x1_0000_0000,
                    base <= 16,
            ;
            value = value * base + d;
            if value >= 0x1_0000_0000 {
                large = true;
            }
        }
        i += 1;
    }
    assert(s@.take(i as int) =~= s@);
    if large {
        None
    } else {
        Some(value as u32)
    }
}

fn parse_number(s: &[char]) -> (r: Option<u32>)
    ensures
        match r {
            Some(v) => number(s@) == Some(v as nat),
            None => !(number(s@) matches Some(v) && v < 0x1_0000_0000),
        },
{
    let n: usize = s.len();
    if n == 0 {
        None
    } else if n >= 2 && s[0] == '0' && s[1] == 'x' {
        parse_numeral(slice_subrange(s, 2, n), 16)
    } else if n >= 2 && s[0] == '0' {
        parse_numeral(slice_subrange(s, 1, n), 8)
    } else {
        parse_numeral(s, 10)
    }
}

// ---------------------------------------------------------------------------------------------
// IPv4
// ---------------------------------------------------------------------------------------------

/// A number below a bound, where it is one.
pub open spec fn below(v: Option<nat>, bound: nat) -> Option<nat> {
    match v {
        Some(n) => if n < bound {
            Some(n)
        } else {
            None
        },
        None => None,
    }
}

/// The IPv4 address that a text writes, as a number of thirty-two bits: one to four numbers with
/// dots between them, the last of which fills the bytes that are left.
pub open spec fn ipv4_address(s: Seq<char>) -> Option<nat> {
    let p = pieces(s, '.');
    if p.len() == 1 {
        below(number(p[0]), 0x1_0000_0000)
    } else if p.len() == 2 {
        match (below(number(p[0]), 256), below(number(p[1]), 0x100_0000)) {
            (Some(a), Some(b)) => Some(a * 0x100_0000 + b),
            _ => None,
        }
    } else if p.len() == 3 {
        match (
            below(number(p[0]), 256),
            below(number(p[1]), 256),
            below(number(p[2]), 0x1_0000),
        ) {
            (Some(a), Some(b), Some(c)) => Some(a * 0x100_0000 + b * 0x1_0000 + c),
            _ => None,
        }
    } else if p.len() == 4 {
        match (
            below(number(p[0]), 256),
            below(number(p[1]), 256),
            below(number(p[2]), 256),
            below(number(p[3]), 256),
        ) {
            (Some(a), Some(b), Some(c), Some(d)) => Some(
                a * 0x100_0000 + b * 0x1_0000 + c * 0x100 + d,
            ),
            _ => None,
        }
    } else {
        None
    }
}

/// Reads an IPv4 address, in any writing that a URL may hold.
pub fn parse_ipv4(s: &[char]) -> (r: Option<u32>)
    ensures
        match r {
            Some(v) => ipv4_address(s@) == Some(v as nat),
            None => ipv4_address(s@) is None,
        },
{
    let parts = split(s, '.');
    let ghost list = slices(parts@);
    let n: usize = parts.len();
    assert(forall|i: int| 0 <= i < n ==> #[trigger] list[i] == parts@[i]@);
    if n < 1 || n > 4 {
        return None;
    }
    let last: u32 = match parse_number(parts[n - 1]) {
        Some(v) => v,
        None => return None,
    };
    if n == 1 {
        return Some(last);
    }
    let a: u32 = match parse_number(parts[0]) {
        Some(v) => v,
        None => return None,
    };
    if a > 255 {
        return None;
    }
    if n == 2 {
        return if last < 0x100_0000 {
            Some(a * 0x100_0000 + last)
        } else {
            None
        };
    }
    let b: u32 = match parse_number(parts[1]) {
        Some(v) => v,
        None => return None,
    };
    if b > 255 {
        return None;
    }
    if n == 3 {
        return if last < 0x1_0000 {
            Some(a * 0x100_0000 + b * 0x1_0000 + last)
        } else {
            None
        };
    }
    let c: u32 = match parse_number(parts[2]) {
        Some(v) => v,
        None => return None,
    };
    if c > 255 || last > 255 {
        return None;
    }
    Some(a * 0x100_0000 + b * 0x1_0000 + c * 0x100 + last)
}

/// The IPv4 addresses of private networks, of the host itself and of the local link, by their
/// first two bytes.
pub open spec fn private_ipv4(a: nat, b: nat) -> bool {
    ||| a == 10
    ||| a == 172 && 16 <= b <= 31
    ||| a == 192 && b == 168
    ||| a == 127
    ||| a == 169 && b == 254
}

/// The IPv4 addresses that nothing is fetched from: those of [`private_ipv4`], and the one that is
/// all zeros.
pub open spec fn refused_ipv4(v: nat) -> bool {
    v == 0 || private_ipv4(v / 0x100_0000, v / 0x1_0000 % 256)
}

/// Tells whether nothing is fetched from an IPv4 address.
pub(crate) fn is_refused_ipv4(v: u32) -> (r: bool)
    ensures
        r == refused_ipv4(v as nat),
{
    let a: u32 = v / 0x100_0000;
    let b: u32 = v / 0x1_0000 % 256;
    v == 0 || a == 10 || (a == 172 && 16 <= b && b <= 31) || (a == 192 && b == 168) || a == 127 || (
    a == 169 && b == 254)
}

// ---------------------------------------------------------------------------------------------
// IPv6
// ---------------------------------------------------------------------------------------------

/// A group of an IPv6 address: one to four hexadecimal digits.
pub open spec fn hex_group(s: Seq<char>) -> Option<nat> {
    if 1 <= s.len() <= 4 {
        numeral(s, 16)
    } else {
        None
    }
}

/// The groups of some texts, where each is one.
pub open spec fn hex_groups(parts: Seq<Seq<char>>) -> Option<Seq<nat>>
    decreases parts.len(),
{
    if parts.len() == 0 {
        Some(seq![])
    } else {
        match (hex_groups(parts.drop_last()), hex_group(parts.last())) {
            (Some(g), Some(v)) => Some(g.push(v)),
            _ => None,
        }
    }
}

/// A byte in decimal, without leading zeros.
pub open spec fn octet(s: Seq<char>) -> Option<nat> {
    if s.len() == 0 || s.len() > 1 && s[0] == '0' {
        None
    } else {
        below(numeral(s, 10), 256)
    }
}

/// The two groups that an IPv4 address at the end of an IPv6 address stands for.
pub open spec fn quad(s: Seq<char>) -> Option<(nat, nat)> {
    let p = pieces(s, '.');
    if p.len() == 4 {
        match (octet(p[0]), octet(p[1]), octet(p[2]), octet(p[3])) {
            (Some(a), Some(b), Some(c), Some(d)) => Some((a * 256 + b, c * 256 + d)),
            _ => None,
        }
    } else {
        None
    }
}

/// The groups on one side of a `::`, or of an address without one. Where it is the end of the
/// address, an IPv4 address may stand for the last two.
pub open spec fn side_groups(s: Seq<char>, end: bool) -> Option<Seq<nat>> {
    if s.len() == 0 {
        Some(seq![])
    } else {
        let p = pieces(s, ':');
        match quad(p.last()) {
            Some((x, y)) => match hex_groups(p.drop_last()) {
                Some(g) => if end {
                    Some(g.push(x).push(y))
                } else {
                    None
                },
                None => None,
            },
            None => hex_groups(p),
        }
    }
}

/// Some groups that are zero.
pub open spec fn zeros(n: int) -> Seq<nat> {
    Seq::new(n as nat, |i: int| 0nat)
}

/// The eight groups of the IPv6 address that a text writes. A `::` stands for one or more groups
/// that are zero.
pub open spec fn ipv6_address(s: Seq<char>) -> Option<Seq<nat>> {
    match position(s, "::"@) {
        Some(i) => match (side_groups(s.take(i), false), side_groups(s.skip(i + 2), true)) {
            (Some(a), Some(b)) => if a.len() + b.len() <= 7 {
                Some(a + zeros(8 - a.len() - b.len()) + b)
            } else {
                None
            },
            _ => None,
        },
        None => match side_groups(s, true) {
            Some(g) => if g.len() == 8 {
                Some(g)
            } else {
                None
            },
            None => None,
        },
    }
}

/// Groups as numbers.
pub open spec fn values(v: Seq<u16>) -> Seq<nat> {
    v.map_values(|x: u16| x as nat)
}

proof fn lemma_group_bound(s: Seq<char>)
    requires
        s.len() <= 4,
    ensures
        numeral(s, 16) matches Some(v) ==> v < 65536,
{
    reveal_with_fuel(numeral, 5);
}

fn parse_group(s: &[char]) -> (r: Option<u16>)
    ensures
        match r {
            Some(v) => hex_group(s@) == Some(v as nat),
            None => hex_group(s@) is None,
        },
{
    if s.len() < 1 || s.len() > 4 {
        return None;
    }
    proof {
        lemma_group_bound(s@);
    }
    match parse_numeral(s, 16) {
        Some(v) => Some(v as u16),
        None => None,
    }
}

/// Texts that are not all groups are not with more behind them.
proof fn lemma_no_groups(parts: Seq<Seq<char>>, i: int)
    requires
        0 <= i <= parts.len(),
        hex_groups(parts.take(i)) is None,
    ensures
        hex_groups(parts) is None,
    decreases parts.len() - i,
{
    if i == parts.len() {
        assert(parts.take(i) =~= parts);
    } else {
        assert(parts.take(i + 1).drop_last() =~= parts.take(i));
        lemma_no_groups(parts, i + 1);
    }
}

/// Reads the first `n` of some groups.
fn parse_groups(parts: &Vec<&[char]>, n: usize) -> (r: Option<Vec<u16>>)
    requires
        n <= parts@.len(),
    ensures
        match r {
            Some(g) => hex_groups(slices(parts@).take(n as int)) == Some(values(g@)),
            None => hex_groups(slices(parts@).take(n as int)) is None,
        },
{
    let ghost list = slices(parts@).take(n as int);
    let mut out: Vec<u16> = Vec::new();
    let mut i: usize = 0;
    assert(values(out@) =~= seq![]);
    assert(list.take(0) =~= seq![]);
    while i < n
        invariant
            i <= n <= parts@.len(),
            list == slices(parts@).take(n as int),
            hex_groups(list.take(i as int)) == Some(values(out@)),
        decreases n - i,
    {
        assert(list.take(i + 1).drop_last() =~= list.take(i as int));
        assert(list.take(i + 1).last() == parts@[i as int]@);
        match parse_group(parts[i]) {
            Some(v) => {
                let ghost before_out = out@;
                out.push(v);
                assert(values(out@) =~= values(before_out).push(v as nat));
            },
            None => {
                proof {
                    lemma_no_groups(list, i + 1);
                }
                return None;
            },
        }
        i += 1;
    }
    assert(list.take(i as int) =~= list);
    Some(out)
}

fn parse_octet(s: &[char]) -> (r: Option<u16>)
    ensures
        match r {
            Some(v) => octet(s@) == Some(v as nat) && v < 256,
            None => octet(s@) is None,
        },
{
    if s.len() < 1 || (s.len() > 1 && s[0] == '0') {
        return None;
    }
    match parse_numeral(s, 10) {
        Some(v) => if v < 256 {
            Some(v as u16)
        } else {
            None
        },
        None => None,
    }
}

fn parse_quad(s: &[char]) -> (r: Option<(u16, u16)>)
    ensures
        match r {
            Some((x, y)) => quad(s@) == Some((x as nat, y as nat)),
            None => quad(s@) is None,
        },
{
    let parts = split(s, '.');
    let ghost list = slices(parts@);
    if parts.len() != 4 {
        return None;
    }
    assert(list[0] == parts@[0]@ && list[1] == parts@[1]@ && list[2] == parts@[2]@ && list[3]
        == parts@[3]@);
    let octets = (
        parse_octet(parts[0]),
        parse_octet(parts[1]),
        parse_octet(parts[2]),
        parse_octet(parts[3]),
    );
    match octets {
        (Some(a), Some(b), Some(c), Some(d)) => Some((a * 256 + b, c * 256 + d)),
        _ => None,
    }
}

fn parse_side(s: &[char], end: bool) -> (r: Option<Vec<u16>>)
    ensures
        match r {
            Some(g) => side_groups(s@, end) == Some(values(g@)),
            None => side_groups(s@, end) is None,
        },
{
    if s.len() == 0 {
        let none: Vec<u16> = Vec::new();
        assert(values(none@) =~= seq![]);
        return Some(none);
    }
    let parts = split(s, ':');
    let ghost list = slices(parts@);
    proof {
        law_joined_pieces(s@, ':');
    }
    let n: usize = parts.len();
    assert(list.last() == parts@[n - 1]@);
    match parse_quad(parts[n - 1]) {
        Some((x, y)) => {
            assert(list.take(n - 1) =~= list.drop_last());
            match parse_groups(&parts, n - 1) {
                Some(mut g) => {
                    if !end {
                        return None;
                    }
                    let ghost start = g@;
                    g.push(x);
                    g.push(y);
                    assert(values(g@) =~= values(start).push(x as nat).push(y as nat));
                    Some(g)
                },
                None => None,
            }
        },
        None => {
            assert(list.take(n as int) =~= list);
            parse_groups(&parts, n)
        },
    }
}

/// Reads an IPv6 address.
pub fn parse_ipv6(s: &[char]) -> (r: Option<Vec<u16>>)
    ensures
        match r {
            Some(g) => ipv6_address(s@) == Some(values(g@)),
            None => ipv6_address(s@) is None,
        },
{
    let mark = chars_of("::");
    proof {
        reveal_strlit("::");
        assert("::"@.len() == 2);
    }
    let n: usize = s.len();
    match find(s, mark.as_slice()) {
        Some(i) => {
            let before_mark = slice_subrange(s, 0, i);
            let after_mark = slice_subrange(s, i + 2, n);
            assert(before_mark@ =~= s@.take(i as int));
            assert(after_mark@ =~= s@.skip(i + 2));
            match (parse_side(before_mark, false), parse_side(after_mark, true)) {
                (Some(a), Some(b)) => {
                    if a.len() > 7 || b.len() > 7 - a.len() {
                        return None;
                    }
                    Some(fill(a, b))
                },
                _ => None,
            }
        },
        None => match parse_side(s, true) {
            Some(g) => if g.len() == 8 {
                Some(g)
            } else {
                None
            },
            None => None,
        },
    }
}

/// Puts groups that are zero between the groups on both sides of a `::`.
fn fill(a: Vec<u16>, b: Vec<u16>) -> (r: Vec<u16>)
    requires
        a@.len() + b@.len() <= 7,
    ensures
        values(r@) == values(a@) + zeros(8 - a@.len() - b@.len()) + values(b@),
{
    let mut out = a;
    let count: usize = b.len();
    while out.len() < 8 - count
        invariant
            count == b@.len(),
            a@.len() + count <= 7,
            a@.len() <= out@.len() <= 8 - count,
            values(out@) == values(a@) + zeros(out@.len() - a@.len()),
        decreases 8 - out@.len(),
    {
        let ghost before_out = out@;
        out.push(0);
        assert(values(out@) =~= values(before_out).push(0));
        assert(values(out@) =~= values(a@) + zeros(out@.len() - a@.len()));
    }
    let ghost front = values(out@);
    let mut i: usize = 0;
    assert(values(out@) =~= front + values(b@).take(0));
    while i < b.len()
        invariant
            i <= b@.len(),
            values(out@) == front + values(b@).take(i as int),
        decreases b@.len() - i,
    {
        let ghost before_out = out@;
        out.push(b[i]);
        assert(values(out@) =~= values(before_out).push(b@[i as int] as nat));
        i += 1;
        assert(values(out@) =~= front + values(b@).take(i as int));
    }
    assert(values(b@).take(i as int) =~= values(b@));
    out
}

/// The IPv6 addresses of the local link, by their first group.
pub open spec fn link_local(g: Seq<nat>) -> bool {
    0xfe80 <= g[0] <= 0xfebf
}

/// The IPv6 addresses of private networks, by their first group.
pub open spec fn unique_local(g: Seq<nat>) -> bool {
    0xfc00 <= g[0] <= 0xfdff
}

/// The IPv6 addresses that nothing is fetched from: those of the local link and of private
/// networks, the loopback address, the one that is all zeros, and those that stand for an IPv4
/// address of [`refused_ipv4`].
pub open spec fn refused_ipv6(g: Seq<nat>) -> bool {
    ||| link_local(g)
    ||| unique_local(g)
    ||| g[0] == 0 && g[1] == 0 && g[2] == 0 && g[3] == 0 && g[4] == 0 && g[5] == 0 && g[6] == 0
        && g[7] <= 1
    ||| g[0] == 0 && g[1] == 0 && g[2] == 0 && g[3] == 0 && g[4] == 0 && g[5] == 0xffff
        && refused_ipv4(g[6] * 0x1_0000 + g[7])
}

/// Tells whether nothing is fetched from an IPv6 address.
pub(crate) fn is_refused_ipv6(g: &Vec<u16>) -> (r: bool)
    requires
        g@.len() == 8,
    ensures
        r == refused_ipv6(values(g@)),
{
    let first: u16 = g[0];
    if (0xfe80 <= first && first <= 0xfebf) || (0xfc00 <= first && first <= 0xfdff) {
        return true;
    }
    if first != 0 || g[1] != 0 || g[2] != 0 || g[3] != 0 || g[4] != 0 {
        return false;
    }
    if g[5] == 0 {
        return g[6] == 0 && g[7] <= 1;
    }
    g[5] == 0xffff && is_refused_ipv4(g[6] as u32 * 0x1_0000 + g[7] as u32)
}

// ---------------------------------------------------------------------------------------------
// Laws
// ---------------------------------------------------------------------------------------------

/// An IPv6 address has eight groups.
pub proof fn law_eight_groups(s: Seq<char>)
    ensures
        ipv6_address(s) matches Some(g) ==> g.len() == 8,
{
}

/// The dotted text of an IPv4 address, in decimal.
pub open spec fn dotted(a: u8, b: u8, c: u8, d: u8) -> Seq<char> {
    decimal(a as nat) + seq!['.'] + decimal(b as nat) + seq!['.'] + decimal(c as nat) + seq!['.']
        + decimal(d as nat)
}

proof fn lemma_decimal_number(n: nat)
    requires
        n < 1000,
    ensures
        number(decimal(n)) == Some(n),
{
    reveal_with_fuel(decimal, 4);
    reveal_with_fuel(numeral, 4);
    let s = decimal(n);
    if n < 10 {
        assert(s =~= seq![digit_char(n)]);
        assert(s.drop_last() =~= seq![]);
    } else if n < 100 {
        assert(s =~= seq![digit_char(n / 10), digit_char(n % 10)]);
        assert(s.drop_last() =~= seq![digit_char(n / 10)]);
        assert(s.drop_last().drop_last() =~= seq![]);
    } else {
        assert(n / 10 / 10 == n / 100);
        assert(s =~= seq![digit_char(n / 100), digit_char(n / 10 % 10), digit_char(n % 10)]);
        assert(s.drop_last() =~= seq![digit_char(n / 100), digit_char(n / 10 % 10)]);
        assert(s.drop_last().drop_last() =~= seq![digit_char(n / 100)]);
        assert(s.drop_last().drop_last().drop_last() =~= seq![]);
    }
}

/// The dotted text of an address is read as the address.
pub proof fn law_dotted(a: u8, b: u8, c: u8, d: u8)
    ensures
        ipv4_address(dotted(a, b, c, d)) == Some(
            (a * 0x100_0000 + b * 0x1_0000 + c * 0x100 + d) as nat,
        ),
{
    let parts = seq![decimal(a as nat), decimal(b as nat), decimal(c as nat), decimal(d as nat)];
    reveal_with_fuel(joined, 5);
    assert(parts.drop_last() =~= seq![decimal(a as nat), decimal(b as nat), decimal(c as nat)]);
    assert(parts.drop_last().drop_last() =~= seq![decimal(a as nat), decimal(b as nat)]);
    assert(parts.drop_last().drop_last().drop_last() =~= seq![decimal(a as nat)]);
    assert(joined(parts, '.') =~= dotted(a, b, c, d));
    lemma_decimal_digits(a as nat);
    lemma_decimal_digits(b as nat);
    lemma_decimal_digits(c as nat);
    lemma_decimal_digits(d as nat);
    assert forall|i: int| 0 <= i < parts.len() implies !(#[trigger] parts[i]).contains('.') by {}
    law_pieces_joined(parts, '.');
    lemma_decimal_number(a as nat);
    lemma_decimal_number(b as nat);
    lemma_decimal_number(c as nat);
    lemma_decimal_number(d as nat);
}

} // verus!
