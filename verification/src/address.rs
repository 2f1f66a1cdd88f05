//! Destinations: IP addresses, their textual form, and socket addresses.
//!
//! An address arrives as text. IPv4 is four decimal octets joined by dots,
//! none written with a leading zero. IPv6 is up to eight hexadecimal groups
//! joined by colons, where one run of zero groups may be written `::` and the
//! last two groups may be written as an IPv4 address.

use vstd::prelude::*;
use vstd::string::StringSliceAdditionalSpecFns;
use crate::error::ScpiError;

verus! {

/// An IP address, by its octets (IPv4) or its 16-bit groups (IPv6), most
/// significant first.
#[derive(Clone, Copy, Debug, PartialEq, Eq, Structural)]
pub enum IpAddress {
    V4(u8, u8, u8, u8),
    V6(u16, u16, u16, u16, u16, u16, u16, u16),
}

/// An IP address together with a port.
#[derive(Clone, Copy, Debug, PartialEq, Eq, Structural)]
pub struct SocketAddress {
    pub ip: IpAddress,
    pub port: u16,
}

/// The byte `.`.
pub const DOT: u8 = 46;

/// The byte `:`.
pub const COLON: u8 = 58;

/// Whether `b` is one of `0` to `9`.
pub open spec fn is_decimal_digit(b: u8) -> bool {
    48 <= b <= 57
}

/// The value of a hexadecimal digit in either case; `None` for any other byte.
pub open spec fn hex_digit(b: u8) -> Option<nat> {
    if 48 <= b <= 57 {
        Some((b - 48) as nat)
    } else if 65 <= b <= 70 {
        Some((b - 55) as nat)
    } else if 97 <= b <= 102 {
        Some((b - 87) as nat)
    } else {
        None
    }
}

/// The number that the digits `t` spell in base ten.
pub open spec fn decimal_value(t: Seq<u8>) -> nat
    decreases t.len(),
{
    if t.len() == 0 {
        0
    } else {
        decimal_value(t.drop_last()) * 10 + (t.last() - 48) as nat
    }
}

/// The number that the digits `t` spell in base sixteen.
pub open spec fn hex_value(t: Seq<u8>) -> nat
    decreases t.len(),
{
    if t.len() == 0 {
        0
    } else {
        hex_value(t.drop_last()) * 16 + hex_digit(t.last()).unwrap_or(0)
    }
}

/// The octet that `t` spells: one to three decimal digits, no leading zero
/// before another digit, at most 255.
pub open spec fn octet_of(t: Seq<u8>) -> Option<u8> {
    if 1 <= t.len() <= 3 && (forall|i: int| 0 <= i < t.len() ==> is_decimal_digit(#[trigger] t[i]))
        && (t.len() > 1 ==> t[0] != 48) && decimal_value(t) <= 255 {
        Some(decimal_value(t) as u8)
    } else {
        None
    }
}

/// The group that `t` spells: one to four hexadecimal digits.
pub open spec fn group_of(t: Seq<u8>) -> Option<u16> {
    if 1 <= t.len() <= 4 && (forall|i: int| 0 <= i < t.len() ==> hex_digit(#[trigger] t[i]) is Some) {
        Some(hex_value(t) as u16)
    } else {
        None
    }
}

/// The position of the first `b` in `s`, or the length of `s` if it holds none.
pub open spec fn first_index_of(s: Seq<u8>, b: u8) -> int
    decreases s.len(),
{
    if s.len() == 0 || s[0] == b {
        0
    } else {
        1 + first_index_of(s.drop_first(), b)
    }
}

/// The stretches of `s` between occurrences of `sep`. There is always one
/// more stretch than there are separators, so the empty text has one (empty)
/// field.
pub open spec fn fields(s: Seq<u8>, sep: u8) -> Seq<Seq<u8>>
    decreases s.len(),
{
    let i = first_index_of(s, sep);
    if 0 <= i < s.len() {
        seq![s.take(i)] + fields(s.skip(i + 1), sep)
    } else {
        seq![s]
    }
}

/// The IPv4 address that `s` spells, if it spells one: exactly four fields
/// between dots, each an octet.
pub open spec fn ipv4_of(s: Seq<u8>) -> Option<(u8, u8, u8, u8)> {
    let f = fields(s, DOT);
    if f.len() == 4 && octet_of(f[0]) is Some && octet_of(f[1]) is Some && octet_of(f[2]) is Some
        && octet_of(f[3]) is Some {
        Some((octet_of(f[0])->0, octet_of(f[1])->0, octet_of(f[2])->0, octet_of(f[3])->0))
    } else {
        None
    }
}

/// Two octets as one 16-bit group.
pub open spec fn pair(high: u8, low: u8) -> u16 {
    (high * 256 + low) as u16
}

/// The groups that the fields `f` spell one by one, if each spells one.
pub open spec fn groups_of_fields(f: Seq<Seq<u8>>) -> Option<Seq<u16>>
    decreases f.len(),
{
    if f.len() == 0 {
        Some(Seq::<u16>::empty())
    } else {
        match (groups_of_fields(f.drop_last()), group_of(f.last())) {
            (Some(front), Some(g)) => Some(front.push(g)),
            _ => None,
        }
    }
}

/// The groups that a colon-separated stretch of an IPv6 address spells. The
/// empty stretch spells no groups. With `embedded`, the last field may be an
/// IPv4 address, which stands for two groups.
pub open spec fn groups_of(t: Seq<u8>, embedded: bool) -> Option<Seq<u16>> {
    if t.len() == 0 {
        Some(Seq::<u16>::empty())
    } else {
        let f = fields(t, COLON);
        match groups_of_fields(f) {
            Some(groups) => Some(groups),
            None => match (groups_of_fields(f.drop_last()), ipv4_of(f.last())) {
                (Some(front), Some((a, b, c, d))) if embedded => Some(
                    front.push(pair(a, b)).push(pair(c, d)),
                ),
                _ => None,
            },
        }
    }
}

/// The position of the first `::` in `s`, if there is one.
pub open spec fn first_gap(s: Seq<u8>) -> Option<int>
    decreases s.len(),
{
    if s.len() < 2 {
        None
    } else if s[0] == COLON && s[1] == COLON {
        Some(0)
    } else {
        match first_gap(s.drop_first()) {
            Some(i) => Some(i + 1),
            None => None,
        }
    }
}

/// `n` zero groups.
pub open spec fn zero_groups(n: int) -> Seq<u16> {
    Seq::new(n as nat, |i: int| 0u16)
}

/// The eight groups of the IPv6 address that `s` spells, if it spells one.
/// Without `::` the text must spell all eight. With `::`, the text before it
/// spells the leading groups, the text after it the trailing ones, and the
/// gap stands for the zero groups between them, of which there is at least
/// one. An embedded IPv4 address can only close the address.
pub open spec fn ipv6_of(s: Seq<u8>) -> Option<Seq<u16>> {
    match first_gap(s) {
        None => match groups_of(s, true) {
            Some(groups) if groups.len() == 8 => Some(groups),
            _ => None,
        },
        Some(k) => match (groups_of(s.take(k), false), groups_of(s.skip(k + 2), true)) {
            (Some(head), Some(tail)) if head.len() + tail.len() <= 7 => Some(
                head + zero_groups(8 - head.len() - tail.len()) + tail,
            ),
            _ => None,
        },
    }
}

/// The address that the text `s` spells, if it spells one.
pub open spec fn address_of(s: Seq<u8>) -> Option<IpAddress> {
    match ipv4_of(s) {
        Some((a, b, c, d)) => Some(IpAddress::V4(a, b, c, d)),
        None => match ipv6_of(s) {
            Some(g) => Some(IpAddress::V6(g[0], g[1], g[2], g[3], g[4], g[5], g[6], g[7])),
            None => None,
        },
    }
}

/// Pins down `first_index_of`: it is the position before which no `b` occurs
/// and at which one does, or the end.
proof fn lemma_first_index_of(s: Seq<u8>, b: u8, i: int)
    requires
        0 <= i <= s.len(),
        forall|k: int| 0 <= k < i ==> #[trigger] s[k] != b,
        i < s.len() ==> s[i] == b,
    ensures
        first_index_of(s, b) == i,
    decreases i,
{
    if i > 0 {
        let rest = s.drop_first();
        assert forall|k: int| 0 <= k < i - 1 implies #[trigger] rest[k] != b by {
            assert(rest[k] == s[k + 1]);
        }
        lemma_first_index_of(rest, b, i - 1);
    }
}

/// Reads the octet written in `bytes[lo..hi]`.
fn parse_octet(bytes: &[u8], lo: usize, hi: usize) -> (octet: Option<u8>)
    requires
        lo <= hi <= bytes@.len(),
    ensures
        octet == octet_of(bytes@.subrange(lo as int, hi as int)),
{
    let ghost t = bytes@.subrange(lo as int, hi as int);
    if hi - lo < 1 || hi - lo > 3 {
        return None;
    }
    let mut value: u16 = 0;
    let mut i: usize = lo;
    while i < hi
        invariant
            lo <= i <= hi <= bytes@.len(),
            hi - lo <= 3,
            t == bytes@.subrange(lo as int, hi as int),
            forall|k: int| 0 <= k < i - lo ==> is_decimal_digit(#[trigger] t[k]),
            value == decimal_value(t.take(i - lo)),
            value <= 999,
            i - lo == 0 ==> value == 0,
            i - lo == 1 ==> value <= 9,
            i - lo == 2 ==> value <= 99,
        decreases hi - i,
    {
        let b: u8 = bytes[i];
        assert(b == t[i - lo]);
        if b < 48 || b > 57 {
            return None;
        }
        proof {
            let next = t.take(i - lo + 1);
            assert(next.drop_last() =~= t.take(i - lo));
            assert(next.last() == b);
        }
        value = value * 10 + (b - 48) as u16;
        i = i + 1;
    }
    assert(t.take(hi - lo) =~= t);
    if hi - lo > 1 && bytes[lo] == 48 {
        assert(t[0] == 48);
        return None;
    }
    if value > 255 {
        return None;
    }
    Some(value as u8)
}

/// Reads one hexadecimal digit.
fn parse_hex_digit(b: u8) -> (digit: Option<u16>)
    ensures
        match hex_digit(b) {
            Some(v) => digit == Some(v as u16) && v < 16,
            None => digit is None,
        },
{
    if 48 <= b && b <= 57 {
        Some((b - 48) as u16)
    } else if 65 <= b && b <= 70 {
        Some((b - 55) as u16)
    } else if 97 <= b && b <= 102 {
        Some((b - 87) as u16)
    } else {
        None
    }
}

/// Reads the group written in `bytes[lo..hi]`.
fn parse_group(bytes: &[u8], lo: usize, hi: usize) -> (group: Option<u16>)
    requires
        lo <= hi <= bytes@.len(),
    ensures
        group == group_of(bytes@.subrange(lo as int, hi as int)),
{
    let ghost t = bytes@.subrange(lo as int, hi as int);
    if hi - lo < 1 || hi - lo > 4 {
        return None;
    }
    let mut value: u32 = 0;
    let mut i: usize = lo;
    while i < hi
        invariant
            lo <= i <= hi <= bytes@.len(),
            hi - lo <= 4,
            t == bytes@.subrange(lo as int, hi as int),
            forall|k: int| 0 <= k < i - lo ==> hex_digit(#[trigger] t[k]) is Some,
            value == hex_value(t.take(i - lo)),
            i - lo == 0 ==> value == 0,
            i - lo == 1 ==> value <= 0xf,
            i - lo == 2 ==> value <= 0xff,
            i - lo == 3 ==> value <= 0xfff,
            i - lo == 4 ==> value <= 0xffff,
        decreases hi - i,
    {
        let b: u8 = bytes[i];
        assert(b == t[i - lo]);
        let digit: u16 = match parse_hex_digit(b) {
            Some(d) => d,
            None => {
                return None;
            },
        };
        proof {
            let next = t.take(i - lo + 1);
            assert(next.drop_last() =~= t.take(i - lo));
            assert(next.last() == b);
        }
        value = value * 16 + digit as u32;
        i = i + 1;
    }
    assert(t.take(hi - lo) =~= t);
    Some(value as u16)
}

/// The texts that the ranges cut out of `s`.
spec fn cut(s: Seq<u8>, ranges: Seq<(usize, usize)>) -> Seq<Seq<u8>> {
    Seq::new(ranges.len(), |i: int| s.subrange(ranges[i].0 as int, ranges[i].1 as int))
}

/// Whether every range lies inside `lo..hi`.
spec fn ranges_within(ranges: Seq<(usize, usize)>, lo: int, hi: int) -> bool {
    forall|i: int| 0 <= i < ranges.len() ==> lo <= (#[trigger] ranges[i]).0 <= ranges[i].1 <= hi
}

/// Finds the fields of `bytes[lo..hi]`, as ranges of positions.
fn split_fields(bytes: &[u8], lo: usize, hi: usize, sep: u8) -> (ranges: Vec<(usize, usize)>)
    requires
        lo <= hi <= bytes@.len(),
    ensures
        ranges_within(ranges@, lo as int, hi as int),
        cut(bytes@, ranges@) == fields(bytes@.subrange(lo as int, hi as int), sep),
        ranges@.len() >= 1,
{
    let ghost whole = bytes@.subrange(lo as int, hi as int);
    let mut ranges: Vec<(usize, usize)> = Vec::new();
    let mut start: usize = lo;
    let mut i: usize = lo;
    while i < hi
        invariant
            lo <= start <= i <= hi <= bytes@.len(),
            whole == bytes@.subrange(lo as int, hi as int),
            forall|k: int| start <= k < i ==> #[trigger] bytes@[k] != sep,
            ranges_within(ranges@, lo as int, hi as int),
            fields(whole, sep) == cut(bytes@, ranges@) + fields(
                bytes@.subrange(start as int, hi as int),
                sep,
            ),
        decreases hi - i,
    {
        if bytes[i] == sep {
            proof {
                let rest = bytes@.subrange(start as int, hi as int);
                assert forall|k: int| 0 <= k < i - start implies #[trigger] rest[k] != sep by {
                    assert(rest[k] == bytes@[start + k]);
                }
                lemma_first_index_of(rest, sep, i - start);
                assert(rest.take(i - start) =~= bytes@.subrange(start as int, i as int));
                assert(rest.skip(i - start + 1) =~= bytes@.subrange(i + 1, hi as int));
                assert(cut(bytes@, ranges@.push((start, i))) =~= cut(bytes@, ranges@) + seq![
                    bytes@.subrange(start as int, i as int),
                ]);
            }
            ranges.push((start, i));
            start = i + 1;
        }
        i = i + 1;
    }
    proof {
        let rest = bytes@.subrange(start as int, hi as int);
        assert forall|k: int| 0 <= k < rest.len() implies #[trigger] rest[k] != sep by {
            assert(rest[k] == bytes@[start + k]);
        }
        lemma_first_index_of(rest, sep, rest.len() as int);
        assert(cut(bytes@, ranges@.push((start, hi))) =~= cut(bytes@, ranges@) + seq![rest]);
    }
    ranges.push((start, hi));
    ranges
}

/// Reads the IPv4 address written in `bytes[lo..hi]`.
fn parse_ipv4(bytes: &[u8], lo: usize, hi: usize) -> (quad: Option<(u8, u8, u8, u8)>)
    requires
        lo <= hi <= bytes@.len(),
    ensures
        quad == ipv4_of(bytes@.subrange(lo as int, hi as int)),
{
    let ranges = split_fields(bytes, lo, hi, DOT);
    if ranges.len() != 4 {
        return None;
    }
    let ghost f = fields(bytes@.subrange(lo as int, hi as int), DOT);
    assert(f[0] == bytes@.subrange(ranges@[0].0 as int, ranges@[0].1 as int));
    assert(f[1] == bytes@.subrange(ranges@[1].0 as int, ranges@[1].1 as int));
    assert(f[2] == bytes@.subrange(ranges@[2].0 as int, ranges@[2].1 as int));
    assert(f[3] == bytes@.subrange(ranges@[3].0 as int, ranges@[3].1 as int));
    let a: u8 = match parse_octet(bytes, ranges[0].0, ranges[0].1) {
        Some(v) => v,
        None => {
            return None;
        },
    };
    let b: u8 = match parse_octet(bytes, ranges[1].0, ranges[1].1) {
        Some(v) => v,
        None => {
            return None;
        },
    };
    let c: u8 = match parse_octet(bytes, ranges[2].0, ranges[2].1) {
        Some(v) => v,
        None => {
            return None;
        },
    };
    let d: u8 = match parse_octet(bytes, ranges[3].0, ranges[3].1) {
        Some(v) => v,
        None => {
            return None;
        },
    };
    Some((a, b, c, d))
}

/// If the fields spell groups, so does every run of them from the start.
proof fn lemma_groups_of_prefix(f: Seq<Seq<u8>>, k: int)
    requires
        0 <= k <= f.len(),
        groups_of_fields(f) is Some,
    ensures
        groups_of_fields(f.take(k)) is Some,
    decreases f.len(),
{
    if k == f.len() {
        assert(f.take(k) =~= f);
    } else {
        lemma_groups_of_prefix(f.drop_last(), k);
        assert(f.drop_last().take(k) =~= f.take(k));
    }
}

/// Joins two octets into one group.
fn join_octets(high: u8, low: u8) -> (group: u16)
    ensures
        group == pair(high, low),
{
    (high as u16) * 256 + low as u16
}

/// Reads the groups written in `bytes[lo..hi]`.
fn parse_groups(bytes: &[u8], lo: usize, hi: usize, embedded: bool) -> (groups: Option<Vec<u16>>)
    requires
        lo <= hi <= bytes@.len(),
    ensures
        match groups_of(bytes@.subrange(lo as int, hi as int), embedded) {
            Some(g) => groups is Some && groups->0@ == g,
            None => groups is None,
        },
{
    let mut groups: Vec<u16> = Vec::new();
    if lo == hi {
        return Some(groups);
    }
    let ranges = split_fields(bytes, lo, hi, COLON);
    let ghost f = fields(bytes@.subrange(lo as int, hi as int), COLON);
    let last: usize = ranges.len() - 1;
    let mut k: usize = 0;
    while k < last
        invariant
            k <= last,
            last == ranges@.len() - 1,
            f == cut(bytes@, ranges@),
            f == fields(bytes@.subrange(lo as int, hi as int), COLON),
            ranges_within(ranges@, lo as int, hi as int),
            lo < hi <= bytes@.len(),
            groups_of_fields(f.take(k as int)) == Some(groups@),
        decreases last - k,
    {
        let (from, to) = ranges[k];
        assert(f[k as int] == bytes@.subrange(from as int, to as int));
        proof {
            assert(f.take(k + 1).drop_last() =~= f.take(k as int));
            assert(f.take(k + 1).last() == f[k as int]);
        }
        match parse_group(bytes, from, to) {
            Some(g) => {
                groups.push(g);
            },
            None => {
                proof {
                    assert(groups_of_fields(f.take(k + 1)) is None);
                    if groups_of_fields(f.drop_last()) is Some {
                        lemma_groups_of_prefix(f.drop_last(), k + 1);
                        assert(f.drop_last().take(k + 1) =~= f.take(k + 1));
                    }
                    if groups_of_fields(f) is Some {
                        lemma_groups_of_prefix(f, k + 1);
                    }
                }
                return None;
            },
        }
        k = k + 1;
    }
    let (from, to) = ranges[last];
    assert(f.last() == bytes@.subrange(from as int, to as int));
    assert(f.take(last as int) =~= f.drop_last());
    match parse_group(bytes, from, to) {
        Some(g) => {
            groups.push(g);
            Some(groups)
        },
        None => {
            if !embedded {
                return None;
            }
            match parse_ipv4(bytes, from, to) {
                Some((a, b, c, d)) => {
                    groups.push(join_octets(a, b));
                    groups.push(join_octets(c, d));
                    Some(groups)
                },
                None => None,
            }
        },
    }
}

/// Whether `::` starts at position `i` of `s`.
spec fn gap_at(s: Seq<u8>, i: int) -> bool {
    0 <= i && i + 1 < s.len() && s[i] == COLON && s[i + 1] == COLON
}

/// Pins down `first_gap`: it is the first position at which `::` starts.
proof fn lemma_first_gap(s: Seq<u8>, i: int)
    requires
        0 <= i <= s.len(),
        forall|k: int| 0 <= k < i ==> !gap_at(s, k),
        gap_at(s, i) || i + 1 >= s.len(),
    ensures
        first_gap(s) == if gap_at(s, i) {
            Some(i)
        } else {
            None
        },
    decreases s.len(),
{
    if s.len() < 2 {
    } else if s[0] == COLON && s[1] == COLON {
        assert(gap_at(s, 0));
    } else {
        let rest = s.drop_first();
        assert forall|k: int| 0 <= k < i - 1 implies !gap_at(rest, k) by {
            assert(!gap_at(s, k + 1));
            assert(rest[k] == s[k + 1]);
            if k + 1 < rest.len() {
                assert(rest[k + 1] == s[k + 2]);
            }
        }
        if i == 0 {
            assert(!gap_at(s, 0));
            assert(s.len() <= 1);
        } else {
            if i + 1 < s.len() {
                assert(rest[i - 1] == s[i]);
                assert(rest[i] == s[i + 1]);
            }
            lemma_first_gap(rest, i - 1);
        }
    }
}

/// Finds the first `::`.
fn find_gap(bytes: &[u8]) -> (gap: Option<usize>)
    ensures
        match first_gap(bytes@) {
            Some(i) => gap == Some(i as usize) && 0 <= i && i + 2 <= bytes@.len(),
            None => gap is None,
        },
{
    let n: usize = bytes.len();
    if n < 2 {
        proof {
            lemma_first_gap(bytes@, 0);
        }
        return None;
    }
    let mut i: usize = 0;
    while i < n - 1
        invariant
            n == bytes@.len(),
            n >= 2,
            i <= n - 1,
            forall|k: int| 0 <= k < i ==> !gap_at(bytes@, k),
        decreases n - i,
    {
        if bytes[i] == COLON && bytes[i + 1] == COLON {
            proof {
                lemma_first_gap(bytes@, i as int);
            }
            return Some(i);
        }
        i = i + 1;
    }
    proof {
        lemma_first_gap(bytes@, i as int);
    }
    None
}

/// Packs eight groups into an address.
fn address_from_groups(g: &Vec<u16>) -> (address: IpAddress)
    requires
        g@.len() == 8,
    ensures
        address == IpAddress::V6(g@[0], g@[1], g@[2], g@[3], g@[4], g@[5], g@[6], g@[7]),
{
    IpAddress::V6(g[0], g[1], g[2], g[3], g[4], g[5], g[6], g[7])
}

/// Reads the IPv6 address written in `bytes`.
fn parse_ipv6(bytes: &[u8]) -> (groups: Option<Vec<u16>>)
    ensures
        match ipv6_of(bytes@) {
            Some(g) => groups is Some && groups->0@ == g && g.len() == 8,
            None => groups is None,
        },
{
    let n: usize = bytes.len();
    match find_gap(bytes) {
        None => {
            assert(bytes@.subrange(0, n as int) =~= bytes@);
            match parse_groups(bytes, 0, n, true) {
                Some(groups) => {
                    if groups.len() == 8 {
                        Some(groups)
                    } else {
                        None
                    }
                },
                None => None,
            }
        },
        Some(k) => {
            assert(bytes@.subrange(0, k as int) =~= bytes@.take(k as int));
            assert(bytes@.subrange(k + 2, n as int) =~= bytes@.skip(k + 2));
            let head: Vec<u16> = match parse_groups(bytes, 0, k, false) {
                Some(groups) => groups,
                None => {
                    return None;
                },
            };
            let tail: Vec<u16> = match parse_groups(bytes, k + 2, n, true) {
                Some(groups) => groups,
                None => {
                    return None;
                },
            };
            if head.len() > 7 || tail.len() > 7 - head.len() {
                return None;
            }
            let zeros: usize = 8 - head.len() - tail.len();
            let ghost front = head@;
            let mut groups: Vec<u16> = head;
            let mut z: usize = 0;
            while z < zeros
                invariant
                    z <= zeros,
                    groups@ == front + zero_groups(z as int),
                decreases zeros - z,
            {
                groups.push(0u16);
                z = z + 1;
                assert(groups@ =~= front + zero_groups(z as int));
            }
            let mut j: usize = 0;
            while j < tail.len()
                invariant
                    j <= tail@.len(),
                    groups@ == front + zero_groups(zeros as int) + tail@.take(j as int),
                decreases tail@.len() - j,
            {
                groups.push(tail[j]);
                j = j + 1;
                assert(groups@ =~= front + zero_groups(zeros as int) + tail@.take(j as int));
            }
            assert(tail@.take(j as int) =~= tail@);
            Some(groups)
        },
    }
}

/// Reads an address from its text, given as bytes.
pub fn parse_address(text: &[u8]) -> (address: Option<IpAddress>)
    ensures
        address == address_of(text@),
{
    let n: usize = text.len();
    assert(text@.subrange(0, n as int) =~= text@);
    match parse_ipv4(text, 0, n) {
        Some((a, b, c, d)) => Some(IpAddress::V4(a, b, c, d)),
        None => match parse_ipv6(text) {
            Some(groups) => Some(address_from_groups(&groups)),
            None => None,
        },
    }
}

impl IpAddress {
    /// Reads an address from its text. Text that spells neither an IPv4 nor
    /// an IPv6 address is refused.
    pub fn new(address: &str) -> (result: Result<IpAddress, ScpiError>)
        ensures
            match address_of(address.spec_bytes()) {
                Some(a) => result == Ok::<IpAddress, ScpiError>(a),
                None => result == Err::<IpAddress, ScpiError>(ScpiError::AddressParse),
            },
    {
        match parse_address(address.as_bytes()) {
            Some(a) => Ok(a),
            None => Err(ScpiError::AddressParse),
        }
    }

    /// Whether this is an IPv4 address.
    pub fn is_ipv4(&self) -> (v4: bool)
        ensures
            v4 == (*self is V4),
    {
        match self {
            IpAddress::V4(..) => true,
            IpAddress::V6(..) => false,
        }
    }
}

impl SocketAddress {
    /// Pairs an address with a port.
    pub fn new(ip: IpAddress, port: u16) -> (address: SocketAddress)
        ensures
            address == (SocketAddress { ip, port }),
    {
        SocketAddress { ip, port }
    }
}

} // verus!
