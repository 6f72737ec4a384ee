//! Socket addresses as plain values, and their text form.
//!
//! An IPv4 socket address is written `a.b.c.d:port`: four decimal octets
//! without leading zeros, a colon, and a decimal port. An IPv6 socket
//! address is written `[address]:port`, the address as eight hexadecimal
//! groups, of which one row may be left out as `::`, and of which the last
//! two may be written as a dotted IPv4 address. An address with a zone is
//! written `[address%zone]:port`, the zone as a decimal number.

use crate::text::{ascii_to_string, is_ascii_bytes};
use vstd::prelude::*;
use vstd::string::StringSliceAdditionalSpecFns;
use vstd::utf8::encode_utf8;

verus! {

/// An IP address and a port.
#[allow(inconsistent_fields)]
#[derive(Clone, Copy, Debug, PartialEq, Eq, Hash)]
pub enum SockAddr {
    /// An IPv4 address, as its four octets, and a port.
    V4 { ip: [u8; 4], port: u16 },
    /// An IPv6 address, as its sixteen octets, a port, and the number of
    /// the zone of the address, 0 where it has none.
    V6 { ip: [u8; 16], port: u16, scope: u32 },
}

/// The byte `.`.
pub const DOT: u8 = 46;

/// The byte `:`.
pub const COLON: u8 = 58;

/// The byte `0`.
pub const ZERO: u8 = 48;

/// `b` is a decimal digit.
pub open spec fn is_digit(b: u8) -> bool {
    48 <= b <= 57
}

/// The number of decimal digits that stand in `s` from position `at` on.
pub open spec fn digit_run(s: Seq<u8>, at: int) -> nat
    decreases s.len() - at,
{
    if 0 <= at < s.len() && is_digit(s[at]) {
        1 + digit_run(s, at + 1)
    } else {
        0
    }
}

/// The number that the digits of `s` between `from` and `to` write in base ten.
pub open spec fn digits_value(s: Seq<u8>, from: int, to: int) -> nat
    decreases to - from,
{
    if to <= from {
        0
    } else {
        digits_value(s, from, to - 1) * 10 + (s[to - 1] - 48) as nat
    }
}

/// The decimal digits of `n`, without leading zeros.
pub open spec fn decimal_text(n: nat) -> Seq<u8>
    decreases n,
{
    if n < 10 {
        seq![(48 + n) as u8]
    } else {
        decimal_text(n / 10).push((48 + n % 10) as u8)
    }
}

/// Position `at` of `s` holds the byte `b`.
pub open spec fn byte_is(s: Seq<u8>, at: int, b: u8) -> bool {
    0 <= at < s.len() && s[at] == b
}

/// The octet written at position `at` of `s`, with the position behind it:
/// one to three digits, no leading zero, at most 255.
pub open spec fn octet_at(s: Seq<u8>, at: int) -> Option<(u8, int)> {
    let n = digit_run(s, at) as int;
    let v = digits_value(s, at, at + n);
    if 1 <= n <= 3 && (n == 1 || s[at] != 48) && v <= 255 {
        Some((v as u8, at + n))
    } else {
        None
    }
}

/// The octet that follows a dot behind the octet `prev`.
pub open spec fn octet_after(s: Seq<u8>, prev: Option<(u8, int)>) -> Option<(u8, int)> {
    match prev {
        Some((_, end)) => if byte_is(s, end, DOT) {
            octet_at(s, end + 1)
        } else {
            None
        },
        None => None,
    }
}

/// The port written from position `at` to the end of `s`: one or more
/// digits, leading zeros allowed, at most 65535.
pub open spec fn port_at(s: Seq<u8>, at: int) -> Option<u16> {
    let n = digit_run(s, at) as int;
    let v = digits_value(s, at, at + n);
    if 1 <= n && at + n == s.len() && v <= 65535 {
        Some(v as u16)
    } else {
        None
    }
}

/// The IPv4 socket address that the text `s` writes, if it writes one.
pub open spec fn parse_v4_text(s: Seq<u8>) -> Option<SockAddr> {
    let f0 = octet_at(s, 0);
    let f1 = octet_after(s, f0);
    let f2 = octet_after(s, f1);
    let f3 = octet_after(s, f2);
    match (f0, f1, f2, f3) {
        (Some((a, _)), Some((b, _)), Some((c, _)), Some((d, end))) => {
            if byte_is(s, end, COLON) {
                match port_at(s, end + 1) {
                    Some(port) => Some(SockAddr::V4 { ip: [a, b, c, d], port }),
                    None => None,
                }
            } else {
                None
            }
        },
        _ => None,
    }
}

/// The dotted IPv4 address written at position `at` of `s`, with the
/// position behind it.
pub open spec fn dotted_at(s: Seq<u8>, at: int) -> Option<(u8, u8, u8, u8, int)> {
    let f0 = octet_at(s, at);
    let f1 = octet_after(s, f0);
    let f2 = octet_after(s, f1);
    let f3 = octet_after(s, f2);
    match (f0, f1, f2, f3) {
        (Some((a, _)), Some((b, _)), Some((c, _)), Some((d, end))) => Some((a, b, c, d, end)),
        _ => None,
    }
}

/// `b` is a hexadecimal digit, in either case.
pub open spec fn is_hex(b: u8) -> bool {
    48 <= b <= 57 || 97 <= b <= 102 || 65 <= b <= 70
}

/// The value of the hexadecimal digit `b`.
pub open spec fn hex_value(b: u8) -> nat {
    if 48 <= b <= 57 {
        (b - 48) as nat
    } else if 97 <= b <= 102 {
        (b - 87) as nat
    } else {
        (b - 55) as nat
    }
}

/// The number of hexadecimal digits that stand in `s` from position `at` on.
pub open spec fn hex_run(s: Seq<u8>, at: int) -> nat
    decreases s.len() - at,
{
    if 0 <= at < s.len() && is_hex(s[at]) {
        1 + hex_run(s, at + 1)
    } else {
        0
    }
}

/// The number that the hexadecimal digits of `s` between `from` and `to` write.
pub open spec fn hex_digits_value(s: Seq<u8>, from: int, to: int) -> nat
    decreases to - from,
{
    if to <= from {
        0
    } else {
        hex_digits_value(s, from, to - 1) * 16 + hex_value(s[to - 1])
    }
}

/// The group written at position `at` of `s`, with the position behind
/// it: one to four hexadecimal digits.
pub open spec fn group_at(s: Seq<u8>, at: int) -> Option<(u16, int)> {
    let n = hex_run(s, at) as int;
    if 1 <= n <= 4 {
        Some((hex_digits_value(s, at, at + n) as u16, at + n))
    } else {
        None
    }
}

/// Where group number `i` of a row starts that is read from `at` on:
/// behind a colon, but for the first group.
pub open spec fn group_start(s: Seq<u8>, at: int, i: nat) -> Option<int> {
    if i == 0 {
        Some(at)
    } else if byte_is(s, at, COLON) {
        Some(at + 1)
    } else {
        None
    }
}

/// The two groups that a dotted IPv4 address fills.
pub open spec fn v4_groups(a: u8, b: u8, c: u8, d: u8) -> Seq<u16> {
    seq![(a * 256 + b) as u16, (c * 256 + d) as u16]
}

/// The row of at most `limit` colon-separated groups that is read from
/// `at` on, group number `i` next: the groups, the position behind them,
/// and whether the row ended in a dotted IPv4 address. Such an address
/// fills two groups and ends the row.
pub open spec fn groups_from(s: Seq<u8>, at: int, i: nat, limit: nat) -> (Seq<u16>, int, bool)
    decreases limit - i,
{
    if i >= limit {
        (Seq::empty(), at, false)
    } else {
        match group_start(s, at, i) {
            None => (Seq::empty(), at, false),
            Some(start) => {
                let dotted = dotted_at(s, start);
                if i + 1 < limit && dotted.is_some() {
                    let (a, b, c, d, end) = dotted.unwrap();
                    (v4_groups(a, b, c, d), end, true)
                } else {
                    match group_at(s, start) {
                        None => (Seq::empty(), at, false),
                        Some((g, end)) => {
                            let rest = groups_from(s, end, i + 1, limit);
                            (seq![g] + rest.0, rest.1, rest.2)
                        },
                    }
                }
            },
        }
    }
}

/// The IPv6 address written at position `at` of `s`, as its eight groups,
/// with the position behind it: eight groups, or fewer with one `::` that
/// stands for the missing groups, all zero.
pub open spec fn v6_at(s: Seq<u8>, at: int) -> Option<(Seq<u16>, int)> {
    let head = groups_from(s, at, 0, 8);
    if head.0.len() == 8 {
        Some((head.0, head.1))
    } else if head.2 || !byte_is(s, head.1, COLON) || !byte_is(s, head.1 + 1, COLON) {
        None
    } else {
        let tail = groups_from(s, head.1 + 2, 0, (7 - head.0.len()) as nat);
        Some(
            (
                head.0 + Seq::new((8 - head.0.len() - tail.0.len()) as nat, |i: int| 0u16)
                    + tail.0,
                tail.1,
            ),
        )
    }
}

/// The sixteen octets of eight groups.
pub open spec fn octets_of(g: Seq<u16>) -> [u8; 16] {
    [
        (g[0] / 256) as u8,
        (g[0] % 256) as u8,
        (g[1] / 256) as u8,
        (g[1] % 256) as u8,
        (g[2] / 256) as u8,
        (g[2] % 256) as u8,
        (g[3] / 256) as u8,
        (g[3] % 256) as u8,
        (g[4] / 256) as u8,
        (g[4] % 256) as u8,
        (g[5] / 256) as u8,
        (g[5] % 256) as u8,
        (g[6] / 256) as u8,
        (g[6] % 256) as u8,
        (g[7] / 256) as u8,
        (g[7] % 256) as u8,
    ]
}

/// The zone written at position `at` of `s`, with the position behind
/// it: a percent sign and one or more digits, leading zeros allowed, at
/// most 2^32 - 1. Where no zone is written, the zone is 0 and nothing is read.
pub open spec fn scope_at(s: Seq<u8>, at: int) -> (u32, int) {
    let n = digit_run(s, at + 1) as int;
    let v = digits_value(s, at + 1, at + 1 + n);
    if byte_is(s, at, 37) && 1 <= n && v <= 0xffff_ffff {
        (v as u32, at + 1 + n)
    } else {
        (0u32, at)
    }
}

/// The IPv6 socket address that the text `s` writes, if it writes one:
/// `[address]:port` or `[address%zone]:port`.
pub open spec fn parse_v6_text(s: Seq<u8>) -> Option<SockAddr> {
    if !byte_is(s, 0, 91) {
        None
    } else {
        match v6_at(s, 1) {
            None => None,
            Some((groups, at)) => {
                let (scope, end) = scope_at(s, at);
                if byte_is(s, end, 93) && byte_is(s, end + 1, COLON) {
                    match port_at(s, end + 2) {
                        Some(port) => Some(SockAddr::V6 { ip: octets_of(groups), port, scope }),
                        None => None,
                    }
                } else {
                    None
                }
            },
        }
    }
}

/// The socket address that the text `s` writes, if it writes one.
pub open spec fn parse_text(s: Seq<u8>) -> Option<SockAddr> {
    match parse_v4_text(s) {
        Some(a) => Some(a),
        None => parse_v6_text(s),
    }
}

/// The digits read so far never write more than the whole run does.
pub proof fn lemma_digits_value_grows(s: Seq<u8>, from: int, mid: int, to: int)
    requires
        from <= mid <= to,
        forall|j: int| from <= j < to ==> is_digit(#[trigger] s[j]),
    ensures
        digits_value(s, from, mid) <= digits_value(s, from, to),
    decreases to - mid,
{
    if mid < to {
        lemma_digits_value_grows(s, from, mid, to - 1);
    }
}

/// A run of digits holds digits only, and ends before a byte that is none.
pub proof fn lemma_digit_run_digits(s: Seq<u8>, at: int)
    requires
        0 <= at <= s.len(),
    ensures
        at + digit_run(s, at) <= s.len(),
        forall|j: int| at <= j < at + digit_run(s, at) ==> is_digit(#[trigger] s[j]),
        at + digit_run(s, at) < s.len() ==> !is_digit(s[at + digit_run(s, at)]),
    decreases s.len() - at,
{
    if at < s.len() && is_digit(s[at]) {
        lemma_digit_run_digits(s, at + 1);
    }
}

/// The position behind the digits that stand in `s` from `at` on.
fn scan_digits(s: &[u8], at: usize) -> (end: usize)
    requires
        at <= s.len(),
    ensures
        end == at + digit_run(s@, at as int),
        end <= s.len(),
{
    let mut i: usize = at;
    while i < s.len() && 48 <= s[i] && s[i] <= 57
        invariant
            at <= i <= s.len(),
            digit_run(s@, at as int) == (i - at) + digit_run(s@, i as int),
        decreases s.len() - i,
    {
        i += 1;
    }
    i
}

/// The number written by the digits of `s` between `from` and `to`, where
/// it is at most `max`.
fn read_number(s: &[u8], from: usize, to: usize, max: u64) -> (r: Option<u64>)
    requires
        from <= to <= s.len(),
        forall|j: int| from <= j < to ==> is_digit(#[trigger] s@[j]),
        max <= 0xffff_ffff,
    ensures
        r == if digits_value(s@, from as int, to as int) <= max {
            Some(digits_value(s@, from as int, to as int) as u64)
        } else {
            None
        },
{
    let mut v: u64 = 0;
    let mut i: usize = from;
    while i < to
        invariant
            from <= i <= to <= s.len(),
            forall|j: int| from <= j < to ==> is_digit(#[trigger] s@[j]),
            v == digits_value(s@, from as int, i as int),
            v <= max <= 0xffff_ffff,
        decreases to - i,
    {
        assert(is_digit(s@[i as int]));
        let d: u64 = (s[i] - 48) as u64;
        v = v * 10 + d;
        i += 1;
        if v > max {
            proof {
                lemma_digits_value_grows(s@, from as int, i as int, to as int);
            }
            return None;
        }
    }
    Some(v)
}

/// Reads the octet written at position `at` of `s`.
fn read_octet(s: &[u8], at: usize) -> (r: Option<(u8, usize)>)
    requires
        at <= s.len(),
    ensures
        match r {
            Some((v, end)) => octet_at(s@, at as int) == Some((v, end as int)) && end <= s.len(),
            None => octet_at(s@, at as int).is_none(),
        },
{
    let end = scan_digits(s, at);
    proof {
        lemma_digit_run_digits(s@, at as int);
    }
    let n = end - at;
    if n < 1 || n > 3 {
        return None;
    }
    if n > 1 && s[at] == ZERO {
        return None;
    }
    match read_number(s, at, end, 255) {
        Some(v) => Some((v as u8, end)),
        None => None,
    }
}

/// Reads the octet that follows a dot at position `at` of `s`.
fn read_next_octet(s: &[u8], at: usize, Ghost(prev): Ghost<u8>) -> (r: Option<(u8, usize)>)
    requires
        at <= s.len(),
    ensures
        match r {
            Some((v, end)) => octet_after(s@, Some((prev, at as int))) == Some((v, end as int))
                && end <= s.len(),
            None => octet_after(s@, Some((prev, at as int))).is_none(),
        },
{
    if at < s.len() && s[at] == DOT {
        read_octet(s, at + 1)
    } else {
        None
    }
}

/// Reads the port written from position `at` to the end of `s`.
fn read_port(s: &[u8], at: usize) -> (r: Option<u16>)
    requires
        at <= s.len(),
    ensures
        r == port_at(s@, at as int),
{
    let end = scan_digits(s, at);
    proof {
        lemma_digit_run_digits(s@, at as int);
    }
    if end == at || end != s.len() {
        return None;
    }
    match read_number(s, at, end, 65535) {
        Some(v) => Some(v as u16),
        None => None,
    }
}

/// Reads the dotted IPv4 address written at position `at` of `s`.
fn read_dotted(s: &[u8], at: usize) -> (r: Option<(u8, u8, u8, u8, usize)>)
    requires
        at <= s.len(),
    ensures
        match r {
            Some((a, b, c, d, end)) => dotted_at(s@, at as int) == Some((a, b, c, d, end as int))
                && end <= s.len(),
            None => dotted_at(s@, at as int).is_none(),
        },
{
    let (a, e0) = match read_octet(s, at) {
        Some(f) => f,
        None => { return None; },
    };
    let (b, e1) = match read_next_octet(s, e0, Ghost(a)) {
        Some(f) => f,
        None => { return None; },
    };
    let (c, e2) = match read_next_octet(s, e1, Ghost(b)) {
        Some(f) => f,
        None => { return None; },
    };
    match read_next_octet(s, e2, Ghost(c)) {
        Some((d, e3)) => Some((a, b, c, d, e3)),
        None => None,
    }
}

/// The position behind the hexadecimal digits that stand in `s` from `at` on.
fn scan_hex(s: &[u8], at: usize) -> (end: usize)
    requires
        at <= s.len(),
    ensures
        end == at + hex_run(s@, at as int),
        end <= s.len(),
        forall|j: int| at <= j < end ==> is_hex(#[trigger] s@[j]),
{
    let mut i: usize = at;
    while i < s.len() && ((48 <= s[i] && s[i] <= 57) || (97 <= s[i] && s[i] <= 102) || (65
        <= s[i] && s[i] <= 70))
        invariant
            at <= i <= s.len(),
            hex_run(s@, at as int) == (i - at) + hex_run(s@, i as int),
            forall|j: int| at <= j < i ==> is_hex(#[trigger] s@[j]),
        decreases s.len() - i,
    {
        i += 1;
    }
    i
}

/// Reads the group written at position `at` of `s`.
fn read_group(s: &[u8], at: usize) -> (r: Option<(u16, usize)>)
    requires
        at <= s.len(),
    ensures
        match r {
            Some((g, end)) => group_at(s@, at as int) == Some((g, end as int)) && end <= s.len(),
            None => group_at(s@, at as int).is_none(),
        },
{
    let end = scan_hex(s, at);
    let n = end - at;
    if n < 1 || n > 4 {
        return None;
    }
    let mut v: u32 = 0;
    let mut i: usize = at;
    while i < end
        invariant
            at <= i <= end <= s.len(),
            end - at <= 4,
            forall|j: int| at <= j < end ==> is_hex(#[trigger] s@[j]),
            v == hex_digits_value(s@, at as int, i as int),
            v < pow16((i - at) as nat),
        decreases end - i,
    {
        let b = s[i];
        assert(is_hex(s@[i as int]));
        let d: u32 = if b <= 57 {
            (b - 48) as u32
        } else if b >= 97 {
            (b - 87) as u32
        } else {
            (b - 55) as u32
        };
        proof {
            lemma_pow16((i - at) as nat);
        }
        v = v * 16 + d;
        i += 1;
    }
    proof {
        lemma_pow16((end - at) as nat);
    }
    Some((v as u16, end))
}

/// 16 to the power `k`.
pub open spec fn pow16(k: nat) -> nat
    decreases k,
{
    if k == 0 {
        1
    } else {
        16 * pow16((k - 1) as nat)
    }
}

/// The powers of 16 up to the fourth.
proof fn lemma_pow16(k: nat)
    requires
        k <= 4,
    ensures
        pow16(k) <= 0x1_0000,
        k < 4 ==> pow16(k) <= 0x1000,
{
    reveal_with_fuel(pow16, 5);
}

/// Reads a row of at most `limit` groups from `at` on, group number `i` next.
fn read_groups(s: &[u8], at: usize, i: usize, limit: usize) -> (r: (Vec<u16>, usize, bool))
    requires
        at <= s.len(),
        i <= limit <= 8,
    ensures
        (r.0@, r.1 as int, r.2) == groups_from(s@, at as int, i as nat, limit as nat),
        r.1 <= s.len(),
        r.0@.len() + i <= limit,
    decreases limit - i,
{
    if i >= limit {
        return (Vec::new(), at, false);
    }
    let start = if i == 0 {
        at
    } else if at < s.len() && s[at] == COLON {
        at + 1
    } else {
        return (Vec::new(), at, false);
    };
    if i + 1 < limit {
        if let Some((a, b, c, d, end)) = read_dotted(s, start) {
            let mut groups: Vec<u16> = Vec::new();
            groups.push((a as u16) * 256 + b as u16);
            groups.push((c as u16) * 256 + d as u16);
            assert(groups@ =~= v4_groups(a, b, c, d));
            return (groups, end, true);
        }
    }
    match read_group(s, start) {
        None => (Vec::new(), at, false),
        Some((g, end)) => {
            let (rest, pos, dotted) = read_groups(s, end, i + 1, limit);
            let mut groups: Vec<u16> = Vec::new();
            groups.push(g);
            let mut k: usize = 0;
            while k < rest.len()
                invariant
                    k <= rest.len(),
                    groups@ == seq![g] + rest@.take(k as int),
                decreases rest.len() - k,
            {
                groups.push(rest[k]);
                assert(rest@.take(k + 1) =~= rest@.take(k as int).push(rest@[k as int]));
                assert(groups@ =~= seq![g] + rest@.take(k + 1));
                k += 1;
            }
            assert(rest@.take(rest.len() as int) =~= rest@);
            (groups, pos, dotted)
        },
    }
}

/// Reads the IPv6 address written at position `at` of `s`.
fn read_v6(s: &[u8], at: usize) -> (r: Option<(Vec<u16>, usize)>)
    requires
        at <= s.len(),
    ensures
        match r {
            Some((groups, end)) => v6_at(s@, at as int) == Some((groups@, end as int)) && end
                <= s.len() && groups@.len() == 8,
            None => v6_at(s@, at as int).is_none(),
        },
{
    let (head, p1, dotted) = read_groups(s, at, 0, 8);
    if head.len() == 8 {
        return Some((head, p1));
    }
    if dotted || p1 >= s.len() || s[p1] != COLON || p1 + 1 >= s.len() || s[p1 + 1] != COLON {
        return None;
    }
    let (tail, p2, _) = read_groups(s, p1 + 2, 0, 7 - head.len());
    let mut groups = head;
    let ghost front = groups@;
    let gap = 8 - groups.len() - tail.len();
    let mut k: usize = 0;
    while k < gap
        invariant
            k <= gap,
            groups@ == front + Seq::new(k as nat, |i: int| 0u16),
        decreases gap - k,
    {
        groups.push(0);
        assert(groups@ =~= front + Seq::new((k + 1) as nat, |i: int| 0u16));
        k += 1;
    }
    let ghost middle = groups@;
    let mut k: usize = 0;
    while k < tail.len()
        invariant
            k <= tail.len(),
            groups@ == middle + tail@.take(k as int),
        decreases tail.len() - k,
    {
        groups.push(tail[k]);
        assert(tail@.take(k + 1) =~= tail@.take(k as int).push(tail@[k as int]));
        assert(groups@ =~= middle + tail@.take(k + 1));
        k += 1;
    }
    assert(tail@.take(tail.len() as int) =~= tail@);
    Some((groups, p2))
}

/// Reads an IPv6 socket address from its text.
pub fn parse_v6(s: &[u8]) -> (r: Option<SockAddr>)
    ensures
        r == parse_v6_text(s@),
{
    if s.len() == 0 || s[0] != 91 {
        return None;
    }
    let (groups, at) = match read_v6(s, 1) {
        Some(f) => f,
        None => { return None; },
    };
    let (scope, end) = read_scope(s, at);
    if end >= s.len() || s[end] != 93 || end + 1 >= s.len() || s[end + 1] != COLON {
        return None;
    }
    let port = match read_port(s, end + 2) {
        Some(p) => p,
        None => { return None; },
    };
    let mut ip: [u8; 16] = [0u8; 16];
    let mut k: usize = 0;
    while k < 8
        invariant
            k <= 8,
            groups@.len() == 8,
            forall|j: int| 0 <= j < k ==> ip@[2 * j] == (groups@[j] / 256) as u8 && ip@[2 * j + 1]
                == (groups@[j] % 256) as u8,
        decreases 8 - k,
    {
        let g = groups[k];
        ip[2 * k] = (g / 256) as u8;
        ip[2 * k + 1] = (g % 256) as u8;
        k += 1;
    }
    proof {
        let want = octets_of(groups@);
        assert forall|j: int| 0 <= j < 16 implies ip@[j] == want@[j] by {
            let h = j / 2;
            assert(0 <= h < 8);
            assert(j == 2 * h || j == 2 * h + 1);
        }
        assert(ip@ =~= want@);
        assert(ip == want);
    }
    Some(SockAddr::V6 { ip, port, scope })
}

/// Reads the zone written at position `at` of `s`, if one is written.
fn read_scope(s: &[u8], at: usize) -> (r: (u32, usize))
    requires
        at <= s.len(),
    ensures
        (r.0, r.1 as int) == scope_at(s@, at as int),
        r.1 <= s.len(),
{
    if at >= s.len() || s[at] != 37 {
        return (0, at);
    }
    let end = scan_digits(s, at + 1);
    proof {
        lemma_digit_run_digits(s@, at + 1);
    }
    if end == at + 1 {
        return (0, at);
    }
    match read_number(s, at + 1, end, 0xffff_ffff) {
        Some(v) => (v as u32, end),
        None => (0, at),
    }
}

/// Reads an IPv4 socket address from its text.
pub fn parse_v4(s: &[u8]) -> (r: Option<SockAddr>)
    ensures
        r == parse_v4_text(s@),
{
    let (a, e0) = match read_octet(s, 0) {
        Some(f) => f,
        None => { return None; },
    };
    let (b, e1) = match read_next_octet(s, e0, Ghost(a)) {
        Some(f) => f,
        None => { return None; },
    };
    let (c, e2) = match read_next_octet(s, e1, Ghost(b)) {
        Some(f) => f,
        None => { return None; },
    };
    let (d, e3) = match read_next_octet(s, e2, Ghost(c)) {
        Some(f) => f,
        None => { return None; },
    };
    if e3 < s.len() && s[e3] == COLON {
        match read_port(s, e3 + 1) {
            Some(port) => Some(SockAddr::V4 { ip: [a, b, c, d], port }),
            None => None,
        }
    } else {
        None
    }
}

/// Appends the decimal digits of `n` to `out`.
pub(crate) fn push_decimal(out: &mut Vec<u8>, n: u64)
    ensures
        final(out)@ == old(out)@ + decimal_text(n as nat),
    decreases n,
{
    if n >= 10 {
        push_decimal(out, n / 10);
    }
    out.push(48 + (n % 10) as u8);
    assert(final(out)@ =~= old(out)@ + decimal_text(n as nat)) by {
        assert(out@ =~= old(out)@ + decimal_text(n as nat));
    }
}

/// The sixteen-bit group number `i` of an IPv6 address.
pub open spec fn segment(ip: Seq<u8>, i: int) -> nat {
    (ip[2 * i] * 256 + ip[2 * i + 1]) as nat
}

/// The lowercase hexadecimal digit of value `d`.
pub open spec fn hex_digit(d: nat) -> u8 {
    if d < 10 {
        (48 + d) as u8
    } else {
        (87 + d) as u8
    }
}

/// The lowercase hexadecimal digits of `n`, without leading zeros.
pub open spec fn hex_text(n: nat) -> Seq<u8>
    decreases n,
{
    if n < 16 {
        seq![hex_digit(n)]
    } else {
        hex_text(n / 16).push(hex_digit(n % 16))
    }
}

/// The number of zero groups that stand in a row from group `at` on.
pub open spec fn zero_run(ip: Seq<u8>, at: int) -> nat
    decreases 8 - at,
{
    if 0 <= at < 8 && segment(ip, at) == 0 {
        1 + zero_run(ip, at + 1)
    } else {
        0
    }
}

/// The length of the longest row of zero groups that starts before group `upto`.
pub open spec fn longest_zero_run(ip: Seq<u8>, upto: int) -> nat
    decreases upto,
{
    if upto <= 0 {
        0
    } else if zero_run(ip, upto - 1) > longest_zero_run(ip, upto - 1) {
        zero_run(ip, upto - 1)
    } else {
        longest_zero_run(ip, upto - 1)
    }
}

/// The first group at or behind `from` where a row of `len` zero groups starts.
pub open spec fn first_run_of(ip: Seq<u8>, len: nat, from: int) -> int
    decreases 8 - from,
{
    if from >= 8 || zero_run(ip, from) == len {
        from
    } else {
        first_run_of(ip, len, from + 1)
    }
}

/// The groups from `from` up to `to`, in hexadecimal, separated by colons.
pub open spec fn groups_text(ip: Seq<u8>, from: int, to: int) -> Seq<u8>
    decreases to - from,
{
    if to <= from {
        Seq::empty()
    } else if to == from + 1 {
        hex_text(segment(ip, from))
    } else {
        groups_text(ip, from, to - 1) + seq![COLON] + hex_text(segment(ip, to - 1))
    }
}

/// The address is an IPv4 address mapped into IPv6: `::ffff:a.b.c.d`.
pub open spec fn is_v4_mapped(ip: Seq<u8>) -> bool {
    &&& forall|i: int| 0 <= i < 10 ==> ip[i] == 0
    &&& ip[10] == 255
    &&& ip[11] == 255
}

/// The four octets `ip[at..at + 4]` in decimal, separated by dots.
pub open spec fn dotted_text(ip: Seq<u8>, at: int) -> Seq<u8> {
    decimal_text(ip[at] as nat) + seq![DOT] + decimal_text(ip[at + 1] as nat) + seq![DOT]
        + decimal_text(ip[at + 2] as nat) + seq![DOT] + decimal_text(ip[at + 3] as nat)
}

/// The text `::ffff:` that leads a mapped IPv4 address.
pub open spec fn mapped_prefix() -> Seq<u8> {
    seq![COLON, COLON, 102u8, 102u8, 102u8, 102u8, COLON]
}

/// The text of an IPv6 address: a mapped IPv4 address in dotted form; else
/// the eight groups, the first longest row of two or more zero groups
/// written as `::`.
pub open spec fn v6_ip_text(ip: Seq<u8>) -> Seq<u8> {
    if is_v4_mapped(ip) {
        mapped_prefix() + dotted_text(ip, 12)
    } else {
        let len = longest_zero_run(ip, 8);
        if len > 1 {
            let start = first_run_of(ip, len, 0);
            groups_text(ip, 0, start) + seq![COLON, COLON] + groups_text(ip, start + len, 8)
        } else {
            groups_text(ip, 0, 8)
        }
    }
}

/// The text of an IPv4 socket address: `a.b.c.d:port`.
pub open spec fn v4_socket_text(ip: Seq<u8>, port: u16) -> Seq<u8> {
    dotted_text(ip, 0) + seq![COLON] + decimal_text(port as nat)
}

/// The text of a zone: nothing for the zone 0, else a percent sign and
/// the number of the zone.
pub open spec fn scope_text(scope: u32) -> Seq<u8> {
    if scope == 0 {
        Seq::empty()
    } else {
        seq![37u8] + decimal_text(scope as nat)
    }
}

/// The text of an IPv6 socket address: `[address]:port`, or
/// `[address%zone]:port` for an address with a zone.
pub open spec fn v6_socket_text(ip: Seq<u8>, port: u16, scope: u32) -> Seq<u8> {
    seq![91u8] + v6_ip_text(ip) + scope_text(scope) + seq![93u8, COLON] + decimal_text(
        port as nat,
    )
}

/// Decimal text holds ASCII digits only.
pub proof fn lemma_decimal_text_digits(n: nat)
    ensures
        decimal_text(n).len() >= 1,
        forall|j: int| 0 <= j < decimal_text(n).len() ==> is_digit(#[trigger] decimal_text(n)[j]),
        is_ascii_bytes(decimal_text(n)),
    decreases n,
{
    if n >= 10 {
        lemma_decimal_text_digits(n / 10);
    }
}

/// Hexadecimal text holds ASCII bytes only.
pub proof fn lemma_hex_text_ascii(n: nat)
    ensures
        is_ascii_bytes(hex_text(n)),
    decreases n,
{
    if n >= 16 {
        lemma_hex_text_ascii(n / 16);
    }
}

/// Appends the lowercase hexadecimal digits of `n` to `out`.
fn push_hex(out: &mut Vec<u8>, n: u16)
    requires
        is_ascii_bytes(old(out)@),
    ensures
        final(out)@ == old(out)@ + hex_text(n as nat),
        is_ascii_bytes(final(out)@),
    decreases n,
{
    if n >= 16 {
        push_hex(out, n / 16);
    }
    let d: u8 = (n % 16) as u8;
    if d < 10 {
        out.push(48 + d);
    } else {
        out.push(87 + d);
    }
    proof {
        lemma_hex_text_ascii(n as nat);
        assert(out@ =~= old(out)@ + hex_text(n as nat));
    }
}

/// Appends the decimal digits of `n` to ASCII text.
pub(crate) fn push_number(out: &mut Vec<u8>, n: u64)
    requires
        is_ascii_bytes(old(out)@),
    ensures
        final(out)@ == old(out)@ + decimal_text(n as nat),
        is_ascii_bytes(final(out)@),
{
    push_decimal(out, n);
    proof {
        lemma_decimal_text_digits(n as nat);
    }
}

/// Appends one ASCII byte to ASCII text.
pub(crate) fn push_ascii(out: &mut Vec<u8>, b: u8)
    requires
        is_ascii_bytes(old(out)@),
        b < 128,
    ensures
        final(out)@ == old(out)@ + seq![b],
        is_ascii_bytes(final(out)@),
{
    out.push(b);
    assert(out@ =~= old(out)@ + seq![b]);
}

/// Appends four octets in dotted decimal form.
fn push_dotted(out: &mut Vec<u8>, a: u8, b: u8, c: u8, d: u8, Ghost(ip): Ghost<Seq<u8>>, Ghost(at): Ghost<int>)
    requires
        is_ascii_bytes(old(out)@),
        0 <= at,
        at + 4 <= ip.len(),
        ip[at] == a,
        ip[at + 1] == b,
        ip[at + 2] == c,
        ip[at + 3] == d,
    ensures
        final(out)@ == old(out)@ + dotted_text(ip, at),
        is_ascii_bytes(final(out)@),
{
    push_number(out, a as u64);
    push_ascii(out, DOT);
    push_number(out, b as u64);
    push_ascii(out, DOT);
    push_number(out, c as u64);
    push_ascii(out, DOT);
    push_number(out, d as u64);
    assert(out@ =~= old(out)@ + dotted_text(ip, at));
}

/// The group number `i` of an IPv6 address.
fn group(ip: &[u8; 16], i: usize) -> (g: u16)
    requires
        i < 8,
    ensures
        g == segment(ip@, i as int),
{
    (ip[2 * i] as u16) * 256 + (ip[2 * i + 1] as u16)
}

/// Counts the zero groups that stand in a row from group `at` on.
fn count_zero_run(ip: &[u8; 16], at: usize) -> (n: usize)
    requires
        at <= 8,
    ensures
        n == zero_run(ip@, at as int),
        at + n <= 8,
{
    let mut i: usize = at;
    while i < 8 && group(ip, i) == 0
        invariant
            at <= i <= 8,
            zero_run(ip@, at as int) == (i - at) + zero_run(ip@, i as int),
        decreases 8 - i,
    {
        i += 1;
    }
    i - at
}

/// Where the first row of `len` zero groups starts, seen from `from`.
proof fn lemma_first_run(ip: Seq<u8>, len: nat, from: int, start: int)
    requires
        0 <= from <= start < 8,
        zero_run(ip, start) == len,
        forall|j: int| from <= j < start ==> zero_run(ip, j) != len,
    ensures
        first_run_of(ip, len, from) == start,
    decreases start - from,
{
    if from < start {
        lemma_first_run(ip, len, from + 1, start);
    }
}

/// Finds the first longest row of zero groups: its start and its length.
fn find_zero_run(ip: &[u8; 16]) -> (r: (usize, usize))
    ensures
        r.1 == longest_zero_run(ip@, 8),
        r.1 > 0 ==> r.0 == first_run_of(ip@, r.1 as nat, 0),
        r.0 + r.1 <= 8,
{
    let mut start: usize = 0;
    let mut best: usize = 0;
    let mut i: usize = 0;
    while i < 8
        invariant
            i <= 8,
            best == longest_zero_run(ip@, i as int),
            start + best <= 8,
            best > 0 ==> start < i && zero_run(ip@, start as int) == best,
            forall|j: int| 0 <= j < start ==> zero_run(ip@, j) < best,
            forall|j: int| 0 <= j < i ==> zero_run(ip@, j) <= best,
        decreases 8 - i,
    {
        let n = count_zero_run(ip, i);
        if n > best {
            best = n;
            start = i;
        }
        i += 1;
    }
    proof {
        if best > 0 {
            lemma_first_run(ip@, best as nat, 0, start as int);
        }
    }
    (start, best)
}

/// Appends the groups from `from` up to `to`, separated by colons.
fn push_groups(out: &mut Vec<u8>, ip: &[u8; 16], from: usize, to: usize)
    requires
        is_ascii_bytes(old(out)@),
        from <= to <= 8,
    ensures
        final(out)@ == old(out)@ + groups_text(ip@, from as int, to as int),
        is_ascii_bytes(final(out)@),
{
    let mut i: usize = from;
    while i < to
        invariant
            from <= i <= to <= 8,
            out@ == old(out)@ + groups_text(ip@, from as int, i as int),
            is_ascii_bytes(out@),
        decreases to - i,
    {
        let ghost before = out@;
        if i > from {
            push_ascii(out, COLON);
        }
        push_hex(out, group(ip, i));
        assert(out@ =~= old(out)@ + groups_text(ip@, from as int, i + 1));
        i += 1;
    }
}

impl SockAddr {
    /// The text of the address: `a.b.c.d:port`, or `[address]:port` for IPv6.
    pub open spec fn text(self) -> Seq<u8> {
        match self {
            SockAddr::V4 { ip, port } => v4_socket_text(ip@, port),
            SockAddr::V6 { ip, port, scope } => v6_socket_text(ip@, port, scope),
        }
    }

    /// Reads a socket address from its text.
    pub fn parse(text: &str) -> (r: Option<SockAddr>)
        ensures
            r == parse_text(text.spec_bytes()),
    {
        SockAddr::parse_bytes(text.as_bytes())
    }

    /// Reads a socket address from the bytes of its text.
    pub fn parse_bytes(text: &[u8]) -> (r: Option<SockAddr>)
        ensures
            r == parse_text(text@),
    {
        match parse_v4(text) {
            Some(a) => Some(a),
            None => parse_v6(text),
        }
    }

    /// The port of the address.
    pub fn port(&self) -> (p: u16)
        ensures
            p == match *self {
                SockAddr::V4 { ip, port } => port,
                SockAddr::V6 { ip, port, scope } => port,
            },
    {
        match self {
            SockAddr::V4 { ip, port } => *port,
            SockAddr::V6 { ip, port, scope } => *port,
        }
    }

    /// Writes the address as ASCII text.
    pub fn to_bytes(&self) -> (out: Vec<u8>)
        ensures
            out@ == self.text(),
            is_ascii_bytes(out@),
    {
        let mut out: Vec<u8> = Vec::new();
        match self {
            SockAddr::V4 { ip, port } => {
                push_dotted(&mut out, ip[0], ip[1], ip[2], ip[3], Ghost(ip@), Ghost(0));
                push_ascii(&mut out, COLON);
                push_number(&mut out, *port as u64);
                assert(out@ =~= v4_socket_text(ip@, *port));
            },
            SockAddr::V6 { ip, port, scope } => {
                push_ascii(&mut out, 91);
                let ghost head = out@;
                if is_mapped(ip) {
                    push_ascii(&mut out, COLON);
                    push_ascii(&mut out, COLON);
                    push_ascii(&mut out, 102);
                    push_ascii(&mut out, 102);
                    push_ascii(&mut out, 102);
                    push_ascii(&mut out, 102);
                    push_ascii(&mut out, COLON);
                    push_dotted(&mut out, ip[12], ip[13], ip[14], ip[15], Ghost(ip@), Ghost(12));
                    assert(out@ =~= head + v6_ip_text(ip@));
                } else {
                    let (start, len) = find_zero_run(ip);
                    if len > 1 {
                        push_groups(&mut out, ip, 0, start);
                        push_ascii(&mut out, COLON);
                        push_ascii(&mut out, COLON);
                        push_groups(&mut out, ip, start + len, 8);
                    } else {
                        push_groups(&mut out, ip, 0, 8);
                    }
                    assert(out@ =~= head + v6_ip_text(ip@));
                }
                let ghost body = out@;
                if *scope != 0 {
                    push_ascii(&mut out, 37);
                    push_number(&mut out, *scope as u64);
                }
                assert(out@ =~= body + scope_text(*scope));
                push_ascii(&mut out, 93);
                push_ascii(&mut out, COLON);
                push_number(&mut out, *port as u64);
                assert(out@ =~= v6_socket_text(ip@, *port, *scope));
            },
        }
        out
    }

    /// Writes the address as text.
    pub fn to_text(&self) -> (out: String)
        ensures
            encode_utf8(out@) == self.text(),
    {
        ascii_to_string(self.to_bytes())
    }
}

/// Whether the address is an IPv4 address mapped into IPv6.
fn is_mapped(ip: &[u8; 16]) -> (r: bool)
    ensures
        r == is_v4_mapped(ip@),
{
    let mut i: usize = 0;
    while i < 10
        invariant
            i <= 10,
            forall|j: int| 0 <= j < i ==> ip@[j] == 0,
        decreases 10 - i,
    {
        if ip[i] != 0 {
            return false;
        }
        i += 1;
    }
    ip[10] == 255 && ip[11] == 255
}

/// What the decimal text of a number holds: digits that write the number,
/// with no leading zero, and at most three of them up to 999.
pub proof fn lemma_decimal_text_value(n: nat)
    ensures
        digits_value(decimal_text(n), 0, decimal_text(n).len() as int) == n,
        n >= 1 ==> decimal_text(n)[0] != 48,
        n < 10 <==> decimal_text(n).len() == 1,
        n < 100 ==> decimal_text(n).len() <= 2,
        n < 1000 ==> decimal_text(n).len() <= 3,
    decreases n,
{
    let t = decimal_text(n);
    reveal_with_fuel(digits_value, 2);
    lemma_decimal_text_digits(n);
    if n >= 10 {
        let h = decimal_text(n / 10);
        lemma_decimal_text_value(n / 10);
        lemma_decimal_text_digits(n / 10);
        lemma_digits_value_prefix(h, t, 0, h.len() as int);
        assert(t[0] == h[0]);
        assert(t.len() == h.len() + 1);
        assert(t[t.len() - 1] == (48 + n % 10) as u8);
    }
}

/// Texts that agree on a range write the same number there.
pub proof fn lemma_digits_value_prefix(a: Seq<u8>, b: Seq<u8>, shift: int, len: int)
    requires
        0 <= len <= a.len(),
        0 <= shift,
        shift + len <= b.len(),
        forall|j: int| 0 <= j < len ==> a[j] == b[shift + j],
    ensures
        digits_value(b, shift, shift + len) == digits_value(a, 0, len),
    decreases len,
{
    if len > 0 {
        lemma_digits_value_prefix(a, b, shift, len - 1);
    }
}

/// A digit string that stands in `s` at `at`, and is followed by no digit,
/// is the run of digits there.
pub proof fn lemma_digit_run_of(s: Seq<u8>, at: int, t: Seq<u8>, k: int)
    requires
        0 <= at,
        0 <= k <= t.len(),
        at + t.len() <= s.len(),
        forall|j: int| 0 <= j < t.len() ==> s[at + j] == t[j] && is_digit(#[trigger] t[j]),
        at + t.len() == s.len() || !is_digit(s[at + t.len()]),
    ensures
        digit_run(s, at + k) == t.len() - k,
    decreases t.len() - k,
{
    if k < t.len() {
        lemma_digit_run_of(s, at, t, k + 1);
        assert(is_digit(t[k]));
    }
}

/// The octet that the decimal text of `v` writes at position `at` of `s`.
proof fn lemma_octet_in_text(s: Seq<u8>, at: int, v: u8)
    requires
        0 <= at,
        at + decimal_text(v as nat).len() < s.len(),
        forall|j: int| 0 <= j < decimal_text(v as nat).len() ==> s[at + j] == decimal_text(v as nat)[j],
        !is_digit(s[at + decimal_text(v as nat).len()]),
    ensures
        octet_at(s, at) == Some((v, at + decimal_text(v as nat).len())),
{
    let t = decimal_text(v as nat);
    lemma_decimal_text_digits(v as nat);
    lemma_decimal_text_value(v as nat);
    lemma_digit_run_of(s, at, t, 0);
    lemma_digits_value_prefix(t, s, at, t.len() as int);
    assert(s[at] == t[0]);
    assert(t.len() > 1 ==> v >= 10);
}

/// Reading the text of an IPv4 socket address gives the address back.
pub proof fn lemma_v4_text_roundtrip(ip: [u8; 4], port: u16)
    ensures
        parse_v4_text(v4_socket_text(ip@, port)) == Some(SockAddr::V4 { ip, port }),
{
    let d0 = decimal_text(ip@[0] as nat);
    let d1 = decimal_text(ip@[1] as nat);
    let d2 = decimal_text(ip@[2] as nat);
    let d3 = decimal_text(ip@[3] as nat);
    let dp = decimal_text(port as nat);
    let s = v4_socket_text(ip@, port);
    lemma_decimal_text_digits(ip@[0] as nat);
    lemma_decimal_text_digits(ip@[1] as nat);
    lemma_decimal_text_digits(ip@[2] as nat);
    lemma_decimal_text_digits(ip@[3] as nat);
    lemma_decimal_text_digits(port as nat);
    lemma_decimal_text_value(port as nat);
    let e0 = d0.len() as int;
    let e1 = e0 + 1 + d1.len();
    let e2 = e1 + 1 + d2.len();
    let e3 = e2 + 1 + d3.len();
    assert(s =~= d0 + seq![DOT] + d1 + seq![DOT] + d2 + seq![DOT] + d3 + seq![COLON] + dp);
    assert(s.len() == e3 + 1 + dp.len());
    assert(forall|j: int| 0 <= j < d0.len() ==> s[j] == d0[j]);
    assert(s[e0] == DOT);
    assert(forall|j: int| 0 <= j < d1.len() ==> s[e0 + 1 + j] == d1[j]);
    assert(s[e1] == DOT);
    assert(forall|j: int| 0 <= j < d2.len() ==> s[e1 + 1 + j] == d2[j]);
    assert(s[e2] == DOT);
    assert(forall|j: int| 0 <= j < d3.len() ==> s[e2 + 1 + j] == d3[j]);
    assert(s[e3] == COLON);
    assert(forall|j: int| 0 <= j < dp.len() ==> s[e3 + 1 + j] == dp[j]);
    lemma_octet_in_text(s, 0, ip@[0]);
    lemma_octet_in_text(s, e0 + 1, ip@[1]);
    lemma_octet_in_text(s, e1 + 1, ip@[2]);
    lemma_octet_in_text(s, e2 + 1, ip@[3]);
    lemma_digit_run_of(s, e3 + 1, dp, 0);
    lemma_digits_value_prefix(dp, s, e3 + 1, dp.len() as int);
    assert(port_at(s, e3 + 1) == Some(port));
    let back: [u8; 4] = [ip@[0], ip@[1], ip@[2], ip@[3]];
    assert(back@ =~= ip@);
    assert(back == ip);
}

/// The text of an IPv4 socket address starts with a digit.
pub proof fn lemma_v4_text_starts_with_digit(ip: [u8; 4], port: u16)
    ensures
        v4_socket_text(ip@, port).len() > 0,
        is_digit(v4_socket_text(ip@, port)[0]),
{
    let d0 = decimal_text(ip@[0] as nat);
    lemma_decimal_text_digits(ip@[0] as nat);
    let rest = seq![DOT] + decimal_text(ip@[1] as nat) + seq![DOT] + decimal_text(ip@[2] as nat)
        + seq![DOT] + decimal_text(ip@[3] as nat) + seq![COLON] + decimal_text(port as nat);
    assert(v4_socket_text(ip@, port) =~= d0 + rest);
    assert((d0 + rest)[0] == d0[0]);
}

/// The text `t` stands in `s` from position `at` on.
pub open spec fn stands_at(s: Seq<u8>, at: int, t: Seq<u8>) -> bool {
    &&& 0 <= at
    &&& at + t.len() <= s.len()
    &&& forall|j: int| 0 <= j < t.len() ==> s[at + j] == #[trigger] t[j]
}

/// Where two texts stand one behind the other, each stands in its place.
pub proof fn lemma_stands_split(s: Seq<u8>, at: int, a: Seq<u8>, b: Seq<u8>)
    requires
        stands_at(s, at, a + b),
    ensures
        stands_at(s, at, a),
        stands_at(s, at + a.len(), b),
{
    assert forall|j: int| 0 <= j < a.len() implies s[at + j] == #[trigger] a[j] by {
        assert((a + b)[j] == a[j]);
    }
    assert forall|j: int| 0 <= j < b.len() implies s[at + a.len() + j] == #[trigger] b[j] by {
        assert((a + b)[a.len() + j] == b[j]);
    }
}

/// What the hexadecimal text of a group holds: one to four digits that
/// write the group.
pub proof fn lemma_hex_text_value(n: nat)
    requires
        n < 0x1_0000,
    ensures
        1 <= hex_text(n).len() <= 4,
        n < 16 ==> hex_text(n).len() == 1,
        n < 0x100 ==> hex_text(n).len() <= 2,
        n < 0x1000 ==> hex_text(n).len() <= 3,
        forall|j: int| 0 <= j < hex_text(n).len() ==> is_hex(#[trigger] hex_text(n)[j]),
        hex_digits_value(hex_text(n), 0, hex_text(n).len() as int) == n,
    decreases n,
{
    let t = hex_text(n);
    reveal_with_fuel(hex_digits_value, 2);
    if n >= 16 {
        let h = hex_text(n / 16);
        lemma_hex_text_value(n / 16);
        lemma_hex_value_prefix(h, t, 0, h.len() as int);
        assert(t.len() == h.len() + 1);
        assert(t[t.len() - 1] == hex_digit(n % 16));
        assert forall|j: int| 0 <= j < t.len() implies is_hex(#[trigger] t[j]) by {
            if j < h.len() {
                assert(t[j] == h[j]);
            }
        }
    }
}

/// Texts that agree on a range write the same hexadecimal number there.
pub proof fn lemma_hex_value_prefix(a: Seq<u8>, b: Seq<u8>, shift: int, len: int)
    requires
        0 <= len <= a.len(),
        0 <= shift,
        shift + len <= b.len(),
        forall|j: int| 0 <= j < len ==> a[j] == b[shift + j],
    ensures
        hex_digits_value(b, shift, shift + len) == hex_digits_value(a, 0, len),
    decreases len,
{
    if len > 0 {
        lemma_hex_value_prefix(a, b, shift, len - 1);
    }
}

/// A string of hexadecimal digits that stands in `s` at `at`, and is
/// followed by none, is the run of hexadecimal digits there.
pub proof fn lemma_hex_run_of(s: Seq<u8>, at: int, t: Seq<u8>, k: int)
    requires
        0 <= k <= t.len(),
        stands_at(s, at, t),
        forall|j: int| 0 <= j < t.len() ==> is_hex(#[trigger] t[j]),
        at + t.len() == s.len() || !is_hex(s[at + t.len()]),
    ensures
        hex_run(s, at + k) == t.len() - k,
    decreases t.len() - k,
{
    if k < t.len() {
        lemma_hex_run_of(s, at, t, k + 1);
        assert(is_hex(t[k]));
    }
}

/// A run of digits ends at or before the first byte that is no digit.
pub proof fn lemma_digit_run_bound(s: Seq<u8>, at: int, q: int)
    requires
        0 <= at <= q < s.len(),
        !is_digit(s[q]),
    ensures
        digit_run(s, at) <= q - at,
    decreases q - at,
{
    if at < q && is_digit(s[at]) {
        lemma_digit_run_bound(s, at + 1, q);
    }
}

/// The byte `b` ends a group: it is a colon, a closing bracket or a
/// percent sign.
pub open spec fn ends_group(b: u8) -> bool {
    b == 58 || b == 93 || b == 37
}

/// The group that the hexadecimal text of `g` writes at position `at` of
/// `s`, before a colon or a closing bracket. No dotted address stands there.
#[verifier::rlimit(50)]
pub proof fn lemma_group_in_text(s: Seq<u8>, at: int, g: u16)
    requires
        stands_at(s, at, hex_text(g as nat)),
        at + hex_text(g as nat).len() < s.len(),
        ends_group(s[at + hex_text(g as nat).len()]),
    ensures
        group_at(s, at) == Some((g, at + hex_text(g as nat).len())),
        dotted_at(s, at).is_none(),
{
    let t = hex_text(g as nat);
    let end = at + t.len();
    lemma_hex_text_value(g as nat);
    lemma_hex_run_of(s, at, t, 0);
    lemma_hex_value_prefix(t, s, at, t.len() as int);
    lemma_digit_run_bound(s, at, end);
    lemma_digit_run_digits(s, at);
    let stop = at + digit_run(s, at);
    if stop < end {
        assert(s[stop] == t[stop - at]);
        assert(is_hex(t[stop - at]));
    }
    assert(s[stop] != DOT);
}

/// A row of groups is its first group and, behind a colon, the rest.
pub proof fn lemma_groups_text_front(ip: Seq<u8>, from: int, to: int)
    requires
        from < to,
    ensures
        groups_text(ip, from, to) == if to == from + 1 {
            hex_text(segment(ip, from))
        } else {
            hex_text(segment(ip, from)) + seq![COLON] + groups_text(ip, from + 1, to)
        },
    decreases to - from,
{
    if to > from + 1 {
        lemma_groups_text_front(ip, from, to - 1);
        if to - 1 == from + 1 {
            assert(groups_text(ip, from + 1, to) == hex_text(segment(ip, from + 1)));
        } else {
            assert(groups_text(ip, from, to) =~= hex_text(segment(ip, from)) + seq![COLON]
                + groups_text(ip, from + 1, to));
        }
    }
}

/// The groups of an address from `from` up to `to`.
pub open spec fn groups_of(ip: Seq<u8>, from: int, to: int) -> Seq<u16> {
    Seq::new((to - from) as nat, |j: int| segment(ip, from + j) as u16)
}

/// Behind position `e` of `s` no further group can be read: a closing
/// bracket or a percent sign stands there, or the two colons that stand
/// for left-out groups.
pub open spec fn row_ends(s: Seq<u8>, e: int) -> bool {
    &&& 0 <= e < s.len()
    &&& s[e] == 93 || s[e] == 37 || (s[e] == 58 && e + 1 < s.len() && s[e + 1] == 58)
}

/// The address ends at position `e` of `s`: a closing bracket or a
/// percent sign stands there.
pub open spec fn address_ends(s: Seq<u8>, e: int) -> bool {
    &&& 0 <= e < s.len()
    &&& s[e] == 93 || s[e] == 37
}

/// Where the text of the groups `from` up to `to` starts, read as group
/// number `i` of a row from `at` on: behind the colon that leads every
/// group but the first of a row.
pub open spec fn row_text_start(at: int, i: nat) -> int {
    if i == 0 {
        at
    } else {
        at + 1
    }
}

/// Reading the text of a row of groups gives the groups back, and ends
/// where the row ends.
#[verifier::rlimit(50)]
pub proof fn lemma_groups_parse(
    s: Seq<u8>,
    at: int,
    i: nat,
    limit: nat,
    ip: Seq<u8>,
    from: int,
    to: int,
    e: int,
)
    requires
        ip.len() == 16,
        0 <= from <= to <= 8,
        i + (to - from) <= limit <= 8,
        0 <= at,
        row_ends(s, e),
        from == to ==> e == at,
        from < to ==> stands_at(s, row_text_start(at, i), groups_text(ip, from, to)) && e
            == row_text_start(at, i) + groups_text(ip, from, to).len() && (i > 0 ==> byte_is(
            s,
            at,
            COLON,
        )),
    ensures
        groups_from(s, at, i, limit) == (groups_of(ip, from, to), e, false),
    decreases to - from,
{
    if from == to {
        assert(groups_of(ip, from, to) =~= Seq::<u16>::empty());
        if i < limit {
            if i == 0 || s[at] == 58 {
                let start = row_text_start(at, i);
                assert(group_start(s, at, i) == Some(start));
                assert(!is_digit(s[start]));
                assert(!is_hex(s[start]));
                assert(digit_run(s, start) == 0);
                assert(hex_run(s, start) == 0);
            }
        }
    } else {
        let start = row_text_start(at, i);
        let g = segment(ip, from);
        let t = hex_text(g);
        lemma_hex_text_value(g);
        lemma_groups_text_front(ip, from, to);
        let end = start + t.len();
        if to == from + 1 {
            assert(end == e);
        } else {
            let rest = seq![COLON] + groups_text(ip, from + 1, to);
            assert(groups_text(ip, from, to) =~= t + rest);
            lemma_stands_split(s, start, t, rest);
            lemma_stands_split(s, end, seq![COLON], groups_text(ip, from + 1, to));
            assert(s[end] == seq![COLON][0]);
        }
        assert(stands_at(s, start, t)) by {
            if to > from + 1 {
                let rest = seq![COLON] + groups_text(ip, from + 1, to);
                assert(groups_text(ip, from, to) =~= t + rest);
                lemma_stands_split(s, start, t, rest);
            }
        }
        lemma_group_in_text(s, start, g as u16);
        lemma_groups_parse(s, end, i + 1, limit, ip, from + 1, to, e);
        assert(group_start(s, at, i) == Some(start));
        assert(groups_of(ip, from, to) =~= seq![g as u16] + groups_of(ip, from + 1, to));
    }
}

/// From a position on, as many groups are zero as the row of zero groups
/// there is long, and the row ends within the address.
pub proof fn lemma_zero_run_zeros(ip: Seq<u8>, at: int)
    requires
        0 <= at <= 8,
    ensures
        at + zero_run(ip, at) <= 8,
        forall|j: int| at <= j < at + zero_run(ip, at) ==> segment(ip, j) == 0,
    decreases 8 - at,
{
    if at < 8 && segment(ip, at) == 0 {
        lemma_zero_run_zeros(ip, at + 1);
    }
}

/// The longest row of zero groups starts somewhere.
pub proof fn lemma_longest_attained(ip: Seq<u8>, upto: int) -> (w: int)
    requires
        0 <= upto <= 8,
        longest_zero_run(ip, upto) > 0,
    ensures
        0 <= w < upto,
        zero_run(ip, w) == longest_zero_run(ip, upto),
    decreases upto,
{
    if zero_run(ip, upto - 1) > longest_zero_run(ip, upto - 1) {
        upto - 1
    } else {
        lemma_longest_attained(ip, upto - 1)
    }
}

/// Where a row of `len` zero groups starts at `w`, the first such row
/// starts at or before `w`.
pub proof fn lemma_first_run_found(ip: Seq<u8>, len: nat, from: int, w: int)
    requires
        0 <= from <= w < 8,
        zero_run(ip, w) == len,
    ensures
        from <= first_run_of(ip, len, from) <= w,
        zero_run(ip, first_run_of(ip, len, from)) == len,
    decreases w - from,
{
    if zero_run(ip, from) != len {
        lemma_first_run_found(ip, len, from + 1, w);
    }
}

/// The octets of the eight groups of an address are the address.
pub proof fn lemma_octets_of_groups(ip: [u8; 16])
    ensures
        octets_of(groups_of(ip@, 0, 8)) == ip,
{
    let g = groups_of(ip@, 0, 8);
    let back = octets_of(g);
    assert forall|j: int| 0 <= j < 16 implies back@[j] == ip@[j] by {
        let h = j / 2;
        assert(0 <= h < 8);
        assert(g[h] == segment(ip@, h) as u16);
        assert(j == 2 * h || j == 2 * h + 1);
    }
    assert(back@ =~= ip@);
}

/// The dotted address that the text of four octets writes at position
/// `at` of `s`, before a byte that is no digit.
#[verifier::rlimit(50)]
pub proof fn lemma_dotted_in_text(s: Seq<u8>, at: int, ip: Seq<u8>, k: int)
    requires
        0 <= k,
        k + 4 <= ip.len(),
        stands_at(s, at, dotted_text(ip, k)),
        at + dotted_text(ip, k).len() < s.len(),
        !is_digit(s[at + dotted_text(ip, k).len()]),
    ensures
        dotted_at(s, at) == Some(
            (ip[k], ip[k + 1], ip[k + 2], ip[k + 3], at + dotted_text(ip, k).len()),
        ),
{
    let d0 = decimal_text(ip[k] as nat);
    let d1 = decimal_text(ip[k + 1] as nat);
    let d2 = decimal_text(ip[k + 2] as nat);
    let d3 = decimal_text(ip[k + 3] as nat);
    let dot = seq![DOT];
    let t = dotted_text(ip, k);
    assert(t =~= d0 + (dot + (d1 + (dot + (d2 + (dot + d3))))));
    lemma_stands_split(s, at, d0, dot + (d1 + (dot + (d2 + (dot + d3)))));
    let e0 = at + d0.len();
    lemma_stands_split(s, e0, dot, d1 + (dot + (d2 + (dot + d3))));
    lemma_stands_split(s, e0 + 1, d1, dot + (d2 + (dot + d3)));
    let e1 = e0 + 1 + d1.len();
    lemma_stands_split(s, e1, dot, d2 + (dot + d3));
    lemma_stands_split(s, e1 + 1, d2, dot + d3);
    let e2 = e1 + 1 + d2.len();
    lemma_stands_split(s, e2, dot, d3);
    assert(s[e0] == dot[0] && s[e1] == dot[0] && s[e2] == dot[0]);
    lemma_octet_in_text(s, at, ip[k]);
    lemma_octet_in_text(s, e0 + 1, ip[k + 1]);
    lemma_octet_in_text(s, e1 + 1, ip[k + 2]);
    lemma_octet_in_text(s, e2 + 1, ip[k + 3]);
}

/// Reading the eight groups of an address written in full gives them back.
proof fn lemma_v6_at_full(s: Seq<u8>, ip: Seq<u8>)
    requires
        ip.len() == 16,
        stands_at(s, 1, groups_text(ip, 0, 8)),
        address_ends(s, 1 + groups_text(ip, 0, 8).len() as int),
    ensures
        v6_at(s, 1) == Some((groups_of(ip, 0, 8), 1 + groups_text(ip, 0, 8).len() as int)),
{
    lemma_groups_parse(s, 1, 0, 8, ip, 0, 8, 1 + groups_text(ip, 0, 8).len() as int);
}

/// Reading an address written with a row of zero groups left out gives
/// its eight groups back.
#[verifier::rlimit(50)]
proof fn lemma_v6_at_compressed(s: Seq<u8>, ip: Seq<u8>, start: int, len: int)
    requires
        ip.len() == 16,
        0 <= start,
        2 <= len,
        start + len <= 8,
        forall|j: int| start <= j < start + len ==> segment(ip, j) == 0,
        stands_at(
            s,
            1,
            groups_text(ip, 0, start) + seq![COLON, COLON] + groups_text(ip, start + len, 8),
        ),
        address_ends(
            s,
            1 + groups_text(ip, 0, start).len() as int + 2 + groups_text(
                ip,
                start + len,
                8,
            ).len() as int,
        ),
    ensures
        v6_at(s, 1) == Some(
            (
                groups_of(ip, 0, 8),
                1 + groups_text(ip, 0, start).len() as int + 2 + groups_text(ip, start + len, 8).len() as int,
            ),
        ),
{
    let g1 = groups_text(ip, 0, start);
    let g2 = groups_text(ip, start + len, 8);
    let gap = seq![COLON, COLON];
    let e1: int = 1 + g1.len() as int;
    let e: int = e1 + 2 + g2.len() as int;
    assert(g1 + gap + g2 =~= g1 + (gap + g2));
    lemma_stands_split(s, 1, g1, gap + g2);
    lemma_stands_split(s, e1, gap, g2);
    assert(s[e1] == gap[0] && s[e1 + 1] == gap[1]);
    lemma_groups_parse(s, 1, 0, 8, ip, 0, start, e1);
    lemma_groups_parse(s, e1 + 2, 0, (7 - start) as nat, ip, start + len, 8, e);
    let head = groups_of(ip, 0, start);
    let tail = groups_of(ip, start + len, 8);
    assert(head + Seq::new((8 - head.len() - tail.len()) as nat, |i: int| 0u16) + tail
        =~= groups_of(ip, 0, 8));
}

/// The hexadecimal text of the group of sixteen one-bits.
proof fn lemma_hex_text_ffff()
    ensures
        hex_text(0xffff) == seq![102u8, 102u8, 102u8, 102u8],
{
    reveal_with_fuel(hex_text, 5);
    assert(hex_text(0xffff) =~= seq![102u8, 102u8, 102u8, 102u8]);
}

/// Reading a mapped IPv4 address gives its eight groups back.
#[verifier::rlimit(50)]
proof fn lemma_v6_at_mapped(s: Seq<u8>, ip: Seq<u8>)
    requires
        ip.len() == 16,
        is_v4_mapped(ip),
        stands_at(s, 1, mapped_prefix() + dotted_text(ip, 12)),
        address_ends(s, 1 + 7 + dotted_text(ip, 12).len() as int),
    ensures
        v6_at(s, 1) == Some((groups_of(ip, 0, 8), 1 + 7 + dotted_text(ip, 12).len() as int)),
{
    let e = 1 + 7 + dotted_text(ip, 12).len() as int;
    lemma_stands_split(s, 1, mapped_prefix(), dotted_text(ip, 12));
    let pre = mapped_prefix();
    assert(s[1] == pre[0] && s[2] == pre[1] && s[3] == pre[2] && s[4] == pre[3] && s[5] == pre[4]
        && s[6] == pre[5] && s[7] == pre[6]);
    // nothing stands before the two colons
    assert(digit_run(s, 1) == 0);
    assert(hex_run(s, 1) == 0);
    assert(groups_from(s, 1, 0, 8) == (Seq::<u16>::empty(), 1int, false));
    // behind them: the group ffff, then the dotted address
    lemma_hex_text_ffff();
    assert(stands_at(s, 3, hex_text(0xffff)));
    lemma_group_in_text(s, 3, 0xffff);
    lemma_dotted_in_text(s, 8, ip, 12);
    let quad = v4_groups(ip[12], ip[13], ip[14], ip[15]);
    assert(group_start(s, 7, 1) == Some(8int));
    assert(groups_from(s, 7, 1, 7) == (quad, e, true));
    assert(group_start(s, 3, 0) == Some(3int));
    assert(groups_from(s, 3, 0, 7) == (seq![0xffffu16] + quad, e, true));
    let tail = seq![0xffffu16] + quad;
    assert(Seq::<u16>::empty() + Seq::new((8 - 0 - tail.len()) as nat, |i: int| 0u16) + tail
        =~= groups_of(ip, 0, 8));
}

/// Reading the text of an IPv6 address gives its eight groups back.
#[verifier::rlimit(50)]
proof fn lemma_v6_ip_parse(s: Seq<u8>, ip: Seq<u8>)
    requires
        ip.len() == 16,
        stands_at(s, 1, v6_ip_text(ip)),
        address_ends(s, 1 + v6_ip_text(ip).len() as int),
    ensures
        v6_at(s, 1) == Some((groups_of(ip, 0, 8), 1 + v6_ip_text(ip).len() as int)),
{
    if is_v4_mapped(ip) {
        assert(mapped_prefix().len() == 7);
        lemma_v6_at_mapped(s, ip);
    } else {
        let len = longest_zero_run(ip, 8);
        if len > 1 {
            let w = lemma_longest_attained(ip, 8);
            lemma_first_run_found(ip, len, 0, w);
            let start = first_run_of(ip, len, 0);
            lemma_zero_run_zeros(ip, start);
            lemma_v6_at_compressed(s, ip, start, len as int);
        } else {
            lemma_v6_at_full(s, ip);
        }
    }
}

/// Where the parts of the text of an IPv6 socket address stand.
proof fn lemma_v6_frame(s: Seq<u8>, a: Seq<u8>, z: Seq<u8>, dp: Seq<u8>)
    requires
        s == seq![91u8] + a + z + seq![93u8, COLON] + dp,
    ensures
        s.len() == a.len() + z.len() + dp.len() + 3,
        s[0] == 91,
        stands_at(s, 1, a),
        stands_at(s, 1 + a.len() as int, z),
        s[1 + a.len() as int + z.len() as int] == 93,
        s[2 + a.len() as int + z.len() as int] == COLON,
        stands_at(s, 3 + a.len() as int + z.len() as int, dp),
{
    let close = seq![93u8, COLON];
    let e: int = 1 + a.len() as int;
    let f: int = e + z.len() as int;
    assert(s =~= seq![91u8] + (a + (z + (close + dp))));
    lemma_stands_split(s, 0, seq![91u8], a + (z + (close + dp)));
    lemma_stands_split(s, 1, a, z + (close + dp));
    lemma_stands_split(s, e, z, close + dp);
    lemma_stands_split(s, f, close, dp);
    assert(s[0] == seq![91u8][0]);
    assert(s[f] == close[0] && s[f + 1] == close[1]);
}

/// The zone that its text writes at position `at` of `s`, before a
/// closing bracket.
proof fn lemma_scope_in_text(s: Seq<u8>, at: int, scope: u32)
    requires
        stands_at(s, at, scope_text(scope)),
        byte_is(s, at + scope_text(scope).len() as int, 93),
    ensures
        scope_at(s, at) == (scope, at + scope_text(scope).len() as int),
        address_ends(s, at),
{
    if scope != 0 {
        let d = decimal_text(scope as nat);
        lemma_stands_split(s, at, seq![37u8], d);
        assert(s[at] == seq![37u8][0]);
        lemma_decimal_text_digits(scope as nat);
        lemma_decimal_text_value(scope as nat);
        lemma_digit_run_of(s, at + 1, d, 0);
        lemma_digits_value_prefix(d, s, at + 1, d.len() as int);
    }
}

/// The port that its decimal text writes at the end of `s`.
proof fn lemma_port_in_text(s: Seq<u8>, at: int, port: u16)
    requires
        stands_at(s, at, decimal_text(port as nat)),
        s.len() == at + decimal_text(port as nat).len(),
    ensures
        port_at(s, at) == Some(port),
{
    let dp = decimal_text(port as nat);
    lemma_decimal_text_digits(port as nat);
    lemma_decimal_text_value(port as nat);
    lemma_digit_run_of(s, at, dp, 0);
    lemma_digits_value_prefix(dp, s, at, dp.len() as int);
}

/// Reading the text of an IPv6 socket address gives the address back.
#[verifier::rlimit(50)]
pub proof fn lemma_v6_text_roundtrip(ip: [u8; 16], port: u16, scope: u32)
    ensures
        parse_v6_text(v6_socket_text(ip@, port, scope)) == Some(SockAddr::V6 { ip, port, scope }),
        parse_v4_text(v6_socket_text(ip@, port, scope)).is_none(),
{
    let a = v6_ip_text(ip@);
    let z = scope_text(scope);
    let dp = decimal_text(port as nat);
    let s = v6_socket_text(ip@, port, scope);
    let e: int = 1 + a.len() as int;
    let f: int = e + z.len() as int;
    lemma_v6_frame(s, a, z, dp);
    lemma_port_in_text(s, f + 2, port);
    lemma_scope_in_text(s, e, scope);
    lemma_v6_ip_parse(s, ip@);
    lemma_octets_of_groups(ip);
    assert(byte_is(s, 0, 91));
    assert(byte_is(s, f, 93) && byte_is(s, f + 1, COLON));
    // no IPv4 address starts with a bracket
    assert(digit_run(s, 0) == 0);
}

/// Reading the text of a socket address gives the address back.
pub proof fn lemma_text_roundtrip(a: SockAddr)
    ensures
        parse_text(a.text()) == Some(a),
{
    match a {
        SockAddr::V4 { ip, port } => {
            lemma_v4_text_roundtrip(ip, port);
        },
        SockAddr::V6 { ip, port, scope } => {
            lemma_v6_text_roundtrip(ip, port, scope);
        },
    }
}

/// The text of a socket address starts with a digit or an opening bracket.
pub proof fn lemma_text_starts_unlike_token(a: SockAddr)
    ensures
        a.text().len() > 0,
        is_digit(a.text()[0]) || a.text()[0] == 91,
{
    match a {
        SockAddr::V4 { ip, port } => {
            lemma_v4_text_starts_with_digit(ip, port);
        },
        SockAddr::V6 { ip, port, scope } => {
            let rest = v6_ip_text(ip@) + scope_text(scope) + seq![93u8, COLON] + decimal_text(
                port as nat,
            );
            assert(v6_socket_text(ip@, port, scope) =~= seq![91u8] + rest);
        },
    }
}

} // verus!
