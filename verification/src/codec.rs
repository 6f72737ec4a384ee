//! The compact binary encoding of the embedded configuration.
//!
//! Numbers other than single bytes are written as variable-length integers:
//! a value up to 250 is one byte; a larger one is a marker byte (251, 252 or
//! 253) followed by the value as a little-endian integer of 2, 4 or 8 bytes.
//! A byte string or a text is its length followed by its bytes, and a
//! boolean is the byte 0 or 1. Reading tolerates the wider markers for small
//! values and whatever follows the last field.

use crate::addr::SockAddr;
use crate::text::string_from_utf8;
use vstd::prelude::*;
use vstd::utf8::{decode_utf8, valid_utf8};

verus! {

/// Why an encoding could not be written or read.
#[derive(Clone, Copy, Debug, PartialEq, Eq, Structural)]
pub enum CodecError {
    /// The encoding would be longer than the reserved section.
    SizeLimit,
    /// The bytes end before the value does.
    UnexpectedEnd,
    /// A number starts with a marker byte that stands for no width.
    InvalidTag(u8),
    /// A number is too large for the field it stands in.
    InvalidNumber,
    /// A boolean is neither 0 nor 1.
    InvalidBool(u8),
    /// A text is not well-formed UTF-8.
    InvalidUtf8,
    /// An address is of neither family.
    InvalidVariant(u32),
}

/// Largest value that is written as a single byte.
pub const SINGLE_BYTE_MAX: u8 = 250;

/// Marker of a two-byte number.
pub const U16_TAG: u8 = 251;

/// Marker of a four-byte number.
pub const U32_TAG: u8 = 252;

/// Marker of an eight-byte number.
pub const U64_TAG: u8 = 253;

/// The `width` low bytes of `n`, lowest first.
pub open spec fn le_bytes(n: nat, width: nat) -> Seq<u8>
    decreases width,
{
    if width == 0 {
        Seq::empty()
    } else {
        seq![(n % 256) as u8] + le_bytes(n / 256, (width - 1) as nat)
    }
}

/// The number that the `width` bytes of `s` from `at` on write, lowest byte first.
pub open spec fn le_value(s: Seq<u8>, at: int, width: nat) -> nat
    decreases width,
{
    if width == 0 {
        0
    } else {
        s[at] as nat + 256 * le_value(s, at + 1, (width - 1) as nat)
    }
}

/// 256 to the power `k`.
pub open spec fn pow256(k: nat) -> nat
    decreases k,
{
    if k == 0 {
        1
    } else {
        256 * pow256((k - 1) as nat)
    }
}

/// The variable-length encoding of `n`.
pub open spec fn varint(n: nat) -> Seq<u8> {
    if n <= 250 {
        seq![n as u8]
    } else if n <= 0xffff {
        seq![251u8] + le_bytes(n, 2)
    } else if n <= 0xffff_ffff {
        seq![252u8] + le_bytes(n, 4)
    } else {
        seq![253u8] + le_bytes(n, 8)
    }
}

/// The encoding of a boolean.
pub open spec fn encode_bool(b: bool) -> Seq<u8> {
    seq![if b { 1u8 } else { 0u8 }]
}

/// The encoding of a byte string: its length, then its bytes.
pub open spec fn encode_bytes(b: Seq<u8>) -> Seq<u8> {
    varint(b.len()) + b
}

/// The encoding of a socket address: its family (0 for IPv4, 1 for IPv6),
/// the octets of the IP address, and the port. The zone of an IPv6
/// address is not written.
pub open spec fn encode_addr(a: SockAddr) -> Seq<u8> {
    match a {
        SockAddr::V4 { ip, port } => varint(0) + ip@ + varint(port as nat),
        SockAddr::V6 { ip, port, scope } => varint(1) + ip@ + varint(port as nat),
    }
}

/// The address as the encoding keeps it: without its zone.
pub open spec fn unscoped(a: SockAddr) -> SockAddr {
    match a {
        SockAddr::V4 { ip, port } => a,
        SockAddr::V6 { ip, port, scope } => SockAddr::V6 { ip, port, scope: 0 },
    }
}

/// The little-endian number of `width` bytes at `at`, and the position behind it.
pub open spec fn fixed_at(s: Seq<u8>, at: int, width: nat) -> Result<(nat, int), CodecError> {
    if 0 <= at && at + width <= s.len() {
        Ok((le_value(s, at, width), at + width))
    } else {
        Err(CodecError::UnexpectedEnd)
    }
}

/// The variable-length number at `at`, and the position behind it.
pub open spec fn varint_at(s: Seq<u8>, at: int) -> Result<(nat, int), CodecError> {
    if !(0 <= at < s.len()) {
        Err(CodecError::UnexpectedEnd)
    } else if s[at] <= 250 {
        Ok((s[at] as nat, at + 1))
    } else if s[at] == 251 {
        fixed_at(s, at + 1, 2)
    } else if s[at] == 252 {
        fixed_at(s, at + 1, 4)
    } else if s[at] == 253 {
        fixed_at(s, at + 1, 8)
    } else {
        Err(CodecError::InvalidTag(s[at]))
    }
}

/// The variable-length number at `at` where it is at most `max`.
pub open spec fn number_at(s: Seq<u8>, at: int, max: nat) -> Result<(nat, int), CodecError> {
    match varint_at(s, at) {
        Ok((v, next)) => if v <= max {
            Ok((v, next))
        } else {
            Err(CodecError::InvalidNumber)
        },
        Err(e) => Err(e),
    }
}

/// The boolean at `at`, and the position behind it.
pub open spec fn bool_at(s: Seq<u8>, at: int) -> Result<(bool, int), CodecError> {
    if !(0 <= at < s.len()) {
        Err(CodecError::UnexpectedEnd)
    } else if s[at] == 0 {
        Ok((false, at + 1))
    } else if s[at] == 1 {
        Ok((true, at + 1))
    } else {
        Err(CodecError::InvalidBool(s[at]))
    }
}

/// The byte string at `at`, and the position behind it.
pub open spec fn bytes_at(s: Seq<u8>, at: int) -> Result<(Seq<u8>, int), CodecError> {
    match number_at(s, at, usize::MAX as nat) {
        Ok((len, next)) => if next + len <= s.len() {
            Ok((s.subrange(next, next + len), next + len))
        } else {
            Err(CodecError::UnexpectedEnd)
        },
        Err(e) => Err(e),
    }
}

/// The text at `at`, and the position behind it.
pub open spec fn text_at(s: Seq<u8>, at: int) -> Result<(Seq<char>, int), CodecError> {
    match bytes_at(s, at) {
        Ok((b, next)) => if valid_utf8(b) {
            Ok((decode_utf8(b), next))
        } else {
            Err(CodecError::InvalidUtf8)
        },
        Err(e) => Err(e),
    }
}

/// The four bytes of `s` from `at` on.
pub open spec fn ip4_at(s: Seq<u8>, at: int) -> [u8; 4] {
    [s[at], s[at + 1], s[at + 2], s[at + 3]]
}

/// The sixteen bytes of `s` from `at` on.
pub open spec fn ip16_at(s: Seq<u8>, at: int) -> [u8; 16] {
    [
        s[at],
        s[at + 1],
        s[at + 2],
        s[at + 3],
        s[at + 4],
        s[at + 5],
        s[at + 6],
        s[at + 7],
        s[at + 8],
        s[at + 9],
        s[at + 10],
        s[at + 11],
        s[at + 12],
        s[at + 13],
        s[at + 14],
        s[at + 15],
    ]
}

/// The port behind the `width` octets of an address that start at `at`.
pub open spec fn port_behind(s: Seq<u8>, at: int, width: int) -> Result<(u16, int), CodecError> {
    if at + width <= s.len() {
        match number_at(s, at + width, 0xffff) {
            Ok((port, end)) => Ok((port as u16, end)),
            Err(e) => Err(e),
        }
    } else {
        Err(CodecError::UnexpectedEnd)
    }
}

/// The socket address at `at`, and the position behind it.
pub open spec fn addr_at(s: Seq<u8>, at: int) -> Result<(SockAddr, int), CodecError> {
    match number_at(s, at, 0xffff_ffff) {
        Ok((family, next)) => if family == 0 {
            match port_behind(s, next, 4) {
                Ok((port, end)) => Ok((SockAddr::V4 { ip: ip4_at(s, next), port }, end)),
                Err(e) => Err(e),
            }
        } else if family == 1 {
            match port_behind(s, next, 16) {
                Ok((port, end)) => Ok(
                    (SockAddr::V6 { ip: ip16_at(s, next), port, scope: 0 }, end),
                ),
                Err(e) => Err(e),
            }
        } else {
            Err(CodecError::InvalidVariant(family as u32))
        },
        Err(e) => Err(e),
    }
}

/// The values of `pow256` that the widths in use need.
pub proof fn lemma_pow256_values()
    ensures
        pow256(0) == 1,
        pow256(1) == 0x100,
        pow256(2) == 0x1_0000,
        pow256(4) == 0x1_0000_0000,
        pow256(7) == 0x100_0000_0000_0000,
        pow256(8) == 0x1_0000_0000_0000_0000,
{
    reveal_with_fuel(pow256, 9);
}

/// A little-endian number of `width` bytes is below 256 to the power `width`.
pub proof fn lemma_le_value_bound(s: Seq<u8>, at: int, width: nat)
    ensures
        le_value(s, at, width) < pow256(width),
    decreases width,
{
    if width > 0 {
        lemma_le_value_bound(s, at + 1, (width - 1) as nat);
    }
}

/// The bytes of a number have the width asked for.
pub proof fn lemma_le_bytes_len(n: nat, width: nat)
    ensures
        le_bytes(n, width).len() == width,
    decreases width,
{
    if width > 0 {
        lemma_le_bytes_len(n / 256, (width - 1) as nat);
    }
}

/// Reading the bytes of a number gives the number back, where the width holds it.
pub proof fn lemma_le_roundtrip(s: Seq<u8>, at: int, n: nat, width: nat)
    requires
        0 <= at,
        at + width <= s.len(),
        n < pow256(width),
        le_bytes(n, width).len() == width,
        forall|j: int| 0 <= j < width ==> s[at + j] == #[trigger] le_bytes(n, width)[j],
    ensures
        le_value(s, at, width) == n,
    decreases width,
{
    if width > 0 {
        let rest = le_bytes(n / 256, (width - 1) as nat);
        lemma_le_bytes_len(n / 256, (width - 1) as nat);
        assert forall|j: int| 0 <= j < width - 1 implies s[at + 1 + j] == #[trigger] rest[j] by {
            assert(le_bytes(n, width)[j + 1] == rest[j]);
        }
        assert(le_bytes(n, width)[0] == (n % 256) as u8);
        lemma_le_roundtrip(s, at + 1, n / 256, (width - 1) as nat);
    }
}

/// The length of a variable-length encoding.
pub open spec fn varint_len(n: nat) -> nat {
    if n <= 250 {
        1
    } else if n <= 0xffff {
        3
    } else if n <= 0xffff_ffff {
        5
    } else {
        9
    }
}

/// A variable-length encoding is 1, 3, 5 or 9 bytes long.
pub proof fn lemma_varint_len(n: nat)
    ensures
        varint(n).len() == varint_len(n),
{
    lemma_le_bytes_len(n, 2);
    lemma_le_bytes_len(n, 4);
    lemma_le_bytes_len(n, 8);
}

/// The bytes `enc` stand in `s` from position `at` on.
pub open spec fn holds_at(s: Seq<u8>, at: int, enc: Seq<u8>) -> bool {
    &&& 0 <= at
    &&& at + enc.len() <= s.len()
    &&& forall|j: int| 0 <= j < enc.len() ==> s[at + j] == #[trigger] enc[j]
}

/// Where two encodings stand one behind the other, each stands in its place.
pub proof fn lemma_holds_at_split(s: Seq<u8>, at: int, a: Seq<u8>, b: Seq<u8>)
    requires
        holds_at(s, at, a + b),
    ensures
        holds_at(s, at, a),
        holds_at(s, at + a.len(), b),
{
    assert forall|j: int| 0 <= j < a.len() implies s[at + j] == #[trigger] a[j] by {
        assert((a + b)[j] == a[j]);
    }
    assert forall|j: int| 0 <= j < b.len() implies s[at + a.len() + j] == #[trigger] b[j] by {
        assert((a + b)[a.len() + j] == b[j]);
    }
}

/// Reading the encoding of a number below 2^64 gives the number back.
pub proof fn lemma_varint_roundtrip(s: Seq<u8>, at: int, n: nat)
    requires
        n <= u64::MAX,
        holds_at(s, at, varint(n)),
    ensures
        varint_at(s, at) == Ok::<(nat, int), CodecError>((n, at + varint(n).len())),
{
    lemma_varint_len(n);
    lemma_pow256_values();
    let enc = varint(n);
    assert(s[at] == enc[0]);
    if n > 250 {
        let width: nat = if n <= 0xffff {
            2
        } else if n <= 0xffff_ffff {
            4
        } else {
            8
        };
        let body = le_bytes(n, width);
        lemma_le_bytes_len(n, width);
        assert forall|j: int| 0 <= j < width implies s[at + 1 + j] == #[trigger] body[j] by {
            assert(enc[j + 1] == body[j]);
        }
        lemma_le_roundtrip(s, at + 1, n, width);
    }
}

/// Reading the encoding of a byte string gives the string back.
pub proof fn lemma_bytes_roundtrip(s: Seq<u8>, at: int, b: Seq<u8>)
    requires
        b.len() <= usize::MAX,
        holds_at(s, at, encode_bytes(b)),
    ensures
        bytes_at(s, at) == Ok::<(Seq<u8>, int), CodecError>((b, at + encode_bytes(b).len())),
{
    lemma_holds_at_split(s, at, varint(b.len()), b);
    lemma_varint_roundtrip(s, at, b.len());
    let next = at + varint(b.len()).len();
    assert(s.subrange(next, next + b.len()) =~= b);
}

/// Reading the encoding of a boolean gives the boolean back.
pub proof fn lemma_bool_roundtrip(s: Seq<u8>, at: int, b: bool)
    requires
        holds_at(s, at, encode_bool(b)),
    ensures
        bool_at(s, at) == Ok::<(bool, int), CodecError>((b, at + 1)),
{
    assert(s[at] == encode_bool(b)[0]);
}

/// Reading the encoding of a socket address gives the address back,
/// without its zone.
#[verifier::rlimit(50)]
pub proof fn lemma_addr_roundtrip(s: Seq<u8>, at: int, a: SockAddr)
    requires
        holds_at(s, at, encode_addr(a)),
    ensures
        addr_at(s, at) == Ok::<(SockAddr, int), CodecError>(
            (unscoped(a), at + encode_addr(a).len()),
        ),
{
    match a {
        SockAddr::V4 { ip, port } => {
            lemma_holds_at_split(s, at, varint(0) + ip@, varint(port as nat));
            lemma_holds_at_split(s, at, varint(0), ip@);
            lemma_varint_roundtrip(s, at, 0);
            lemma_varint_roundtrip(s, at + 1 + 4, port as nat);
            assert(varint(0).len() == 1);
            assert(ip@.len() == 4);
            assert(ip4_at(s, at + 1)@ =~= ip@);
            assert(ip4_at(s, at + 1) == ip);
            assert(number_at(s, at, 0xffff_ffff) == Ok::<(nat, int), CodecError>((0, at + 1)));
            assert(encode_addr(a).len() == 5 + varint(port as nat).len());
        },
        SockAddr::V6 { ip, port, scope } => {
            lemma_holds_at_split(s, at, varint(1) + ip@, varint(port as nat));
            lemma_holds_at_split(s, at, varint(1), ip@);
            lemma_varint_roundtrip(s, at, 1);
            lemma_varint_roundtrip(s, at + 1 + 16, port as nat);
            assert(varint(1).len() == 1);
            assert(ip@.len() == 16);
            assert(ip16_at(s, at + 1)@ =~= ip@);
            assert(ip16_at(s, at + 1) == ip);
            assert(number_at(s, at, 0xffff_ffff) == Ok::<(nat, int), CodecError>((1, at + 1)));
            assert(encode_addr(a).len() == 17 + varint(port as nat).len());
        },
    }
}

/// Appends the `width` low bytes of `n`, lowest first.
fn push_le(out: &mut Vec<u8>, n: u64, width: usize)
    requires
        width <= 8,
    ensures
        final(out)@ == old(out)@ + le_bytes(n as nat, width as nat),
{
    let mut rest: u64 = n;
    let mut i: usize = 0;
    while i < width
        invariant
            i <= width <= 8,
            old(out)@ + le_bytes(n as nat, width as nat) == out@ + le_bytes(
                rest as nat,
                (width - i) as nat,
            ),
        decreases width - i,
    {
        let ghost before = out@;
        out.push((rest % 256) as u8);
        proof {
            let tail = le_bytes((rest / 256) as nat, (width - i - 1) as nat);
            assert(le_bytes(rest as nat, (width - i) as nat) == seq![(rest % 256) as u8] + tail);
            assert(before + (seq![(rest % 256) as u8] + tail) =~= out@ + tail);
        }
        rest = rest / 256;
        i += 1;
    }
    assert(out@ + le_bytes(rest as nat, 0) =~= out@);
}

/// Appends the variable-length encoding of `n`.
pub fn push_varint(out: &mut Vec<u8>, n: u64)
    ensures
        final(out)@ == old(out)@ + varint(n as nat),
{
    if n <= 250 {
        out.push(n as u8);
        assert(out@ =~= old(out)@ + varint(n as nat));
    } else {
        let ghost before = out@;
        let width: usize = if n <= 0xffff {
            out.push(U16_TAG);
            2
        } else if n <= 0xffff_ffff {
            out.push(U32_TAG);
            4
        } else {
            out.push(U64_TAG);
            8
        };
        push_le(out, n, width);
        assert(out@ =~= before + varint(n as nat));
    }
}

/// Appends the bytes of `b`.
pub fn push_all(out: &mut Vec<u8>, b: &[u8])
    ensures
        final(out)@ == old(out)@ + b@,
{
    let mut i: usize = 0;
    while i < b.len()
        invariant
            i <= b.len(),
            out@ == old(out)@ + b@.take(i as int),
        decreases b.len() - i,
    {
        out.push(b[i]);
        assert(b@.take(i + 1) =~= b@.take(i as int).push(b@[i as int]));
        assert(out@ =~= old(out)@ + b@.take(i + 1));
        i += 1;
    }
    assert(b@.take(b.len() as int) =~= b@);
}

/// Appends the encoding of a byte string.
pub fn push_bytes(out: &mut Vec<u8>, b: &[u8])
    ensures
        final(out)@ == old(out)@ + encode_bytes(b@),
{
    push_varint(out, b.len() as u64);
    push_all(out, b);
    assert(out@ =~= old(out)@ + encode_bytes(b@));
}

/// Appends the encoding of a boolean.
pub fn push_bool(out: &mut Vec<u8>, b: bool)
    ensures
        final(out)@ == old(out)@ + encode_bool(b),
{
    out.push(if b { 1 } else { 0 });
    assert(out@ =~= old(out)@ + encode_bool(b));
}

/// Appends the encoding of a socket address.
pub fn push_addr(out: &mut Vec<u8>, a: &SockAddr)
    ensures
        final(out)@ == old(out)@ + encode_addr(*a),
{
    match a {
        SockAddr::V4 { ip, port } => {
            push_varint(out, 0);
            push_all(out, ip.as_slice());
            push_varint(out, *port as u64);
            assert(out@ =~= old(out)@ + encode_addr(*a));
        },
        SockAddr::V6 { ip, port, scope } => {
            push_varint(out, 1);
            push_all(out, ip.as_slice());
            push_varint(out, *port as u64);
            assert(out@ =~= old(out)@ + encode_addr(*a));
        },
    }
}

/// Reads a little-endian number of `width` bytes at `at`.
fn read_fixed(s: &[u8], at: usize, width: usize) -> (r: Result<(u64, usize), CodecError>)
    requires
        at <= s.len(),
        1 <= width <= 8,
    ensures
        match r {
            Ok((v, next)) => fixed_at(s@, at as int, width as nat) == Ok::<(nat, int), CodecError>(
                (v as nat, next as int),
            ) && next <= s.len(),
            Err(e) => fixed_at(s@, at as int, width as nat) == Err::<(nat, int), CodecError>(e),
        },
{
    if width > s.len() - at {
        return Err(CodecError::UnexpectedEnd);
    }
    let mut v: u64 = 0;
    let mut i: usize = width;
    while i > 0
        invariant
            i <= width <= 8,
            at + width <= s.len(),
            v == le_value(s@, at + i, (width - i) as nat),
        decreases i,
    {
        i -= 1;
        proof {
            lemma_le_value_bound(s@, at + i + 1, (width - i - 1) as nat);
            lemma_pow256_bound((width - i - 1) as nat);
        }
        v = v * 256 + s[at + i] as u64;
    }
    Ok((v, at + width))
}

/// Reads the variable-length number at `at`.
pub fn read_varint(s: &[u8], at: usize) -> (r: Result<(u64, usize), CodecError>)
    requires
        at <= s.len(),
    ensures
        match r {
            Ok((v, next)) => varint_at(s@, at as int) == Ok::<(nat, int), CodecError>(
                (v as nat, next as int),
            ) && next <= s.len(),
            Err(e) => varint_at(s@, at as int) == Err::<(nat, int), CodecError>(e),
        },
{
    if at >= s.len() {
        return Err(CodecError::UnexpectedEnd);
    }
    let tag = s[at];
    if tag <= SINGLE_BYTE_MAX {
        Ok((tag as u64, at + 1))
    } else if tag == U16_TAG {
        read_fixed(s, at + 1, 2)
    } else if tag == U32_TAG {
        read_fixed(s, at + 1, 4)
    } else if tag == U64_TAG {
        read_fixed(s, at + 1, 8)
    } else {
        Err(CodecError::InvalidTag(tag))
    }
}

/// Reads the variable-length number at `at` where it is at most `max`.
pub fn read_number(s: &[u8], at: usize, max: u64) -> (r: Result<(u64, usize), CodecError>)
    requires
        at <= s.len(),
    ensures
        match r {
            Ok((v, next)) => number_at(s@, at as int, max as nat) == Ok::<(nat, int), CodecError>(
                (v as nat, next as int),
            ) && next <= s.len() && v <= max,
            Err(e) => number_at(s@, at as int, max as nat) == Err::<(nat, int), CodecError>(e),
        },
{
    let (v, next) = read_varint(s, at)?;
    if v <= max {
        Ok((v, next))
    } else {
        Err(CodecError::InvalidNumber)
    }
}

/// Reads the boolean at `at`.
pub fn read_bool(s: &[u8], at: usize) -> (r: Result<(bool, usize), CodecError>)
    requires
        at <= s.len(),
    ensures
        match r {
            Ok((v, next)) => bool_at(s@, at as int) == Ok::<(bool, int), CodecError>(
                (v, next as int),
            ) && next <= s.len(),
            Err(e) => bool_at(s@, at as int) == Err::<(bool, int), CodecError>(e),
        },
{
    if at >= s.len() {
        return Err(CodecError::UnexpectedEnd);
    }
    let b = s[at];
    if b == 0 {
        Ok((false, at + 1))
    } else if b == 1 {
        Ok((true, at + 1))
    } else {
        Err(CodecError::InvalidBool(b))
    }
}

/// Reads the byte string at `at`.
pub fn read_bytes(s: &[u8], at: usize) -> (r: Result<(Vec<u8>, usize), CodecError>)
    requires
        at <= s.len(),
    ensures
        match r {
            Ok((v, next)) => bytes_at(s@, at as int) == Ok::<(Seq<u8>, int), CodecError>(
                (v@, next as int),
            ) && next <= s.len(),
            Err(e) => bytes_at(s@, at as int) == Err::<(Seq<u8>, int), CodecError>(e),
        },
{
    let (len, next) = read_number(s, at, usize::MAX as u64)?;
    let len = len as usize;
    if len > s.len() - next {
        return Err(CodecError::UnexpectedEnd);
    }
    let mut v: Vec<u8> = Vec::new();
    let mut i: usize = 0;
    while i < len
        invariant
            i <= len,
            next + len <= s.len(),
            v@ == s@.subrange(next as int, next + i),
        decreases len - i,
    {
        v.push(s[next + i]);
        assert(s@.subrange(next as int, next + i + 1) =~= s@.subrange(next as int, next + i).push(
            s@[next + i],
        ));
        i += 1;
    }
    Ok((v, next + len))
}

/// Reads the text at `at`.
pub fn read_text(s: &[u8], at: usize) -> (r: Result<(String, usize), CodecError>)
    requires
        at <= s.len(),
    ensures
        match r {
            Ok((v, next)) => text_at(s@, at as int) == Ok::<(Seq<char>, int), CodecError>(
                (v@, next as int),
            ) && next <= s.len(),
            Err(e) => text_at(s@, at as int) == Err::<(Seq<char>, int), CodecError>(e),
        },
{
    let (bytes, next) = read_bytes(s, at)?;
    match string_from_utf8(bytes) {
        Some(text) => Ok((text, next)),
        None => Err(CodecError::InvalidUtf8),
    }
}

/// Reads the port behind the `width` octets of an address that start at `at`.
fn read_port_behind(s: &[u8], at: usize, width: usize) -> (r: Result<(u16, usize), CodecError>)
    requires
        at <= s.len(),
        width <= 16,
    ensures
        match r {
            Ok((v, next)) => port_behind(s@, at as int, width as int) == Ok::<
                (u16, int),
                CodecError,
            >((v, next as int)) && next <= s.len() && at + width <= s.len(),
            Err(e) => port_behind(s@, at as int, width as int) == Err::<(u16, int), CodecError>(e),
        },
{
    if width > s.len() - at {
        return Err(CodecError::UnexpectedEnd);
    }
    let (port, end) = read_number(s, at + width, 0xffff)?;
    Ok((port as u16, end))
}

/// Reads the socket address at `at`.
pub fn read_addr(s: &[u8], at: usize) -> (r: Result<(SockAddr, usize), CodecError>)
    requires
        at <= s.len(),
    ensures
        match r {
            Ok((v, next)) => addr_at(s@, at as int) == Ok::<(SockAddr, int), CodecError>(
                (v, next as int),
            ) && next <= s.len(),
            Err(e) => addr_at(s@, at as int) == Err::<(SockAddr, int), CodecError>(e),
        },
{
    let (family, next) = read_number(s, at, 0xffff_ffff)?;
    if family == 0 {
        let (port, end) = read_port_behind(s, next, 4)?;
        let ip: [u8; 4] = [s[next], s[next + 1], s[next + 2], s[next + 3]];
        assert(ip@ =~= ip4_at(s@, next as int)@);
        assert(ip == ip4_at(s@, next as int));
        Ok((SockAddr::V4 { ip, port }, end))
    } else if family == 1 {
        let (port, end) = read_port_behind(s, next, 16)?;
        let mut ip: [u8; 16] = [0u8; 16];
        let mut i: usize = 0;
        while i < 16
            invariant
                i <= 16,
                next + 16 <= s.len(),
                forall|j: int| 0 <= j < i ==> ip@[j] == s@[next + j],
            decreases 16 - i,
        {
            ip[i] = s[next + i];
            i += 1;
        }
        assert(ip@ =~= ip16_at(s@, next as int)@);
        assert(ip == ip16_at(s@, next as int));
        Ok((SockAddr::V6 { ip, port, scope: 0 }, end))
    } else {
        Err(CodecError::InvalidVariant(family as u32))
    }
}

/// 256 to a power below eight is below 2^56.
proof fn lemma_pow256_bound(k: nat)
    requires
        k <= 7,
    ensures
        pow256(k) <= 0x100_0000_0000_0000,
{
    reveal_with_fuel(pow256, 9);
}

/// No number is read from fewer bytes than its encoding has: the
/// encoding is the shortest way to write it.
pub proof fn lemma_varint_shortest(s: Seq<u8>, at: int)
    requires
        varint_at(s, at) is Ok,
    ensures
        varint_len(varint_at(s, at)->Ok_0.0) <= varint_at(s, at)->Ok_0.1 - at,
        varint_at(s, at)->Ok_0.1 <= s.len(),
        at < varint_at(s, at)->Ok_0.1,
{
    lemma_pow256_values();
    if s[at] == 251 {
        lemma_le_value_bound(s, at + 1, 2);
    } else if s[at] == 252 {
        lemma_le_value_bound(s, at + 1, 4);
    } else if s[at] == 253 {
        lemma_le_value_bound(s, at + 1, 8);
    }
}

/// No byte string is read from fewer bytes than its encoding has.
pub proof fn lemma_bytes_shortest(s: Seq<u8>, at: int)
    requires
        bytes_at(s, at) is Ok,
    ensures
        encode_bytes(bytes_at(s, at)->Ok_0.0).len() <= bytes_at(s, at)->Ok_0.1 - at,
        bytes_at(s, at)->Ok_0.1 <= s.len(),
        at < bytes_at(s, at)->Ok_0.1,
{
    lemma_varint_shortest(s, at);
    lemma_varint_len(bytes_at(s, at)->Ok_0.0.len());
}

/// No socket address is read from fewer bytes than its encoding has.
pub proof fn lemma_addr_shortest(s: Seq<u8>, at: int)
    requires
        addr_at(s, at) is Ok,
    ensures
        encode_addr(addr_at(s, at)->Ok_0.0).len() <= addr_at(s, at)->Ok_0.1 - at,
        addr_at(s, at)->Ok_0.1 <= s.len(),
        at < addr_at(s, at)->Ok_0.1,
{
    lemma_varint_shortest(s, at);
    let next = varint_at(s, at)->Ok_0.1;
    let family = varint_at(s, at)->Ok_0.0;
    let width: int = if family == 0 {
        4
    } else {
        16
    };
    lemma_varint_shortest(s, next + width);
    let a = addr_at(s, at)->Ok_0.0;
    lemma_varint_len(0);
    lemma_varint_len(1);
    match a {
        SockAddr::V4 { ip, port } => {
            lemma_varint_len(port as nat);
            assert(ip@.len() == 4);
        },
        SockAddr::V6 { ip, port, scope } => {
            lemma_varint_len(port as nat);
            assert(ip@.len() == 16);
        },
    }
}

/// An address that was read has no zone.
pub proof fn lemma_addr_read_unscoped(s: Seq<u8>, at: int)
    requires
        addr_at(s, at) is Ok,
    ensures
        unscoped(addr_at(s, at)->Ok_0.0) == addr_at(s, at)->Ok_0.0,
{
}

} // verus!
