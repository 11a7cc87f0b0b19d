//! Dotted-quad notation for IPv4 addresses.

use vstd::prelude::*;
use vstd::string::StringSliceAdditionalSpecFns;

verus! {

/// The byte `.`.
pub const DOT: u8 = 0x2E;

/// Whether `b` is one of the bytes `0` to `9`.
pub open spec fn is_digit(b: u8) -> bool {
    0x30 <= b <= 0x39
}

/// How many decimal digits stand in `s` from position `at` on without a gap.
pub open spec fn digit_run(s: Seq<u8>, at: int) -> nat
    decreases s.len() - at,
{
    if 0 <= at < s.len() && is_digit(s[at]) {
        1 + digit_run(s, at + 1)
    } else {
        0
    }
}

/// The number written by the `n` decimal digits of `s` that start at `at`.
pub open spec fn decimal(s: Seq<u8>, at: int, n: nat) -> nat
    decreases n,
{
    if n == 0 {
        0
    } else {
        decimal(s, at, (n - 1) as nat) * 10 + (s[at + n - 1] - 0x30) as nat
    }
}

/// The octet written at `at`: all the digits that stand there, which must be
/// one to three and write a number up to 255.
pub open spec fn octet_at(s: Seq<u8>, at: int) -> Option<u8> {
    let n = digit_run(s, at);
    if 1 <= n <= 3 && decimal(s, at, n) <= 255 {
        Some(decimal(s, at, n) as u8)
    } else {
        None
    }
}

/// The value of `left` octets that stand in `s` from `at` to the very end,
/// with one dot between neighbours, appended to the octets already read,
/// whose value is `acc`.
pub open spec fn octets_from(s: Seq<u8>, at: int, left: nat, acc: nat) -> Option<nat>
    decreases left,
{
    if left == 0 {
        None
    } else {
        match octet_at(s, at) {
            None => None,
            Some(octet) => {
                let end = at + digit_run(s, at);
                let value = acc * 256 + octet as nat;
                if left == 1 {
                    if end == s.len() {
                        Some(value)
                    } else {
                        None
                    }
                } else if end < s.len() && s[end] == DOT {
                    octets_from(s, end + 1, (left - 1) as nat, value)
                } else {
                    None
                }
            },
        }
    }
}

/// The address that `s` writes in dotted-quad notation: four octets in
/// decimal, one dot between neighbours, nothing else. The first octet is the
/// most significant byte.
pub open spec fn dotted_quad_value(s: Seq<u8>) -> Option<u32> {
    quad_of(octets_from(s, 0, 4, 0))
}

/// The value of four octets as an address.
pub open spec fn quad_of(value: Option<nat>) -> Option<u32> {
    match value {
        Some(v) => Some(v as u32),
        None => None,
    }
}

/// Whether `text` writes an octet: one to three decimal digits and a number
/// up to 255.
pub open spec fn is_octet_text(text: Seq<u8>) -> bool {
    &&& 1 <= text.len() <= 3
    &&& forall|i: int| 0 <= i < text.len() ==> is_digit(text[i])
    &&& decimal(text, 0, text.len()) <= 255
}

/// The number an octet text writes.
pub open spec fn octet_value(text: Seq<u8>) -> nat {
    decimal(text, 0, text.len())
}

/// Four texts joined by dots.
pub open spec fn joined(a: Seq<u8>, b: Seq<u8>, c: Seq<u8>, d: Seq<u8>) -> Seq<u8> {
    a + seq![DOT] + b + seq![DOT] + c + seq![DOT] + d
}

/// The digits of a run are digits, and the run ends at the end of `s` or in
/// front of something else.
proof fn lemma_digit_run(s: Seq<u8>, at: int)
    requires
        0 <= at <= s.len(),
    ensures
        at + digit_run(s, at) <= s.len(),
        forall|i: int| at <= i < at + digit_run(s, at) ==> is_digit(s[i]),
        at + digit_run(s, at) < s.len() ==> !is_digit(s[at + digit_run(s, at)]),
    decreases s.len() - at,
{
    if at < s.len() && is_digit(s[at]) {
        lemma_digit_run(s, at + 1);
    }
}

/// `n` digits that stand at `at` and are not followed by another digit are
/// the whole run.
proof fn lemma_digit_run_is(s: Seq<u8>, at: int, n: nat)
    requires
        0 <= at,
        at + n <= s.len(),
        forall|i: int| at <= i < at + n ==> is_digit(s[i]),
        at + n < s.len() ==> !is_digit(s[at + n]),
    ensures
        digit_run(s, at) == n,
    decreases n,
{
    if n > 0 {
        lemma_digit_run_is(s, at + 1, (n - 1) as nat);
    }
}

/// The number written by digits depends on the digits alone, not on where
/// they stand.
proof fn lemma_decimal_of_part(s: Seq<u8>, at: int, part: Seq<u8>, n: nat)
    requires
        0 <= at,
        n <= part.len(),
        at + part.len() <= s.len(),
        s.subrange(at, at + part.len()) == part,
    ensures
        decimal(s, at, n) == decimal(part, 0, n),
    decreases n,
{
    if n > 0 {
        lemma_decimal_of_part(s, at, part, (n - 1) as nat);
        assert(part[n - 1] == s.subrange(at, at + part.len())[n - 1]);
    }
}

/// An octet text that stands in `s` at `at` and is not followed by another
/// digit is the octet read there.
proof fn lemma_octet_at_part(s: Seq<u8>, at: int, part: Seq<u8>)
    requires
        0 <= at,
        at + part.len() <= s.len(),
        s.subrange(at, at + part.len()) == part,
        is_octet_text(part),
        at + part.len() < s.len() ==> !is_digit(s[at + part.len()]),
    ensures
        digit_run(s, at) == part.len(),
        octet_at(s, at) == Some(octet_value(part) as u8),
{
    assert forall|i: int| at <= i < at + part.len() implies is_digit(s[i]) by {
        assert(s[i] == s.subrange(at, at + part.len())[i - at]);
    }
    lemma_digit_run_is(s, at, part.len());
    lemma_decimal_of_part(s, at, part, part.len());
}

/// Four octet texts joined by dots write the address whose bytes, most
/// significant first, are the four octets.
pub proof fn lemma_dotted_quad_of_parts(a: Seq<u8>, b: Seq<u8>, c: Seq<u8>, d: Seq<u8>)
    requires
        is_octet_text(a),
        is_octet_text(b),
        is_octet_text(c),
        is_octet_text(d),
    ensures
        dotted_quad_value(joined(a, b, c, d)) == Some(
            (octet_value(a) * 0x100_0000 + octet_value(b) * 0x1_0000 + octet_value(c) * 0x100
                + octet_value(d)) as u32,
        ),
{
    let s = joined(a, b, c, d);
    let at_b: int = a.len() as int + 1;
    let at_c: int = at_b + b.len() + 1;
    let at_d: int = at_c + c.len() + 1;
    assert(s.len() == at_d + d.len());
    assert(s.subrange(0, a.len() as int) =~= a);
    assert(s.subrange(at_b, at_b + b.len()) =~= b);
    assert(s.subrange(at_c, at_c + c.len()) =~= c);
    assert(s.subrange(at_d, at_d + d.len()) =~= d);
    assert(s[at_b - 1] == DOT && s[at_c - 1] == DOT && s[at_d - 1] == DOT);
    lemma_octet_at_part(s, 0, a);
    lemma_octet_at_part(s, at_b, b);
    lemma_octet_at_part(s, at_c, c);
    lemma_octet_at_part(s, at_d, d);
    let va: nat = octet_value(a);
    let vb: nat = va * 256 + octet_value(b);
    let vc: nat = vb * 256 + octet_value(c);
    let vd: nat = vc * 256 + octet_value(d);
    assert(octets_from(s, at_d, 1, vc) == Some(vd));
    assert(octets_from(s, at_c, 2, vb) == octets_from(s, at_d, 1, vc));
    assert(octets_from(s, at_b, 3, va) == octets_from(s, at_c, 2, vb));
    assert(octets_from(s, 0, 4, 0) == octets_from(s, at_b, 3, va));
}

/// Whatever is read as an address is four octet texts joined by dots.
pub proof fn lemma_dotted_quad_has_parts(s: Seq<u8>)
    requires
        dotted_quad_value(s) is Some,
    ensures
        exists|a: Seq<u8>, b: Seq<u8>, c: Seq<u8>, d: Seq<u8>|
            is_octet_text(a) && is_octet_text(b) && is_octet_text(c) && is_octet_text(d) && s
                == #[trigger] joined(a, b, c, d),
{
    let na: nat = digit_run(s, 0);
    let at_b: int = na as int + 1;
    let oa: nat = octet_at(s, 0).unwrap() as nat;
    assert(octets_from(s, 0, 4, 0) == octets_from(s, at_b, 3, oa));
    let nb: nat = digit_run(s, at_b);
    let at_c: int = at_b + nb + 1;
    let ob: nat = oa * 256 + octet_at(s, at_b).unwrap() as nat;
    assert(octets_from(s, at_b, 3, oa) == octets_from(s, at_c, 2, ob));
    let nc: nat = digit_run(s, at_c);
    let at_d: int = at_c + nc + 1;
    let oc: nat = ob * 256 + octet_at(s, at_c).unwrap() as nat;
    assert(octets_from(s, at_c, 2, ob) == octets_from(s, at_d, 1, oc));
    let nd: nat = digit_run(s, at_d);
    assert(at_d + nd == s.len());
    lemma_digit_run(s, 0);
    lemma_digit_run(s, at_b);
    lemma_digit_run(s, at_c);
    lemma_digit_run(s, at_d);
    let a = s.subrange(0, na as int);
    let b = s.subrange(at_b, at_b + nb);
    let c = s.subrange(at_c, at_c + nc);
    let d = s.subrange(at_d, at_d + nd);
    lemma_decimal_of_part(s, 0, a, na);
    lemma_decimal_of_part(s, at_b, b, nb);
    lemma_decimal_of_part(s, at_c, c, nc);
    lemma_decimal_of_part(s, at_d, d, nd);
    assert(is_octet_text(a));
    assert(is_octet_text(b));
    assert(is_octet_text(c));
    assert(is_octet_text(d));
    assert(s =~= joined(a, b, c, d));
}

/// Reads the octet written at `at` and returns it with the position behind
/// its last digit.
fn read_octet(s: &[u8], at: usize) -> (read: Option<(u8, usize)>)
    requires
        at <= s@.len(),
    ensures
        match read {
            Some((octet, end)) => octet_at(s@, at as int) == Some(octet) && end == at + digit_run(
                s@,
                at as int,
            ) && end <= s@.len(),
            None => octet_at(s@, at as int) is None,
        },
{
    let len = s.len();
    let mut n: usize = 0;
    let mut value: u32 = 0;
    while n < 4 && at + n < len && 0x30 <= s[at + n] && s[at + n] <= 0x39
        invariant
            len == s@.len(),
            at <= len,
            n <= 4,
            at + n <= len,
            digit_run(s@, at as int) == n + digit_run(s@, at + n),
            value == decimal(s@, at as int, n as nat),
            n == 0 ==> value == 0,
            n == 1 ==> value <= 9,
            n == 2 ==> value <= 99,
            n == 3 ==> value <= 999,
            n == 4 ==> value <= 9999,
        decreases 4 - n,
    {
        let digit = (s[at + n] - 0x30) as u32;
        value = value * 10 + digit;
        n += 1;
    }
    if n == 0 || n == 4 || value > 255 {
        None
    } else {
        Some((value as u8, at + n))
    }
}

/// Reads an IPv4 address in dotted-quad notation, such as `10.0.0.3`.
///
/// Returns `None` unless `s` is exactly four decimal octets of one to three
/// digits each, none above 255, with one dot between neighbours.
pub fn parse_dotted_quad(s: &str) -> (address: Option<u32>)
    ensures
        address == dotted_quad_value(s.spec_bytes()),
{
    let bytes = s.as_bytes();
    let mut at: usize = 0;
    let mut value: u32 = 0;
    let mut left: usize = 4;
    while left > 0
        invariant
            at <= bytes@.len(),
            left <= 4,
            left == 4 ==> value == 0,
            left == 3 ==> value < 0x100,
            left == 2 ==> value < 0x1_0000,
            left == 1 ==> value < 0x100_0000,
            dotted_quad_value(s.spec_bytes()) == quad_of(
                octets_from(bytes@, at as int, left as nat, value as nat),
            ),
        decreases left,
    {
        let (octet, end) = match read_octet(bytes, at) {
            Some(read) => read,
            None => {
                return None;
            },
        };
        let joined = value * 256 + octet as u32;
        if left == 1 {
            if end == bytes.len() {
                return Some(joined);
            } else {
                return None;
            }
        }
        if end >= bytes.len() || bytes[end] != DOT {
            return None;
        }
        value = joined;
        at = end + 1;
        left -= 1;
    }
    None
}

} // verus!
