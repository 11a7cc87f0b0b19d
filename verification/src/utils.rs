//! Big-endian field packing, the modular interval test used for sequence
//! numbers, and the four-tuple that names a flow.

use vstd::prelude::*;

verus! {

/// The two bytes of `v`, most significant first.
pub open spec fn be16(v: u16) -> Seq<u8> {
    seq![(v / 0x100) as u8, (v % 0x100) as u8]
}

/// The four bytes of `v`, most significant first.
pub open spec fn be32(v: u32) -> Seq<u8> {
    seq![
        (v / 0x100_0000) as u8,
        (v / 0x1_0000 % 0x100) as u8,
        (v / 0x100 % 0x100) as u8,
        (v % 0x100) as u8,
    ]
}

/// The 16-bit value whose big-endian bytes are `hi`, `lo`.
pub open spec fn from_be16(hi: u8, lo: u8) -> u16 {
    (hi * 0x100 + lo) as u16
}

/// The 32-bit value whose big-endian bytes are `b0` to `b3`.
pub open spec fn from_be32(b0: u8, b1: u8, b2: u8, b3: u8) -> u32 {
    (b0 * 0x100_0000 + b1 * 0x1_0000 + b2 * 0x100 + b3) as u32
}

/// Packing two bytes into a value and unpacking it gives the bytes back.
pub proof fn lemma_be16_of_bytes(hi: u8, lo: u8)
    ensures
        be16(from_be16(hi, lo)) == seq![hi, lo],
{
    let v = from_be16(hi, lo);
    assert(v == hi * 0x100 + lo);
    assert(v / 0x100 == hi && v % 0x100 == lo);
    assert(be16(v) =~= seq![hi, lo]);
}

/// Unpacking a value into two bytes and packing them gives the value back.
pub proof fn lemma_bytes_of_be16(v: u16)
    ensures
        be16(v).len() == 2,
        from_be16(be16(v)[0], be16(v)[1]) == v,
{
}

/// Packing four bytes into a value and unpacking it gives the bytes back.
pub proof fn lemma_be32_of_bytes(b0: u8, b1: u8, b2: u8, b3: u8)
    ensures
        be32(from_be32(b0, b1, b2, b3)) == seq![b0, b1, b2, b3],
{
    let v = from_be32(b0, b1, b2, b3);
    assert(v == b0 * 0x100_0000 + b1 * 0x1_0000 + b2 * 0x100 + b3);
    assert(v / 0x100_0000 == b0);
    assert(v / 0x1_0000 == b0 * 0x100 + b1);
    assert(v / 0x100 == b0 * 0x1_0000 + b1 * 0x100 + b2);
    assert(v % 0x100 == b3);
    assert(be32(v) =~= seq![b0, b1, b2, b3]);
}

/// Unpacking a value into four bytes and packing them gives the value back.
pub proof fn lemma_bytes_of_be32(v: u32)
    ensures
        be32(v).len() == 4,
        from_be32(be32(v)[0], be32(v)[1], be32(v)[2], be32(v)[3]) == v,
{
    let a = v / 0x100_0000;
    let b = v / 0x1_0000;
    let c = v / 0x100;
    assert(b / 0x100 == a);
    assert(c / 0x100 == b);
    assert(b == a * 0x100 + b % 0x100);
    assert(c == b * 0x100 + c % 0x100);
    assert(v == c * 0x100 + v % 0x100);
}

/// The first twenty bytes of `data`, written out one by one.
pub open spec fn first_twenty(data: Seq<u8>) -> Seq<u8> {
    seq![
        data[0], data[1], data[2], data[3], data[4], data[5], data[6], data[7], data[8], data[9],
        data[10], data[11], data[12], data[13], data[14], data[15], data[16], data[17], data[18],
        data[19],
    ]
}

/// The first twenty bytes written out are the first twenty bytes.
pub proof fn lemma_first_twenty(data: Seq<u8>)
    requires
        data.len() >= 20,
    ensures
        first_twenty(data) == data.subrange(0, 20),
{
    assert(first_twenty(data) =~= data.subrange(0, 20));
}

/// Overwrites a two-byte slice with `value` in network byte order.
pub fn set_u16_be(arr: &mut [u8], value: u16)
    requires
        old(arr)@.len() == 2,
    ensures
        final(arr)@ == be16(value),
{
    arr[0] = (value / 0x100) as u8;
    arr[1] = (value % 0x100) as u8;
}

/// Overwrites a four-byte slice with `value` in network byte order.
pub fn set_u32_be(arr: &mut [u8], value: u32)
    requires
        old(arr)@.len() == 4,
    ensures
        final(arr)@ == be32(value),
{
    arr[0] = (value / 0x100_0000) as u8;
    arr[1] = (value / 0x1_0000 % 0x100) as u8;
    arr[2] = (value / 0x100 % 0x100) as u8;
    arr[3] = (value % 0x100) as u8;
}

/// Reads the big-endian 16-bit value stored at `data[at..at + 2]`.
pub fn get_u16_be(data: &[u8], at: usize) -> (value: u16)
    requires
        at + 2 <= data@.len(),
    ensures
        value == from_be16(data@[at as int], data@[at + 1]),
{
    data[at] as u16 * 0x100 + data[at + 1] as u16
}

/// Reads the big-endian 32-bit value stored at `data[at..at + 4]`.
pub fn get_u32_be(data: &[u8], at: usize) -> (value: u32)
    requires
        at + 4 <= data@.len(),
    ensures
        value == from_be32(data@[at as int], data@[at + 1], data@[at + 2], data@[at + 3]),
{
    data[at] as u32 * 0x100_0000 + data[at + 1] as u32 * 0x1_0000 + data[at + 2] as u32 * 0x100
        + data[at + 3] as u32
}

/// Appends `value` to `out` in network byte order.
pub fn push_u16_be(out: &mut Vec<u8>, value: u16)
    ensures
        final(out)@ == old(out)@ + be16(value),
{
    out.push((value / 0x100) as u8);
    out.push((value % 0x100) as u8);
}

/// Appends `value` to `out` in network byte order.
pub fn push_u32_be(out: &mut Vec<u8>, value: u32)
    ensures
        final(out)@ == old(out)@ + be32(value),
{
    out.push((value / 0x100_0000) as u8);
    out.push((value / 0x1_0000 % 0x100) as u8);
    out.push((value / 0x100 % 0x100) as u8);
    out.push((value % 0x100) as u8);
}

/// Appends every byte of `bytes` to `out`.
pub fn push_bytes(out: &mut Vec<u8>, bytes: &[u8])
    ensures
        final(out)@ == old(out)@ + bytes@,
{
    let mut i: usize = 0;
    while i < bytes.len()
        invariant
            i <= bytes@.len(),
            out@ == old(out)@ + bytes@.subrange(0, i as int),
        decreases bytes@.len() - i,
    {
        out.push(bytes[i]);
        i += 1;
    }
}

/// Whether `x` lies on the arc of the 32-bit circle that starts at `start` and
/// runs upward, through the wrap if need be, to `end`; both ends belong to it.
pub open spec fn on_arc(start: u32, x: u32, end: u32) -> bool {
    (x - start) % 0x1_0000_0000 <= (end - start) % 0x1_0000_0000
}

/// `a` advanced by `n` steps on the 32-bit circle.
pub open spec fn seq_add(a: u32, n: nat) -> u32 {
    ((a + n) % 0x1_0000_0000) as u32
}

/// Number of steps that lead from `start` upward, through the wrap if need
/// be, to `end`.
pub open spec fn arc_len(start: u32, end: u32) -> nat {
    ((end - start) % 0x1_0000_0000) as nat
}

/// The points of the arc from `start` to `end` are exactly those that some
/// number of steps, no more than the arc is long, reaches from `start`. This
/// holds whether or not the arc passes through zero.
pub proof fn lemma_on_arc_steps(start: u32, x: u32, end: u32)
    ensures
        on_arc(start, x, end) <==> exists|k: nat|
            k <= arc_len(start, end) && x == #[trigger] seq_add(start, k),
{
    if on_arc(start, x, end) {
        let k = ((x - start) % 0x1_0000_0000) as nat;
        assert(seq_add(start, k) == x);
    }
    if exists|k: nat| k <= arc_len(start, end) && x == #[trigger] seq_add(start, k) {
        let k = choose|k: nat| k <= arc_len(start, end) && x == #[trigger] seq_add(start, k);
        assert((x - start) % 0x1_0000_0000 == k);
    }
}

/// Tests membership in the modular interval from `start` to `end` inclusive.
///
/// When `end` is numerically below `start` the interval wraps through zero.
pub fn wrapping_between(start: u32, x: u32, end: u32) -> (inside: bool)
    ensures
        inside == on_arc(start, x, end),
{
    if end >= start {
        start <= x && x <= end
    } else {
        x >= start || x <= end
    }
}

/// A flow as seen on the wire in the inbound direction: the peer is the
/// source, this host the destination.
#[derive(Clone, Copy, Debug, PartialEq, Eq, Hash, Structural)]
pub struct ConnectionId {
    pub ip_src: u32,
    pub ip_dst: u32,
    pub port_src: u16,
    pub port_dst: u16,
}

} // verus!
