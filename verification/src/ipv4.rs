//! The IPv4 header: parsing, serialising and the header checksum.

use crate::checksum::{
    checksum, internet_checksum, lemma_checksum_ignores_skipped_word,
    lemma_single_byte_change_detected, lemma_valid_sums_to_zero, word_at,
};
use crate::utils::{
    be16, be32, first_twenty, from_be16, from_be32, get_u16_be, get_u32_be, lemma_be16_of_bytes,
    lemma_be32_of_bytes, lemma_bytes_of_be16, lemma_bytes_of_be32, lemma_first_twenty,
    push_bytes, push_u16_be, push_u32_be,
};
use vstd::prelude::*;

verus! {

/// Length in bytes of an IPv4 header without options.
pub const IPV4_FIXED_LEN: usize = 20;

/// Index of the 16-bit word that holds the header checksum.
pub const IPV4_CHECKSUM_WORD: usize = 5;

/// Why a byte string cannot be read as a header.
#[derive(Clone, Copy, Debug, PartialEq, Eq, Structural)]
pub enum HeaderError {
    /// The input ends before the header does.
    Truncated,
    /// The header-length field announces fewer than five 32-bit words.
    BadLength,
}

/// The fields of an IPv4 header as mathematical values.
pub struct Ipv4Fields {
    pub version: u8,
    pub ihl: u8,
    pub dscp: u8,
    pub ecn: u8,
    pub total_length: u16,
    pub identification: u16,
    pub flags: u8,
    pub fragment_offset: u16,
    pub time_to_live: u8,
    pub protocol: u8,
    pub header_checksum: u16,
    pub source_ip: u32,
    pub dest_ip: u32,
    pub options: Seq<u8>,
}

impl Ipv4Fields {
    /// Every bit-packed field fits its width and the options fill exactly the
    /// space that `ihl` announces.
    pub open spec fn wf(self) -> bool {
        &&& self.version < 16
        &&& 5 <= self.ihl < 16
        &&& self.dscp < 64
        &&& self.ecn < 4
        &&& self.flags < 8
        &&& self.fragment_offset < 0x2000
        &&& self.options.len() == self.ihl * 4 - 20
    }

    /// The first twenty bytes on the wire.
    pub open spec fn fixed_part(self) -> Seq<u8> {
        seq![
            (self.version * 16 + self.ihl) as u8,
            (self.dscp * 4 + self.ecn) as u8,
            be16(self.total_length)[0],
            be16(self.total_length)[1],
            be16(self.identification)[0],
            be16(self.identification)[1],
            be16((self.flags * 0x2000 + self.fragment_offset) as u16)[0],
            be16((self.flags * 0x2000 + self.fragment_offset) as u16)[1],
            self.time_to_live,
            self.protocol,
            be16(self.header_checksum)[0],
            be16(self.header_checksum)[1],
            be32(self.source_ip)[0],
            be32(self.source_ip)[1],
            be32(self.source_ip)[2],
            be32(self.source_ip)[3],
            be32(self.dest_ip)[0],
            be32(self.dest_ip)[1],
            be32(self.dest_ip)[2],
            be32(self.dest_ip)[3],
        ]
    }

    /// The header on the wire: the fixed part followed by the options.
    pub open spec fn encode(self) -> Seq<u8> {
        self.fixed_part() + self.options
    }

    /// The checksum of the header, computed over its wire bytes with the
    /// checksum field left out.
    pub open spec fn checksum(self) -> u16 {
        internet_checksum(self.encode(), IPV4_CHECKSUM_WORD as int)
    }

    /// The stored checksum is the computed one.
    pub open spec fn valid(self) -> bool {
        self.header_checksum == self.checksum()
    }

    /// The same header with another value in its checksum field.
    pub open spec fn with_checksum(self, c: u16) -> Ipv4Fields {
        Ipv4Fields { header_checksum: c, ..self }
    }
}

/// The header length in bytes announced by the first byte of `data`.
pub open spec fn ipv4_header_len(data: Seq<u8>) -> int {
    (data[0] % 16) * 4
}

/// `data` starts with a complete IPv4 header.
pub open spec fn ipv4_well_formed(data: Seq<u8>) -> bool {
    &&& data.len() >= 20
    &&& 20 <= ipv4_header_len(data) <= data.len()
}

/// The fields read off the front of `data`.
pub open spec fn decode_ipv4(data: Seq<u8>) -> Ipv4Fields
    recommends
        ipv4_well_formed(data),
{
    Ipv4Fields {
        version: data[0] / 16,
        ihl: data[0] % 16,
        dscp: data[1] / 4,
        ecn: data[1] % 4,
        total_length: from_be16(data[2], data[3]),
        identification: from_be16(data[4], data[5]),
        flags: data[6] / 32,
        fragment_offset: (from_be16(data[6], data[7]) % 0x2000) as u16,
        time_to_live: data[8],
        protocol: data[9],
        header_checksum: from_be16(data[10], data[11]),
        source_ip: from_be32(data[12], data[13], data[14], data[15]),
        dest_ip: from_be32(data[16], data[17], data[18], data[19]),
        options: data.subrange(20, ipv4_header_len(data)),
    }
}

/// What parsing `data` yields: the decoded fields, or the reason there are
/// none.
pub open spec fn parse_ipv4(data: Seq<u8>) -> Result<Ipv4Fields, HeaderError> {
    if data.len() < 20 {
        Err(HeaderError::Truncated)
    } else if ipv4_header_len(data) < 20 {
        Err(HeaderError::BadLength)
    } else if data.len() < ipv4_header_len(data) {
        Err(HeaderError::Truncated)
    } else {
        Ok(decode_ipv4(data))
    }
}

proof fn lemma_split_flags_offset(b6: u8, b7: u8)
    ensures
        (b6 / 32) * 0x2000 + from_be16(b6, b7) % 0x2000 == from_be16(b6, b7),
        b6 / 32 < 8,
{
    let x = from_be16(b6, b7);
    assert(x == b6 * 0x100 + b7);
    assert(x / 0x2000 == b6 / 32);
}

proof fn lemma_join_flags_offset(flags: u8, offset: u16)
    requires
        flags < 8,
        offset < 0x2000,
    ensures
        flags * 0x2000 + offset < 0x1_0000,
        be16((flags * 0x2000 + offset) as u16)[0] / 32 == flags,
        from_be16(
            be16((flags * 0x2000 + offset) as u16)[0],
            be16((flags * 0x2000 + offset) as u16)[1],
        ) % 0x2000 == offset,
{
    let p = (flags * 0x2000 + offset) as u16;
    lemma_bytes_of_be16(p);
    assert(p / 0x2000 == flags);
    assert(p / 0x100 / 32 == p / 0x2000);
}

/// Decoding a complete header and encoding the result gives back the header's
/// bytes exactly.
pub proof fn lemma_ipv4_decode_then_encode(data: Seq<u8>)
    requires
        ipv4_well_formed(data),
    ensures
        decode_ipv4(data).wf(),
        decode_ipv4(data).encode() == data.subrange(0, ipv4_header_len(data)),
{
    let f = decode_ipv4(data);
    assert((data[0] / 16) * 16 + data[0] % 16 == data[0]);
    assert((data[1] / 4) * 4 + data[1] % 4 == data[1]);
    lemma_split_flags_offset(data[6], data[7]);
    lemma_be16_of_bytes(data[2], data[3]);
    lemma_be16_of_bytes(data[4], data[5]);
    lemma_be16_of_bytes(data[6], data[7]);
    lemma_be16_of_bytes(data[10], data[11]);
    lemma_be32_of_bytes(data[12], data[13], data[14], data[15]);
    lemma_be32_of_bytes(data[16], data[17], data[18], data[19]);
    assert((f.flags * 0x2000 + f.fragment_offset) as u16 == from_be16(data[6], data[7]));
    assert(f.fixed_part() == first_twenty(data));
    lemma_first_twenty(data);
    assert(f.encode() =~= data.subrange(0, ipv4_header_len(data)));
}

/// Encoding well-formed fields and parsing the bytes, whatever follows them,
/// gives back the same fields.
pub proof fn lemma_ipv4_encode_then_parse(f: Ipv4Fields, tail: Seq<u8>)
    requires
        f.wf(),
    ensures
        parse_ipv4(f.encode() + tail) == Ok::<Ipv4Fields, HeaderError>(f),
{
    let data = f.encode() + tail;
    let fixed = f.fixed_part();
    assert(fixed.len() == 20);
    assert(data.len() == f.ihl * 4 + tail.len());
    assert(data.subrange(0, 20) =~= fixed);
    lemma_first_twenty(data);
    assert(first_twenty(data) == fixed);
    assert(forall|i: int| 0 <= i < 20 ==> data[i] == first_twenty(data)[i]);
    assert((f.version * 16 + f.ihl) / 16 == f.version && (f.version * 16 + f.ihl) % 16 == f.ihl);
    assert((f.dscp * 4 + f.ecn) / 4 == f.dscp && (f.dscp * 4 + f.ecn) % 4 == f.ecn);
    lemma_join_flags_offset(f.flags, f.fragment_offset);
    lemma_bytes_of_be16(f.total_length);
    lemma_bytes_of_be16(f.identification);
    lemma_bytes_of_be16(f.header_checksum);
    lemma_bytes_of_be32(f.source_ip);
    lemma_bytes_of_be32(f.dest_ip);
    let g = decode_ipv4(data);
    assert(g.version == f.version && g.ihl == f.ihl);
    assert(g.dscp == f.dscp && g.ecn == f.ecn);
    assert(g.total_length == f.total_length);
    assert(g.identification == f.identification);
    assert(g.flags == f.flags && g.fragment_offset == f.fragment_offset);
    assert(g.time_to_live == f.time_to_live && g.protocol == f.protocol);
    assert(g.header_checksum == f.header_checksum);
    assert(g.source_ip == f.source_ip && g.dest_ip == f.dest_ip);
    assert(g.options =~= f.options);
}

/// The header checksum does not depend on what the checksum field holds. In
/// particular a valid header recomputed with the field zeroed gives the stored
/// value again.
pub proof fn lemma_ipv4_checksum_ignores_stored(f: Ipv4Fields, c: u16)
    ensures
        f.with_checksum(c).checksum() == f.checksum(),
        f.valid() ==> f.with_checksum(0).checksum() == f.header_checksum,
{
    lemma_checksum_ignores_skipped_word(
        f.with_checksum(c).encode(),
        f.encode(),
        IPV4_CHECKSUM_WORD as int,
    );
    lemma_checksum_ignores_skipped_word(
        f.with_checksum(0).encode(),
        f.encode(),
        IPV4_CHECKSUM_WORD as int,
    );
}

/// In a valid header a change of any single byte outside the checksum field
/// is noticed: the checksum recomputed over the changed bytes is not the
/// stored one.
pub proof fn lemma_ipv4_corruption_detected(f: Ipv4Fields, at: int, byte: u8)
    requires
        f.valid(),
        0 <= at < f.encode().len(),
        at != 10,
        at != 11,
        byte != f.encode()[at],
    ensures
        internet_checksum(f.encode().update(at, byte), IPV4_CHECKSUM_WORD as int)
            != f.header_checksum,
{
    lemma_single_byte_change_detected(f.encode(), at, byte, IPV4_CHECKSUM_WORD as int);
}

/// A valid header sums to zero when the stored checksum is summed with the
/// rest.
pub proof fn lemma_ipv4_valid_sums_to_zero(f: Ipv4Fields)
    requires
        f.valid(),
    ensures
        internet_checksum(f.encode(), -1) == 0,
{
    let data = f.encode();
    assert(data.len() >= 20);
    assert(data[10] == be16(f.header_checksum)[0] && data[11] == be16(f.header_checksum)[1]);
    lemma_bytes_of_be16(f.header_checksum);
    assert(word_at(data, 5) == f.header_checksum);
    lemma_valid_sums_to_zero(data, IPV4_CHECKSUM_WORD as int);
}

/// An IPv4 header whose options borrow from the buffer it was read from.
#[derive(Debug)]
pub struct IPv4Header<'a> {
    pub version: u8,
    pub ihl: u8,
    pub dscp: u8,
    pub ecn: u8,
    pub total_length: u16,
    pub identification: u16,
    pub flags: u8,
    pub fragment_offset: u16,
    pub time_to_live: u8,
    pub protocol: u8,
    pub header_checksum: u16,
    pub source_ip: u32,
    pub dest_ip: u32,
    pub options: &'a [u8],
}

impl<'a> View for IPv4Header<'a> {
    type V = Ipv4Fields;

    open spec fn view(&self) -> Ipv4Fields {
        Ipv4Fields {
            version: self.version,
            ihl: self.ihl,
            dscp: self.dscp,
            ecn: self.ecn,
            total_length: self.total_length,
            identification: self.identification,
            flags: self.flags,
            fragment_offset: self.fragment_offset,
            time_to_live: self.time_to_live,
            protocol: self.protocol,
            header_checksum: self.header_checksum,
            source_ip: self.source_ip,
            dest_ip: self.dest_ip,
            options: self.options@,
        }
    }
}

impl<'a> IPv4Header<'a> {
    /// Reads a header off the front of `data` and returns it with the bytes
    /// that follow it.
    ///
    /// Fails with `Truncated` when `data` is shorter than the header it
    /// starts, and with `BadLength` when the header-length field is below
    /// five words. No other field is checked.
    pub fn new(data: &'a [u8]) -> (parsed: Result<(IPv4Header<'a>, &'a [u8]), HeaderError>)
        ensures
            match parsed {
                Ok((header, rest)) => {
                    &&& parse_ipv4(data@) == Ok::<Ipv4Fields, HeaderError>(header@)
                    &&& rest@ == data@.subrange(ipv4_header_len(data@), data@.len() as int)
                },
                Err(e) => parse_ipv4(data@) == Err::<Ipv4Fields, HeaderError>(e),
            },
    {
        if data.len() < IPV4_FIXED_LEN {
            return Err(HeaderError::Truncated);
        }
        let ihl = data[0] % 16;
        let size = ihl as usize * 4;
        if size < IPV4_FIXED_LEN {
            return Err(HeaderError::BadLength);
        }
        if data.len() < size {
            return Err(HeaderError::Truncated);
        }
        let header = IPv4Header {
            version: data[0] / 16,
            ihl,
            dscp: data[1] / 4,
            ecn: data[1] % 4,
            total_length: get_u16_be(data, 2),
            identification: get_u16_be(data, 4),
            flags: data[6] / 32,
            fragment_offset: get_u16_be(data, 6) % 0x2000,
            time_to_live: data[8],
            protocol: data[9],
            header_checksum: get_u16_be(data, 10),
            source_ip: get_u32_be(data, 12),
            dest_ip: get_u32_be(data, 16),
            options: &data[IPV4_FIXED_LEN..size],
        };
        Ok((header, &data[size..data.len()]))
    }

    /// Length of the header in bytes, options included.
    pub fn size(&self) -> (n: usize)
        ensures
            n == self.ihl * 4,
    {
        self.ihl as usize * 4
    }

    /// The header's bytes as they go on the wire.
    pub fn serialize(&self) -> (out: Vec<u8>)
        requires
            self@.wf(),
        ensures
            out@ == self@.encode(),
    {
        let mut out: Vec<u8> = Vec::with_capacity(self.size());
        out.push(self.version * 16 + self.ihl);
        out.push(self.dscp * 4 + self.ecn);
        push_u16_be(&mut out, self.total_length);
        push_u16_be(&mut out, self.identification);
        push_u16_be(&mut out, self.flags as u16 * 0x2000 + self.fragment_offset);
        out.push(self.time_to_live);
        out.push(self.protocol);
        push_u16_be(&mut out, self.header_checksum);
        push_u32_be(&mut out, self.source_ip);
        push_u32_be(&mut out, self.dest_ip);
        assert(out@ =~= self@.fixed_part());
        push_bytes(&mut out, self.options);
        out
    }

    /// Computes the header checksum with the stored checksum field left out.
    pub fn calc_checksum(&self) -> (sum: u16)
        requires
            self@.wf(),
        ensures
            sum == self@.checksum(),
    {
        let bytes = self.serialize();
        checksum(bytes.as_slice(), IPV4_CHECKSUM_WORD)
    }
}

} // verus!
