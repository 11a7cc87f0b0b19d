//! The TCP header: flags, parsing, serialising, the checksum over the
//! pseudo-header, and the construction of outgoing frames.

use crate::checksum::{
    checksum, internet_checksum, lemma_checksum_ignores_skipped_word,
    lemma_single_byte_change_detected,
};
use crate::ipv4::{HeaderError, IPv4Header, Ipv4Fields};
use crate::utils::{
    be16, be32, first_twenty, from_be16, from_be32, get_u16_be, get_u32_be, lemma_be16_of_bytes,
    lemma_be32_of_bytes, lemma_bytes_of_be16, lemma_bytes_of_be32, lemma_first_twenty,
    push_bytes, push_u16_be, push_u32_be,
};
use vstd::prelude::*;

verus! {

/// Length in bytes of a TCP header without options.
pub const TCP_FIXED_LEN: usize = 20;

/// Index of the 16-bit word that holds the TCP checksum, counted from the
/// start of the pseudo-header.
pub const TCP_CHECKSUM_WORD: usize = 14;

/// IP protocol number of TCP.
pub const PROTOCOL_TCP: u8 = 6;

/// EtherType of IPv4 in the interface's link header.
pub const ETHERTYPE_IPV4: u16 = 0x0800;

/// Window advertised on every segment this stack sends.
pub const ADVERTISED_WINDOW: u16 = 1500;

/// Time to live of every datagram this stack sends.
pub const DEFAULT_TTL: u8 = 64;

/// Most payload bytes one outgoing segment can carry: the IPv4 total length
/// is a 16-bit field and forty bytes of it go to the two headers.
pub const MAX_SEGMENT_TEXT: usize = 65495;

/// The eight control bits of a TCP header.
#[derive(Clone, Copy, Debug, PartialEq, Eq, Structural)]
pub enum TcpFlag {
    Cwr,
    Ece,
    Urg,
    Ack,
    Psh,
    Rst,
    Syn,
    Fin,
}

impl TcpFlag {
    /// The bit that stands for this flag in the header's flag byte.
    pub open spec fn mask(self) -> u8 {
        match self {
            TcpFlag::Cwr => 0x80,
            TcpFlag::Ece => 0x40,
            TcpFlag::Urg => 0x20,
            TcpFlag::Ack => 0x10,
            TcpFlag::Psh => 0x08,
            TcpFlag::Rst => 0x04,
            TcpFlag::Syn => 0x02,
            TcpFlag::Fin => 0x01,
        }
    }

    /// The bit that stands for this flag in the header's flag byte.
    pub fn bits(self) -> (b: u8)
        ensures
            b == self.mask(),
    {
        match self {
            TcpFlag::Cwr => 0x80,
            TcpFlag::Ece => 0x40,
            TcpFlag::Urg => 0x20,
            TcpFlag::Ack => 0x10,
            TcpFlag::Psh => 0x08,
            TcpFlag::Rst => 0x04,
            TcpFlag::Syn => 0x02,
            TcpFlag::Fin => 0x01,
        }
    }
}

impl core::ops::BitOr<TcpFlag> for TcpFlag {
    type Output = u8;

    /// The union of two flags as a flag byte.
    fn bitor(self, rhs: TcpFlag) -> (union: u8) {
        self.bits() | rhs.bits()
    }
}

impl vstd::std_specs::ops::BitOrSpecImpl<TcpFlag> for TcpFlag {
    open spec fn obeys_bitor_spec() -> bool {
        true
    }

    open spec fn bitor_req(self, rhs: TcpFlag) -> bool {
        true
    }

    open spec fn bitor_spec(self, rhs: TcpFlag) -> u8 {
        self.mask() | rhs.mask()
    }
}

/// The fields of a TCP header as mathematical values.
pub struct TcpFields {
    pub source_port: u16,
    pub dest_port: u16,
    pub sequence_number: u32,
    pub ack_number: u32,
    pub data_offset: u8,
    pub flags: u8,
    pub window_size: u16,
    pub checksum: u16,
    pub urgent_pointer: u16,
    pub options: Seq<u8>,
}

/// The twelve bytes that stand in front of a segment when its checksum is
/// taken: both addresses, a zero byte, the protocol number and the segment
/// length as a 16-bit value.
pub open spec fn pseudo_header(source_ip: u32, dest_ip: u32, segment_len: nat) -> Seq<u8> {
    be32(source_ip) + be32(dest_ip) + seq![0u8, PROTOCOL_TCP] + be16(
        (segment_len % 0x1_0000) as u16,
    )
}

impl TcpFields {
    /// The data offset covers the fixed part and the options fill exactly the
    /// space that it announces.
    pub open spec fn wf(self) -> bool {
        &&& 5 <= self.data_offset < 16
        &&& self.options.len() == self.data_offset * 4 - 20
    }

    /// The first twenty bytes on the wire. The four reserved bits are zero.
    pub open spec fn fixed_part(self) -> Seq<u8> {
        seq![
            be16(self.source_port)[0],
            be16(self.source_port)[1],
            be16(self.dest_port)[0],
            be16(self.dest_port)[1],
            be32(self.sequence_number)[0],
            be32(self.sequence_number)[1],
            be32(self.sequence_number)[2],
            be32(self.sequence_number)[3],
            be32(self.ack_number)[0],
            be32(self.ack_number)[1],
            be32(self.ack_number)[2],
            be32(self.ack_number)[3],
            (self.data_offset * 16) as u8,
            self.flags,
            be16(self.window_size)[0],
            be16(self.window_size)[1],
            be16(self.checksum)[0],
            be16(self.checksum)[1],
            be16(self.urgent_pointer)[0],
            be16(self.urgent_pointer)[1],
        ]
    }

    /// The header on the wire: the fixed part followed by the options.
    pub open spec fn encode(self) -> Seq<u8> {
        self.fixed_part() + self.options
    }

    /// The bytes the checksum is taken over: pseudo-header, header, payload.
    pub open spec fn checksum_input(self, source_ip: u32, dest_ip: u32, text: Seq<u8>) -> Seq<u8> {
        pseudo_header(source_ip, dest_ip, self.encode().len() + text.len()) + self.encode() + text
    }

    /// The checksum of the segment made of this header and `text`, travelling
    /// from `source_ip` to `dest_ip`, with the checksum field left out.
    pub open spec fn checksum(self, source_ip: u32, dest_ip: u32, text: Seq<u8>) -> u16 {
        internet_checksum(self.checksum_input(source_ip, dest_ip, text), TCP_CHECKSUM_WORD as int)
    }

    /// The stored checksum is the computed one.
    pub open spec fn valid(self, source_ip: u32, dest_ip: u32, text: Seq<u8>) -> bool {
        self.checksum == self.checksum(source_ip, dest_ip, text)
    }

    /// The same header with another value in its checksum field.
    pub open spec fn with_checksum(self, c: u16) -> TcpFields {
        TcpFields { checksum: c, ..self }
    }

    /// Whether `flag` is set.
    pub open spec fn has_flag(self, flag: TcpFlag) -> bool {
        self.flags & flag.mask() != 0
    }
}

/// The header length in bytes announced by the data-offset nibble of `data`.
pub open spec fn tcp_header_len(data: Seq<u8>) -> int {
    (data[12] / 16) * 4
}

/// `data` starts with a complete TCP header whose reserved bits are zero.
pub open spec fn tcp_well_formed(data: Seq<u8>) -> bool {
    &&& data.len() >= 20
    &&& 20 <= tcp_header_len(data) <= data.len()
    &&& data[12] % 16 == 0
}

/// The fields read off the front of `data`. The reserved bits are dropped.
pub open spec fn decode_tcp(data: Seq<u8>) -> TcpFields
    recommends
        data.len() >= 20,
        20 <= tcp_header_len(data) <= data.len(),
{
    TcpFields {
        source_port: from_be16(data[0], data[1]),
        dest_port: from_be16(data[2], data[3]),
        sequence_number: from_be32(data[4], data[5], data[6], data[7]),
        ack_number: from_be32(data[8], data[9], data[10], data[11]),
        data_offset: data[12] / 16,
        flags: data[13],
        window_size: from_be16(data[14], data[15]),
        checksum: from_be16(data[16], data[17]),
        urgent_pointer: from_be16(data[18], data[19]),
        options: data.subrange(20, tcp_header_len(data)),
    }
}

/// What parsing `data` yields: the decoded fields, or the reason there are
/// none.
pub open spec fn parse_tcp(data: Seq<u8>) -> Result<TcpFields, HeaderError> {
    if data.len() < 20 {
        Err(HeaderError::Truncated)
    } else if tcp_header_len(data) < 20 {
        Err(HeaderError::BadLength)
    } else if data.len() < tcp_header_len(data) {
        Err(HeaderError::Truncated)
    } else {
        Ok(decode_tcp(data))
    }
}

/// What decoding a complete header yields is well formed, whatever its
/// reserved bits hold.
pub proof fn lemma_decoded_tcp_wf(data: Seq<u8>)
    requires
        parse_tcp(data) is Ok,
    ensures
        decode_tcp(data).wf(),
{
}

/// Decoding a complete header with zero reserved bits and encoding the result
/// gives back the header's bytes exactly.
pub proof fn lemma_tcp_decode_then_encode(data: Seq<u8>)
    requires
        tcp_well_formed(data),
    ensures
        decode_tcp(data).wf(),
        decode_tcp(data).encode() == data.subrange(0, tcp_header_len(data)),
{
    let f = decode_tcp(data);
    lemma_be16_of_bytes(data[0], data[1]);
    lemma_be16_of_bytes(data[2], data[3]);
    lemma_be32_of_bytes(data[4], data[5], data[6], data[7]);
    lemma_be32_of_bytes(data[8], data[9], data[10], data[11]);
    lemma_be16_of_bytes(data[14], data[15]);
    lemma_be16_of_bytes(data[16], data[17]);
    lemma_be16_of_bytes(data[18], data[19]);
    assert((data[12] / 16) * 16 == data[12]);
    assert(f.fixed_part() == first_twenty(data));
    lemma_first_twenty(data);
    assert(f.encode() =~= data.subrange(0, tcp_header_len(data)));
}

/// Encoding well-formed fields and parsing the bytes, whatever follows them,
/// gives back the same fields.
pub proof fn lemma_tcp_encode_then_parse(f: TcpFields, tail: Seq<u8>)
    requires
        f.wf(),
    ensures
        tcp_well_formed(f.encode() + tail),
        parse_tcp(f.encode() + tail) == Ok::<TcpFields, HeaderError>(f),
{
    let data = f.encode() + tail;
    let fixed = f.fixed_part();
    assert(fixed.len() == 20);
    assert(data.len() == f.data_offset * 4 + tail.len());
    assert(data.subrange(0, 20) =~= fixed);
    lemma_first_twenty(data);
    assert(first_twenty(data) == fixed);
    assert(forall|i: int| 0 <= i < 20 ==> data[i] == first_twenty(data)[i]);
    lemma_bytes_of_be16(f.source_port);
    lemma_bytes_of_be16(f.dest_port);
    lemma_bytes_of_be32(f.sequence_number);
    lemma_bytes_of_be32(f.ack_number);
    lemma_bytes_of_be16(f.window_size);
    lemma_bytes_of_be16(f.checksum);
    lemma_bytes_of_be16(f.urgent_pointer);
    assert((f.data_offset * 16) / 16 == f.data_offset && (f.data_offset * 16) % 16 == 0);
    let g = decode_tcp(data);
    assert(g.source_port == f.source_port && g.dest_port == f.dest_port);
    assert(g.sequence_number == f.sequence_number && g.ack_number == f.ack_number);
    assert(g.data_offset == f.data_offset && g.flags == f.flags);
    assert(g.window_size == f.window_size && g.checksum == f.checksum);
    assert(g.urgent_pointer == f.urgent_pointer);
    assert(g.options =~= f.options);
}

/// The segment checksum does not depend on what the checksum field holds. In
/// particular a valid segment recomputed with the field zeroed gives the
/// stored value again.
pub proof fn lemma_tcp_checksum_ignores_stored(
    f: TcpFields,
    c: u16,
    source_ip: u32,
    dest_ip: u32,
    text: Seq<u8>,
)
    ensures
        f.with_checksum(c).checksum(source_ip, dest_ip, text) == f.checksum(
            source_ip,
            dest_ip,
            text,
        ),
        f.valid(source_ip, dest_ip, text) ==> f.with_checksum(0).checksum(source_ip, dest_ip, text)
            == f.checksum,
{
    lemma_checksum_ignores_skipped_word(
        f.with_checksum(c).checksum_input(source_ip, dest_ip, text),
        f.checksum_input(source_ip, dest_ip, text),
        TCP_CHECKSUM_WORD as int,
    );
    lemma_checksum_ignores_skipped_word(
        f.with_checksum(0).checksum_input(source_ip, dest_ip, text),
        f.checksum_input(source_ip, dest_ip, text),
        TCP_CHECKSUM_WORD as int,
    );
}

/// In a valid segment a change of any single byte outside the checksum
/// field, be it in the addresses, the header or the payload, is noticed: the
/// checksum recomputed over the changed bytes is not the stored one.
pub proof fn lemma_tcp_corruption_detected(
    f: TcpFields,
    source_ip: u32,
    dest_ip: u32,
    text: Seq<u8>,
    at: int,
    byte: u8,
)
    requires
        f.valid(source_ip, dest_ip, text),
        0 <= at < f.checksum_input(source_ip, dest_ip, text).len(),
        at != 28,
        at != 29,
        byte != f.checksum_input(source_ip, dest_ip, text)[at],
    ensures
        internet_checksum(
            f.checksum_input(source_ip, dest_ip, text).update(at, byte),
            TCP_CHECKSUM_WORD as int,
        ) != f.checksum,
{
    lemma_single_byte_change_detected(
        f.checksum_input(source_ip, dest_ip, text),
        at,
        byte,
        TCP_CHECKSUM_WORD as int,
    );
}

/// A TCP header whose options borrow from the buffer it was read from.
#[derive(Debug)]
pub struct TcpPacket<'a> {
    pub source_port: u16,
    pub dest_port: u16,
    pub sequence_number: u32,
    pub ack_number: u32,
    pub data_offset: u8,
    pub flags: u8,
    pub window_size: u16,
    pub checksum: u16,
    pub urgent_pointer: u16,
    pub options: &'a [u8],
}

impl<'a> View for TcpPacket<'a> {
    type V = TcpFields;

    open spec fn view(&self) -> TcpFields {
        TcpFields {
            source_port: self.source_port,
            dest_port: self.dest_port,
            sequence_number: self.sequence_number,
            ack_number: self.ack_number,
            data_offset: self.data_offset,
            flags: self.flags,
            window_size: self.window_size,
            checksum: self.checksum,
            urgent_pointer: self.urgent_pointer,
            options: self.options@,
        }
    }
}

impl<'a> TcpPacket<'a> {
    /// Reads a header off the front of `data` and returns it with the bytes
    /// that follow it, the segment's payload.
    ///
    /// Fails with `Truncated` when `data` is shorter than the header it
    /// starts, and with `BadLength` when the data offset is below five words.
    pub fn new(data: &'a [u8]) -> (parsed: Result<(TcpPacket<'a>, &'a [u8]), HeaderError>)
        ensures
            match parsed {
                Ok((header, rest)) => {
                    &&& parse_tcp(data@) == Ok::<TcpFields, HeaderError>(header@)
                    &&& rest@ == data@.subrange(tcp_header_len(data@), data@.len() as int)
                },
                Err(e) => parse_tcp(data@) == Err::<TcpFields, HeaderError>(e),
            },
    {
        if data.len() < TCP_FIXED_LEN {
            return Err(HeaderError::Truncated);
        }
        let data_offset = data[12] / 16;
        let size = data_offset as usize * 4;
        if size < TCP_FIXED_LEN {
            return Err(HeaderError::BadLength);
        }
        if data.len() < size {
            return Err(HeaderError::Truncated);
        }
        let header = TcpPacket {
            source_port: get_u16_be(data, 0),
            dest_port: get_u16_be(data, 2),
            sequence_number: get_u32_be(data, 4),
            ack_number: get_u32_be(data, 8),
            data_offset,
            flags: data[13],
            window_size: get_u16_be(data, 14),
            checksum: get_u16_be(data, 16),
            urgent_pointer: get_u16_be(data, 18),
            options: &data[TCP_FIXED_LEN..size],
        };
        Ok((header, &data[size..data.len()]))
    }

    /// Length of the header in bytes, options included.
    pub fn size(&self) -> (n: usize)
        ensures
            n == self.data_offset * 4,
    {
        self.data_offset as usize * 4
    }

    /// The header's bytes as they go on the wire.
    pub fn serialize(&self) -> (out: Vec<u8>)
        requires
            self@.wf(),
        ensures
            out@ == self@.encode(),
    {
        let mut out: Vec<u8> = Vec::with_capacity(self.size());
        push_u16_be(&mut out, self.source_port);
        push_u16_be(&mut out, self.dest_port);
        push_u32_be(&mut out, self.sequence_number);
        push_u32_be(&mut out, self.ack_number);
        out.push(self.data_offset * 16);
        out.push(self.flags);
        push_u16_be(&mut out, self.window_size);
        push_u16_be(&mut out, self.checksum);
        push_u16_be(&mut out, self.urgent_pointer);
        assert(out@ =~= self@.fixed_part());
        push_bytes(&mut out, self.options);
        out
    }

    /// Computes the checksum of the segment made of this header and `text`,
    /// sent from `source_ip` to `dest_ip`, with the stored checksum field left
    /// out. `data_length` is the length of the whole segment.
    pub fn calc_checksum(&self, source_ip: u32, dest_ip: u32, data_length: usize, text: &[u8]) -> (sum: u16)
        requires
            self@.wf(),
            data_length == self.data_offset * 4 + text@.len(),
        ensures
            sum == self@.checksum(source_ip, dest_ip, text@),
    {
        let mut data: Vec<u8> = Vec::new();
        push_u32_be(&mut data, source_ip);
        push_u32_be(&mut data, dest_ip);
        data.push(0);
        data.push(PROTOCOL_TCP);
        push_u16_be(&mut data, (data_length % 0x1_0000) as u16);
        assert(data@ =~= pseudo_header(source_ip, dest_ip, data_length as nat));
        let header = self.serialize();
        push_bytes(&mut data, header.as_slice());
        push_bytes(&mut data, text);
        checksum(data.as_slice(), TCP_CHECKSUM_WORD)
    }

    /// Whether `flag` is set in the flag byte.
    pub fn get_flag(&self, flag: TcpFlag) -> (set: bool)
        ensures
            set == self@.has_flag(flag),
    {
        self.flags & flag.bits() != 0
    }

    /// Sets or clears `flag` in the flag byte and leaves every other field as
    /// it was.
    pub fn set_flag(&mut self, flag: TcpFlag, value: bool)
        ensures
            final(self)@ == (TcpFields {
                flags: with_flag(old(self).flags, flag, value),
                ..old(self)@
            }),
    {
        if value {
            self.flags |= flag.bits()
        } else {
            self.flags &= !flag.bits()
        }
    }
}

/// The flag byte after `flag` was set or cleared.
pub open spec fn with_flag(flags: u8, flag: TcpFlag, value: bool) -> u8 {
    if value {
        flags | flag.mask()
    } else {
        flags & !flag.mask()
    }
}

/// Setting or clearing a flag makes exactly that flag read as set or cleared
/// and leaves every other flag as it was.
pub proof fn lemma_set_then_get(f: TcpFields, flag: TcpFlag, value: bool, other: TcpFlag)
    ensures
        (TcpFields { flags: with_flag(f.flags, flag, value), ..f }).has_flag(other) == if other
            == flag {
            value
        } else {
            f.has_flag(other)
        },
{
    let flags = f.flags;
    let m = flag.mask();
    let o = other.mask();
    assert(m == 0x80 || m == 0x40 || m == 0x20 || m == 0x10 || m == 0x08 || m == 0x04 || m == 0x02
        || m == 0x01);
    assert(o == 0x80 || o == 0x40 || o == 0x20 || o == 0x10 || o == 0x08 || o == 0x04 || o == 0x02
        || o == 0x01);
    assert(other != flag ==> o != m);
    assert((flags | m) & m != 0 && (flags & !m) & m == 0 && (o != m ==> (flags | m) & o == flags
        & o && (flags & !m) & o == flags & o)) by (bit_vector)
        requires
            m == 0x80 || m == 0x40 || m == 0x20 || m == 0x10 || m == 0x08 || m == 0x04 || m
                == 0x02 || m == 0x01,
            o == 0x80 || o == 0x40 || o == 0x20 || o == 0x10 || o == 0x08 || o == 0x04 || o
                == 0x02 || o == 0x01,
    ;
}

/// The four bytes the interface puts in front of every datagram: two
/// reserved bytes and the EtherType of IPv4.
pub open spec fn link_header() -> Seq<u8> {
    seq![0u8, 0u8] + be16(ETHERTYPE_IPV4)
}

/// The TCP header of a segment this stack originates, before its checksum is
/// filled in: no options, the fixed advertised window, no urgent data.
pub open spec fn outgoing_tcp(
    source_port: u16,
    dest_port: u16,
    flags: u8,
    seq_num: u32,
    ack_num: u32,
) -> TcpFields {
    TcpFields {
        source_port,
        dest_port,
        sequence_number: seq_num,
        ack_number: ack_num,
        data_offset: 5,
        flags,
        window_size: ADVERTISED_WINDOW,
        checksum: 0,
        urgent_pointer: 0,
        options: Seq::empty(),
    }
}

/// The IPv4 header of a datagram this stack originates, before its checksum
/// is filled in: no options, never fragmented, carrying TCP.
pub open spec fn outgoing_ip(source_ip: u32, dest_ip: u32, text_len: nat) -> Ipv4Fields {
    Ipv4Fields {
        version: 4,
        ihl: 5,
        dscp: 0,
        ecn: 0,
        total_length: (40 + text_len) as u16,
        identification: 0,
        flags: 0,
        fragment_offset: 0,
        time_to_live: DEFAULT_TTL,
        protocol: PROTOCOL_TCP,
        header_checksum: 0,
        source_ip,
        dest_ip,
        options: Seq::empty(),
    }
}

/// The complete frame that carries one segment with payload `text` from
/// `source_ip:source_port` to `dest_ip:dest_port`: link header, IPv4 header,
/// TCP header, payload, with both checksums in place.
#[verifier::opaque]
pub open spec fn segment_frame(
    source_ip: u32,
    dest_ip: u32,
    source_port: u16,
    dest_port: u16,
    flags: u8,
    seq_num: u32,
    ack_num: u32,
    text: Seq<u8>,
) -> Seq<u8> {
    let tcp = outgoing_tcp(source_port, dest_port, flags, seq_num, ack_num);
    let ip = outgoing_ip(source_ip, dest_ip, text.len());
    link_header() + ip.with_checksum(ip.checksum()).encode() + tcp.with_checksum(
        tcp.checksum(source_ip, dest_ip, text),
    ).encode() + text
}

/// Builds the frame that carries one segment with payload `text` from
/// `source_ip:source_port` to `dest_ip:dest_port`.
pub fn build_segment_frame(
    source_ip: u32,
    dest_ip: u32,
    source_port: u16,
    dest_port: u16,
    flags: u8,
    seq_num: u32,
    ack_num: u32,
    text: &[u8],
) -> (frame: Vec<u8>)
    requires
        text@.len() <= MAX_SEGMENT_TEXT,
    ensures
        frame@ == segment_frame(
            source_ip,
            dest_ip,
            source_port,
            dest_port,
            flags,
            seq_num,
            ack_num,
            text@,
        ),
{
    proof {
        reveal(segment_frame);
    }
    let no_options: Vec<u8> = Vec::new();
    let mut tcp = TcpPacket {
        source_port,
        dest_port,
        sequence_number: seq_num,
        ack_number: ack_num,
        data_offset: 5,
        flags,
        window_size: ADVERTISED_WINDOW,
        checksum: 0,
        urgent_pointer: 0,
        options: no_options.as_slice(),
    };
    let mut ip = IPv4Header {
        version: 4,
        ihl: 5,
        dscp: 0,
        ecn: 0,
        total_length: 40 + text.len() as u16,
        identification: 0,
        flags: 0,
        fragment_offset: 0,
        time_to_live: DEFAULT_TTL,
        protocol: PROTOCOL_TCP,
        header_checksum: 0,
        source_ip,
        dest_ip,
        options: no_options.as_slice(),
    };
    assert(tcp@ == outgoing_tcp(source_port, dest_port, flags, seq_num, ack_num));
    assert(ip@ == outgoing_ip(source_ip, dest_ip, text@.len()));
    ip.header_checksum = ip.calc_checksum();
    tcp.checksum = tcp.calc_checksum(source_ip, dest_ip, tcp.size() + text.len(), text);

    let mut frame: Vec<u8> = Vec::with_capacity(44 + text.len());
    frame.push(0);
    frame.push(0);
    push_u16_be(&mut frame, ETHERTYPE_IPV4);
    assert(frame@ =~= link_header());
    let ip_bytes = ip.serialize();
    push_bytes(&mut frame, ip_bytes.as_slice());
    let tcp_bytes = tcp.serialize();
    push_bytes(&mut frame, tcp_bytes.as_slice());
    push_bytes(&mut frame, text);
    frame
}

/// Builds the reply to a received segment: ports and addresses are those of
/// `orig_tcp` and `orig_ip` swapped, so the frame travels back to the sender.
pub fn build_tcp_packet(
    orig_ip: &IPv4Header,
    orig_tcp: &TcpPacket,
    flags: u8,
    seq_num: u32,
    ack_num: u32,
    text: &[u8],
) -> (frame: Vec<u8>)
    requires
        text@.len() <= MAX_SEGMENT_TEXT,
    ensures
        frame@ == segment_frame(
            orig_ip.dest_ip,
            orig_ip.source_ip,
            orig_tcp.dest_port,
            orig_tcp.source_port,
            flags,
            seq_num,
            ack_num,
            text@,
        ),
{
    build_segment_frame(
        orig_ip.dest_ip,
        orig_ip.source_ip,
        orig_tcp.dest_port,
        orig_tcp.source_port,
        flags,
        seq_num,
        ack_num,
        text,
    )
}

} // verus!
