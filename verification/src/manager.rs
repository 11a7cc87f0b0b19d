//! The table of flows: listeners keyed by local address and port, accepted
//! flows keyed by four-tuple, and the demultiplexing of inbound frames.

use crate::addr::{dotted_quad_value, parse_dotted_quad};
use crate::connection::{
    flush_frame, frame_bytes, lemma_misdirected_iff, lemma_transition_keeps_identity,
    random_initial_seq, transition, without_front, Connection, ConnectionView, State, Transition,
};
use crate::ipv4::{
    lemma_ipv4_checksum_ignores_stored, lemma_ipv4_decode_then_encode,
    lemma_ipv4_encode_then_parse, parse_ipv4, HeaderError, IPv4Header, Ipv4Fields,
};
use crate::listener::{ConnectionHandle, Listener};
use crate::tcp::{
    lemma_decoded_tcp_wf, lemma_tcp_checksum_ignores_stored, lemma_tcp_encode_then_parse,
    link_header, outgoing_ip, outgoing_tcp, parse_tcp, segment_frame, TcpFields, TcpPacket,
    ETHERTYPE_IPV4, MAX_SEGMENT_TEXT, PROTOCOL_TCP,
};
use crate::utils::{be16, from_be16, get_u16_be, lemma_bytes_of_be16, ConnectionId};
use vstd::prelude::*;
use vstd::string::StringSliceAdditionalSpecFns;

verus! {

/// The flows of a table as mathematical values, in table order.
pub open spec fn views(table: Seq<Connection>) -> Seq<ConnectionView> {
    Seq::new(table.len(), |i: int| table[i]@)
}

/// The four-tuples of the flows of a table, in table order.
pub open spec fn flow_ids(table: Seq<ConnectionView>) -> Seq<ConnectionId> {
    Seq::new(table.len(), |i: int| table[i].id())
}

/// The local address and port of the flows of a table, in table order.
pub open spec fn local_keys(table: Seq<ConnectionView>) -> Seq<(u32, u16)> {
    Seq::new(table.len(), |i: int| (table[i].server_ip, table[i].server_port))
}

/// Where `key` stands in `keys`, if it is there.
pub open spec fn position<K>(keys: Seq<K>, key: K) -> Option<int> {
    if keys.contains(key) {
        Some(keys.index_of(key))
    } else {
        None
    }
}

/// In a sequence without duplicates a key stands where it is found.
pub proof fn lemma_position_found<K>(keys: Seq<K>, key: K, i: int)
    requires
        keys.no_duplicates(),
        0 <= i < keys.len(),
        keys[i] == key,
    ensures
        position(keys, key) == Some(i),
{
}

/// A key that equals no entry has no position.
pub proof fn lemma_position_absent<K>(keys: Seq<K>, key: K)
    requires
        forall|i: int| 0 <= i < keys.len() ==> keys[i] != key,
    ensures
        position(keys, key) is None,
{
}

/// The table with `entry` stored at position `at`, or appended when there is
/// no such position.
pub open spec fn stored(table: Seq<ConnectionView>, at: Option<int>, entry: ConnectionView) -> Seq<
    ConnectionView,
> {
    match at {
        Some(i) => table.update(i, entry),
        None => table.push(entry),
    }
}

/// Why an inbound frame was not handed to any flow.
#[derive(Clone, Copy, Debug, PartialEq, Eq, Structural)]
pub enum DropReason {
    /// The frame is shorter than the link header.
    ShortFrame,
    /// The link header announces something other than IPv4.
    NotIpv4,
    /// The IPv4 header is cut short or announces an impossible length.
    IpHeader(HeaderError),
    /// The datagram carries something other than TCP.
    NotTcp,
    /// The IPv4 header checksum is wrong.
    IpChecksum,
    /// The TCP header is cut short or announces an impossible length.
    TcpHeader(HeaderError),
    /// The TCP checksum is wrong.
    TcpChecksum,
    /// No accepted flow and no listener matches the segment.
    NoFlow,
}

/// A segment that passed every check, as mathematical values.
pub struct Segment {
    pub ip: Ipv4Fields,
    pub tcp: TcpFields,
    pub payload: Seq<u8>,
}

impl Segment {
    /// The four-tuple of the flow the segment belongs to.
    pub open spec fn id(self) -> ConnectionId {
        ConnectionId {
            ip_src: self.ip.source_ip,
            ip_dst: self.ip.dest_ip,
            port_src: self.tcp.source_port,
            port_dst: self.tcp.dest_port,
        }
    }
}

/// The datagram inside a frame: everything behind the four-byte link header.
pub open spec fn datagram_of(frame: Seq<u8>) -> Seq<u8> {
    frame.subrange(4, frame.len() as int)
}

/// What is left of `data` behind its first `n` bytes.
pub open spec fn behind(data: Seq<u8>, n: int) -> Seq<u8> {
    data.subrange(n, data.len() as int)
}

/// The checks every inbound frame goes through, in order: link header,
/// IPv4 header, protocol, IPv4 checksum, TCP header, TCP checksum. The
/// payload is whatever follows the TCP header; the datagram's length field is
/// not consulted.
pub open spec fn classify(frame: Seq<u8>) -> Result<Segment, DropReason> {
    if frame.len() < 4 {
        Err(DropReason::ShortFrame)
    } else if from_be16(frame[2], frame[3]) != ETHERTYPE_IPV4 {
        Err(DropReason::NotIpv4)
    } else {
        match parse_ipv4(datagram_of(frame)) {
            Err(e) => Err(DropReason::IpHeader(e)),
            Ok(ip) => {
                let segment = behind(datagram_of(frame), ip.ihl * 4);
                if ip.protocol != PROTOCOL_TCP {
                    Err(DropReason::NotTcp)
                } else if !ip.valid() {
                    Err(DropReason::IpChecksum)
                } else {
                    match parse_tcp(segment) {
                        Err(e) => Err(DropReason::TcpHeader(e)),
                        Ok(tcp) => {
                            let payload = behind(segment, tcp.data_offset * 4);
                            if !tcp.valid(ip.source_ip, ip.dest_ip, payload) {
                                Err(DropReason::TcpChecksum)
                            } else {
                                Ok(Segment { ip, tcp, payload })
                            }
                        },
                    }
                }
            },
        }
    }
}

/// A frame built by this stack passes every check of this stack, and the
/// checks find in it the headers and the payload it was built from.
pub proof fn lemma_segment_frame_classifies(
    source_ip: u32,
    dest_ip: u32,
    source_port: u16,
    dest_port: u16,
    flags: u8,
    seq_num: u32,
    ack_num: u32,
    text: Seq<u8>,
)
    requires
        text.len() <= MAX_SEGMENT_TEXT,
    ensures
        classify(
            segment_frame(
                source_ip,
                dest_ip,
                source_port,
                dest_port,
                flags,
                seq_num,
                ack_num,
                text,
            ),
        ) == Ok::<Segment, DropReason>(
            Segment {
                ip: outgoing_ip(source_ip, dest_ip, text.len()).with_checksum(
                    outgoing_ip(source_ip, dest_ip, text.len()).checksum(),
                ),
                tcp: outgoing_tcp(source_port, dest_port, flags, seq_num, ack_num).with_checksum(
                    outgoing_tcp(source_port, dest_port, flags, seq_num, ack_num).checksum(
                        source_ip,
                        dest_ip,
                        text,
                    ),
                ),
                payload: text,
            },
        ),
{
    reveal(segment_frame);
    let ip0 = outgoing_ip(source_ip, dest_ip, text.len());
    let ip = ip0.with_checksum(ip0.checksum());
    let tcp0 = outgoing_tcp(source_port, dest_port, flags, seq_num, ack_num);
    let tcp = tcp0.with_checksum(tcp0.checksum(source_ip, dest_ip, text));
    let frame = segment_frame(
        source_ip,
        dest_ip,
        source_port,
        dest_port,
        flags,
        seq_num,
        ack_num,
        text,
    );
    assert(frame == link_header() + ip.encode() + tcp.encode() + text);
    assert(link_header().len() == 4);
    assert(ip.encode().len() == 20);
    assert(tcp.encode().len() == 20);
    assert(frame[2] == be16(ETHERTYPE_IPV4)[0] && frame[3] == be16(ETHERTYPE_IPV4)[1]);
    lemma_bytes_of_be16(ETHERTYPE_IPV4);
    assert(datagram_of(frame) =~= ip.encode() + (tcp.encode() + text));
    lemma_ipv4_encode_then_parse(ip, tcp.encode() + text);
    lemma_ipv4_checksum_ignores_stored(ip0, ip0.checksum());
    assert(behind(datagram_of(frame), ip.ihl * 4) =~= tcp.encode() + text);
    lemma_tcp_encode_then_parse(tcp, text);
    lemma_tcp_checksum_ignores_stored(
        tcp0,
        tcp0.checksum(source_ip, dest_ip, text),
        source_ip,
        dest_ip,
        text,
    );
    assert(behind(tcp.encode() + text, tcp.data_offset * 4) =~= text);
}

/// What became of an inbound frame, as mathematical values.
pub enum DispatchView {
    /// The frame was dropped and no flow saw it.
    Dropped(DropReason),
    /// A flow took the frame and answers with the given frame, if any.
    Delivered(Option<Seq<u8>>),
}

/// What became of an inbound frame.
#[derive(Debug)]
pub enum Dispatch {
    /// The frame was dropped and no flow saw it.
    Dropped(DropReason),
    /// A flow took the frame and answers with the given frame, if any.
    Delivered(Option<Vec<u8>>),
}

impl View for Dispatch {
    type V = DispatchView;

    open spec fn view(&self) -> DispatchView {
        match *self {
            Dispatch::Dropped(reason) => DispatchView::Dropped(reason),
            Dispatch::Delivered(reply) => DispatchView::Delivered(frame_bytes(reply)),
        }
    }
}

/// The frames of one flush over the flows of `table`, in table order: one
/// from every flow that has something to send.
pub open spec fn flush_frames(table: Seq<ConnectionView>) -> Seq<Seq<u8>>
    decreases table.len(),
{
    if table.len() == 0 {
        Seq::empty()
    } else {
        let before = flush_frames(table.drop_last());
        match flush_frame(table.last()) {
            Some(frame) => before.push(frame),
            None => before,
        }
    }
}

/// Both tables of a manager as mathematical values.
pub struct ManagerView {
    /// Accepted flows, each under its four-tuple.
    pub active: Seq<ConnectionView>,
    /// Flows offered to new peers, each under its local address and port.
    pub listening: Seq<ConnectionView>,
}

impl ManagerView {
    /// No four-tuple names two accepted flows, no local endpoint has two
    /// listeners, and every accepted flow has left the listening state.
    pub open spec fn wf(self) -> bool {
        &&& flow_ids(self.active).no_duplicates()
        &&& local_keys(self.listening).no_duplicates()
        &&& forall|i: int| 0 <= i < self.active.len() ==> self.active[i].state != State::Listen
    }

    /// Where the accepted flow `id` stands, if there is one.
    pub open spec fn find_flow(self, id: ConnectionId) -> Option<int> {
        position(flow_ids(self.active), id)
    }

    /// Where the listener on `ip:port` stands, if there is one.
    pub open spec fn find_listener(self, ip: u32, port: u16) -> Option<int> {
        position(local_keys(self.listening), (ip, port))
    }

    /// The accepted flow `id`, if there is one.
    pub open spec fn flow(self, id: ConnectionId) -> Option<ConnectionView> {
        match self.find_flow(id) {
            Some(i) => Some(self.active[i]),
            None => None,
        }
    }

    /// The listener on `ip:port`, if there is one.
    pub open spec fn listener(self, ip: u32, port: u16) -> Option<ConnectionView> {
        match self.find_listener(ip, port) {
            Some(i) => Some(self.listening[i]),
            None => None,
        }
    }

    /// The tables after `entry` became the listener on its local endpoint,
    /// in place of the one that was there, if any.
    pub open spec fn with_listener(self, entry: ConnectionView) -> ManagerView {
        ManagerView {
            listening: stored(
                self.listening,
                self.find_listener(entry.server_ip, entry.server_port),
                entry,
            ),
            ..self
        }
    }

    /// The tables after `entry` became the accepted flow under its
    /// four-tuple, in place of the one that was there, if any.
    pub open spec fn with_flow(self, entry: ConnectionView) -> ManagerView {
        ManagerView { active: stored(self.active, self.find_flow(entry.id()), entry), ..self }
    }

    /// The tables after a fresh listener, whose sequence numbers start at
    /// `initial_seq`, was bound to `ip:port`.
    pub open spec fn bind(self, ip: u32, port: u16, initial_seq: u32) -> ManagerView {
        self.with_listener(ConnectionView::listening(ip, port, initial_seq))
    }

    /// Whether the listener on `ip:port` has met a peer and can be promoted.
    pub open spec fn ready(self, ip: u32, port: u16) -> bool {
        match self.listener(ip, port) {
            Some(entry) => entry.state != State::Listen,
            None => false,
        }
    }

    /// What `segment` does to the flow it belongs to: an accepted flow with
    /// its four-tuple comes first, then the listener on its destination.
    pub open spec fn step(self, segment: Segment) -> Option<Transition> {
        match self.flow(segment.id()) {
            Some(flow) => Some(
                transition(
                    flow,
                    segment.ip.source_ip,
                    segment.ip.dest_ip,
                    segment.tcp,
                    segment.payload,
                ),
            ),
            None => match self.listener(segment.ip.dest_ip, segment.tcp.dest_port) {
                Some(entry) => Some(
                    transition(
                        entry,
                        segment.ip.source_ip,
                        segment.ip.dest_ip,
                        segment.tcp,
                        segment.payload,
                    ),
                ),
                None => None,
            },
        }
    }

    /// The tables after `segment` was handed to the flow it belongs to. The
    /// flow keeps its place in its table.
    pub open spec fn deliver(self, segment: Segment) -> ManagerView {
        match self.step(segment) {
            Some(t) => match self.find_flow(segment.id()) {
                Some(i) => ManagerView { active: self.active.update(i, t.next), ..self },
                None => ManagerView {
                    listening: self.listening.update(
                        self.find_listener(segment.ip.dest_ip, segment.tcp.dest_port).unwrap(),
                        t.next,
                    ),
                    ..self
                },
            },
            None => self,
        }
    }

    /// The tables after `frame` arrived.
    pub open spec fn dispatch(self, frame: Seq<u8>) -> ManagerView {
        match classify(frame) {
            Ok(segment) => self.deliver(segment),
            Err(_) => self,
        }
    }

    /// What is reported of `frame`: why it was dropped, or the answer of the
    /// flow that took it.
    pub open spec fn dispatch_outcome(self, frame: Seq<u8>) -> DispatchView {
        match classify(frame) {
            Err(reason) => DispatchView::Dropped(reason),
            Ok(segment) => match self.step(segment) {
                Some(t) => DispatchView::Delivered(t.frame()),
                None => DispatchView::Dropped(DropReason::NoFlow),
            },
        }
    }

    /// The tables after the listener on `ip:port`, which is ready, was
    /// promoted to an accepted flow and a fresh listener took its place.
    pub open spec fn accept(self, ip: u32, port: u16, initial_seq: u32) -> ManagerView
        recommends
            self.ready(ip, port),
    {
        self.with_flow(self.listener(ip, port).unwrap()).bind(ip, port, initial_seq)
    }
}

/// Storing a listener keeps the tables well formed, and afterwards every
/// endpoint finds what a map would hold: the new entry under its own
/// endpoint, and under any other what was there before.
pub proof fn lemma_with_listener(m: ManagerView, entry: ConnectionView, ip: u32, port: u16)
    requires
        m.wf(),
    ensures
        m.with_listener(entry).wf(),
        m.with_listener(entry).listener(ip, port) == if ip == entry.server_ip && port
            == entry.server_port {
            Some(entry)
        } else {
            m.listener(ip, port)
        },
{
    let keys = local_keys(m.listening);
    let own = (entry.server_ip, entry.server_port);
    let after = m.with_listener(entry);
    let keys_after = local_keys(after.listening);
    match m.find_listener(entry.server_ip, entry.server_port) {
        Some(i) => {
            assert(keys.contains(own));
            assert(keys[i] == own);
            assert(keys_after =~= keys);
            lemma_position_found(keys, own, i);
        },
        None => {
            assert(keys_after =~= keys.push(own));
            assert forall|i: int| 0 <= i < keys.len() implies keys[i] != own by {
                if keys[i] == own {
                    assert(keys.contains(own));
                }
            }
            lemma_position_found(keys_after, own, keys.len() as int);
            if (ip, port) != own {
                if keys.contains((ip, port)) {
                    let j = keys.index_of((ip, port));
                    assert(keys_after[j] == (ip, port));
                    lemma_position_found(keys_after, (ip, port), j);
                    lemma_position_found(keys, (ip, port), j);
                } else {
                    assert forall|j: int| 0 <= j < keys_after.len() implies keys_after[j] != (
                        ip,
                        port,
                    ) by {
                        if j < keys.len() && keys[j] == (ip, port) {
                            assert(keys.contains((ip, port)));
                        }
                    }
                    lemma_position_absent(keys_after, (ip, port));
                }
            }
        },
    }
}

/// Storing a flow that has left the listening state keeps the tables well
/// formed, and afterwards every four-tuple finds what a map would hold: the
/// new entry under its own four-tuple, and under any other what was there
/// before.
pub proof fn lemma_with_flow(m: ManagerView, entry: ConnectionView, id: ConnectionId)
    requires
        m.wf(),
        entry.state != State::Listen,
    ensures
        m.with_flow(entry).wf(),
        m.with_flow(entry).flow(id) == if id == entry.id() {
            Some(entry)
        } else {
            m.flow(id)
        },
{
    let keys = flow_ids(m.active);
    let own = entry.id();
    let after = m.with_flow(entry);
    let keys_after = flow_ids(after.active);
    match m.find_flow(own) {
        Some(i) => {
            assert(keys.contains(own));
            assert(keys[i] == own);
            assert(keys_after =~= keys);
            lemma_position_found(keys, own, i);
        },
        None => {
            assert(keys_after =~= keys.push(own));
            assert forall|i: int| 0 <= i < keys.len() implies keys[i] != own by {
                if keys[i] == own {
                    assert(keys.contains(own));
                }
            }
            lemma_position_found(keys_after, own, keys.len() as int);
            if id != own {
                if keys.contains(id) {
                    let j = keys.index_of(id);
                    assert(keys_after[j] == id);
                    lemma_position_found(keys_after, id, j);
                    lemma_position_found(keys, id, j);
                } else {
                    assert forall|j: int| 0 <= j < keys_after.len() implies keys_after[j]
                        != id by {
                        if j < keys.len() && keys[j] == id {
                            assert(keys.contains(id));
                        }
                    }
                    lemma_position_absent(keys_after, id);
                }
            }
        },
    }
}

/// The table never hands a segment to a flow that would refuse it as
/// misdirected: a flow is found by the very address and port it checks.
pub proof fn lemma_step_never_misdirected(m: ManagerView, segment: Segment)
    requires
        m.wf(),
    ensures
        match m.step(segment) {
            Some(t) => !t.misdirected,
            None => true,
        },
{
    match m.find_flow(segment.id()) {
        Some(i) => {
            assert(flow_ids(m.active).contains(segment.id()));
            assert(flow_ids(m.active)[i] == segment.id());
            lemma_misdirected_iff(
                m.active[i],
                segment.ip.source_ip,
                segment.ip.dest_ip,
                segment.tcp,
                segment.payload,
            );
        },
        None => {
            match m.find_listener(segment.ip.dest_ip, segment.tcp.dest_port) {
                Some(j) => {
                    let key = (segment.ip.dest_ip, segment.tcp.dest_port);
                    assert(local_keys(m.listening).contains(key));
                    assert(local_keys(m.listening)[j] == key);
                    lemma_misdirected_iff(
                        m.listening[j],
                        segment.ip.source_ip,
                        segment.ip.dest_ip,
                        segment.tcp,
                        segment.payload,
                    );
                },
                None => {},
            }
        },
    }
}

/// Handing a segment to its flow keeps the tables well formed.
pub proof fn lemma_deliver_wf(m: ManagerView, segment: Segment)
    requires
        m.wf(),
    ensures
        m.deliver(segment).wf(),
{
    match m.find_flow(segment.id()) {
        Some(i) => {
            assert(flow_ids(m.active).contains(segment.id()));
            lemma_transition_keeps_identity(
                m.active[i],
                segment.ip.source_ip,
                segment.ip.dest_ip,
                segment.tcp,
                segment.payload,
            );
            assert(flow_ids(m.deliver(segment).active) =~= flow_ids(m.active));
        },
        None => {
            match m.find_listener(segment.ip.dest_ip, segment.tcp.dest_port) {
                Some(j) => {
                    let key = (segment.ip.dest_ip, segment.tcp.dest_port);
                    assert(local_keys(m.listening).contains(key));
                    lemma_transition_keeps_identity(
                        m.listening[j],
                        segment.ip.source_ip,
                        segment.ip.dest_ip,
                        segment.tcp,
                        segment.payload,
                    );
                    assert(local_keys(m.deliver(segment).listening) =~= local_keys(m.listening));
                },
                None => {},
            }
        },
    }
}

/// Handing a segment to its flow removes no accepted flow and adds none:
/// every four-tuple names a flow afterwards exactly if it did before.
pub proof fn lemma_deliver_keeps_flows(m: ManagerView, segment: Segment, id: ConnectionId)
    requires
        m.wf(),
    ensures
        m.deliver(segment).flow(id).is_some() == m.flow(id).is_some(),
{
    match m.find_flow(segment.id()) {
        Some(i) => {
            assert(flow_ids(m.active).contains(segment.id()));
            lemma_transition_keeps_identity(
                m.active[i],
                segment.ip.source_ip,
                segment.ip.dest_ip,
                segment.tcp,
                segment.payload,
            );
            assert(flow_ids(m.deliver(segment).active) =~= flow_ids(m.active));
        },
        None => {},
    }
}

/// No inbound frame removes an accepted flow or adds one, and none breaks the
/// tables: a flow that has closed is still there.
pub proof fn lemma_dispatch_keeps_flows(m: ManagerView, frame: Seq<u8>, id: ConnectionId)
    requires
        m.wf(),
    ensures
        m.dispatch(frame).wf(),
        m.dispatch(frame).flow(id).is_some() == m.flow(id).is_some(),
{
    match classify(frame) {
        Ok(segment) => {
            lemma_deliver_wf(m, segment);
            lemma_deliver_keeps_flows(m, segment, id);
        },
        Err(_) => {},
    }
}

/// Promoting a listener makes it the accepted flow under its four-tuple and
/// leaves every other accepted flow in place.
pub proof fn lemma_accept_flows(
    m: ManagerView,
    ip: u32,
    port: u16,
    initial_seq: u32,
    id: ConnectionId,
)
    requires
        m.wf(),
        m.ready(ip, port),
    ensures
        m.accept(ip, port, initial_seq).wf(),
        m.accept(ip, port, initial_seq).flow(id) == if id == m.listener(ip, port).unwrap().id() {
            m.listener(ip, port)
        } else {
            m.flow(id)
        },
{
    let promoted = m.listener(ip, port).unwrap();
    lemma_with_flow(m, promoted, id);
    lemma_with_listener(
        m.with_flow(promoted),
        ConnectionView::listening(ip, port, initial_seq),
        ip,
        port,
    );
}

/// All flows that share one interface.
pub struct ConnectionManager {
    conns: Vec<Connection>,
    listen: Vec<Connection>,
}

impl View for ConnectionManager {
    type V = ManagerView;

    closed spec fn view(&self) -> ManagerView {
        ManagerView { active: views(self.conns@), listening: views(self.listen@) }
    }
}

/// An index found by a search, as a mathematical integer.
pub open spec fn as_position(at: Option<usize>) -> Option<int> {
    match at {
        Some(i) => Some(i as int),
        None => None,
    }
}

/// Stores `entry` at position `at` of `table`, or appends it when there is no
/// such position.
fn store(table: &mut Vec<Connection>, at: Option<usize>, entry: Connection)
    requires
        match at {
            Some(i) => i < old(table)@.len(),
            None => true,
        },
    ensures
        views(final(table)@) == stored(views(old(table)@), as_position(at), entry@),
{
    match at {
        Some(i) => {
            table[i] = entry;
            assert(views(table@) =~= views(old(table)@).update(i as int, entry@));
        },
        None => {
            table.push(entry);
            assert(views(table@) =~= views(old(table)@).push(entry@));
        },
    }
}

/// Runs every check on an inbound frame and splits it into the two headers
/// and the segment's payload.
pub fn validate<'a>(frame: &'a [u8]) -> (checked: Result<
    (IPv4Header<'a>, TcpPacket<'a>, &'a [u8]),
    DropReason,
>)
    ensures
        match checked {
            Ok((ip, tcp, payload)) => classify(frame@) == Ok::<Segment, DropReason>(
                Segment { ip: ip@, tcp: tcp@, payload: payload@ },
            ),
            Err(reason) => classify(frame@) == Err::<Segment, DropReason>(reason),
        },
{
    if frame.len() < 4 {
        return Err(DropReason::ShortFrame);
    }
    if get_u16_be(frame, 2) != ETHERTYPE_IPV4 {
        return Err(DropReason::NotIpv4);
    }
    let (ip, segment) = match IPv4Header::new(&frame[4..frame.len()]) {
        Ok(parts) => parts,
        Err(e) => {
            return Err(DropReason::IpHeader(e));
        },
    };
    if ip.protocol != PROTOCOL_TCP {
        return Err(DropReason::NotTcp);
    }
    proof {
        lemma_ipv4_decode_then_encode(datagram_of(frame@));
    }
    if ip.header_checksum != ip.calc_checksum() {
        return Err(DropReason::IpChecksum);
    }
    let (tcp, payload) = match TcpPacket::new(segment) {
        Ok(parts) => parts,
        Err(e) => {
            return Err(DropReason::TcpHeader(e));
        },
    };
    proof {
        lemma_decoded_tcp_wf(segment@);
    }
    if tcp.checksum != tcp.calc_checksum(
        ip.source_ip,
        ip.dest_ip,
        tcp.size() + payload.len(),
        payload,
    ) {
        return Err(DropReason::TcpChecksum);
    }
    Ok((ip, tcp, payload))
}

impl ConnectionManager {
    /// A manager without flows.
    pub fn new() -> (manager: ConnectionManager)
        ensures
            manager@.wf(),
            manager@ == (ManagerView { active: Seq::empty(), listening: Seq::empty() }),
    {
        let manager = ConnectionManager { conns: Vec::new(), listen: Vec::new() };
        assert(manager@.active =~= Seq::empty() && manager@.listening =~= Seq::empty());
        manager
    }

    fn flow_index(&self, id: &ConnectionId) -> (found: Option<usize>)
        requires
            self@.wf(),
        ensures
            self@.find_flow(*id) == as_position(found),
            found matches Some(i) ==> i < self@.active.len(),
    {
        let mut i: usize = 0;
        while i < self.conns.len()
            invariant
                self@.wf(),
                i <= self.conns@.len(),
                forall|j: int| 0 <= j < i ==> flow_ids(self@.active)[j] != *id,
            decreases self.conns@.len() - i,
        {
            if self.conns[i].id() == *id {
                proof {
                    lemma_position_found(flow_ids(self@.active), *id, i as int);
                }
                return Some(i);
            }
            i += 1;
        }
        proof {
            lemma_position_absent(flow_ids(self@.active), *id);
        }
        None
    }

    fn listener_index(&self, ip: u32, port: u16) -> (found: Option<usize>)
        requires
            self@.wf(),
        ensures
            self@.find_listener(ip, port) == as_position(found),
            found matches Some(i) ==> i < self@.listening.len(),
    {
        let mut i: usize = 0;
        while i < self.listen.len()
            invariant
                self@.wf(),
                i <= self.listen@.len(),
                forall|j: int| 0 <= j < i ==> local_keys(self@.listening)[j] != (ip, port),
            decreases self.listen@.len() - i,
        {
            if self.listen[i].server_ip == ip && self.listen[i].server_port == port {
                proof {
                    lemma_position_found(local_keys(self@.listening), (ip, port), i as int);
                }
                return Some(i);
            }
            i += 1;
        }
        proof {
            lemma_position_absent(local_keys(self@.listening), (ip, port));
        }
        None
    }

    /// Whether `id` names an accepted flow.
    pub fn has_flow(&self, id: &ConnectionId) -> (found: bool)
        requires
            self@.wf(),
        ensures
            found == self@.flow(*id).is_some(),
    {
        self.flow_index(id).is_some()
    }

    /// Binds a fresh listener, whose sequence numbers start at `initial_seq`,
    /// to `ip:port`. A listener already bound there is replaced.
    pub fn bind_with_seq(&mut self, ip: u32, port: u16, initial_seq: u32) -> (listener: Listener)
        requires
            old(self)@.wf(),
        ensures
            final(self)@.wf(),
            final(self)@ == old(self)@.bind(ip, port, initial_seq),
            listener == (Listener { ip, port }),
    {
        proof {
            lemma_with_listener(self@, ConnectionView::listening(ip, port, initial_seq), ip, port);
        }
        let at = self.listener_index(ip, port);
        store(&mut self.listen, at, Connection::with_initial_seq(ip, port, initial_seq));
        Listener::new(ip, port)
    }

    /// Promotes the listener on `ip:port` to an accepted flow if it has met a
    /// peer, and binds a fresh listener, whose sequence numbers start at
    /// `initial_seq`, in its place. An accepted flow with the same four-tuple
    /// is replaced.
    ///
    /// Returns the handle of the promoted flow, or `None`, with nothing
    /// changed, when no listener is bound there or it still waits.
    pub fn accept_with_seq(&mut self, ip: u32, port: u16, initial_seq: u32) -> (handle: Option<
        ConnectionHandle,
    >)
        requires
            old(self)@.wf(),
        ensures
            final(self)@.wf(),
            match handle {
                Some(h) => {
                    &&& old(self)@.ready(ip, port)
                    &&& h.id == old(self)@.listener(ip, port).unwrap().id()
                    &&& final(self)@ == old(self)@.accept(ip, port, initial_seq)
                    &&& final(self)@.flow(h.id) == old(self)@.listener(ip, port)
                },
                None => !old(self)@.ready(ip, port) && final(self)@ == old(self)@,
            },
    {
        let at = self.listener_index(ip, port);
        let j = match at {
            Some(j) => j,
            None => {
                return None;
            },
        };
        if self.listen[j].state == State::Listen {
            return None;
        }
        let ghost before = self@;
        let ghost promoted = before.listening[j as int];
        proof {
            lemma_accept_flows(before, ip, port, initial_seq, promoted.id());
            lemma_with_flow(before, promoted, promoted.id());
        }
        let slot = self.flow_index(&self.listen[j].id());
        self.listen.push(Connection::with_initial_seq(ip, port, initial_seq));
        let conn = self.listen.swap_remove(j);
        assert(views(self.listen@) =~= before.listening.update(
            j as int,
            ConnectionView::listening(ip, port, initial_seq),
        ));
        let id = conn.id();
        store(&mut self.conns, slot, conn);
        Some(ConnectionHandle { id })
    }

    /// Hands an inbound frame to the flow it belongs to and reports the
    /// flow's answer. A frame that fails a check, or belongs to no flow, is
    /// dropped and changes nothing.
    pub fn dispatch(&mut self, frame: &[u8]) -> (outcome: Dispatch)
        requires
            old(self)@.wf(),
        ensures
            final(self)@.wf(),
            final(self)@ == old(self)@.dispatch(frame@),
            outcome@ == old(self)@.dispatch_outcome(frame@),
    {
        let (ip, tcp, data) = match validate(frame) {
            Ok(parts) => parts,
            Err(reason) => {
                return Dispatch::Dropped(reason);
            },
        };
        let id = ConnectionId {
            ip_src: ip.source_ip,
            ip_dst: ip.dest_ip,
            port_src: tcp.source_port,
            port_dst: tcp.dest_port,
        };
        let ghost before = self@;
        if let Some(i) = self.flow_index(&id) {
            proof {
                lemma_transition_keeps_identity(
                    before.active[i as int],
                    ip.source_ip,
                    ip.dest_ip,
                    tcp@,
                    data@,
                );
            }
            let reaction = self.conns[i].on_message(data, &ip, &tcp);
            assert(views(self.conns@) =~= before.active.update(i as int, self.conns@[i as int]@));
            assert(flow_ids(self@.active) =~= flow_ids(before.active));
            return Dispatch::Delivered(reaction.reply);
        }
        if let Some(j) = self.listener_index(ip.dest_ip, tcp.dest_port) {
            proof {
                lemma_transition_keeps_identity(
                    before.listening[j as int],
                    ip.source_ip,
                    ip.dest_ip,
                    tcp@,
                    data@,
                );
            }
            let reaction = self.listen[j].on_message(data, &ip, &tcp);
            assert(views(self.listen@) =~= before.listening.update(
                j as int,
                self.listen@[j as int]@,
            ));
            assert(local_keys(self@.listening) =~= local_keys(before.listening));
            return Dispatch::Delivered(reaction.reply);
        }
        Dispatch::Dropped(DropReason::NoFlow)
    }

    /// The frames of one periodic flush: one from every accepted flow that is
    /// not closed and has bytes queued, in table order. Listeners never send.
    pub fn pending_frames(&self) -> (frames: Vec<Vec<u8>>)
        ensures
            frames.deep_view() == flush_frames(self@.active),
    {
        let mut frames: Vec<Vec<u8>> = Vec::new();
        let mut i: usize = 0;
        assert(self@.active.subrange(0, 0) =~= Seq::empty());
        assert(frames.deep_view() =~= Seq::empty());
        while i < self.conns.len()
            invariant
                i <= self.conns@.len(),
                frames.deep_view() == flush_frames(self@.active.subrange(0, i as int)),
            decreases self.conns@.len() - i,
        {
            let ghost done = frames.deep_view();
            let ghost prefix = self@.active.subrange(0, i as int + 1);
            assert(prefix.drop_last() =~= self@.active.subrange(0, i as int));
            assert(prefix.last() == self.conns@[i as int]@);
            match self.conns[i].pending_frame() {
                Some(frame) => {
                    frames.push(frame);
                    assert(frames.deep_view() =~~= done.push(frame@));
                },
                None => {},
            }
            i += 1;
        }
        assert(self@.active.subrange(0, i as int) =~= self@.active);
        frames
    }

    /// Queues `data` for transmission on the accepted flow `id`.
    pub fn write_all(&mut self, id: &ConnectionId, data: &[u8])
        requires
            old(self)@.wf(),
            old(self)@.flow(*id).is_some(),
        ensures
            final(self)@.wf(),
            final(self)@ == old(self)@.with_flow(
                ConnectionView {
                    send_queue: old(self)@.flow(*id).unwrap().send_queue + data@,
                    ..old(self)@.flow(*id).unwrap()
                },
            ),
    {
        let ghost before = self@;
        let at = self.flow_index(id);
        match at {
            Some(i) => {
                self.conns[i].write_all(data);
                assert(views(self.conns@) =~= before.active.update(
                    i as int,
                    self.conns@[i as int]@,
                ));
                proof {
                    lemma_with_flow(before, self.conns@[i as int]@, *id);
                }
            },
            None => {},
        }
    }

    /// Moves bytes received on the accepted flow `id` into `buf`: as many as
    /// fit, oldest first; what is left of `buf` is filled with zeros. Returns
    /// the number of bytes moved.
    pub fn read(&mut self, id: &ConnectionId, buf: &mut [u8]) -> (len: usize)
        requires
            old(self)@.wf(),
            old(self)@.flow(*id).is_some(),
        ensures
            final(self)@.wf(),
            len == if old(buf)@.len() <= old(self)@.flow(*id).unwrap().recv_queue.len() {
                old(buf)@.len()
            } else {
                old(self)@.flow(*id).unwrap().recv_queue.len()
            },
            final(buf)@ == old(self)@.flow(*id).unwrap().recv_queue.subrange(0, len as int)
                + Seq::new((old(buf)@.len() - len) as nat, |i: int| 0u8),
            final(self)@ == old(self)@.with_flow(
                ConnectionView {
                    recv_queue: without_front(
                        old(self)@.flow(*id).unwrap().recv_queue,
                        len as nat,
                    ),
                    ..old(self)@.flow(*id).unwrap()
                },
            ),
    {
        let ghost before = self@;
        let at = self.flow_index(id);
        match at {
            Some(i) => {
                let len = self.conns[i].read(buf);
                assert(views(self.conns@) =~= before.active.update(
                    i as int,
                    self.conns@[i as int]@,
                ));
                proof {
                    lemma_with_flow(before, self.conns@[i as int]@, *id);
                }
                len
            },
            None => 0,
        }
    }

    /// Like `accept_with_seq`, with a random initial sequence number for the
    /// fresh listener.
    pub fn accept(&mut self, ip: u32, port: u16) -> (handle: Option<ConnectionHandle>)
        requires
            old(self)@.wf(),
        ensures
            final(self)@.wf(),
            match handle {
                Some(h) => {
                    &&& old(self)@.ready(ip, port)
                    &&& h.id == old(self)@.listener(ip, port).unwrap().id()
                    &&& exists|initial_seq: u32|
                        final(self)@ == old(self)@.accept(ip, port, initial_seq)
                    &&& final(self)@.flow(h.id) == old(self)@.listener(ip, port)
                },
                None => !old(self)@.ready(ip, port) && final(self)@ == old(self)@,
            },
    {
        let initial_seq = random_initial_seq();
        self.accept_with_seq(ip, port, initial_seq)
    }

    /// Binds a fresh listener with a random initial sequence number to the
    /// address written by `ip_str` in dotted-quad notation and to `port`. A
    /// listener already bound there is replaced.
    pub fn bind(&mut self, ip_str: &str, port: u16) -> (listener: Listener)
        requires
            old(self)@.wf(),
            dotted_quad_value(ip_str.spec_bytes()) is Some,
        ensures
            final(self)@.wf(),
            listener == (Listener { ip: dotted_quad_value(ip_str.spec_bytes()).unwrap(), port }),
            exists|initial_seq: u32|
                final(self)@ == old(self)@.bind(listener.ip, port, initial_seq),
    {
        let ip = parse_dotted_quad(ip_str).unwrap();
        let initial_seq = random_initial_seq();
        let listener = self.bind_with_seq(ip, port, initial_seq);
        assert(self@ == old(self)@.bind(listener.ip, port, initial_seq));
        listener
    }
}

} // verus!
