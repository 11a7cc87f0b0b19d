//! One TCP flow: its sequence counters, its two byte queues and the state
//! machine that every inbound segment drives.

use crate::ipv4::IPv4Header;
use crate::tcp::{
    build_segment_frame, segment_frame, TcpFields, TcpFlag, TcpPacket, MAX_SEGMENT_TEXT,
};
use crate::utils::{on_arc, push_bytes, seq_add, wrapping_between, ConnectionId};
use rand::Rng;
use vstd::prelude::*;

verus! {

/// Where a flow stands in its life.
#[derive(Clone, Copy, Debug, PartialEq, Eq, Structural)]
pub enum State {
    Closed,
    Listen,
    SynRecvd,
    Estab,
    LastAck,
}

/// A flow as a mathematical value: the queues are byte sequences.
pub struct ConnectionView {
    pub state: State,
    pub server_port: u16,
    pub client_port: u16,
    pub server_ip: u32,
    pub client_ip: u32,
    pub recv_seq: u32,
    pub send_seq: u32,
    pub send_window: u16,
    pub send_queue: Seq<u8>,
    pub recv_queue: Seq<u8>,
}

impl ConnectionView {
    /// A flow that waits for its first SYN on `ip:port` and will open its own
    /// side of the conversation at sequence number `initial_seq`.
    pub open spec fn listening(ip: u32, port: u16, initial_seq: u32) -> ConnectionView {
        ConnectionView {
            state: State::Listen,
            server_port: port,
            client_port: 0,
            server_ip: ip,
            client_ip: 0,
            recv_seq: 0,
            send_seq: initial_seq,
            send_window: 0,
            send_queue: Seq::empty(),
            recv_queue: Seq::empty(),
        }
    }

    /// The four-tuple under which inbound segments of this flow arrive.
    pub open spec fn id(self) -> ConnectionId {
        ConnectionId {
            ip_src: self.client_ip,
            ip_dst: self.server_ip,
            port_src: self.client_port,
            port_dst: self.server_port,
        }
    }
}

/// Advances sequence number `a` by `n`, wrapping at 2^32.
pub fn seq_plus(a: u32, n: usize) -> (r: u32)
    ensures
        r == seq_add(a, n as nat),
{
    let low = #[verifier::truncate] (n as u32);
    assert(low == (n as u64) % 0x1_0000_0000u64) by (bit_vector)
        requires
            low == n as u32,
    ;
    a.wrapping_add(low)
}

/// What is left of `queue` once its first `n` bytes, or all of them if there
/// are fewer, are gone.
pub open spec fn without_front(queue: Seq<u8>, n: nat) -> Seq<u8> {
    let cut = if n <= queue.len() {
        n
    } else {
        queue.len()
    };
    queue.subrange(cut as int, queue.len() as int)
}

/// Removes the first `n` bytes of `queue`, or all of them if there are fewer.
pub fn drain_front(queue: &mut Vec<u8>, n: usize)
    ensures
        final(queue)@ == without_front(old(queue)@, n as nat),
{
    if n >= queue.len() {
        queue.clear();
        assert(queue@ =~= without_front(old(queue)@, n as nat));
    } else {
        let rest = queue.split_off(n);
        *queue = rest;
    }
}

/// A segment without payload that a flow sends in answer to one it received.
pub struct ReplySpec {
    pub flags: u8,
    pub seq_num: u32,
    pub ack_num: u32,
}

/// What one inbound segment does to a flow: the flow afterwards, the segment
/// sent in answer if there is one, and whether the segment was addressed to
/// another endpoint.
pub struct Transition {
    pub next: ConnectionView,
    pub reply: Option<ReplySpec>,
    pub misdirected: bool,
}

/// The frame that carries `reply` from the local endpoint of flow `id` to its
/// peer.
pub open spec fn reply_frame(id: ConnectionId, reply: ReplySpec) -> Seq<u8> {
    segment_frame(
        id.ip_dst,
        id.ip_src,
        id.port_dst,
        id.port_src,
        reply.flags,
        reply.seq_num,
        reply.ack_num,
        Seq::empty(),
    )
}

impl Transition {
    /// The frame to put on the wire, if any. It is addressed with the flow's
    /// four-tuple as it stands after the step.
    pub open spec fn frame(self) -> Option<Seq<u8>> {
        match self.reply {
            Some(reply) => Some(reply_frame(self.next.id(), reply)),
            None => None,
        }
    }
}

/// The flow is left as it is and nothing is sent.
pub open spec fn ignored(c: ConnectionView) -> Transition {
    Transition { next: c, reply: None, misdirected: false }
}

/// The flow is closed and nothing is sent.
pub open spec fn closed_silently(c: ConnectionView) -> Transition {
    Transition {
        next: ConnectionView { state: State::Closed, ..c },
        reply: None,
        misdirected: false,
    }
}

/// A segment for another address or port: it is answered with a reset that
/// acknowledges it, and reported.
pub open spec fn on_misdirected(c: ConnectionView, tcp: TcpFields, payload: Seq<u8>) -> Transition {
    Transition {
        next: c,
        reply: Some(
            ReplySpec {
                flags: TcpFlag::Rst.mask() | TcpFlag::Ack.mask(),
                seq_num: seq_add(tcp.sequence_number, 1),
                ack_num: seq_add(tcp.sequence_number, 1 + payload.len()),
            },
        ),
        misdirected: true,
    }
}

/// A SYN for a listening flow: the peer is recorded, its SYN acknowledged,
/// and the flow offers its own initial sequence number.
pub open spec fn on_syn(c: ConnectionView, source_ip: u32, tcp: TcpFields) -> Transition {
    let recv_seq = seq_add(tcp.sequence_number, 1);
    Transition {
        next: ConnectionView {
            state: State::SynRecvd,
            recv_seq,
            client_ip: source_ip,
            client_port: tcp.source_port,
            ..c
        },
        reply: Some(
            ReplySpec {
                flags: TcpFlag::Syn.mask() | TcpFlag::Ack.mask(),
                seq_num: c.send_seq,
                ack_num: recv_seq,
            },
        ),
        misdirected: false,
    }
}

/// An ACK while the handshake is half done: if it acknowledges exactly the
/// flow's SYN and carries no SYN itself the flow is established; otherwise
/// the flow is closed and the peer reset.
pub open spec fn on_handshake_ack(c: ConnectionView, tcp: TcpFields, payload: Seq<u8>) -> Transition {
    if tcp.ack_number != seq_add(c.send_seq, 1) || tcp.has_flag(TcpFlag::Syn) {
        Transition {
            next: ConnectionView { state: State::Closed, ..c },
            reply: Some(
                ReplySpec {
                    flags: TcpFlag::Rst.mask(),
                    seq_num: tcp.ack_number,
                    ack_num: seq_add(tcp.sequence_number, payload.len()),
                },
            ),
            misdirected: false,
        }
    } else {
        Transition {
            next: ConnectionView { state: State::Estab, send_seq: seq_add(c.send_seq, 1), ..c },
            reply: None,
            misdirected: false,
        }
    }
}

/// A FIN on an established flow: it is acknowledged together with the flow's
/// own FIN.
pub open spec fn on_fin(c: ConnectionView, tcp: TcpFields) -> Transition {
    let recv_seq = seq_add(tcp.sequence_number, 1);
    Transition {
        next: ConnectionView { state: State::LastAck, recv_seq, ..c },
        reply: Some(
            ReplySpec {
                flags: TcpFlag::Fin.mask() | TcpFlag::Ack.mask(),
                seq_num: c.send_seq,
                ack_num: recv_seq,
            },
        ),
        misdirected: false,
    }
}

/// Whether an established flow takes a segment: it must start at the next
/// expected sequence number and acknowledge something inside the window.
pub open spec fn acceptable(c: ConnectionView, tcp: TcpFields) -> bool {
    &&& tcp.sequence_number == c.recv_seq
    &&& on_arc(c.send_seq, tcp.ack_number, seq_add(c.send_seq, c.send_window as nat))
}

/// Number of bytes at the head of the send queue that `ack_number` newly
/// acknowledges. An acknowledgment numerically below `send_seq` moves nothing.
pub open spec fn newly_acked(c: ConnectionView, ack_number: u32) -> nat {
    if c.send_seq < ack_number {
        (ack_number - c.send_seq) as nat
    } else {
        0
    }
}

/// The flow after it has taken a data segment: the payload is delivered, the
/// peer's window recorded and acknowledged bytes leave the send queue.
pub open spec fn after_data(c: ConnectionView, tcp: TcpFields, payload: Seq<u8>) -> ConnectionView {
    ConnectionView {
        send_window: tcp.window_size,
        recv_seq: seq_add(c.recv_seq, payload.len()),
        send_seq: if c.send_seq < tcp.ack_number {
            tcp.ack_number
        } else {
            c.send_seq
        },
        send_queue: without_front(c.send_queue, newly_acked(c, tcp.ack_number)),
        recv_queue: c.recv_queue + payload,
        ..c
    }
}

/// Any other segment on an established flow. Without ACK it is ignored. Out
/// of order or outside the window it is answered with a bare ACK that tells
/// the peer where the flow stands. Otherwise it is taken.
pub open spec fn on_data(c: ConnectionView, tcp: TcpFields, payload: Seq<u8>) -> Transition {
    if !tcp.has_flag(TcpFlag::Ack) {
        ignored(c)
    } else if !acceptable(c, tcp) {
        Transition {
            next: c,
            reply: Some(
                ReplySpec { flags: TcpFlag::Ack.mask(), seq_num: c.send_seq, ack_num: c.recv_seq },
            ),
            misdirected: false,
        }
    } else {
        Transition { next: after_data(c, tcp, payload), reply: None, misdirected: false }
    }
}

/// A segment without RST for a closed flow: it is answered with a reset that
/// echoes its acknowledgment number, if it has one, and acknowledges it.
pub open spec fn on_closed(c: ConnectionView, tcp: TcpFields, payload: Seq<u8>) -> Transition {
    Transition {
        next: c,
        reply: Some(
            ReplySpec {
                flags: TcpFlag::Rst.mask(),
                seq_num: if tcp.has_flag(TcpFlag::Ack) {
                    tcp.ack_number
                } else {
                    0
                },
                ack_num: seq_add(tcp.sequence_number, payload.len()),
            },
        ),
        misdirected: false,
    }
}

/// The state machine: what the segment with header `tcp` and payload
/// `payload`, carried by a datagram from `source_ip` to `dest_ip`, does to
/// flow `c`. The first rule that applies, in this order, decides.
pub open spec fn transition(
    c: ConnectionView,
    source_ip: u32,
    dest_ip: u32,
    tcp: TcpFields,
    payload: Seq<u8>,
) -> Transition {
    if dest_ip != c.server_ip || tcp.dest_port != c.server_port {
        on_misdirected(c, tcp, payload)
    } else if c.state == State::Listen && tcp.has_flag(TcpFlag::Syn) {
        on_syn(c, source_ip, tcp)
    } else if c.state == State::SynRecvd && tcp.has_flag(TcpFlag::Ack) {
        on_handshake_ack(c, tcp, payload)
    } else if tcp.has_flag(TcpFlag::Rst) {
        closed_silently(c)
    } else if c.state == State::Estab && tcp.has_flag(TcpFlag::Fin) {
        on_fin(c, tcp)
    } else if c.state == State::LastAck && tcp.has_flag(TcpFlag::Ack) {
        closed_silently(c)
    } else if c.state == State::Estab {
        on_data(c, tcp, payload)
    } else if c.state == State::Closed {
        on_closed(c, tcp, payload)
    } else {
        ignored(c)
    }
}

/// How many bytes from the head of the send queue go into one segment: all
/// that wait, but no more than the peer's window and no more than a segment
/// can carry.
pub open spec fn chunk_len(c: ConnectionView) -> nat {
    let by_window = if c.send_queue.len() <= c.send_window {
        c.send_queue.len()
    } else {
        c.send_window as nat
    };
    if by_window <= MAX_SEGMENT_TEXT {
        by_window
    } else {
        MAX_SEGMENT_TEXT as nat
    }
}

/// The frame a flow sends when its turn comes in the periodic flush: none
/// while it is closed or has nothing queued, otherwise a plain ACK segment
/// that carries the head of the send queue. The bytes stay queued until the
/// peer acknowledges them, so the same bytes go out at every flush.
pub open spec fn flush_frame(c: ConnectionView) -> Option<Seq<u8>> {
    if c.state == State::Closed || c.send_queue.len() == 0 {
        None
    } else {
        Some(
            segment_frame(
                c.server_ip,
                c.client_ip,
                c.server_port,
                c.client_port,
                TcpFlag::Ack.mask(),
                c.send_seq,
                c.recv_seq,
                c.send_queue.subrange(0, chunk_len(c) as int),
            ),
        )
    }
}

/// No segment moves the local endpoint of a flow, and none brings a flow back
/// to the listening state. Once a flow has left that state its four-tuple is
/// fixed.
pub proof fn lemma_transition_keeps_identity(
    c: ConnectionView,
    source_ip: u32,
    dest_ip: u32,
    tcp: TcpFields,
    payload: Seq<u8>,
)
    ensures
        transition(c, source_ip, dest_ip, tcp, payload).next.server_ip == c.server_ip,
        transition(c, source_ip, dest_ip, tcp, payload).next.server_port == c.server_port,
        c.state != State::Listen ==> transition(c, source_ip, dest_ip, tcp, payload).next.state
            != State::Listen,
        c.state != State::Listen ==> transition(c, source_ip, dest_ip, tcp, payload).next.id()
            == c.id(),
{
}

/// A closed flow stays closed and keeps everything it holds, whatever
/// arrives.
pub proof fn lemma_closed_is_terminal(
    c: ConnectionView,
    source_ip: u32,
    dest_ip: u32,
    tcp: TcpFields,
    payload: Seq<u8>,
)
    requires
        c.state == State::Closed,
    ensures
        transition(c, source_ip, dest_ip, tcp, payload).next == c,
{
}

/// A segment is refused as misdirected exactly when its destination is not
/// the flow's local endpoint, and then the flow is left as it was.
pub proof fn lemma_misdirected_iff(
    c: ConnectionView,
    source_ip: u32,
    dest_ip: u32,
    tcp: TcpFields,
    payload: Seq<u8>,
)
    ensures
        transition(c, source_ip, dest_ip, tcp, payload).misdirected <==> (dest_ip != c.server_ip
            || tcp.dest_port != c.server_port),
        transition(c, source_ip, dest_ip, tcp, payload).misdirected ==> transition(
            c,
            source_ip,
            dest_ip,
            tcp,
            payload,
        ).next == c,
{
}

/// On an established flow the two counters move only as the data path says.
/// `recv_seq` changes only when a FIN is taken, or by the length of a payload
/// that started exactly at `recv_seq`. `send_seq` changes only to an
/// acknowledgment number inside the window, and then the send queue loses
/// exactly the bytes in between.
pub proof fn lemma_established_counters(
    c: ConnectionView,
    source_ip: u32,
    dest_ip: u32,
    tcp: TcpFields,
    payload: Seq<u8>,
)
    requires
        c.state == State::Estab,
    ensures
        ({
            let next = transition(c, source_ip, dest_ip, tcp, payload).next;
            &&& next.recv_seq != c.recv_seq ==> {
                ||| next.state == State::LastAck && next.recv_seq == seq_add(
                    tcp.sequence_number,
                    1,
                )
                ||| tcp.sequence_number == c.recv_seq && next.recv_seq == seq_add(
                    c.recv_seq,
                    payload.len(),
                ) && next.recv_queue == c.recv_queue + payload
            }
            &&& next.recv_seq == c.recv_seq ==> next.recv_queue == c.recv_queue
                || payload.len() % 0x1_0000_0000 == 0
            &&& next.send_seq != c.send_seq ==> {
                &&& on_arc(c.send_seq, tcp.ack_number, seq_add(c.send_seq, c.send_window as nat))
                &&& next.send_seq == tcp.ack_number
                &&& next.send_queue == without_front(
                    c.send_queue,
                    (tcp.ack_number - c.send_seq) as nat,
                )
            }
            &&& next.send_seq == c.send_seq ==> next.send_queue == c.send_queue
        }),
{
    let next = transition(c, source_ip, dest_ip, tcp, payload).next;
    assert(without_front(c.send_queue, 0) =~= c.send_queue);
    if next.recv_seq == c.recv_seq && next.recv_queue != c.recv_queue {
        assert(next.recv_queue == c.recv_queue + payload);
        assert(seq_add(c.recv_seq, payload.len()) == c.recv_seq);
    }
}

/// Why a flow refused a segment.
#[derive(Clone, Copy, Debug, PartialEq, Eq, Structural)]
pub enum ConnectionError {
    /// The segment was addressed to another local address or port.
    Misdirected,
}

impl ConnectionError {
    /// A short description for logs.
    pub fn message(&self) -> (text: String)
        ensures
            text@ == "invalid dest ip or port"@,
    {
        "invalid dest ip or port".to_owned()
    }
}

/// What a flow hands back after a segment: the frame to send, if any, and
/// whether the segment was refused.
#[derive(Debug)]
pub struct Reaction {
    pub reply: Option<Vec<u8>>,
    pub outcome: Result<(), ConnectionError>,
}

/// The bytes of an optional frame.
pub open spec fn frame_bytes(frame: Option<Vec<u8>>) -> Option<Seq<u8>> {
    match frame {
        Some(bytes) => Some(bytes@),
        None => None,
    }
}

impl Reaction {
    /// The bytes of the frame to send, if any.
    pub open spec fn reply_bytes(self) -> Option<Seq<u8>> {
        frame_bytes(self.reply)
    }
}

/// Draws the initial sequence number of a new flow from
/// `rand::thread_rng().gen::<u32>()`, the thread-local generator that the
/// operating system seeds. Every 32-bit value may come back, so nothing is
/// claimed of the result. The call panics only where the operating system
/// cannot seed the generator.
#[verifier::external_body]
pub(crate) fn random_initial_seq() -> u32 {
    rand::thread_rng().gen()
}

/// One TCP flow.
#[derive(Debug)]
pub struct Connection {
    pub state: State,
    pub server_port: u16,
    pub client_port: u16,
    pub server_ip: u32,
    pub client_ip: u32,
    /// Next sequence number expected from the peer.
    pub recv_seq: u32,
    /// Sequence number of the first byte the peer has not acknowledged.
    pub send_seq: u32,
    /// Window the peer advertised last.
    pub send_window: u16,
    /// Bytes written by the application and not yet acknowledged.
    pub send_queue: Vec<u8>,
    /// Bytes received in order and not yet read by the application.
    pub recv_queue: Vec<u8>,
}

impl View for Connection {
    type V = ConnectionView;

    open spec fn view(&self) -> ConnectionView {
        ConnectionView {
            state: self.state,
            server_port: self.server_port,
            client_port: self.client_port,
            server_ip: self.server_ip,
            client_ip: self.client_ip,
            recv_seq: self.recv_seq,
            send_seq: self.send_seq,
            send_window: self.send_window,
            send_queue: self.send_queue@,
            recv_queue: self.recv_queue@,
        }
    }
}

impl Connection {
    /// A flow listening on `ip:port` whose own sequence numbers start at
    /// `initial_seq`.
    pub fn with_initial_seq(ip: u32, port: u16, initial_seq: u32) -> (conn: Connection)
        ensures
            conn@ == ConnectionView::listening(ip, port, initial_seq),
    {
        Connection {
            state: State::Listen,
            server_port: port,
            client_port: 0,
            server_ip: ip,
            client_ip: 0,
            recv_seq: 0,
            send_seq: initial_seq,
            send_window: 0,
            send_queue: Vec::new(),
            recv_queue: Vec::new(),
        }
    }

    /// A flow listening on `ip:port` with a random initial sequence number.
    pub fn new(ip: u32, port: u16) -> (conn: Connection)
        ensures
            conn@ == ConnectionView::listening(ip, port, conn.send_seq),
    {
        Connection::with_initial_seq(ip, port, random_initial_seq())
    }

    /// The four-tuple under which inbound segments of this flow arrive.
    pub fn id(&self) -> (id: ConnectionId)
        ensures
            id == self@.id(),
    {
        ConnectionId {
            ip_src: self.client_ip,
            ip_dst: self.server_ip,
            port_src: self.client_port,
            port_dst: self.server_port,
        }
    }

    /// Queues `data` for transmission behind what is already waiting.
    pub fn write_all(&mut self, data: &[u8])
        ensures
            final(self)@ == (ConnectionView {
                send_queue: old(self)@.send_queue + data@,
                ..old(self)@
            }),
    {
        push_bytes(&mut self.send_queue, data);
    }

    /// Moves received bytes into `buf`: as many as fit, oldest first. What is
    /// left of `buf` is filled with zeros. Returns the number of bytes moved;
    /// zero means nothing was waiting.
    pub fn read(&mut self, buf: &mut [u8]) -> (len: usize)
        ensures
            len == if old(buf)@.len() <= old(self)@.recv_queue.len() {
                old(buf)@.len()
            } else {
                old(self)@.recv_queue.len()
            },
            final(buf)@ == old(self)@.recv_queue.subrange(0, len as int) + Seq::new(
                (old(buf)@.len() - len) as nat,
                |i: int| 0u8,
            ),
            final(self)@ == (ConnectionView {
                recv_queue: without_front(old(self)@.recv_queue, len as nat),
                ..old(self)@
            }),
    {
        let len = if buf.len() <= self.recv_queue.len() {
            buf.len()
        } else {
            self.recv_queue.len()
        };
        let mut i: usize = 0;
        while i < buf.len()
            invariant
                buf@.len() == old(buf)@.len(),
                len <= buf@.len(),
                len <= self.recv_queue@.len(),
                i <= buf@.len(),
                *self == *old(self),
                forall|j: int| 0 <= j < i && j < len ==> buf@[j] == self.recv_queue@[j],
                forall|j: int| len <= j < i ==> buf@[j] == 0u8,
            decreases buf@.len() - i,
        {
            if i < len {
                buf[i] = self.recv_queue[i];
            } else {
                buf[i] = 0;
            }
            i += 1;
        }
        drain_front(&mut self.recv_queue, len);
        assert(buf@ =~= old(self)@.recv_queue.subrange(0, len as int) + Seq::new(
            (old(buf)@.len() - len) as nat,
            |i: int| 0u8,
        ));
        len
    }

    /// Builds the payload-free segment that this flow sends to its peer.
    fn reply(&self, flags: u8, seq_num: u32, ack_num: u32) -> (frame: Option<Vec<u8>>)
        ensures
            frame_bytes(frame) == Some(
                reply_frame(self@.id(), ReplySpec { flags, seq_num, ack_num }),
            ),
    {
        let no_text: Vec<u8> = Vec::new();
        Some(
            build_segment_frame(
                self.server_ip,
                self.client_ip,
                self.server_port,
                self.client_port,
                flags,
                seq_num,
                ack_num,
                no_text.as_slice(),
            ),
        )
    }

    fn refuse_misdirected(&self, data: &[u8], tcp: &TcpPacket) -> (frame: Option<Vec<u8>>)
        ensures
            frame_bytes(frame) == on_misdirected(self@, tcp@, data@).frame(),
    {
        let after_syn = seq_plus(tcp.sequence_number, 1);
        let ack_num = seq_plus(after_syn, data.len());
        assert(ack_num == seq_add(tcp.sequence_number, 1 + data@.len()));
        self.reply(TcpFlag::Rst | TcpFlag::Ack, after_syn, ack_num)
    }

    fn take_syn(&mut self, ip: &IPv4Header, tcp: &TcpPacket) -> (frame: Option<Vec<u8>>)
        ensures
            final(self)@ == on_syn(old(self)@, ip.source_ip, tcp@).next,
            frame_bytes(frame) == on_syn(old(self)@, ip.source_ip, tcp@).frame(),
    {
        self.state = State::SynRecvd;
        self.recv_seq = seq_plus(tcp.sequence_number, 1);
        self.client_ip = ip.source_ip;
        self.client_port = tcp.source_port;
        self.reply(TcpFlag::Syn | TcpFlag::Ack, self.send_seq, self.recv_seq)
    }

    fn take_handshake_ack(&mut self, data: &[u8], tcp: &TcpPacket) -> (frame: Option<Vec<u8>>)
        ensures
            final(self)@ == on_handshake_ack(old(self)@, tcp@, data@).next,
            frame_bytes(frame) == on_handshake_ack(old(self)@, tcp@, data@).frame(),
    {
        let expected = seq_plus(self.send_seq, 1);
        if tcp.ack_number != expected || tcp.get_flag(TcpFlag::Syn) {
            self.state = State::Closed;
            self.reply(
                TcpFlag::Rst.bits(),
                tcp.ack_number,
                seq_plus(tcp.sequence_number, data.len()),
            )
        } else {
            self.send_seq = expected;
            self.state = State::Estab;
            None
        }
    }

    fn take_fin(&mut self, tcp: &TcpPacket) -> (frame: Option<Vec<u8>>)
        ensures
            final(self)@ == on_fin(old(self)@, tcp@).next,
            frame_bytes(frame) == on_fin(old(self)@, tcp@).frame(),
    {
        self.state = State::LastAck;
        self.recv_seq = seq_plus(tcp.sequence_number, 1);
        self.reply(TcpFlag::Fin | TcpFlag::Ack, self.send_seq, self.recv_seq)
    }

    fn take_data(&mut self, data: &[u8], tcp: &TcpPacket) -> (frame: Option<Vec<u8>>)
        ensures
            final(self)@ == on_data(old(self)@, tcp@, data@).next,
            frame_bytes(frame) == on_data(old(self)@, tcp@, data@).frame(),
    {
        if !tcp.get_flag(TcpFlag::Ack) {
            return None;
        }
        let window_end = seq_plus(self.send_seq, self.send_window as usize);
        if tcp.sequence_number != self.recv_seq || !wrapping_between(
            self.send_seq,
            tcp.ack_number,
            window_end,
        ) {
            return self.reply(TcpFlag::Ack.bits(), self.send_seq, self.recv_seq);
        }
        self.send_window = tcp.window_size;
        self.recv_seq = seq_plus(self.recv_seq, data.len());
        if self.send_seq < tcp.ack_number {
            let amount = tcp.ack_number - self.send_seq;
            self.send_seq = tcp.ack_number;
            drain_front(&mut self.send_queue, amount as usize);
        } else {
            assert(self.send_queue@ =~= without_front(self.send_queue@, 0));
        }
        push_bytes(&mut self.recv_queue, data);
        None
    }

    fn refuse_closed(&self, data: &[u8], tcp: &TcpPacket) -> (frame: Option<Vec<u8>>)
        ensures
            frame_bytes(frame) == on_closed(self@, tcp@, data@).frame(),
    {
        let seq_num = if tcp.get_flag(TcpFlag::Ack) {
            tcp.ack_number
        } else {
            0
        };
        self.reply(TcpFlag::Rst.bits(), seq_num, seq_plus(tcp.sequence_number, data.len()))
    }

    /// Feeds one validated segment to the flow: `tcp` is its header, `data`
    /// its payload and `ip` the header of the datagram that carried it. The
    /// flow moves as the state machine says and hands back the frame to send
    /// in answer, if there is one.
    ///
    /// A segment addressed to another local address or port is answered with
    /// a reset and reported as `Misdirected`; nothing else is an error.
    pub fn on_message(&mut self, data: &[u8], ip: &IPv4Header, tcp: &TcpPacket) -> (reaction:
        Reaction)
        ensures
            final(self)@ == transition(
                old(self)@,
                ip.source_ip,
                ip.dest_ip,
                tcp@,
                data@,
            ).next,
            reaction.reply_bytes() == transition(
                old(self)@,
                ip.source_ip,
                ip.dest_ip,
                tcp@,
                data@,
            ).frame(),
            reaction.outcome == (if transition(
                old(self)@,
                ip.source_ip,
                ip.dest_ip,
                tcp@,
                data@,
            ).misdirected {
                Err::<(), ConnectionError>(ConnectionError::Misdirected)
            } else {
                Ok::<(), ConnectionError>(())
            }),
    {
        if ip.dest_ip != self.server_ip || tcp.dest_port != self.server_port {
            return Reaction {
                reply: self.refuse_misdirected(data, tcp),
                outcome: Err(ConnectionError::Misdirected),
            };
        }
        let state = self.state;
        let reply = if state == State::Listen && tcp.get_flag(TcpFlag::Syn) {
            self.take_syn(ip, tcp)
        } else if state == State::SynRecvd && tcp.get_flag(TcpFlag::Ack) {
            self.take_handshake_ack(data, tcp)
        } else if tcp.get_flag(TcpFlag::Rst) {
            self.state = State::Closed;
            None
        } else if state == State::Estab && tcp.get_flag(TcpFlag::Fin) {
            self.take_fin(tcp)
        } else if state == State::LastAck && tcp.get_flag(TcpFlag::Ack) {
            self.state = State::Closed;
            None
        } else if state == State::Estab {
            self.take_data(data, tcp)
        } else if state == State::Closed {
            self.refuse_closed(data, tcp)
        } else {
            None
        };
        Reaction { reply, outcome: Ok(()) }
    }

    /// The frame this flow sends when its turn comes in the periodic flush,
    /// if it has anything to send.
    pub fn pending_frame(&self) -> (frame: Option<Vec<u8>>)
        ensures
            frame_bytes(frame) == flush_frame(self@),
    {
        if self.state == State::Closed || self.send_queue.len() == 0 {
            return None;
        }
        let mut size = self.send_queue.len();
        if size > self.send_window as usize {
            size = self.send_window as usize;
        }
        if size > MAX_SEGMENT_TEXT {
            size = MAX_SEGMENT_TEXT;
        }
        let text = &self.send_queue.as_slice()[0..size];
        Some(
            build_segment_frame(
                self.server_ip,
                self.client_ip,
                self.server_port,
                self.client_port,
                TcpFlag::Ack.bits(),
                self.send_seq,
                self.recv_seq,
                text,
            ),
        )
    }
}

} // verus!
