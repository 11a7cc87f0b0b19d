use tcp_stack::connection::{Connection, ConnectionError, Reaction, State};
use tcp_stack::ipv4::IPv4Header;
use tcp_stack::tcp::{build_segment_frame, TcpFlag, TcpPacket};
use tcp_stack::utils::ConnectionId;

const SERVER_IP: u32 = 0x0A00_0003;
const CLIENT_IP: u32 = 0x0A00_0001;
const SERVER_PORT: u16 = 8080;
const CLIENT_PORT: u16 = 40000;

const EMPTY: [u8; 0] = [];

fn ip_header(source_ip: u32, dest_ip: u32) -> IPv4Header<'static> {
    IPv4Header {
        version: 4,
        ihl: 5,
        dscp: 0,
        ecn: 0,
        total_length: 40,
        identification: 0,
        flags: 0,
        fragment_offset: 0,
        time_to_live: 64,
        protocol: 6,
        header_checksum: 0,
        source_ip,
        dest_ip,
        options: &EMPTY,
    }
}

fn tcp_header(dest_port: u16, flags: u8, seq: u32, ack: u32, window: u16) -> TcpPacket<'static> {
    TcpPacket {
        source_port: CLIENT_PORT,
        dest_port,
        sequence_number: seq,
        ack_number: ack,
        data_offset: 5,
        flags,
        window_size: window,
        checksum: 0,
        urgent_pointer: 0,
        options: &EMPTY,
    }
}

/// Feeds a segment from the usual client to the usual server endpoint.
fn feed(conn: &mut Connection, flags: u8, seq: u32, ack: u32, window: u16, data: &[u8]) -> Reaction {
    conn.on_message(
        data,
        &ip_header(CLIENT_IP, SERVER_IP),
        &tcp_header(SERVER_PORT, flags, seq, ack, window),
    )
}

fn established(recv_seq: u32, send_seq: u32, send_window: u16) -> Connection {
    Connection {
        state: State::Estab,
        server_port: SERVER_PORT,
        client_port: CLIENT_PORT,
        server_ip: SERVER_IP,
        client_ip: CLIENT_IP,
        recv_seq,
        send_seq,
        send_window,
        send_queue: Vec::new(),
        recv_queue: Vec::new(),
    }
}

/// The frame a flow between the usual endpoints sends to its peer.
fn server_frame(flags: u8, seq: u32, ack: u32, text: &[u8]) -> Vec<u8> {
    build_segment_frame(SERVER_IP, CLIENT_IP, SERVER_PORT, CLIENT_PORT, flags, seq, ack, text)
}

#[test]
fn new_connection_listens() {
    let conn = Connection::with_initial_seq(SERVER_IP, SERVER_PORT, 5000);
    assert_eq!(conn.state, State::Listen);
    assert_eq!(conn.server_ip, SERVER_IP);
    assert_eq!(conn.server_port, SERVER_PORT);
    assert_eq!(conn.client_ip, 0);
    assert_eq!(conn.client_port, 0);
    assert_eq!(conn.recv_seq, 0);
    assert_eq!(conn.send_seq, 5000);
    assert_eq!(conn.send_window, 0);
    assert!(conn.send_queue.is_empty());
    assert!(conn.recv_queue.is_empty());
}

#[test]
fn new_connection_with_random_sequence_number() {
    let conn = Connection::new(SERVER_IP, SERVER_PORT);
    assert_eq!(conn.state, State::Listen);
    assert_eq!(conn.server_ip, SERVER_IP);
    assert_eq!(conn.server_port, SERVER_PORT);
    assert_eq!(conn.client_ip, 0);
    assert_eq!(conn.client_port, 0);
    assert_eq!(conn.recv_seq, 0);
    assert_eq!(conn.send_window, 0);
    assert!(conn.send_queue.is_empty());
    assert!(conn.recv_queue.is_empty());
}

#[test]
fn id_names_the_inbound_direction() {
    let conn = established(1, 2, 3);
    assert_eq!(
        conn.id(),
        ConnectionId {
            ip_src: CLIENT_IP,
            ip_dst: SERVER_IP,
            port_src: CLIENT_PORT,
            port_dst: SERVER_PORT,
        }
    );
}

#[test]
fn handshake_establishes_the_flow() {
    let mut conn = Connection::new(SERVER_IP, SERVER_PORT);
    let s = conn.send_seq;

    let reaction = feed(&mut conn, TcpFlag::Syn.bits(), 1000, 0, 1500, &[]);
    assert_eq!(reaction.outcome, Ok(()));
    assert_eq!(conn.state, State::SynRecvd);
    assert_eq!(conn.recv_seq, 1001);
    assert_eq!(conn.send_seq, s);
    assert_eq!(conn.client_ip, CLIENT_IP);
    assert_eq!(conn.client_port, CLIENT_PORT);
    assert_eq!(reaction.reply, Some(server_frame(0x12, s, 1001, &[])));

    let reaction = feed(&mut conn, TcpFlag::Ack.bits(), 1001, s.wrapping_add(1), 1500, &[]);
    assert_eq!(reaction.outcome, Ok(()));
    assert_eq!(reaction.reply, None);
    assert_eq!(conn.state, State::Estab);
    assert_eq!(conn.send_seq, s.wrapping_add(1));
    assert_eq!(conn.recv_seq, 1001);
}

#[test]
fn handshake_wraps_sequence_numbers() {
    let mut conn = Connection::with_initial_seq(SERVER_IP, SERVER_PORT, 0xFFFF_FFFF);
    let reaction = feed(&mut conn, TcpFlag::Syn.bits(), 0xFFFF_FFFF, 0, 1500, &[]);
    assert_eq!(conn.recv_seq, 0);
    assert_eq!(reaction.reply, Some(server_frame(0x12, 0xFFFF_FFFF, 0, &[])));
    let reaction = feed(&mut conn, TcpFlag::Ack.bits(), 0, 0, 1500, &[]);
    assert_eq!(reaction.reply, None);
    assert_eq!(conn.state, State::Estab);
    assert_eq!(conn.send_seq, 0);
}

#[test]
fn in_order_data_is_delivered() {
    let mut conn = established(1001, 5001, 200);
    conn.send_queue = b"queued".to_vec();
    conn.recv_queue = b"old ".to_vec();
    let reaction = feed(&mut conn, TcpFlag::Ack.bits(), 1001, 5001, 300, b"hello");
    assert_eq!(reaction.outcome, Ok(()));
    assert_eq!(reaction.reply, None);
    assert_eq!(conn.state, State::Estab);
    assert_eq!(conn.recv_seq, 1006);
    assert_eq!(conn.send_seq, 5001);
    assert_eq!(conn.send_window, 300);
    assert_eq!(conn.recv_queue, b"old hello".to_vec());
    assert_eq!(conn.send_queue, b"queued".to_vec());
}

#[test]
fn acknowledged_bytes_leave_the_send_queue() {
    let mut conn = established(1001, 5001, 200);
    conn.send_queue = b"0123456789".to_vec();
    let reaction = feed(&mut conn, TcpFlag::Ack.bits(), 1001, 5005, 200, &[]);
    assert_eq!(reaction.reply, None);
    assert_eq!(conn.send_seq, 5005);
    assert_eq!(conn.send_queue, b"456789".to_vec());
    assert_eq!(conn.recv_seq, 1001);
}

#[test]
fn acknowledging_more_than_is_queued_empties_the_queue() {
    let mut conn = established(1001, 5001, 200);
    conn.send_queue = b"abc".to_vec();
    let reaction = feed(&mut conn, TcpFlag::Ack.bits(), 1001, 5101, 200, &[]);
    assert_eq!(reaction.reply, None);
    assert_eq!(conn.send_seq, 5101);
    assert!(conn.send_queue.is_empty());
}

#[test]
fn acknowledgment_at_the_window_edge_is_taken() {
    let mut conn = established(1001, 5001, 200);
    conn.send_queue = vec![7; 250];
    let reaction = feed(&mut conn, TcpFlag::Ack.bits(), 1001, 5201, 200, &[]);
    assert_eq!(reaction.reply, None);
    assert_eq!(conn.send_seq, 5201);
    assert_eq!(conn.send_queue.len(), 50);
}

#[test]
fn acknowledgment_beyond_the_window_is_answered_with_bare_ack() {
    let mut conn = established(1001, 5001, 200);
    conn.send_queue = vec![7; 250];
    let reaction = feed(&mut conn, TcpFlag::Ack.bits(), 1001, 5202, 999, b"data");
    assert_eq!(reaction.outcome, Ok(()));
    assert_eq!(reaction.reply, Some(server_frame(0x10, 5001, 1001, &[])));
    assert_eq!(conn.send_seq, 5001);
    assert_eq!(conn.recv_seq, 1001);
    assert_eq!(conn.send_window, 200);
    assert_eq!(conn.send_queue.len(), 250);
    assert!(conn.recv_queue.is_empty());
}

#[test]
fn acknowledgment_below_send_seq_is_answered_with_bare_ack() {
    let mut conn = established(1001, 5001, 200);
    let reaction = feed(&mut conn, TcpFlag::Ack.bits(), 1001, 5000, 200, &[]);
    assert_eq!(reaction.reply, Some(server_frame(0x10, 5001, 1001, &[])));
    assert_eq!(conn.send_seq, 5001);
}

#[test]
fn out_of_order_segment_is_answered_with_bare_ack() {
    let mut conn = established(1001, 5001, 200);
    let reaction = feed(&mut conn, TcpFlag::Ack.bits(), 1002, 5001, 200, b"late");
    assert_eq!(reaction.outcome, Ok(()));
    assert_eq!(reaction.reply, Some(server_frame(0x10, 5001, 1001, &[])));
    assert_eq!(conn.recv_seq, 1001);
    assert!(conn.recv_queue.is_empty());
    assert_eq!(conn.state, State::Estab);
}

#[test]
fn window_that_wraps_takes_acknowledgments_on_both_sides_of_zero() {
    let mut conn = established(1001, 0xFFFF_FFF0, 0x20);
    conn.send_queue = vec![1; 0x20];
    // Numerically above send_seq: the queue is drained.
    let reaction = feed(&mut conn, TcpFlag::Ack.bits(), 1001, 0xFFFF_FFF8, 0x20, &[]);
    assert_eq!(reaction.reply, None);
    assert_eq!(conn.send_seq, 0xFFFF_FFF8);
    assert_eq!(conn.send_queue.len(), 0x18);
    // Behind the wrap: inside the window, so taken, but numerically below
    // send_seq, so nothing moves.
    let reaction = feed(&mut conn, TcpFlag::Ack.bits(), 1001, 0x0000_0004, 0x20, b"x");
    assert_eq!(reaction.reply, None);
    assert_eq!(conn.send_seq, 0xFFFF_FFF8);
    assert_eq!(conn.send_queue.len(), 0x18);
    assert_eq!(conn.recv_seq, 1002);
    assert_eq!(conn.recv_queue, b"x".to_vec());
    // Outside the window.
    let reaction = feed(&mut conn, TcpFlag::Ack.bits(), 1002, 0x0000_0019, 0x20, &[]);
    assert_eq!(reaction.reply, Some(server_frame(0x10, 0xFFFF_FFF8, 1002, &[])));
}

#[test]
fn segment_without_ack_is_ignored_when_established() {
    let mut conn = established(1001, 5001, 200);
    let reaction = feed(&mut conn, TcpFlag::Psh.bits(), 1001, 5001, 999, b"data");
    assert_eq!(reaction.outcome, Ok(()));
    assert_eq!(reaction.reply, None);
    assert_eq!(conn.recv_seq, 1001);
    assert_eq!(conn.send_window, 200);
    assert!(conn.recv_queue.is_empty());
}

#[test]
fn fin_closes_in_two_steps() {
    let mut conn = established(2000, 5001, 200);
    let reaction = feed(&mut conn, TcpFlag::Fin | TcpFlag::Ack, 2000, 5001, 200, &[]);
    assert_eq!(reaction.outcome, Ok(()));
    assert_eq!(conn.state, State::LastAck);
    assert_eq!(conn.recv_seq, 2001);
    assert_eq!(reaction.reply, Some(server_frame(0x11, 5001, 2001, &[])));

    let reaction = feed(&mut conn, TcpFlag::Ack.bits(), 2001, 5002, 200, &[]);
    assert_eq!(reaction.outcome, Ok(()));
    assert_eq!(reaction.reply, None);
    assert_eq!(conn.state, State::Closed);
}

#[test]
fn fin_is_taken_at_any_sequence_number() {
    let mut conn = established(1001, 5001, 200);
    let reaction = feed(&mut conn, TcpFlag::Fin.bits(), 2000, 0, 200, &[]);
    assert_eq!(conn.state, State::LastAck);
    assert_eq!(conn.recv_seq, 2001);
    assert_eq!(reaction.reply, Some(server_frame(0x11, 5001, 2001, &[])));
}

#[test]
fn last_ack_waits_for_an_ack() {
    let mut conn = established(2001, 5001, 200);
    conn.state = State::LastAck;
    let reaction = feed(&mut conn, TcpFlag::Psh.bits(), 2001, 5002, 200, &[]);
    assert_eq!(reaction.reply, None);
    assert_eq!(conn.state, State::LastAck);
}

#[test]
fn misdirected_segment_is_reset_and_reported() {
    let mut conn = established(1001, 5001, 200);
    let reaction = conn.on_message(
        b"abc",
        &ip_header(CLIENT_IP, SERVER_IP),
        &tcp_header(9090, TcpFlag::Ack.bits(), 1001, 5001, 200),
    );
    assert_eq!(reaction.outcome, Err(ConnectionError::Misdirected));
    assert_eq!(reaction.reply, Some(server_frame(0x14, 1002, 1005, &[])));
    assert_eq!(conn.state, State::Estab);
    assert_eq!(conn.recv_seq, 1001);
    assert!(conn.recv_queue.is_empty());
}

#[test]
fn misdirected_by_address() {
    let mut conn = Connection::with_initial_seq(SERVER_IP, SERVER_PORT, 5000);
    let reaction = conn.on_message(
        &[],
        &ip_header(CLIENT_IP, 0x0A00_0004),
        &tcp_header(SERVER_PORT, TcpFlag::Syn.bits(), 0xFFFF_FFFF, 0, 200),
    );
    assert_eq!(reaction.outcome, Err(ConnectionError::Misdirected));
    // The listener knows no peer yet: the reset is addressed to 0.0.0.0:0.
    assert_eq!(
        reaction.reply,
        Some(build_segment_frame(SERVER_IP, 0, SERVER_PORT, 0, 0x14, 0, 0, &[]))
    );
    assert_eq!(conn.state, State::Listen);
}

#[test]
fn misdirected_error_has_a_message() {
    assert_eq!(ConnectionError::Misdirected.message(), "invalid dest ip or port");
}

#[test]
fn wrong_handshake_ack_closes_and_resets() {
    let mut conn = Connection::with_initial_seq(SERVER_IP, SERVER_PORT, 5000);
    feed(&mut conn, TcpFlag::Syn.bits(), 1000, 0, 1500, &[]);
    let reaction = feed(&mut conn, TcpFlag::Ack.bits(), 1001, 4242, 1500, b"ab");
    assert_eq!(reaction.outcome, Ok(()));
    assert_eq!(conn.state, State::Closed);
    assert_eq!(conn.send_seq, 5000);
    assert_eq!(reaction.reply, Some(server_frame(0x04, 4242, 1003, &[])));
}

#[test]
fn handshake_ack_with_syn_is_reset() {
    let mut conn = Connection::with_initial_seq(SERVER_IP, SERVER_PORT, 5000);
    feed(&mut conn, TcpFlag::Syn.bits(), 1000, 0, 1500, &[]);
    let reaction = feed(&mut conn, TcpFlag::Syn | TcpFlag::Ack, 1001, 5001, 1500, &[]);
    assert_eq!(conn.state, State::Closed);
    assert_eq!(reaction.reply, Some(server_frame(0x04, 5001, 1001, &[])));
}

#[test]
fn handshake_ignores_segments_without_ack() {
    let mut conn = Connection::with_initial_seq(SERVER_IP, SERVER_PORT, 5000);
    feed(&mut conn, TcpFlag::Syn.bits(), 1000, 0, 1500, &[]);
    let reaction = feed(&mut conn, TcpFlag::Syn.bits(), 1000, 0, 1500, &[]);
    assert_eq!(reaction.reply, None);
    assert_eq!(conn.state, State::SynRecvd);
    assert_eq!(conn.send_seq, 5000);
}

#[test]
fn listener_ignores_segments_without_syn() {
    let mut conn = Connection::with_initial_seq(SERVER_IP, SERVER_PORT, 5000);
    let reaction = feed(&mut conn, TcpFlag::Ack.bits(), 1000, 5001, 1500, b"data");
    assert_eq!(reaction.outcome, Ok(()));
    assert_eq!(reaction.reply, None);
    assert_eq!(conn.state, State::Listen);
    assert_eq!(conn.recv_seq, 0);
    assert_eq!(conn.client_ip, 0);
    assert!(conn.recv_queue.is_empty());
}

#[test]
fn reset_closes_from_every_state() {
    for state in [State::Listen, State::Estab, State::LastAck, State::Closed] {
        let mut conn = established(1001, 5001, 200);
        conn.state = state;
        let reaction = feed(&mut conn, TcpFlag::Rst.bits(), 1, 2, 3, &[]);
        assert_eq!(reaction.outcome, Ok(()));
        assert_eq!(reaction.reply, None);
        assert_eq!(conn.state, State::Closed);
    }
    let mut conn = established(1001, 5001, 200);
    conn.state = State::SynRecvd;
    let reaction = feed(&mut conn, TcpFlag::Rst.bits(), 1, 2, 3, &[]);
    assert_eq!(reaction.reply, None);
    assert_eq!(conn.state, State::Closed);
}

#[test]
fn closed_flow_resets_whoever_talks_to_it() {
    let mut conn = established(1001, 5001, 200);
    conn.state = State::Closed;
    let reaction = feed(&mut conn, TcpFlag::Ack.bits(), 3000, 777, 200, b"abcd");
    assert_eq!(reaction.outcome, Ok(()));
    assert_eq!(reaction.reply, Some(server_frame(0x04, 777, 3004, &[])));
    assert_eq!(conn.state, State::Closed);

    let reaction = feed(&mut conn, TcpFlag::Syn.bits(), 0xFFFF_FFFE, 777, 200, b"abcd");
    assert_eq!(reaction.reply, Some(server_frame(0x04, 0, 2, &[])));
    assert_eq!(conn.state, State::Closed);
}

#[test]
fn write_all_appends_in_order() {
    let mut conn = established(1001, 5001, 200);
    conn.write_all(b"abc");
    conn.write_all(b"");
    conn.write_all(b"de");
    assert_eq!(conn.send_queue, b"abcde".to_vec());
    assert!(conn.recv_queue.is_empty());
    assert_eq!(conn.send_seq, 5001);
}

#[test]
fn read_takes_the_oldest_bytes_and_zero_fills() {
    let mut conn = established(1001, 5001, 200);
    conn.recv_queue = b"hello world".to_vec();

    let mut small = [0xFFu8; 5];
    assert_eq!(conn.read(&mut small), 5);
    assert_eq!(&small, b"hello");
    assert_eq!(conn.recv_queue, b" world".to_vec());

    let mut large = [0xFFu8; 9];
    assert_eq!(conn.read(&mut large), 6);
    assert_eq!(&large, b" world\0\0\0");
    assert!(conn.recv_queue.is_empty());

    let mut again = [0xFFu8; 3];
    assert_eq!(conn.read(&mut again), 0);
    assert_eq!(again, [0, 0, 0]);

    let mut none: [u8; 0] = [];
    conn.recv_queue = b"x".to_vec();
    assert_eq!(conn.read(&mut none), 0);
    assert_eq!(conn.recv_queue, b"x".to_vec());
}

#[test]
fn pending_frame_carries_the_head_of_the_queue() {
    let mut conn = established(1001, 5001, 4);
    assert_eq!(conn.pending_frame(), None);
    conn.write_all(b"0123456789");
    assert_eq!(conn.pending_frame(), Some(server_frame(0x10, 5001, 1001, b"0123")));
    // Nothing left the queue: the same frame goes out again.
    assert_eq!(conn.pending_frame(), Some(server_frame(0x10, 5001, 1001, b"0123")));
    assert_eq!(conn.send_queue.len(), 10);

    conn.send_window = 100;
    assert_eq!(conn.pending_frame(), Some(server_frame(0x10, 5001, 1001, b"0123456789")));

    conn.send_window = 0;
    assert_eq!(conn.pending_frame(), Some(server_frame(0x10, 5001, 1001, &[])));

    conn.state = State::Closed;
    assert_eq!(conn.pending_frame(), None);
}

#[test]
fn pending_frame_never_exceeds_what_a_datagram_can_carry() {
    let mut conn = established(1001, 5001, 65535);
    conn.send_queue = vec![0x55; 70000];
    let frame = conn.pending_frame().unwrap();
    assert_eq!(frame.len(), 44 + 65495);
    assert_eq!(&frame[6..8], &[0xFF, 0xFF]);
}

#[test]
fn pending_frame_goes_out_while_closing() {
    let mut conn = established(1001, 5001, 8);
    conn.state = State::LastAck;
    conn.write_all(b"bye");
    assert_eq!(conn.pending_frame(), Some(server_frame(0x10, 5001, 1001, b"bye")));
}
