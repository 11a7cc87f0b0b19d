use tcp_stack::ipv4::HeaderError;
use tcp_stack::listener::{ConnectionHandle, Listener};
use tcp_stack::manager::{validate, ConnectionManager, Dispatch, DropReason};
use tcp_stack::tcp::{build_segment_frame, TcpPacket};
use tcp_stack::utils::ConnectionId;

const SERVER_IP: u32 = 0x0A00_0003;
const CLIENT_IP: u32 = 0x0A00_0001;
const SERVER_PORT: u16 = 8080;
const CLIENT_PORT: u16 = 40000;

fn from_client(port: u16, flags: u8, seq: u32, ack: u32, text: &[u8]) -> Vec<u8> {
    build_segment_frame(CLIENT_IP, SERVER_IP, port, SERVER_PORT, flags, seq, ack, text)
}

fn to_client(port: u16, flags: u8, seq: u32, ack: u32, text: &[u8]) -> Vec<u8> {
    build_segment_frame(SERVER_IP, CLIENT_IP, SERVER_PORT, port, flags, seq, ack, text)
}

fn delivered(outcome: Dispatch) -> Option<Vec<u8>> {
    match outcome {
        Dispatch::Delivered(reply) => reply,
        Dispatch::Dropped(reason) => panic!("dropped: {:?}", reason),
    }
}

fn dropped(outcome: Dispatch) -> DropReason {
    match outcome {
        Dispatch::Dropped(reason) => reason,
        Dispatch::Delivered(reply) => panic!("delivered: {:?}", reply),
    }
}

/// Takes a client through the handshake and returns its handle.
fn connect(manager: &mut ConnectionManager, listener: &Listener, port: u16, iss: u32) -> ConnectionHandle {
    let reply = delivered(manager.dispatch(&from_client(port, 0x02, 1000, 0, &[])));
    assert_eq!(reply, Some(to_client(port, 0x12, iss, 1001, &[])));
    let reply = delivered(manager.dispatch(&from_client(port, 0x10, 1001, iss.wrapping_add(1), &[])));
    assert_eq!(reply, None);
    manager.accept_with_seq(listener.ip, listener.port, iss + 1000).unwrap()
}

#[test]
fn listener_new_keeps_its_endpoint() {
    let listener = Listener::new(SERVER_IP, SERVER_PORT);
    assert_eq!(listener.ip, SERVER_IP);
    assert_eq!(listener.port, SERVER_PORT);
}

#[test]
fn bind_reads_the_dotted_quad() {
    let mut manager = ConnectionManager::new();
    let listener = manager.bind("10.0.0.3", 8080);
    assert_eq!(listener, Listener { ip: SERVER_IP, port: 8080 });
    // The listener is there: a SYN for it is answered.
    let reply = delivered(manager.dispatch(&from_client(CLIENT_PORT, 0x02, 1000, 0, &[])));
    let frame = reply.unwrap();
    let (_, tcp, _) = validate(&frame).unwrap();
    assert_eq!(tcp.flags, 0x12);
    assert_eq!(tcp.ack_number, 1001);
    assert_eq!(tcp.source_port, 8080);
    assert_eq!(tcp.dest_port, CLIENT_PORT);
}

#[test]
fn nothing_is_listening_on_a_new_manager() {
    let mut manager = ConnectionManager::new();
    let outcome = manager.dispatch(&from_client(CLIENT_PORT, 0x02, 1000, 0, &[]));
    assert_eq!(dropped(outcome), DropReason::NoFlow);
    assert_eq!(manager.accept(SERVER_IP, SERVER_PORT), None);
    assert!(manager.pending_frames().is_empty());
}

#[test]
fn accept_waits_for_a_peer() {
    let mut manager = ConnectionManager::new();
    let listener = manager.bind_with_seq(SERVER_IP, SERVER_PORT, 5000);
    assert_eq!(listener.accept(&mut manager), None);
    assert_eq!(manager.accept(SERVER_IP, SERVER_PORT), None);
    assert_eq!(manager.accept(SERVER_IP, 9999), None);

    delivered(manager.dispatch(&from_client(CLIENT_PORT, 0x02, 1000, 0, &[])));
    let handle = listener.accept(&mut manager).unwrap();
    assert_eq!(
        handle.id,
        ConnectionId {
            ip_src: CLIENT_IP,
            ip_dst: SERVER_IP,
            port_src: CLIENT_PORT,
            port_dst: SERVER_PORT,
        }
    );
    assert!(manager.has_flow(&handle.id));
    // A fresh listener took the place of the promoted one.
    assert_eq!(listener.accept(&mut manager), None);
}

#[test]
fn accepted_flow_finishes_its_handshake_in_the_active_table() {
    let mut manager = ConnectionManager::new();
    let listener = manager.bind_with_seq(SERVER_IP, SERVER_PORT, 5000);
    delivered(manager.dispatch(&from_client(CLIENT_PORT, 0x02, 1000, 0, &[])));
    let handle = manager.accept_with_seq(listener.ip, listener.port, 6000).unwrap();
    // The handshake's last ACK finds the flow by its four-tuple.
    assert_eq!(delivered(manager.dispatch(&from_client(CLIENT_PORT, 0x10, 1001, 5001, &[]))), None);
    assert_eq!(delivered(manager.dispatch(&from_client(CLIENT_PORT, 0x10, 1001, 5001, b"ping"))), None);
    let mut buf = [0u8; 8];
    assert_eq!(handle.read(&mut manager, &mut buf), 4);
    assert_eq!(&buf, b"ping\0\0\0\0");
}

#[test]
fn listener_serves_one_peer_after_another() {
    let mut manager = ConnectionManager::new();
    let listener = manager.bind_with_seq(SERVER_IP, SERVER_PORT, 5000);
    let first = connect(&mut manager, &listener, 40000, 5000);
    let second = connect(&mut manager, &listener, 40001, 6000);
    assert_ne!(first.id, second.id);
    assert!(manager.has_flow(&first.id));
    assert!(manager.has_flow(&second.id));

    delivered(manager.dispatch(&from_client(40000, 0x10, 1001, 5001, b"one")));
    delivered(manager.dispatch(&from_client(40001, 0x10, 1001, 6001, b"two")));
    let mut buf = [0u8; 3];
    assert_eq!(second.read(&mut manager, &mut buf), 3);
    assert_eq!(&buf, b"two");
    assert_eq!(first.read(&mut manager, &mut buf), 3);
    assert_eq!(&buf, b"one");
    assert_eq!(first.read(&mut manager, &mut buf), 0);
    assert_eq!(buf, [0, 0, 0]);
}

#[test]
fn written_bytes_go_out_with_every_flush_until_acknowledged() {
    let mut manager = ConnectionManager::new();
    let listener = manager.bind_with_seq(SERVER_IP, SERVER_PORT, 5000);
    let first = connect(&mut manager, &listener, 40000, 5000);
    let second = connect(&mut manager, &listener, 40001, 6000);
    assert!(manager.pending_frames().is_empty());

    // The peers' windows are still zero: a flush sends empty segments.
    first.write_all(&mut manager, b"hello");
    assert_eq!(manager.pending_frames(), vec![to_client(40000, 0x10, 5001, 1001, &[])]);

    // An ACK announces a window of 1500.
    delivered(manager.dispatch(&from_client(40000, 0x10, 1001, 5001, &[])));
    delivered(manager.dispatch(&from_client(40001, 0x10, 1001, 6001, &[])));
    second.write_all(&mut manager, b"world!");
    let expected = vec![
        to_client(40000, 0x10, 5001, 1001, b"hello"),
        to_client(40001, 0x10, 6001, 1001, b"world!"),
    ];
    assert_eq!(manager.pending_frames(), expected);
    assert_eq!(manager.pending_frames(), expected);

    // The first peer acknowledges three bytes.
    delivered(manager.dispatch(&from_client(40000, 0x10, 1001, 5004, &[])));
    assert_eq!(
        manager.pending_frames(),
        vec![
            to_client(40000, 0x10, 5004, 1001, b"lo"),
            to_client(40001, 0x10, 6001, 1001, b"world!"),
        ]
    );

    // The second peer resets: its flow is closed and sends no more.
    delivered(manager.dispatch(&from_client(40001, 0x04, 1001, 0, &[])));
    assert_eq!(manager.pending_frames(), vec![to_client(40000, 0x10, 5004, 1001, b"lo")]);
    assert!(manager.has_flow(&second.id));
}

#[test]
fn reconnecting_peer_replaces_its_old_flow() {
    let mut manager = ConnectionManager::new();
    let listener = manager.bind_with_seq(SERVER_IP, SERVER_PORT, 5000);
    let old = connect(&mut manager, &listener, 40000, 5000);
    old.write_all(&mut manager, b"stale");
    delivered(manager.dispatch(&from_client(40000, 0x04, 1001, 0, &[])));

    // Same four-tuple again; the SYN goes to the closed flow first, which
    // answers with a reset.
    let reply = delivered(manager.dispatch(&from_client(40000, 0x02, 2000, 0, &[])));
    assert_eq!(reply, Some(to_client(40000, 0x04, 0, 2000, &[])));
    assert_eq!(manager.accept(SERVER_IP, SERVER_PORT), None);
}

#[test]
fn rebinding_replaces_the_listener() {
    let mut manager = ConnectionManager::new();
    manager.bind_with_seq(SERVER_IP, SERVER_PORT, 5000);
    delivered(manager.dispatch(&from_client(CLIENT_PORT, 0x02, 1000, 0, &[])));
    let listener = manager.bind_with_seq(SERVER_IP, SERVER_PORT, 7000);
    // The half-open flow is gone with the old listener.
    assert_eq!(listener.accept(&mut manager), None);
    let reply = delivered(manager.dispatch(&from_client(CLIENT_PORT, 0x02, 1000, 0, &[])));
    assert_eq!(reply, Some(to_client(CLIENT_PORT, 0x12, 7000, 1001, &[])));
}

#[test]
fn listeners_on_different_ports_do_not_mix() {
    let mut manager = ConnectionManager::new();
    let a = manager.bind_with_seq(SERVER_IP, 8080, 5000);
    let b = manager.bind_with_seq(SERVER_IP, 8081, 6000);
    let syn = build_segment_frame(CLIENT_IP, SERVER_IP, CLIENT_PORT, 8081, 0x02, 1000, 0, &[]);
    let reply = delivered(manager.dispatch(&syn));
    assert_eq!(
        reply,
        Some(build_segment_frame(SERVER_IP, CLIENT_IP, 8081, CLIENT_PORT, 0x12, 6000, 1001, &[]))
    );
    assert_eq!(a.accept(&mut manager), None);
    let handle = b.accept(&mut manager).unwrap();
    assert_eq!(handle.id.port_dst, 8081);
}

#[test]
fn reset_listener_is_promoted_as_closed() {
    let mut manager = ConnectionManager::new();
    let listener = manager.bind_with_seq(SERVER_IP, SERVER_PORT, 5000);
    assert_eq!(delivered(manager.dispatch(&from_client(CLIENT_PORT, 0x04, 1, 0, &[]))), None);
    let handle = listener.accept(&mut manager).unwrap();
    assert_eq!(
        handle.id,
        ConnectionId { ip_src: 0, ip_dst: SERVER_IP, port_src: 0, port_dst: SERVER_PORT }
    );
    handle.write_all(&mut manager, b"never sent");
    assert!(manager.pending_frames().is_empty());
}

#[test]
fn validate_splits_a_good_frame() {
    let frame = from_client(CLIENT_PORT, 0x18, 1001, 5001, b"payload");
    let (ip, tcp, payload) = validate(&frame).unwrap();
    assert_eq!(ip.source_ip, CLIENT_IP);
    assert_eq!(ip.dest_ip, SERVER_IP);
    assert_eq!(ip.total_length, 47);
    assert_eq!(tcp.source_port, CLIENT_PORT);
    assert_eq!(tcp.dest_port, SERVER_PORT);
    assert_eq!(tcp.sequence_number, 1001);
    assert_eq!(tcp.ack_number, 5001);
    assert_eq!(tcp.flags, 0x18);
    assert_eq!(payload, b"payload");
}

#[test]
fn validate_takes_headers_with_options() {
    let tcp_options = [1u8, 1, 1, 0];
    let mut tcp = TcpPacket {
        source_port: CLIENT_PORT,
        dest_port: SERVER_PORT,
        sequence_number: 1,
        ack_number: 2,
        data_offset: 6,
        flags: 0x10,
        window_size: 64,
        checksum: 0,
        urgent_pointer: 0,
        options: &tcp_options,
    };
    tcp.checksum = tcp.calc_checksum(CLIENT_IP, SERVER_IP, 24 + 2, b"ok");
    let plain = from_client(CLIENT_PORT, 0x10, 1, 2, &[]);
    let mut frame = plain[..24].to_vec();
    frame.extend_from_slice(&tcp.serialize());
    frame.extend_from_slice(b"ok");
    let (_, parsed, payload) = validate(&frame).unwrap();
    assert_eq!(parsed.data_offset, 6);
    assert_eq!(parsed.options, &tcp_options);
    assert_eq!(payload, b"ok");
}

#[test]
fn validate_names_the_check_that_failed() {
    let good = from_client(CLIENT_PORT, 0x10, 1001, 5001, b"payload");

    assert_eq!(validate(&[]).err(), Some(DropReason::ShortFrame));
    assert_eq!(validate(&good[..3]).err(), Some(DropReason::ShortFrame));

    let mut frame = good.clone();
    frame[2] = 0x86;
    frame[3] = 0xDD;
    assert_eq!(validate(&frame).err(), Some(DropReason::NotIpv4));

    assert_eq!(validate(&good[..4]).err(), Some(DropReason::IpHeader(HeaderError::Truncated)));
    assert_eq!(validate(&good[..23]).err(), Some(DropReason::IpHeader(HeaderError::Truncated)));

    let mut frame = good.clone();
    frame[4] = 0x44;
    assert_eq!(validate(&frame).err(), Some(DropReason::IpHeader(HeaderError::BadLength)));

    let mut frame = good.clone();
    frame[13] = 17;
    assert_eq!(validate(&frame).err(), Some(DropReason::NotTcp));

    let mut frame = good.clone();
    frame[12] = 63;
    assert_eq!(validate(&frame).err(), Some(DropReason::IpChecksum));

    assert_eq!(validate(&good[..24]).err(), Some(DropReason::TcpHeader(HeaderError::Truncated)));
    assert_eq!(validate(&good[..43]).err(), Some(DropReason::TcpHeader(HeaderError::Truncated)));

    let mut frame = good.clone();
    frame[36] = 0x40;
    assert_eq!(validate(&frame).err(), Some(DropReason::TcpHeader(HeaderError::BadLength)));

    let mut frame = good.clone();
    let last = frame.len() - 1;
    frame[last] ^= 1;
    assert_eq!(validate(&frame).err(), Some(DropReason::TcpChecksum));

    // A shorter payload than the sender summed over.
    assert_eq!(validate(&good[..good.len() - 1]).err(), Some(DropReason::TcpChecksum));
}

#[test]
fn dropped_frames_change_nothing() {
    let mut manager = ConnectionManager::new();
    let listener = manager.bind_with_seq(SERVER_IP, SERVER_PORT, 5000);
    let mut syn = from_client(CLIENT_PORT, 0x02, 1000, 0, &[]);
    syn[30] ^= 0xFF;
    assert_eq!(dropped(manager.dispatch(&syn)), DropReason::TcpChecksum);
    assert_eq!(listener.accept(&mut manager), None);

    let elsewhere = build_segment_frame(CLIENT_IP, SERVER_IP, CLIENT_PORT, 9, 0x02, 1000, 0, &[]);
    assert_eq!(dropped(manager.dispatch(&elsewhere)), DropReason::NoFlow);
    assert_eq!(listener.accept(&mut manager), None);
}

#[test]
fn handle_reads_and_writes_its_own_flow() {
    let mut manager = ConnectionManager::new();
    let listener = manager.bind_with_seq(SERVER_IP, SERVER_PORT, 5000);
    let handle = connect(&mut manager, &listener, CLIENT_PORT, 5000);
    delivered(manager.dispatch(&from_client(CLIENT_PORT, 0x18, 1001, 5001, b"hello")));
    delivered(manager.dispatch(&from_client(CLIENT_PORT, 0x18, 1006, 5001, b" there")));

    let mut buf = [0xAAu8; 7];
    assert_eq!(manager.read(&handle.id, &mut buf), 7);
    assert_eq!(&buf, b"hello t");
    assert_eq!(handle.read(&mut manager, &mut buf), 4);
    assert_eq!(&buf, b"here\0\0\0");

    manager.write_all(&handle.id, b"ab");
    handle.write_all(&mut manager, b"cd");
    assert_eq!(manager.pending_frames(), vec![to_client(CLIENT_PORT, 0x10, 5001, 1012, b"abcd")]);
}

#[test]
fn has_flow_knows_only_accepted_flows() {
    let mut manager = ConnectionManager::new();
    let listener = manager.bind_with_seq(SERVER_IP, SERVER_PORT, 5000);
    let id = ConnectionId {
        ip_src: CLIENT_IP,
        ip_dst: SERVER_IP,
        port_src: CLIENT_PORT,
        port_dst: SERVER_PORT,
    };
    assert!(!manager.has_flow(&id));
    delivered(manager.dispatch(&from_client(CLIENT_PORT, 0x02, 1000, 0, &[])));
    assert!(!manager.has_flow(&id));
    listener.accept(&mut manager).unwrap();
    assert!(manager.has_flow(&id));
    assert!(!manager.has_flow(&ConnectionId { port_src: 1, ..id }));
}

#[test]
fn closed_flow_stays_in_the_table_and_resets() {
    let mut manager = ConnectionManager::new();
    let listener = manager.bind_with_seq(SERVER_IP, SERVER_PORT, 5000);
    connect(&mut manager, &listener, CLIENT_PORT, 5000);
    // FIN, then the last ACK, then anything: the closed flow resets.
    let reply = delivered(manager.dispatch(&from_client(CLIENT_PORT, 0x11, 1001, 5001, &[])));
    assert_eq!(reply, Some(to_client(CLIENT_PORT, 0x11, 5001, 1002, &[])));
    assert_eq!(delivered(manager.dispatch(&from_client(CLIENT_PORT, 0x10, 1002, 5002, &[]))), None);
    let reply = delivered(manager.dispatch(&from_client(CLIENT_PORT, 0x10, 1002, 5002, b"x")));
    assert_eq!(reply, Some(to_client(CLIENT_PORT, 0x04, 5002, 1003, &[])));
}
