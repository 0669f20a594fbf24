use game_zone::codec::{encode_envelope, serialize};
use game_zone::game::tcp_client::{ReadOutcome, TcpClient, WriteOutcome, ERROR_LIMIT};
use game_zone::proto::{Body, Category, LogoutPacketType, Packet, SyncPacketType};

fn bytes_of(packet: &Packet) -> Vec<u8> {
    serialize(packet).expect("serialises")
}

fn unwritable() -> Packet {
    Packet::new(Category::Unknown, Body::Empty)
}

fn queued(n: usize) -> TcpClient {
    let mut tcp = TcpClient::new();
    for i in 0..n {
        tcp.stack_packet(Packet::logout_notification(i as u64));
    }
    tcp
}

fn queue(tcp: &TcpClient) -> Vec<Packet> {
    tcp.get_send_messages().clone()
}

#[test]
fn fresh_transport_is_empty_and_healthy() {
    let tcp = TcpClient::new();
    assert!(!tcp.check_error());
    assert!(!tcp.is_disconnected());
    assert_eq!(tcp.error_count(), 0);
    assert!(tcp.get_send_messages().is_empty());
    assert!(tcp.get_recv_messages().is_empty());
    assert!(tcp.send_batch().is_empty());
}

#[test]
fn stack_packet_appends_in_order() {
    let tcp = queued(3);
    assert_eq!(
        queue(&tcp),
        vec![
            Packet::logout_notification(0),
            Packet::logout_notification(1),
            Packet::logout_notification(2),
        ]
    );
}

#[test]
fn send_batch_holds_the_bytes_of_each_packet_in_order() {
    let tcp = queued(2);
    assert_eq!(
        tcp.send_batch(),
        vec![
            bytes_of(&Packet::logout_notification(0)),
            bytes_of(&Packet::logout_notification(1)),
        ]
    );
    // Category: field 2, value 3. Payload: field 5, holding field 1 = 1.
    assert_eq!(tcp.send_batch()[1], vec![0x10, 0x03, 0x2a, 0x02, 0x08, 0x01]);
}

#[test]
fn send_batch_leaves_out_what_does_not_serialise() {
    let mut tcp = TcpClient::new();
    tcp.stack_packet(Packet::logout_response(true));
    tcp.stack_packet(unwritable());
    tcp.stack_packet(Packet::new(Category::Sync(SyncPacketType::Transform), Body::Malformed));
    tcp.stack_packet(Packet::login_result(4));
    assert_eq!(
        tcp.send_batch(),
        vec![bytes_of(&Packet::logout_response(true)), bytes_of(&Packet::login_result(4))]
    );
}

#[test]
fn full_write_clears_queue_and_resets_counter() {
    let mut tcp = queued(2);
    assert_eq!(tcp.send(WriteOutcome::Failed), 0);
    assert_eq!(tcp.error_count(), 1);
    assert_eq!(tcp.get_send_messages().len(), 2);
    let total: usize = tcp.send_batch().iter().map(|b| b.len()).sum();
    assert_eq!(tcp.send(WriteOutcome::Written(total)), 0);
    assert_eq!(tcp.error_count(), 0);
    assert!(tcp.get_send_messages().is_empty());
    assert!(tcp.send_batch().is_empty());
}

#[test]
fn partial_write_keeps_the_unsent_bytes_for_the_next_batch() {
    let mut tcp = queued(2);
    let all: Vec<u8> = tcp.send_batch().concat();
    assert_eq!(all.len(), 12);
    tcp.send(WriteOutcome::Written(8));
    assert!(tcp.get_send_messages().is_empty());
    assert_eq!(tcp.error_count(), 0);
    // The bytes that the socket did not take go first next time.
    assert_eq!(tcp.send_batch(), vec![all[8..].to_vec()]);
    tcp.stack_packet(Packet::logout_response(true));
    assert_eq!(
        tcp.send_batch(),
        vec![all[8..].to_vec(), bytes_of(&Packet::logout_response(true))]
    );
    tcp.send(WriteOutcome::Written(5));
    let response = bytes_of(&Packet::logout_response(true));
    assert_eq!(tcp.send_batch(), vec![response[1..].to_vec()]);
    tcp.send(WriteOutcome::Written(response.len() - 1));
    assert!(tcp.send_batch().is_empty());
}

#[test]
fn write_of_nothing_keeps_the_whole_batch() {
    let mut tcp = queued(1);
    let bytes = bytes_of(&Packet::logout_notification(0));
    tcp.send(WriteOutcome::Written(0));
    assert!(tcp.get_send_messages().is_empty());
    assert_eq!(tcp.send_batch(), vec![bytes]);
}

#[test]
fn write_beyond_the_batch_leaves_nothing() {
    let mut tcp = queued(1);
    tcp.send(WriteOutcome::Written(usize::MAX));
    assert!(tcp.send_batch().is_empty());
}

#[test]
fn write_zero_is_not_counted_and_keeps_the_queue() {
    let mut tcp = queued(2);
    tcp.send(WriteOutcome::WriteZero);
    assert_eq!(tcp.error_count(), 0);
    assert_eq!(tcp.get_send_messages().len(), 2);
}

#[test]
fn failure_counts_and_keeps_the_queue() {
    let mut tcp = queued(2);
    tcp.send(WriteOutcome::Failed);
    assert_eq!(tcp.error_count(), 1);
    assert_eq!(queue(&tcp), vec![Packet::logout_notification(0), Packet::logout_notification(1)]);
}

#[test]
fn failed_write_leaves_the_queue_whole() {
    let mut tcp = TcpClient::new();
    tcp.stack_packet(Packet::logout_notification(0));
    tcp.stack_packet(unwritable());
    tcp.stack_packet(Packet::logout_notification(2));
    let before = queue(&tcp);
    assert_eq!(tcp.send(WriteOutcome::Failed), 1);
    assert_eq!(queue(&tcp), before);
    assert_eq!(tcp.error_count(), 1);
    assert_eq!(tcp.send(WriteOutcome::Failed), 1);
    assert_eq!(queue(&tcp), before);
    assert_eq!(tcp.error_count(), 2);
}

#[test]
fn zero_byte_write_leaves_the_queue_whole() {
    let mut tcp = TcpClient::new();
    tcp.stack_packet(unwritable());
    tcp.stack_packet(Packet::logout_notification(2));
    let before = queue(&tcp);
    tcp.send(WriteOutcome::Failed);
    assert_eq!(tcp.send(WriteOutcome::WriteZero), 1);
    assert_eq!(queue(&tcp), before);
    assert_eq!(tcp.error_count(), 1);
}

#[test]
fn packet_that_does_not_serialise_leaves_with_the_queue() {
    let mut tcp = TcpClient::new();
    tcp.stack_packet(Packet::logout_notification(0));
    tcp.stack_packet(unwritable());
    assert_eq!(tcp.send_batch(), vec![bytes_of(&Packet::logout_notification(0))]);
    assert_eq!(tcp.send(WriteOutcome::Written(usize::MAX)), 1);
    assert!(tcp.get_send_messages().is_empty());
    assert!(tcp.send_batch().is_empty());
}

#[test]
fn nothing_to_write_is_no_attempt() {
    let mut tcp = TcpClient::new();
    tcp.stack_packet(unwritable());
    tcp.stack_packet(unwritable());
    assert!(tcp.send_batch().is_empty());
    // No write was due: whatever the outcome says, nothing changes.
    assert_eq!(tcp.send(WriteOutcome::Failed), 2);
    assert_eq!(tcp.error_count(), 0);
    assert_eq!(tcp.get_send_messages().len(), 2);
    assert_eq!(tcp.send(WriteOutcome::Written(7)), 2);
    assert_eq!(tcp.get_send_messages().len(), 2);
    let mut idle = TcpClient::new();
    assert_eq!(idle.send(WriteOutcome::Failed), 0);
    assert_eq!(idle.error_count(), 0);
}

#[test]
fn unhealthy_after_the_101st_failure_and_not_before() {
    assert_eq!(ERROR_LIMIT, 100);
    let mut tcp = queued(1);
    for n in 1..=100u32 {
        tcp.send(WriteOutcome::Failed);
        assert_eq!(tcp.error_count(), n);
        assert!(!tcp.check_error());
    }
    tcp.send(WriteOutcome::Failed);
    assert_eq!(tcp.error_count(), 101);
    assert!(tcp.check_error());
    tcp.send(WriteOutcome::Failed);
    assert!(tcp.check_error());
}

#[test]
fn one_success_after_many_failures_resets_the_counter() {
    let mut tcp = queued(1);
    for _ in 0..150 {
        tcp.send(WriteOutcome::Failed);
    }
    assert!(tcp.check_error());
    tcp.send(WriteOutcome::Written(1));
    assert_eq!(tcp.error_count(), 0);
    assert!(!tcp.check_error());
}

#[test]
fn recv_skips_frames_that_hold_no_packet() {
    let mut tcp = TcpClient::new();
    let skipped = tcp.recv(ReadOutcome::Frames(vec![
        bytes_of(&Packet::logout_request()),
        vec![0xff],
        bytes_of(&Packet::chat_send(0, "hi".to_string())),
        vec![0x2a, 0x09, 0x00],
    ]));
    assert_eq!(skipped, 2);
    let got = tcp.get_recv_messages();
    assert_eq!(got.len(), 2);
    assert_eq!(got[0].category, Category::Logout(LogoutPacketType::Request));
    assert_eq!(got[1].body, Body::ChatMessage { user_id: 0, text: "hi".to_string() });
    assert!(!tcp.is_disconnected());
}

#[test]
fn recv_keeps_a_packet_whose_body_does_not_decode() {
    let mut tcp = TcpClient::new();
    let sync = Category::Sync(SyncPacketType::Transform);
    let skipped = tcp.recv(ReadOutcome::Frames(vec![encode_envelope(sync, vec![0xff]).unwrap()]));
    assert_eq!(skipped, 0);
    assert_eq!(tcp.get_recv_messages(), &vec![Packet::new(sync, Body::Malformed)]);
}

#[test]
fn recv_appends_behind_what_is_waiting() {
    let mut tcp = TcpClient::new();
    tcp.recv(ReadOutcome::Frames(vec![bytes_of(&Packet::logout_request())]));
    tcp.recv(ReadOutcome::Frames(vec![bytes_of(&Packet::logout_response(false))]));
    let got = tcp.into_recv_messages();
    assert_eq!(got, vec![Packet::logout_request(), Packet::logout_response(false)]);
    assert!(tcp.get_recv_messages().is_empty());
}

#[test]
fn recv_remembers_a_close_and_ignores_a_failure() {
    let mut tcp = TcpClient::new();
    assert_eq!(tcp.recv(ReadOutcome::Failed), 0);
    assert!(!tcp.is_disconnected());
    assert_eq!(tcp.error_count(), 0);
    assert_eq!(tcp.recv(ReadOutcome::Closed), 0);
    assert!(tcp.is_disconnected());
    assert!(tcp.get_recv_messages().is_empty());
}

#[test]
fn disconnect_leaves_the_transport_as_it_is() {
    let mut tcp = queued(2);
    tcp.send(WriteOutcome::Failed);
    tcp.disconnect();
    assert_eq!(tcp.error_count(), 1);
    assert_eq!(tcp.get_send_messages().len(), 2);
    assert!(!tcp.is_disconnected());
}
