use game_zone::codec::{encode_envelope, serialize};
use game_zone::entity::entity::{Entity, Point3};
use game_zone::entity::player::Player;
use game_zone::game::client::cluster::{Cluster, ProcessReport};
use game_zone::game::client::command::Command;
use game_zone::game::tcp_client::{ReadOutcome, TcpClient, WriteOutcome};
use game_zone::proto::{Body, Category, LoginPacketType, Packet, SyncPacketType, TextMessageType};

fn point(x: f32, y: f32, z: f32) -> Point3 {
    Point3::new(x.to_bits(), y.to_bits(), z.to_bits())
}

fn connection(id: u64) -> Cluster {
    Cluster::new(Player::new(id, point(0.0, 0.0, -10.0)), TcpClient::new())
}

/// The bytes of `packet`; a malformed body is put on the wire as a
/// payload that holds no run of fields.
fn frame(packet: &Packet) -> Vec<u8> {
    match serialize(packet) {
        Some(bytes) => bytes,
        None => encode_envelope(packet.category, vec![0xff]).unwrap_or_default(),
    }
}

fn feed(cluster: &mut Cluster, packets: Vec<Packet>) {
    cluster.recv_packets(ReadOutcome::Frames(packets.iter().map(frame).collect()));
}

#[test]
fn new_connection_has_its_players_id_and_no_commands() {
    let mut c = connection(7);
    assert_eq!(c.id(), 7);
    assert_eq!(c.player().position(), point(0.0, 0.0, -10.0));
    assert!(c.take_commands().is_empty());
    assert!(c.tcp().get_send_messages().is_empty());
}

#[test]
fn sync_packet_overwrites_the_position() {
    let mut c = connection(1);
    feed(&mut c, vec![Packet::transform_sync(point(1.0, 2.0, 3.0), point(0.0, 0.0, 0.0))]);
    let report = c.process_packets();
    assert_eq!(report, ProcessReport { applied: 1, dropped: 0, unknown: 0 });
    assert_eq!(c.player().position(), point(1.0, 2.0, 3.0));
    assert_eq!(c.player().id(), 1);
    assert!(c.take_commands().is_empty());
    assert!(c.tcp().get_recv_messages().is_empty());
}

#[test]
fn sync_packet_is_not_checked_against_distance() {
    let mut c = connection(1);
    feed(&mut c, vec![Packet::transform_sync(point(1.0e30, -1.0e30, f32::MAX), point(0.0, 0.0, 0.0))]);
    c.process_packets();
    assert_eq!(c.player().position(), point(1.0e30, -1.0e30, f32::MAX));
}

#[test]
fn logout_request_defers_a_logout() {
    let mut c = connection(4);
    feed(&mut c, vec![Packet::logout_request()]);
    let report = c.process_packets();
    assert_eq!(report.applied, 1);
    let commands = c.take_commands();
    assert_eq!(commands.len(), 1);
    match &commands[0] {
        Command::Logout(l) => assert_eq!(l.player_id(), 4),
        other => panic!("unexpected {:?}", other),
    }
    assert!(c.take_commands().is_empty());
}

#[test]
fn chat_send_defers_a_broadcast_in_the_senders_name() {
    let mut c = connection(4);
    // The body names someone else; the connection's own id is used.
    feed(&mut c, vec![Packet::chat_send(99, "hello".to_string())]);
    c.process_packets();
    let commands = c.take_commands();
    assert_eq!(commands.len(), 1);
    match &commands[0] {
        Command::ChatBroadcast(b) => {
            assert_eq!(b.from(), 4);
            assert_eq!(b.text(), "hello");
        },
        other => panic!("unexpected {:?}", other),
    }
}

#[test]
fn one_good_and_one_malformed_packet_give_one_effect_and_one_drop() {
    let mut c = connection(2);
    let mut other = connection(3);
    feed(
        &mut c,
        vec![
            Packet::transform_sync(point(1.0, 2.0, 3.0), point(0.0, 0.0, 0.0)),
            Packet::new(Category::Sync(SyncPacketType::Transform), Body::Malformed),
        ],
    );
    let report = c.process_packets();
    assert_eq!(report, ProcessReport { applied: 1, dropped: 1, unknown: 0 });
    assert_eq!(c.player().position(), point(1.0, 2.0, 3.0));
    assert!(c.take_commands().is_empty());
    assert!(!c.tcp().is_disconnected());
    assert_eq!(other.process_packets(), ProcessReport { applied: 0, dropped: 0, unknown: 0 });
    assert_eq!(other.player().position(), point(0.0, 0.0, -10.0));
}

#[test]
fn malformed_packet_does_not_stop_the_batch() {
    let mut c = connection(2);
    feed(
        &mut c,
        vec![
            Packet::new(Category::TextMessage(TextMessageType::ChatSend), Body::Malformed),
            Packet::chat_send(2, "after".to_string()),
            Packet::new(Category::Sync(SyncPacketType::Transform), Body::Malformed),
            Packet::logout_request(),
        ],
    );
    let report = c.process_packets();
    assert_eq!(report, ProcessReport { applied: 2, dropped: 2, unknown: 0 });
    let commands = c.take_commands();
    assert_eq!(commands.len(), 2);
    assert!(matches!(&commands[0], Command::ChatBroadcast(b) if b.text() == "after"));
    assert!(matches!(&commands[1], Command::Logout(l) if l.player_id() == 2));
}

#[test]
fn text_that_is_no_utf8_counts_as_malformed() {
    let mut c = connection(2);
    let chat = Category::TextMessage(TextMessageType::ChatSend);
    c.recv_packets(ReadOutcome::Frames(vec![
        encode_envelope(chat, vec![0x12, 0x02, 0xc3, 0x28]).unwrap(),
    ]));
    assert_eq!(c.process_packets(), ProcessReport { applied: 0, dropped: 1, unknown: 0 });
    assert!(c.take_commands().is_empty());
}

#[test]
fn unknown_categories_are_passed_over() {
    let mut c = connection(2);
    feed(
        &mut c,
        vec![
            Packet::new(Category::Unknown, Body::Empty),
            Packet::login_result(2),
            Packet::chat_receive(1, "echo".to_string()),
            Packet::logout_response(true),
            Packet::new(Category::Login(LoginPacketType::Notification), Body::Malformed),
        ],
    );
    // The packet of unknown category has no bytes of its own; it arrives
    // as a message without a category.
    assert_eq!(c.process_packets(), ProcessReport { applied: 0, dropped: 0, unknown: 5 });
    assert!(c.take_commands().is_empty());
}

#[test]
fn healthy_open_connection_defers_nothing_on_update() {
    let mut c = connection(5);
    c.update();
    assert!(c.take_commands().is_empty());
}

#[test]
fn unhealthy_transport_defers_a_forced_disconnect() {
    let mut c = connection(5);
    c.stack_packet(Packet::logout_response(true));
    for _ in 0..100 {
        c.send_packets(WriteOutcome::Failed);
    }
    c.update();
    assert!(c.take_commands().is_empty());
    c.send_packets(WriteOutcome::Failed);
    c.update();
    let commands = c.take_commands();
    assert_eq!(commands.len(), 1);
    assert!(matches!(&commands[0], Command::ForceDisconnect(f) if f.player_id() == 5));
}

#[test]
fn closed_transport_defers_a_logout() {
    let mut c = connection(5);
    c.recv_packets(ReadOutcome::Closed);
    c.update();
    let commands = c.take_commands();
    assert_eq!(commands.len(), 1);
    assert!(matches!(&commands[0], Command::Logout(l) if l.player_id() == 5));
}

#[test]
fn unhealthy_and_closed_defers_both_disconnect_first() {
    let mut c = connection(5);
    c.stack_packet(Packet::logout_response(true));
    for _ in 0..101 {
        c.send_packets(WriteOutcome::Failed);
    }
    c.recv_packets(ReadOutcome::Closed);
    c.update();
    let commands = c.take_commands();
    assert_eq!(commands.len(), 2);
    assert!(matches!(&commands[0], Command::ForceDisconnect(f) if f.player_id() == 5));
    assert!(matches!(&commands[1], Command::Logout(l) if l.player_id() == 5));
}

#[test]
fn on_accepted_queues_the_login_result() {
    let mut c = connection(12);
    c.on_accepted();
    assert_eq!(c.tcp().get_send_messages(), &vec![Packet::login_result(12)]);
    assert_eq!(
        c.tcp().get_send_messages()[0].category,
        Category::Login(LoginPacketType::Result)
    );
    assert_eq!(c.tcp().get_send_messages()[0].body, Body::LoginResult { user_id: 12 });
}

#[test]
fn send_batch_of_connection_is_that_of_its_transport() {
    let mut c = connection(1);
    c.stack_packet(Packet::logout_response(true));
    let bytes = serialize(&Packet::logout_response(true)).unwrap();
    assert_eq!(c.send_batch(), vec![bytes.clone()]);
    c.send_packets(WriteOutcome::Written(1));
    assert_eq!(c.send_batch(), vec![bytes[1..].to_vec()]);
}
