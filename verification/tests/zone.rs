use game_zone::codec::{encode_envelope, serialize};
use game_zone::entity::entity::{Entity, Point3};
use game_zone::game::client::cluster::ProcessReport;
use game_zone::game::tcp_client::{ReadOutcome, WriteOutcome};
use game_zone::game::zone::{make_player_name, AcceptOutcome, Zone, SPAWN_Z};
use game_zone::proto::{Body, Packet};

fn point(x: f32, y: f32, z: f32) -> Point3 {
    Point3::new(x.to_bits(), y.to_bits(), z.to_bits())
}

fn frames(packets: Vec<Packet>) -> ReadOutcome {
    ReadOutcome::Frames(packets.iter().map(|p| serialize(p).expect("serialises")).collect())
}

fn quiet() -> ReadOutcome {
    ReadOutcome::Frames(vec![])
}

fn ids(zone: &Zone) -> Vec<u64> {
    zone.players().iter().map(|c| c.id()).collect()
}

fn outbound(zone: &Zone, index: usize) -> Vec<Packet> {
    zone.players()[index].tcp().get_send_messages().clone()
}

/// Flushes every connection completely, so that the queues are empty.
fn flush_all(zone: &mut Zone) {
    let writes: Vec<WriteOutcome> =
        zone.players().iter().map(|_| WriteOutcome::Written(usize::MAX)).collect();
    zone.send_all(&writes);
}

/// A zone with `n` live connections, ids 0..n, and empty queues.
fn zone_with(n: usize) -> Zone {
    let mut zone = Zone::new("TestZone".to_string());
    for _ in 0..n {
        let reads = zone.players().iter().map(|_| quiet()).collect();
        zone.update(AcceptOutcome::Connected, reads);
    }
    flush_all(&mut zone);
    zone
}

#[test]
fn new_zone_is_empty() {
    let zone = Zone::new("TestZone".to_string());
    assert_eq!(zone.name(), "TestZone");
    assert!(zone.players().is_empty());
    assert!(!zone.is_live(0));
}

#[test]
fn spawn_depth_is_minus_ten() {
    assert_eq!(SPAWN_Z, (-10.0f32).to_bits());
}

#[test]
fn player_names_are_player_and_the_id() {
    assert_eq!(make_player_name(0), "Player0");
    assert_eq!(make_player_name(7), "Player7");
    assert_eq!(make_player_name(10), "Player10");
    assert_eq!(make_player_name(1234567890), "Player1234567890");
    assert_eq!(make_player_name(u64::MAX), "Player18446744073709551615");
}

#[test]
fn accept_stages_the_connection_without_making_it_live() {
    let mut zone = Zone::new("z".to_string());
    assert_eq!(zone.accept_client(AcceptOutcome::Connected), Some(0));
    assert!(!zone.is_live(0));
    assert!(zone.players().is_empty());
    zone.add_client_accepted();
    assert!(zone.is_live(0));
    assert_eq!(outbound(&zone, 0), vec![Packet::login_result(0)]);
    assert_eq!(zone.players()[0].player().position(), point(0.0, 0.0, -10.0));
    assert_eq!(zone.players()[0].player().radius(), 1.0f32.to_bits());
}

#[test]
fn failed_and_pending_accepts_change_nothing() {
    let mut zone = zone_with(1);
    assert_eq!(zone.accept_client(AcceptOutcome::Failed), None);
    assert_eq!(zone.accept_client(AcceptOutcome::Pending), None);
    zone.add_client_accepted();
    assert_eq!(ids(&zone), vec![0]);
    assert!(outbound(&zone, 0).is_empty());
    assert_eq!(zone.accept_client(AcceptOutcome::Connected), Some(1));
}

#[test]
fn accept_tells_the_live_connections() {
    let mut zone = zone_with(2);
    assert_eq!(zone.accept_client(AcceptOutcome::Connected), Some(2));
    let expected = vec![Packet::login_notification(2, "Player2".to_string())];
    assert_eq!(outbound(&zone, 0), expected);
    assert_eq!(outbound(&zone, 1), expected);
}

#[test]
fn connection_accepted_in_a_tick_gets_none_of_its_broadcasts() {
    let mut zone = zone_with(1);
    let report = zone.update(
        AcceptOutcome::Connected,
        vec![frames(vec![Packet::chat_send(0, "hello".to_string())])],
    );
    assert_eq!(report.accepted, Some(1));
    assert_eq!(ids(&zone), vec![0, 1]);
    assert_eq!(
        outbound(&zone, 0),
        vec![
            Packet::login_notification(1, "Player1".to_string()),
            Packet::chat_receive(0, "hello".to_string()),
        ]
    );
    // The newcomer holds only its welcome.
    assert_eq!(outbound(&zone, 1), vec![Packet::login_result(1)]);
    // From the next tick on it is a recipient like the others.
    zone.update(
        AcceptOutcome::Pending,
        vec![frames(vec![Packet::chat_send(0, "again".to_string())]), quiet()],
    );
    assert_eq!(
        outbound(&zone, 1),
        vec![Packet::login_result(1), Packet::chat_receive(0, "again".to_string())]
    );
}

#[test]
fn reads_for_a_connection_accepted_in_the_same_tick_are_passed_over() {
    let mut zone = Zone::new("z".to_string());
    let report = zone.update(
        AcceptOutcome::Connected,
        vec![frames(vec![Packet::chat_send(0, "early".to_string())])],
    );
    assert!(report.handled.is_empty());
    assert_eq!(outbound(&zone, 0), vec![Packet::login_result(0)]);
    assert!(zone.players()[0].tcp().get_recv_messages().is_empty());
}

#[test]
fn leaving_connection_stays_live_until_the_commit() {
    let mut zone = zone_with(3);
    zone.recv_all(vec![
        frames(vec![Packet::logout_request()]),
        quiet(),
        frames(vec![Packet::chat_send(2, "bye 0".to_string())]),
    ]);
    zone.process_all();
    zone.advance_all();
    zone.execute_client_commands();
    // Still in the table, and still handed what came after its request.
    assert_eq!(ids(&zone), vec![0, 1, 2]);
    assert!(zone.is_live(0));
    assert_eq!(
        outbound(&zone, 0),
        vec![Packet::logout_response(true), Packet::chat_receive(2, "bye 0".to_string())]
    );
    assert_eq!(
        outbound(&zone, 1),
        vec![Packet::logout_notification(0), Packet::chat_receive(2, "bye 0".to_string())]
    );
    zone.add_client_accepted();
    zone.remove_client_chashed();
    assert_eq!(ids(&zone), vec![1, 2]);
    assert!(!zone.is_live(0));
    // No later tick brings it back, and its identity is not given out again.
    let report = zone.update(AcceptOutcome::Connected, vec![quiet(), quiet()]);
    assert_eq!(report.accepted, Some(3));
    assert_eq!(ids(&zone), vec![1, 2, 3]);
}

#[test]
fn commands_of_one_connection_run_in_the_order_they_were_sent() {
    let mut zone = zone_with(2);
    zone.update(
        AcceptOutcome::Pending,
        vec![
            frames(vec![
                Packet::chat_send(0, "first".to_string()),
                Packet::chat_send(0, "second".to_string()),
            ]),
            frames(vec![Packet::chat_send(1, "other".to_string())]),
        ],
    );
    let expected = vec![
        Packet::chat_receive(0, "first".to_string()),
        Packet::chat_receive(0, "second".to_string()),
        Packet::chat_receive(1, "other".to_string()),
    ];
    assert_eq!(outbound(&zone, 0), expected);
    assert_eq!(outbound(&zone, 1), expected);
}

#[test]
fn two_connections_sync_and_logout() {
    // Tick 1: A and B are accepted and get the ids 0 and 1.
    let mut zone = Zone::new("TestZone".to_string());
    assert_eq!(zone.accept_client(AcceptOutcome::Connected), Some(0));
    let report = zone.update(AcceptOutcome::Connected, vec![]);
    assert_eq!(report.accepted, Some(1));
    assert_eq!(ids(&zone), vec![0, 1]);
    flush_all(&mut zone);

    // Tick 2: both are live; B reports the position (1, 2, 3).
    let a_before = zone.players()[0].player().position();
    let report = zone.update(
        AcceptOutcome::Pending,
        vec![
            quiet(),
            frames(vec![Packet::transform_sync(point(1.0, 2.0, 3.0), point(0.0, 0.0, 0.0))]),
        ],
    );
    assert_eq!(
        report.handled,
        vec![
            ProcessReport { applied: 0, dropped: 0, unknown: 0 },
            ProcessReport { applied: 1, dropped: 0, unknown: 0 },
        ]
    );
    assert_eq!(zone.players()[1].player().position(), point(1.0, 2.0, 3.0));
    assert_eq!(zone.players()[0].player().position(), a_before);
    assert_eq!(a_before, point(0.0, 0.0, -10.0));
    flush_all(&mut zone);

    // Tick 3: A asks to leave.
    zone.recv_all(vec![frames(vec![Packet::logout_request()]), quiet()]);
    zone.process_all();
    zone.advance_all();
    zone.execute_client_commands();
    assert_eq!(outbound(&zone, 0), vec![Packet::logout_response(true)]);
    assert_eq!(outbound(&zone, 1), vec![Packet::logout_notification(0)]);
    assert_eq!(outbound(&zone, 1)[0].body, Body::LogoutNotification { user_id: 0 });
    zone.add_client_accepted();
    zone.remove_client_chashed();

    // Tick 4: A is not in the table.
    assert!(!zone.is_live(0));
    assert_eq!(ids(&zone), vec![1]);
    zone.update(AcceptOutcome::Pending, vec![quiet()]);
    assert_eq!(ids(&zone), vec![1]);
}

#[test]
fn logout_of_someone_who_is_not_live_tells_the_others_only() {
    let mut zone = zone_with(2);
    zone.dissconnect_request(&42);
    assert_eq!(outbound(&zone, 0), vec![Packet::logout_notification(42)]);
    assert_eq!(outbound(&zone, 1), vec![Packet::logout_notification(42)]);
    zone.remove_client_chashed();
    assert_eq!(ids(&zone), vec![0, 1]);
}

#[test]
fn forced_disconnect_tells_everyone_but_the_one_who_goes() {
    let mut zone = zone_with(3);
    zone.dissconnect_client_force(&1);
    assert_eq!(outbound(&zone, 0), vec![Packet::logout_notification(1)]);
    assert!(outbound(&zone, 1).is_empty());
    assert_eq!(outbound(&zone, 2), vec![Packet::logout_notification(1)]);
    assert!(zone.is_live(1));
    zone.remove_client_chashed();
    assert_eq!(ids(&zone), vec![0, 2]);
}

#[test]
fn leaving_twice_is_leaving_once() {
    let mut zone = zone_with(3);
    zone.dissconnect_client_force(&1);
    zone.dissconnect_request(&1);
    zone.remove_client_chashed();
    assert_eq!(ids(&zone), vec![0, 2]);
    zone.remove_client_chashed();
    assert_eq!(ids(&zone), vec![0, 2]);
}

#[test]
fn chat_reaches_everyone_the_speaker_too() {
    let mut zone = zone_with(3);
    zone.broadcast_chat_message(1, "hi all");
    for i in 0..3 {
        assert_eq!(outbound(&zone, i), vec![Packet::chat_receive(1, "hi all".to_string())]);
    }
}

#[test]
fn dead_transport_is_disconnected_by_force() {
    let mut zone = zone_with(2);
    zone.broadcast_chat_message(0, "x");
    for _ in 0..100 {
        zone.send_all(&vec![WriteOutcome::Written(usize::MAX), WriteOutcome::Failed]);
        zone.broadcast_chat_message(0, "x");
    }
    assert!(!zone.players()[1].tcp().check_error());
    zone.update(AcceptOutcome::Pending, vec![quiet(), quiet()]);
    assert_eq!(ids(&zone), vec![0, 1]);
    zone.send_all(&vec![WriteOutcome::Written(usize::MAX), WriteOutcome::Failed]);
    assert!(zone.players()[1].tcp().check_error());
    assert!(!zone.players()[0].tcp().check_error());
    zone.update(AcceptOutcome::Pending, vec![quiet(), quiet()]);
    assert_eq!(ids(&zone), vec![0]);
    assert_eq!(outbound(&zone, 0), vec![Packet::logout_notification(1)]);
}

#[test]
fn tick_reports_frames_that_held_no_packet() {
    let mut zone = zone_with(2);
    let report = zone.update(
        AcceptOutcome::Pending,
        vec![
            ReadOutcome::Frames(vec![vec![0xff], serialize(&Packet::logout_request()).unwrap()]),
            ReadOutcome::Failed,
            ReadOutcome::Frames(vec![vec![0xff]]),
        ],
    );
    assert_eq!(report.skipped, vec![1, 0]);
    assert_eq!(report.accepted, None);
    assert_eq!(report.handled[0], ProcessReport { applied: 1, dropped: 0, unknown: 0 });
    assert_eq!(ids(&zone), vec![1]);
}

#[test]
fn send_all_reports_packets_that_do_not_serialise_per_connection() {
    let mut zone = zone_with(2);
    zone.broadcast_chat_message(0, "x");
    assert_eq!(zone.send_all(&vec![WriteOutcome::Failed]), vec![0]);
    assert_eq!(zone.send_all(&vec![]), Vec::<usize>::new());
    assert_eq!(
        zone.send_all(&vec![WriteOutcome::WriteZero, WriteOutcome::WriteZero, WriteOutcome::Failed]),
        vec![0, 0]
    );
}

#[test]
fn closed_connection_logs_out() {
    let mut zone = zone_with(2);
    zone.update(AcceptOutcome::Pending, vec![ReadOutcome::Closed, quiet()]);
    assert_eq!(ids(&zone), vec![1]);
    assert_eq!(outbound(&zone, 0), vec![Packet::logout_notification(0)]);
}

#[test]
fn send_all_settles_each_connection_by_its_place() {
    let mut zone = zone_with(3);
    zone.broadcast_chat_message(0, "x");
    let bytes = serialize(&Packet::chat_receive(0, "x".to_string())).unwrap();
    assert_eq!(zone.players()[0].send_batch(), vec![bytes.clone()]);
    zone.send_all(&vec![WriteOutcome::Written(1), WriteOutcome::Failed]);
    assert!(outbound(&zone, 0).is_empty());
    assert_eq!(zone.players()[0].send_batch(), vec![bytes[1..].to_vec()]);
    assert_eq!(outbound(&zone, 1).len(), 1);
    assert_eq!(zone.players()[1].tcp().error_count(), 1);
    // No outcome was given for the third; it is as it was.
    assert_eq!(outbound(&zone, 2).len(), 1);
    assert_eq!(zone.players()[2].tcp().error_count(), 0);
}

#[test]
fn malformed_packet_of_one_connection_leaves_the_others_alone() {
    let mut zone = zone_with(2);
    let chat = game_zone::proto::Category::TextMessage(game_zone::proto::TextMessageType::ChatSend);
    let report = zone.update(
        AcceptOutcome::Pending,
        vec![
            ReadOutcome::Frames(vec![
                serialize(&Packet::chat_send(0, "ok".to_string())).unwrap(),
                encode_envelope(chat, vec![0xff]).unwrap(),
            ]),
            quiet(),
        ],
    );
    assert_eq!(report.handled[0], ProcessReport { applied: 1, dropped: 1, unknown: 0 });
    assert_eq!(report.handled[1], ProcessReport { applied: 0, dropped: 0, unknown: 0 });
    assert_eq!(ids(&zone), vec![0, 1]);
    assert_eq!(outbound(&zone, 1), vec![Packet::chat_receive(0, "ok".to_string())]);
    assert_eq!(zone.players()[1].player().position(), point(0.0, 0.0, -10.0));
}
