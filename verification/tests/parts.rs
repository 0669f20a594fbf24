use game_zone::entity::enemy::Enemy;
use game_zone::entity::entity::{Entity, Point3};
use game_zone::entity::player::{Player, PLAYER_RADIUS};
use game_zone::game::client::cluster::Cluster;
use game_zone::game::client::command::{
    ChatBroadcastCommand,
    Command,
    CommandTrait,
    DisconnectForceCommand,
    LogoutRequestCommand,
};
use game_zone::game::tcp_client::TcpClient;
use game_zone::game::zone::{AcceptOutcome, Zone};
use game_zone::game::zone_request_chash::{ZonePlayerLogout, ZoneRequestChash};
use game_zone::proto::Packet;

fn live_zone(n: usize) -> Zone {
    let mut zone = Zone::new("z".to_string());
    for _ in 0..n {
        zone.accept_client(AcceptOutcome::Connected);
    }
    zone.add_client_accepted();
    zone
}

fn last_packet(zone: &Zone, index: usize) -> Packet {
    zone.players()[index].tcp().get_send_messages().last().unwrap().clone()
}

#[test]
fn player_has_radius_one_and_keeps_what_it_was_given() {
    let at = Point3::new(1.5f32.to_bits(), 0, (-2.0f32).to_bits());
    let mut p = Player::new(9, at);
    assert_eq!(PLAYER_RADIUS, 1.0f32.to_bits());
    assert_eq!(p.id(), 9);
    assert_eq!(p.position(), at);
    assert_eq!(f32::from_bits(p.radius()), 1.0);
    p.update();
    assert_eq!(p, Player::new(9, at));
    p.set_position(Point3::new(0, 0, 0));
    assert_eq!(p.position(), Point3 { x: 0, y: 0, z: 0 });
    assert_eq!(p.id(), 9);
}

#[test]
fn enemy_keeps_what_it_was_given() {
    let at = Point3::new(3.0f32.to_bits(), 4.0f32.to_bits(), 5.0f32.to_bits());
    let mut e = Enemy::new(2, at, 2.5f32.to_bits());
    assert_eq!(e.id(), 2);
    assert_eq!(e.position(), at);
    assert_eq!(f32::from_bits(e.radius()), 2.5);
    e.update();
    assert_eq!(e, Enemy::new(2, at, 2.5f32.to_bits()));
}

#[test]
fn commands_remember_what_they_were_made_with() {
    assert_eq!(LogoutRequestCommand::new(3).player_id(), 3);
    assert_eq!(DisconnectForceCommand::new(u64::MAX).player_id(), u64::MAX);
    let chat = ChatBroadcastCommand::new(5, "hey".to_string());
    assert_eq!(chat.from(), 5);
    assert_eq!(chat.text(), "hey");
}

#[test]
fn logout_command_stages_the_leave_and_answers() {
    let mut zone = live_zone(2);
    LogoutRequestCommand::new(0).execute(&mut zone);
    assert_eq!(last_packet(&zone, 0), Packet::logout_response(true));
    assert_eq!(last_packet(&zone, 1), Packet::logout_notification(0));
    assert!(zone.is_live(0));
    zone.remove_client_chashed();
    assert!(!zone.is_live(0));
}

#[test]
fn force_command_stages_the_leave_and_does_not_answer() {
    let mut zone = live_zone(2);
    DisconnectForceCommand::new(1).execute(&mut zone);
    assert_eq!(last_packet(&zone, 0), Packet::logout_notification(1));
    assert_eq!(last_packet(&zone, 1), Packet::login_result(1));
    zone.remove_client_chashed();
    assert!(!zone.is_live(1));
    assert!(zone.is_live(0));
}

#[test]
fn chat_command_reaches_everyone() {
    let mut zone = live_zone(2);
    Command::ChatBroadcast(ChatBroadcastCommand::new(1, "yo".to_string())).execute(&mut zone);
    assert_eq!(last_packet(&zone, 0), Packet::chat_receive(1, "yo".to_string()));
    assert_eq!(last_packet(&zone, 1), Packet::chat_receive(1, "yo".to_string()));
}

#[test]
fn command_enum_runs_the_command_it_holds() {
    let mut zone = live_zone(1);
    Command::Logout(LogoutRequestCommand::new(0)).execute(&mut zone);
    assert_eq!(last_packet(&zone, 0), Packet::logout_response(true));
    let mut zone = live_zone(2);
    Command::ForceDisconnect(DisconnectForceCommand::new(0)).execute(&mut zone);
    assert_eq!(last_packet(&zone, 1), Packet::logout_notification(0));
}

#[test]
fn request_cache_hands_out_in_order_and_forgets() {
    let mut cache = ZoneRequestChash::new();
    assert!(cache.login_chash.is_empty());
    assert!(cache.logout_chash.is_empty());
    cache.push_logout(4);
    cache.push_logout(2);
    cache.push_login(Cluster::new(Player::new(8, Point3::new(0, 0, 0)), TcpClient::new()));
    cache.push_login(Cluster::new(Player::new(9, Point3::new(0, 0, 0)), TcpClient::new()));
    let leaves = cache.get_logout_chash_take();
    assert_eq!(leaves, vec![ZonePlayerLogout { entity_id: 4 }, ZonePlayerLogout { entity_id: 2 }]);
    assert!(cache.logout_chash.is_empty());
    assert_eq!(cache.login_chash.len(), 2);
    let joins = cache.get_login_chash_take();
    let ids: Vec<u64> = joins.iter().map(|j| j.client_cluster.id()).collect();
    assert_eq!(ids, vec![8, 9]);
    assert!(cache.login_chash.is_empty());
}

#[test]
fn request_cache_clear_forgets_everything() {
    let mut cache = ZoneRequestChash::new();
    cache.push_logout(1);
    cache.push_login(Cluster::new(Player::new(1, Point3::new(0, 0, 0)), TcpClient::new()));
    cache.clear();
    assert!(cache.get_login_chash_take().is_empty());
    assert!(cache.get_logout_chash_take().is_empty());
}
