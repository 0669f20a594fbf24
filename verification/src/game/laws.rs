//! What holds of every zone, whatever the network does.
//!
//! The statements here are about the values of zones and connections, and
//! are proved from the definitions of the steps alone.

use crate::codec::{lemma_written_when_fits, packet_fits};
use crate::entity::entity::{Entity, Point3};
use crate::entity::player::{group_player, Player};
use crate::game::client::cluster::{count_fate, fate_of, ClusterView, Fate};
use crate::game::client::command::CommandView;
use crate::game::steps::{
    lemma_accepted_keeps_table,
    lemma_commands_run_keeps_table,
    lemma_filter_keeps_connections,
    lemma_flatten_part,
    lemma_joined_keeps_known,
    lemma_left_removes_leaves,
    lemma_phases_keep_table,
    lemma_stacked_for_keeps_table,
    lemma_walk_keeps_table,
    same_identities,
};
use crate::game::tcp_client::{
    encoded_of,
    ReadOutcomeView,
    TcpClientView,
    WriteOutcome,
    ERROR_LIMIT,
};
use crate::game::zone::{spawn_point, AcceptOutcome, Audience, ZoneView};
use crate::proto::{BodyView, Category, PacketView, SyncPacketType};
use vstd::prelude::*;

verus! {

broadcast use group_player;

/// Join visibility. A connection admitted in a tick waits through every
/// phase before the commit: the table that is read, decoded, simulated and
/// handed packets holds the same identities as before the tick, the new
/// one is not among them, and the new connection stays exactly as it was
/// made. The commit makes it live, welcomed and otherwise untouched, so it
/// is in the table when the next tick starts.
///
/// A leave that was staged for the identity before it was given out would
/// take the connection out again in the same commit; the statement leaves
/// that case out.
pub proof fn lemma_join_visibility(zone: ZoneView, reads: Seq<ReadOutcomeView>)
    requires
        zone.wf(),
        zone.admits(AcceptOutcome::Connected),
        !zone.leaves.contains(zone.next_id),
    ensures
        ({
            let id = zone.next_id;
            let fresh = ClusterView::fresh(Player::spec_new(id, spawn_point()));
            let staged = zone.accepted(AcceptOutcome::Connected);
            let walked = zone.walked(AcceptOutcome::Connected, reads);
            let after = zone.ticked(AcceptOutcome::Connected, reads);
            &&& !zone.is_live(id)
            &&& !staged.is_live(id)
            &&& !walked.is_live(id)
            &&& same_identities(walked.players, zone.players)
            &&& walked.joins == zone.joins.push(fresh)
            &&& after.is_live(id)
            &&& after.players.contains(fresh.welcomed())
        }),
{
    let id = zone.next_id;
    let fresh = ClusterView::fresh(Player::spec_new(id, spawn_point()));
    let walked = zone.walked(AcceptOutcome::Connected, reads);
    let joined = walked.joined();
    lemma_accepted_keeps_table(zone, AcceptOutcome::Connected);
    lemma_walk_keeps_table(zone, AcceptOutcome::Connected, reads);
    lemma_joined_keeps_known(walked);
    assert forall|i: int| 0 <= i < zone.players.len() implies (#[trigger] zone.players[i]).id()
        != id by {
        assert(zone.known()[i].id() < zone.next_id);
    }
    assert(!walked.leaves.contains(id));
    let last = walked.players.len() + walked.joins.len() - 1;
    assert(joined.players[last] == fresh.welcomed());
    assert(fresh.welcomed().id() == id);
    let stays = |c: ClusterView| !joined.leaves.contains(c.id());
    lemma_filter_keeps_connections(joined.players, stays);
    assert(stays(joined.players[last]));
    lemma_left_removes_leaves(joined, id);
    assert(joined.is_live(id));
}

/// Whether `id` was given out and is neither live nor waiting to join.
pub open spec fn gone(zone: ZoneView, id: u64) -> bool {
    &&& id < zone.next_id
    &&& !zone.is_live(id)
    &&& !zone.is_pending(id)
}

/// Leave atomicity, within the tick. A connection that is to leave when
/// the command phase is over, because a command of this tick or an earlier
/// request staged it, was in the table through all the phases that walk
/// it, if it was live when the tick began. After the commit it is neither
/// live nor waiting to join.
pub proof fn lemma_leave_atomicity(
    zone: ZoneView,
    accept: AcceptOutcome,
    reads: Seq<ReadOutcomeView>,
    id: u64,
)
    requires
        zone.wf(),
        zone.walked(accept, reads).leaves.contains(id),
    ensures
        ({
            let walked = zone.walked(accept, reads);
            let after = zone.ticked(accept, reads);
            &&& same_identities(walked.players, zone.players)
            &&& zone.is_live(id) ==> walked.is_live(id)
            &&& !after.is_live(id)
            &&& !after.is_pending(id)
            &&& zone.is_live(id) ==> gone(after, id)
        }),
{
    let walked = zone.walked(accept, reads);
    lemma_walk_keeps_table(zone, accept, reads);
    lemma_joined_keeps_known(walked);
    lemma_left_removes_leaves(walked.joined(), id);
    if zone.is_live(id) {
        let i = choose|i: int| 0 <= i < zone.players.len() && (#[trigger] zone.players[i]).id() == id;
        assert(walked.players[i].id() == id);
        assert(zone.known()[i].id() < zone.next_id);
    }
}

/// Leave atomicity, from the next tick on. An identity that was given out
/// and is neither live nor waiting to join is never live again: no tick
/// and no send phase brings it back, so nothing is ever sent to it.
pub proof fn lemma_gone_stays_gone(
    zone: ZoneView,
    accept: AcceptOutcome,
    reads: Seq<ReadOutcomeView>,
    writes: Seq<WriteOutcome>,
    id: u64,
)
    requires
        zone.wf(),
        gone(zone, id),
    ensures
        gone(zone.ticked(accept, reads), id),
        gone(zone.sent_all(writes), id),
        gone(zone.ticked(accept, reads).sent_all(writes), id),
{
    let walked = zone.walked(accept, reads);
    let joined = walked.joined();
    let after = joined.left();
    lemma_accepted_keeps_table(zone, accept);
    lemma_walk_keeps_table(zone, accept, reads);
    lemma_joined_keeps_known(walked);
    lemma_left_removes_leaves(joined, id);
    lemma_phases_keep_table(zone, reads, writes);
    lemma_phases_keep_table(after, reads, writes);
    assert(!joined.is_live(id)) by {
        if joined.is_live(id) {
            let k = choose|k: int|
                0 <= k < joined.players.len() && (#[trigger] joined.players[k]).id() == id;
            if k < walked.players.len() {
                assert(zone.players[k].id() == id);
            } else {
                let j = k - walked.players.len();
                assert(joined.players[walked.players.len() + j] == walked.joins[j].welcomed());
                if j < zone.joins.len() {
                    assert(zone.joins[j].id() == id);
                }
            }
        }
    }
    assert(!zone.sent_all(writes).is_live(id)) by {
        if zone.sent_all(writes).is_live(id) {
            let k = choose|k: int|
                0 <= k < zone.players.len() && (#[trigger] zone.sent_all(writes).players[k]).id()
                    == id;
            assert(zone.players[k].id() == id);
        }
    }
    assert(!after.sent_all(writes).is_live(id)) by {
        if after.sent_all(writes).is_live(id) {
            let k = choose|k: int|
                0 <= k < after.players.len() && (#[trigger] after.sent_all(writes).players[k]).id()
                    == id;
            assert(after.players[k].id() == id);
        }
    }
}

/// A connection that is to leave is still handed what is said in the zone:
/// a chat line reaches every connection of the table, those that are to
/// leave as well.
pub proof fn lemma_leaving_is_still_served(zone: ZoneView, from: u64, text: Seq<char>, i: int)
    requires
        0 <= i < zone.players.len(),
    ensures
        zone.chat_broadcast(from, text).players[i].tcp.send_messages
            == zone.players[i].tcp.send_messages.push(PacketView::chat_receive(from, text)),
        zone.chat_broadcast(from, text).leaves == zone.leaves,
{
}

/// The transport after each of `writes` in turn.
pub open spec fn flushed_each(tcp: TcpClientView, writes: Seq<WriteOutcome>) -> TcpClientView
    decreases writes.len(),
{
    if writes.len() == 0 {
        tcp
    } else {
        flushed_each(tcp, writes.drop_last()).sent(writes.last())
    }
}

/// Whether every one of `writes` failed with an error that counts.
pub open spec fn all_failed(writes: Seq<WriteOutcome>) -> bool {
    forall|i: int| 0 <= i < writes.len() ==> (#[trigger] writes[i]) == WriteOutcome::Failed
}

/// A write that fails, and a write of zero bytes, leave the outbound
/// queue and the unsent bytes as they are, in the same order, for the next
/// flush. A failure that counts adds one to the failure count, up to the
/// largest count the counter can hold; a write of zero bytes leaves the
/// count alone.
pub proof fn lemma_failure_keeps_queue(tcp: TcpClientView)
    ensures
        tcp.sent(WriteOutcome::Failed).send_messages == tcp.send_messages,
        tcp.sent(WriteOutcome::Failed).unsent == tcp.unsent,
        tcp.sent(WriteOutcome::Failed).batch() == tcp.batch(),
        tcp.batch().len() > 0 && tcp.error_counter < u32::MAX ==> tcp.sent(
            WriteOutcome::Failed,
        ).error_counter == tcp.error_counter + 1,
        tcp.sent(WriteOutcome::WriteZero) == tcp,
{
}

/// A transport has something to write wherever one of its queued packets
/// has a known category and a body that is not malformed. Every packet
/// that the zone makes itself is such a packet.
pub proof fn lemma_fitting_packet_gives_batch(tcp: TcpClientView, i: int)
    requires
        0 <= i < tcp.send_messages.len(),
        packet_fits(tcp.send_messages[i]),
    ensures
        tcp.batch().len() > 0,
{
    let pick = |e: Option<Seq<u8>>| e;
    let encoded = encoded_of(tcp.send_messages);
    lemma_written_when_fits(tcp.send_messages[i]);
    assert(encoded[i] is Some);
    lemma_filter_map_grows(encoded, i);
}

/// A failed write with a packet to write. Where the queue holds a packet
/// of known category whose body is not malformed, a write that fails with
/// an error that counts adds exactly one to the failure count and leaves
/// the queue as it is, in the same order, for the next flush; a write of
/// zero bytes changes nothing.
pub proof fn lemma_failed_write_counts_once(tcp: TcpClientView, i: int)
    requires
        0 <= i < tcp.send_messages.len(),
        packet_fits(tcp.send_messages[i]),
        tcp.error_counter < u32::MAX,
    ensures
        tcp.sent(WriteOutcome::Failed).error_counter == tcp.error_counter + 1,
        tcp.sent(WriteOutcome::Failed).send_messages == tcp.send_messages,
        tcp.sent(WriteOutcome::WriteZero).error_counter == tcp.error_counter,
        tcp.sent(WriteOutcome::WriteZero).send_messages == tcp.send_messages,
{
    lemma_fitting_packet_gives_batch(tcp, i);
}

/// What is picked out of a sequence is not empty where one of its entries
/// is there to pick.
proof fn lemma_filter_map_grows(encoded: Seq<Option<Seq<u8>>>, i: int)
    requires
        0 <= i < encoded.len(),
        encoded[i] is Some,
    ensures
        encoded.filter_map(|e: Option<Seq<u8>>| e).len() > 0,
    decreases encoded.len(),
{
    if i < encoded.len() - 1 {
        lemma_filter_map_grows(encoded.drop_last(), i);
    }
}

/// Failed writes count one by one, up to the largest count the counter can
/// hold, and leave the queue and what is offered to the socket as they
/// are.
pub proof fn lemma_failures_count(tcp: TcpClientView, writes: Seq<WriteOutcome>)
    requires
        all_failed(writes),
        tcp.batch().len() > 0,
    ensures
        flushed_each(tcp, writes).send_messages == tcp.send_messages,
        flushed_each(tcp, writes).batch() == tcp.batch(),
        flushed_each(tcp, writes).error_counter == if tcp.error_counter + writes.len()
            <= u32::MAX {
            tcp.error_counter + writes.len()
        } else {
            u32::MAX as int
        },
    decreases writes.len(),
{
    if writes.len() > 0 {
        let rest = writes.drop_last();
        assert forall|i: int| 0 <= i < rest.len() implies (#[trigger] rest[i])
            == WriteOutcome::Failed by {
            assert(writes[i] == rest[i]);
        }
        lemma_failures_count(tcp, rest);
        assert(writes[writes.len() - 1] == WriteOutcome::Failed);
        lemma_failure_keeps_queue(flushed_each(tcp, rest));
    }
}

/// The failure count and the threshold. After any number of failed writes
/// in a row, one write that the socket takes brings the count back to
/// zero. Counting from zero, the transport is given up after the 101st
/// failure in a row and not before.
pub proof fn lemma_error_counter(tcp: TcpClientView, failures: Seq<WriteOutcome>, accepted: usize)
    requires
        all_failed(failures),
        tcp.batch().len() > 0,
    ensures
        flushed_each(tcp, failures).sent(WriteOutcome::Written(accepted)).error_counter == 0,
        !flushed_each(tcp, failures).sent(WriteOutcome::Written(accepted)).unhealthy(),
        tcp.error_counter == 0 ==> (flushed_each(tcp, failures).unhealthy() <==> failures.len()
            > ERROR_LIMIT),
        tcp.error_counter == 0 && failures.len() == 100 ==> !flushed_each(tcp, failures).unhealthy(),
        tcp.error_counter == 0 && failures.len() == 101 ==> flushed_each(tcp, failures).unhealthy(),
{
    lemma_failures_count(tcp, failures);
}

/// A write of zero bytes and a flush with nothing to write leave the
/// failure count as it is.
pub proof fn lemma_no_write_no_count(tcp: TcpClientView, outcome: WriteOutcome)
    ensures
        tcp.sent(WriteOutcome::WriteZero).error_counter == tcp.error_counter,
        tcp.batch().len() == 0 ==> tcp.sent(outcome).error_counter == tcp.error_counter,
{
}

/// The fates count every packet once.
pub proof fn lemma_fates_partition(packets: Seq<PacketView>)
    ensures
        count_fate(packets, Fate::Applied) + count_fate(packets, Fate::Dropped) + count_fate(
            packets,
            Fate::Unknown,
        ) == packets.len(),
    decreases packets.len(),
{
    if packets.len() > 0 {
        lemma_fates_partition(packets.drop_last());
    }
}

/// Decode isolation, within a connection. A packet that is dropped or
/// passed over changes nothing: handling a batch comes to the same as
/// handling only its packets that apply, in the same order. So a good
/// packet followed by a bad one has the effect of the good one alone.
pub proof fn lemma_decode_isolation(c: ClusterView, packets: Seq<PacketView>)
    ensures
        c.handled_all(packets) == c.handled_all(
            packets.filter(|p: PacketView| fate_of(p) == Fate::Applied),
        ),
        packets.filter(|p: PacketView| fate_of(p) == Fate::Applied).len() == count_fate(
            packets,
            Fate::Applied,
        ),
    decreases packets.len(),
{
    reveal(Seq::filter);
    let applies = |p: PacketView| fate_of(p) == Fate::Applied;
    if packets.len() > 0 {
        let rest = packets.drop_last();
        lemma_decode_isolation(c, rest);
        if applies(packets.last()) {
            assert(packets.filter(applies).drop_last() =~= rest.filter(applies));
        } else {
            assert(c.handled_all(rest).handled(packets.last()) == c.handled_all(rest));
        }
    }
}

/// A packet that does not apply has no effect at all.
pub proof fn lemma_bad_packet_changes_nothing(c: ClusterView, packet: PacketView)
    requires
        fate_of(packet) != Fate::Applied,
    ensures
        c.handled(packet) == c,
{
}

/// Decode isolation, between connections. What the decode phase makes of
/// a connection depends on that connection alone: two zones that hold the
/// same connection at a place hold the same connection there afterwards,
/// whatever came in for the others.
pub proof fn lemma_decode_is_local(a: ZoneView, b: ZoneView, i: int)
    requires
        0 <= i < a.players.len(),
        0 <= i < b.players.len(),
        a.players[i] == b.players[i],
    ensures
        a.processed_all().players[i] == b.processed_all().players[i],
        a.processed_all().players[i] == a.players[i].processed(),
{
}

/// Where the last transform of `packets` that applies puts a player that
/// stood at `start`.
pub open spec fn synced_position(packets: Seq<PacketView>, start: Point3) -> Point3
    decreases packets.len(),
{
    if packets.len() == 0 {
        start
    } else {
        match (packets.last().category, packets.last().body) {
            (
                Category::Sync(SyncPacketType::Transform),
                BodyView::TransformSync { position, .. },
            ) => position,
            _ => synced_position(packets.drop_last(), start),
        }
    }
}

/// A player is moved by its own transforms and by nothing else. Handling
/// a batch puts the player where the last transform of the batch says and
/// leaves its identity and its radius alone.
pub proof fn lemma_position_follows_sync(c: ClusterView, packets: Seq<PacketView>)
    ensures
        c.handled_all(packets).player.entity_position() == synced_position(
            packets,
            c.player.entity_position(),
        ),
        c.handled_all(packets).player.entity_id() == c.player.entity_id(),
        c.handled_all(packets).player.entity_radius() == c.player.entity_radius(),
    decreases packets.len(),
{
    if packets.len() > 0 {
        lemma_position_follows_sync(c, packets.drop_last());
    }
}

/// No phase but the decode phase moves a player: accepting, receiving,
/// simulating, running commands and sending leave every live player as it
/// is.
pub proof fn lemma_only_decode_moves_players(
    zone: ZoneView,
    accept: AcceptOutcome,
    reads: Seq<ReadOutcomeView>,
    writes: Seq<WriteOutcome>,
    i: int,
)
    requires
        0 <= i < zone.players.len(),
    ensures
        zone.accepted(accept).players[i].player == zone.players[i].player,
        zone.received_all(reads).players[i].player == zone.players[i].player,
        zone.advanced_all().players[i].player == zone.players[i].player,
        zone.commands_run().players[i].player == zone.players[i].player,
        zone.sent_all(writes).players[i].player == zone.players[i].player,
        zone.processed_all().players[i].player.entity_position() == synced_position(
            zone.players[i].tcp.recv_messages,
            zone.players[i].player.entity_position(),
        ),
{
    lemma_commands_run_keeps_table(zone);
    lemma_position_follows_sync(
        ClusterView { tcp: zone.players[i].tcp.drained(), ..zone.players[i] },
        zone.players[i].tcp.recv_messages,
    );
    if zone.admits(accept) {
        let staged = ZoneView {
            joins: zone.joins.push(
                ClusterView::fresh(Player::spec_new(zone.next_id, spawn_point())),
            ),
            next_id: (zone.next_id + 1) as u64,
            ..zone
        };
        lemma_stacked_for_keeps_table(
            staged,
            Audience::Everyone,
            PacketView::login_notification(
                zone.next_id,
                crate::game::zone::player_name(zone.next_id),
            ),
        );
    }
}

/// Carrying out one sequence of commands and then another is carrying out
/// the two in a row: commands are carried out first to last.
pub proof fn lemma_executed_all_in_order(
    zone: ZoneView,
    first: Seq<CommandView>,
    then: Seq<CommandView>,
)
    ensures
        zone.executed_all(first + then) == zone.executed_all(first).executed_all(then),
    decreases then.len(),
{
    if then.len() == 0 {
        assert(first + then =~= first);
    } else {
        lemma_executed_all_in_order(zone, first, then.drop_last());
        assert((first + then).drop_last() =~= first + then.drop_last());
    }
}

/// Command ordering. The commands of one connection are carried out in
/// the order the connection deferred them, one right after the other:
/// in the sequence that the command phase carries out they stand unbroken,
/// behind all commands of the connections before it in the table and
/// before all commands of the connections behind it.
pub proof fn lemma_command_order(zone: ZoneView, i: int)
    requires
        0 <= i < zone.players.len(),
    ensures
        ({
            let before = ZoneView { players: zone.players.take(i), ..zone }.pending_commands();
            let behind = ZoneView { players: zone.players.skip(i + 1), ..zone }.pending_commands();
            let own = zone.players[i].commands;
            &&& zone.pending_commands() == before + own + behind
            &&& forall|k: int|
                0 <= k < own.len() ==> zone.pending_commands()[before.len() + k] == own[k]
            &&& zone.commands_run() == zone.commands_taken().executed_all(before).executed_all(
                own,
            ).executed_all(behind)
        }),
{
    let buffers = zone.players.map_values(|c: ClusterView| c.commands);
    let before = ZoneView { players: zone.players.take(i), ..zone }.pending_commands();
    let behind = ZoneView { players: zone.players.skip(i + 1), ..zone }.pending_commands();
    let own = zone.players[i].commands;
    lemma_flatten_part(buffers, i);
    assert(buffers.take(i) =~= zone.players.take(i).map_values(|c: ClusterView| c.commands));
    assert(buffers.skip(i + 1) =~= zone.players.skip(i + 1).map_values(
        |c: ClusterView| c.commands,
    ));
    assert(zone.pending_commands() == before + own + behind);
    lemma_executed_all_in_order(zone.commands_taken(), before + own, behind);
    lemma_executed_all_in_order(zone.commands_taken(), before, own);
}

/// Two chat lines carried out one after the other reach every live
/// connection in that order, the second right behind the first.
pub proof fn lemma_chat_lines_arrive_in_order(
    zone: ZoneView,
    from: u64,
    first: Seq<char>,
    second: Seq<char>,
    i: int,
)
    requires
        0 <= i < zone.players.len(),
    ensures
        zone.executed_all(
            seq![
                CommandView::ChatBroadcast { from, text: first },
                CommandView::ChatBroadcast { from, text: second },
            ],
        ).players[i].tcp.send_messages == zone.players[i].tcp.send_messages.push(
            PacketView::chat_receive(from, first),
        ).push(PacketView::chat_receive(from, second)),
{
    let one = CommandView::ChatBroadcast { from, text: first };
    let two = CommandView::ChatBroadcast { from, text: second };
    let both = seq![one, two];
    assert(both.drop_last() =~= seq![one]);
    assert(seq![one].drop_last() =~= Seq::<CommandView>::empty());
    assert(zone.executed_all(Seq::<CommandView>::empty()) == zone);
    assert(zone.executed_all(seq![one]) == zone.executed(one));
    assert(zone.executed_all(both) == zone.executed(one).executed(two));
}

/// Whether a tick starts from rest: nobody connects, nothing is staged,
/// and no live connection has deferred a command.
pub open spec fn at_rest(zone: ZoneView, accept: AcceptOutcome) -> bool {
    &&& !zone.admits(accept)
    &&& zone.joins.len() == 0
    &&& zone.leaves.len() == 0
    &&& forall|i: int| 0 <= i < zone.players.len() ==> (#[trigger] zone.players[i]).commands.len() == 0
}

/// Whether the transport of a connection is healthy and open.
pub open spec fn sound(c: ClusterView) -> bool {
    !c.tcp.unhealthy() && !c.tcp.disconnected
}

/// Where nothing is to leave, the commit keeps the whole table.
proof fn lemma_nobody_leaves(zone: ZoneView)
    requires
        zone.leaves.len() == 0,
    ensures
        zone.left().players == zone.players,
    decreases zone.players.len(),
{
    reveal(Seq::filter);
    if zone.players.len() > 0 {
        let rest = ZoneView { players: zone.players.drop_last(), ..zone };
        lemma_nobody_leaves(rest);
        assert(zone.left().players =~= rest.left().players.push(zone.players.last()));
        assert(zone.left().players =~= zone.players);
    } else {
        assert(zone.left().players =~= zone.players);
    }
}

/// Two connections, one of which reports where it is. In a tick that
/// starts from rest with two sound connections, where nothing came in for
/// the first and one transform for the second, the second player stands
/// where the transform says, the first player is as it was, and the table
/// holds the same two connections.
pub proof fn lemma_sync_moves_the_sender_alone(
    zone: ZoneView,
    accept: AcceptOutcome,
    reads: Seq<ReadOutcomeView>,
    position: Point3,
    rotation: Point3,
)
    requires
        zone.wf(),
        zone.players.len() == 2,
        at_rest(zone, accept),
        sound(zone.received_all(reads).players[0]),
        sound(zone.received_all(reads).players[1]),
        zone.received_all(reads).players[0].tcp.recv_messages == Seq::<PacketView>::empty(),
        zone.received_all(reads).players[1].tcp.recv_messages == seq![
            PacketView::transform_sync(position, rotation),
        ],
    ensures
        ({
            let after = zone.ticked(accept, reads);
            &&& after.players.len() == 2
            &&& after.players[0].id() == zone.players[0].id()
            &&& after.players[1].id() == zone.players[1].id()
            &&& after.players[1].player.entity_position() == position
            &&& after.players[0].player == zone.players[0].player
            &&& after.joins.len() == 0
            &&& after.leaves.len() == 0
        }),
{
    let received = zone.received_all(reads);
    let decoded = received.processed_all();
    let simulated = decoded.advanced_all();
    let walked = simulated.commands_run();
    let sync = PacketView::transform_sync(position, rotation);
    assert(zone.accepted(accept) == zone);
    assert(zone.players[0].commands.len() == 0 && zone.players[1].commands.len() == 0);
    // Decode: the first connection handles nothing, the second its transform.
    let quiet = ClusterView { tcp: received.players[0].tcp.drained(), ..received.players[0] };
    let moved = ClusterView { tcp: received.players[1].tcp.drained(), ..received.players[1] };
    assert(seq![sync].drop_last() =~= Seq::<PacketView>::empty());
    assert(moved.handled_all(seq![sync]) == moved.handled_all(Seq::empty()).handled(sync));
    assert(decoded.players[0] == quiet);
    assert(decoded.players[1] == moved.handled(sync));
    // Simulate: both transports are sound, so nothing is deferred.
    assert(simulated.players[0].commands =~= Seq::<CommandView>::empty());
    assert(simulated.players[1].commands =~= Seq::<CommandView>::empty());
    // Commands: there are none.
    let buffers = simulated.players.map_values(|c: ClusterView| c.commands);
    assert(buffers =~= seq![Seq::<CommandView>::empty(), Seq::<CommandView>::empty()]);
    lemma_flatten_part(buffers, 0);
    assert(buffers.take(0) =~= Seq::<Seq<CommandView>>::empty());
    assert(buffers.skip(1) =~= seq![Seq::<CommandView>::empty()]);
    buffers.skip(1).lemma_flatten_singleton();
    assert(simulated.pending_commands() =~= Seq::<CommandView>::empty());
    assert(walked == simulated.commands_taken());
    // Commit: nobody joins and nobody leaves.
    assert(walked.joined().players =~= walked.players);
    lemma_nobody_leaves(walked.joined());
}

/// Two connections, one of which asks to leave. In a tick that starts
/// from rest with two sound connections, where one request to leave came
/// in for the first and nothing for the second, the first is told that it
/// succeeded and the second that the first leaves, before the commit takes
/// the first out of the table. After the tick the table holds the second
/// alone, and what waits to be written to it is that one notification
/// behind what waited before.
pub proof fn lemma_logout_takes_the_sender_out(
    zone: ZoneView,
    accept: AcceptOutcome,
    reads: Seq<ReadOutcomeView>,
)
    requires
        zone.wf(),
        zone.players.len() == 2,
        at_rest(zone, accept),
        sound(zone.received_all(reads).players[0]),
        sound(zone.received_all(reads).players[1]),
        zone.received_all(reads).players[0].tcp.recv_messages == seq![PacketView::logout_request()],
        zone.received_all(reads).players[1].tcp.recv_messages == Seq::<PacketView>::empty(),
    ensures
        ({
            let leaver = zone.players[0].id();
            let walked = zone.walked(accept, reads);
            let after = zone.ticked(accept, reads);
            &&& walked.players.len() == 2
            &&& walked.players[0].tcp.send_messages == zone.players[0].tcp.send_messages.push(
                PacketView::logout_response(true),
            )
            &&& walked.players[1].tcp.send_messages == zone.players[1].tcp.send_messages.push(
                PacketView::logout_notification(leaver),
            )
            &&& after.players.len() == 1
            &&& after.players[0].id() == zone.players[1].id()
            &&& after.players[0].player == zone.players[1].player
            &&& after.players[0].tcp.send_messages == zone.players[1].tcp.send_messages.push(
                PacketView::logout_notification(leaver),
            )
            &&& !after.is_live(leaver)
            &&& gone(after, leaver)
        }),
{
    let leaver = zone.players[0].id();
    let other = zone.players[1].id();
    let received = zone.received_all(reads);
    let decoded = received.processed_all();
    let simulated = decoded.advanced_all();
    let walked = simulated.commands_run();
    let request = PacketView::logout_request();
    let logout = CommandView::Logout { player_id: leaver };
    assert(zone.accepted(accept) == zone);
    assert(zone.known()[0].id() != zone.known()[1].id());
    assert(zone.known()[0].id() < zone.next_id);
    assert(zone.players[0].commands.len() == 0 && zone.players[1].commands.len() == 0);
    // Decode: the first connection defers its logout.
    let asking = ClusterView { tcp: received.players[0].tcp.drained(), ..received.players[0] };
    assert(seq![request].drop_last() =~= Seq::<PacketView>::empty());
    assert(asking.handled_all(seq![request]) == asking.handled_all(Seq::empty()).handled(request));
    assert(decoded.players[0].commands =~= seq![logout]);
    assert(decoded.players[1].commands =~= Seq::<CommandView>::empty());
    // Simulate: both transports are sound, so nothing more is deferred.
    assert(simulated.players[0].commands =~= seq![logout]);
    assert(simulated.players[1].commands =~= Seq::<CommandView>::empty());
    // Commands: the one logout.
    let buffers = simulated.players.map_values(|c: ClusterView| c.commands);
    assert(buffers =~= seq![seq![logout], Seq::<CommandView>::empty()]);
    lemma_flatten_part(buffers, 0);
    assert(buffers.take(0) =~= Seq::<Seq<CommandView>>::empty());
    assert(buffers.skip(1) =~= seq![Seq::<CommandView>::empty()]);
    buffers.skip(1).lemma_flatten_singleton();
    assert(simulated.pending_commands() =~= seq![logout]);
    let taken = simulated.commands_taken();
    assert(seq![logout].drop_last() =~= Seq::<CommandView>::empty());
    assert(taken.executed_all(seq![logout]) == taken.executed_all(Seq::empty()).executed(logout));
    assert(walked == taken.logout_requested(leaver));
    assert(walked.leaves =~= seq![leaver]);
    assert(walked.players[0].id() == leaver && walked.players[1].id() == other);
    // Commit: nobody joins, the first connection leaves.
    let joined = walked.joined();
    assert(joined.players =~= walked.players);
    let stays = |c: ClusterView| !joined.leaves.contains(c.id());
    assert(joined.leaves[0] == leaver);
    assert(!stays(joined.players[0]));
    assert(stays(joined.players[1]));
    reveal_with_fuel(Seq::filter, 3);
    assert(joined.players.drop_last() =~= seq![joined.players[0]]);
    assert(joined.players.drop_last().drop_last() =~= Seq::<ClusterView>::empty());
    assert(joined.left().players =~= seq![joined.players[1]]);
    lemma_left_removes_leaves(joined, leaver);
}

} // verus!
