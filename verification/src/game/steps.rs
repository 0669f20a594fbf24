//! What each step of a tick keeps as it is.
//!
//! The steps of a tick change little: most of them leave the table of
//! live connections with the same identities at the same places, and all
//! of them keep the zone well formed. The statements here say so step by
//! step, over the values of zones and connections.

use crate::entity::entity::Entity;
use crate::entity::player::{group_player, Player};
use crate::game::client::cluster::ClusterView;
use crate::game::client::command::CommandView;
use crate::game::tcp_client::{ReadOutcomeView, WriteOutcome};
use crate::game::zone::{spawn_point, AcceptOutcome, Audience, ZoneView};
use crate::proto::PacketView;
use vstd::prelude::*;

verus! {

broadcast use group_player;

/// An empty zone is well formed.
pub proof fn lemma_fresh_is_wf(name: Seq<char>)
    ensures
        ZoneView::fresh(name).wf(),
{
}

/// Whether two tables hold the same identities at the same places.
pub open spec fn same_identities(a: Seq<ClusterView>, b: Seq<ClusterView>) -> bool {
    &&& a.len() == b.len()
    &&& forall|i: int| 0 <= i < a.len() ==> (#[trigger] a[i]).id() == b[i].id()
}

/// Handling a packet changes neither the identity of a connection nor its
/// transport, and what it defers is about the connection's own player.
pub proof fn lemma_handled_keeps_connection(c: ClusterView, packet: PacketView)
    ensures
        c.handled(packet).id() == c.id(),
        c.handled(packet).tcp == c.tcp,
        c.wf() ==> c.handled(packet).wf(),
{
}

/// Handling a batch changes neither the identity of a connection nor its
/// transport, and what it defers is about the connection's own player.
pub proof fn lemma_handled_all_keeps_connection(c: ClusterView, packets: Seq<PacketView>)
    ensures
        c.handled_all(packets).id() == c.id(),
        c.handled_all(packets).tcp == c.tcp,
        c.wf() ==> c.handled_all(packets).wf(),
    decreases packets.len(),
{
    if packets.len() > 0 {
        lemma_handled_all_keeps_connection(c, packets.drop_last());
        lemma_handled_keeps_connection(c.handled_all(packets.drop_last()), packets.last());
    }
}

/// The decode phase and the simulation phase keep a connection's identity.
pub proof fn lemma_steps_keep_connection(c: ClusterView)
    ensures
        c.processed().id() == c.id(),
        c.wf() ==> c.processed().wf(),
        c.advanced().id() == c.id(),
        c.wf() ==> c.advanced().wf(),
{
    lemma_handled_all_keeps_connection(
        ClusterView { tcp: c.tcp.drained(), ..c },
        c.tcp.recv_messages,
    );
}

/// Handing out a packet changes nothing but outbound queues: the table
/// holds the same identities, players and deferred commands, and nothing
/// is staged or given out.
pub proof fn lemma_stacked_for_keeps_table(zone: ZoneView, audience: Audience, packet: PacketView)
    ensures
        same_identities(zone.stacked_for(audience, packet).players, zone.players),
        zone.stacked_for(audience, packet).joins == zone.joins,
        zone.stacked_for(audience, packet).leaves == zone.leaves,
        zone.stacked_for(audience, packet).next_id == zone.next_id,
        forall|i: int|
            0 <= i < zone.players.len() ==> {
                let after = #[trigger] zone.stacked_for(audience, packet).players[i];
                &&& after.player == zone.players[i].player
                &&& after.commands == zone.players[i].commands
            },
        zone.wf() ==> zone.stacked_for(audience, packet).wf(),
{
    let after = zone.stacked_for(audience, packet);
    if zone.wf() {
        assert forall|i: int| 0 <= i < after.known().len() implies (#[trigger] after.known()[i]).id()
            == zone.known()[i].id() && after.known()[i].wf() by {
            assert(zone.known()[i].wf());
        }
        assert forall|i: int, j: int| 0 <= i < j < after.known().len() implies (
        #[trigger] after.known()[i]).id() != (#[trigger] after.known()[j]).id() by {
            assert(zone.known()[i].id() != zone.known()[j].id());
        }
        assert forall|i: int| 0 <= i < after.known().len() implies (#[trigger] after.known()[i]).id()
            < after.next_id by {
            assert(zone.known()[i].id() < zone.next_id);
        }
    }
}

/// A step that keeps who is live and who waits to join, keeps every
/// connection's commands about its own player, and takes no identity back,
/// keeps the zone well formed.
pub proof fn lemma_wf_from_table(before: ZoneView, after: ZoneView)
    requires
        before.wf(),
        same_identities(after.players, before.players),
        forall|i: int| 0 <= i < after.players.len() ==> (#[trigger] after.players[i]).wf(),
        after.joins == before.joins,
        after.next_id >= before.next_id,
    ensures
        after.wf(),
{
    assert forall|i: int| 0 <= i < after.known().len() implies (#[trigger] after.known()[i]).id()
        == before.known()[i].id() && after.known()[i].wf() by {
        assert(before.known()[i].wf());
        if i < after.players.len() {
            assert(after.players[i].wf());
        }
    }
    assert forall|i: int, j: int| 0 <= i < j < after.known().len() implies (
    #[trigger] after.known()[i]).id() != (#[trigger] after.known()[j]).id() by {
        assert(before.known()[i].id() != before.known()[j].id());
    }
    assert forall|i: int| 0 <= i < after.known().len() implies (#[trigger] after.known()[i]).id()
        < after.next_id by {
        assert(before.known()[i].id() < before.next_id);
    }
}

/// Carrying out a command changes nothing but outbound queues and the
/// staged leaves: who is live, who waits to join, and the counter stay.
/// A logout and a forced disconnect stage one leave, that of their
/// subject; a chat line stages none.
pub proof fn lemma_executed_keeps_table(zone: ZoneView, command: CommandView)
    ensures
        same_identities(zone.executed(command).players, zone.players),
        zone.executed(command).joins == zone.joins,
        zone.executed(command).next_id == zone.next_id,
        zone.executed(command).leaves == if command is ChatBroadcast {
            zone.leaves
        } else {
            zone.leaves.push(command.subject())
        },
        forall|i: int|
            0 <= i < zone.players.len() ==> {
                let after = #[trigger] zone.executed(command).players[i];
                &&& after.player == zone.players[i].player
                &&& after.commands == zone.players[i].commands
            },
        zone.wf() ==> zone.executed(command).wf(),
{
    match command {
        CommandView::Logout { player_id } => {
            let staged = zone.leave_staged(player_id);
            let told = staged.stacked_for(Audience::Only(player_id), PacketView::logout_response(true));
            if zone.wf() {
                assert forall|i: int| 0 <= i < staged.players.len() implies (
                #[trigger] staged.players[i]).wf() by {
                    assert(zone.known()[i].wf());
                }
                lemma_wf_from_table(zone, staged);
            }
            lemma_stacked_for_keeps_table(
                staged,
                Audience::Only(player_id),
                PacketView::logout_response(true),
            );
            lemma_stacked_for_keeps_table(
                told,
                Audience::Except(player_id),
                PacketView::logout_notification(player_id),
            );
        },
        CommandView::ForceDisconnect { player_id } => {
            let staged = zone.leave_staged(player_id);
            if zone.wf() {
                assert forall|i: int| 0 <= i < staged.players.len() implies (
                #[trigger] staged.players[i]).wf() by {
                    assert(zone.known()[i].wf());
                }
                lemma_wf_from_table(zone, staged);
            }
            lemma_stacked_for_keeps_table(
                staged,
                Audience::Except(player_id),
                PacketView::logout_notification(player_id),
            );
        },
        CommandView::ChatBroadcast { from, text } => {
            lemma_stacked_for_keeps_table(
                zone,
                Audience::Everyone,
                PacketView::chat_receive(from, text),
            );
        },
    }
}

/// The identities that `commands` stage as leaving, in order.
pub open spec fn staged_by(commands: Seq<CommandView>) -> Seq<u64>
    decreases commands.len(),
{
    if commands.len() == 0 {
        Seq::empty()
    } else if commands.last() is ChatBroadcast {
        staged_by(commands.drop_last())
    } else {
        staged_by(commands.drop_last()).push(commands.last().subject())
    }
}

/// An identity that `commands` stage as leaving is the subject of one of
/// them.
pub proof fn lemma_staged_by_subjects(commands: Seq<CommandView>, id: u64)
    requires
        staged_by(commands).contains(id),
    ensures
        exists|k: int| 0 <= k < commands.len() && (#[trigger] commands[k]).subject() == id,
    decreases commands.len(),
{
    if commands.len() > 0 {
        let rest = commands.drop_last();
        if commands.last() is ChatBroadcast {
            lemma_staged_by_subjects(rest, id);
            let k = choose|k: int| 0 <= k < rest.len() && (#[trigger] rest[k]).subject() == id;
            assert(commands[k].subject() == id);
        } else {
            let staged = staged_by(rest);
            let at = choose|at: int|
                0 <= at < staged_by(commands).len() && staged_by(commands)[at] == id;
            if at < staged.len() {
                assert(staged[at] == id);
                lemma_staged_by_subjects(rest, id);
                let k = choose|k: int| 0 <= k < rest.len() && (#[trigger] rest[k]).subject() == id;
                assert(commands[k].subject() == id);
            } else {
                assert(commands[commands.len() - 1].subject() == id);
            }
        }
    }
}

/// Carrying out commands changes nothing but outbound queues and the
/// staged leaves. The table holds the same connections at the same places
/// whatever the commands ask for: a connection that is to leave stays live
/// and in reach while the rest is carried out.
pub proof fn lemma_executed_all_keeps_table(zone: ZoneView, commands: Seq<CommandView>)
    ensures
        same_identities(zone.executed_all(commands).players, zone.players),
        zone.executed_all(commands).joins == zone.joins,
        zone.executed_all(commands).next_id == zone.next_id,
        zone.executed_all(commands).leaves == zone.leaves + staged_by(commands),
        forall|i: int|
            0 <= i < zone.players.len() ==> {
                let after = #[trigger] zone.executed_all(commands).players[i];
                &&& after.player == zone.players[i].player
                &&& after.commands == zone.players[i].commands
            },
        zone.wf() ==> zone.executed_all(commands).wf(),
    decreases commands.len(),
{
    if commands.len() > 0 {
        let before = zone.executed_all(commands.drop_last());
        lemma_executed_all_keeps_table(zone, commands.drop_last());
        lemma_executed_keeps_table(before, commands.last());
        let after = zone.executed_all(commands);
        assert(after == before.executed(commands.last()));
        assert forall|i: int| 0 <= i < zone.players.len() implies {
            let c = #[trigger] zone.executed_all(commands).players[i];
            &&& c.player == zone.players[i].player
            &&& c.commands == zone.players[i].commands
            &&& c.id() == zone.players[i].id()
        } by {
            assert(before.players[i].id() == zone.players[i].id());
            assert(before.executed(commands.last()).players[i].player == before.players[i].player);
        }
        assert(after.leaves =~= zone.leaves + staged_by(commands));
    } else {
        assert(zone.leaves =~= zone.leaves + staged_by(commands));
    }
}

/// Where an element of a concatenation comes from: the part and the place
/// in the part.
pub proof fn lemma_flatten_member<A>(parts: Seq<Seq<A>>, k: int) -> (at: (int, int))
    requires
        0 <= k < parts.flatten().len(),
    ensures
        0 <= at.0 < parts.len(),
        0 <= at.1 < parts[at.0].len(),
        parts[at.0][at.1] == parts.flatten()[k],
    decreases parts.len(),
{
    if parts.len() == 0 {
        (0, 0)
    } else {
        let rest = parts.drop_last();
        assert(parts =~= rest.push(parts.last()));
        rest.lemma_flatten_push(parts.last());
        if k < rest.flatten().len() {
            lemma_flatten_member(rest, k)
        } else {
            (parts.len() - 1, k - rest.flatten().len())
        }
    }
}

/// A connection's part of a concatenation stands in it unbroken and in its
/// own order, behind the parts of the connections before it.
pub proof fn lemma_flatten_part<A>(parts: Seq<Seq<A>>, i: int)
    requires
        0 <= i < parts.len(),
    ensures
        parts.flatten() == parts.take(i).flatten() + parts[i] + parts.skip(i + 1).flatten(),
{
    let head = parts.take(i);
    let one = seq![parts[i]];
    let rest = parts.skip(i + 1);
    assert(parts =~= head + one + rest);
    vstd::seq_lib::lemma_flatten_concat(head + one, rest);
    vstd::seq_lib::lemma_flatten_concat(head, one);
    one.lemma_flatten_singleton();
}

/// Every command that waits to be carried out was deferred by a live
/// connection, and is about that connection's own player.
pub proof fn lemma_pending_commands_are_live(zone: ZoneView, k: int)
    requires
        zone.wf(),
        0 <= k < zone.pending_commands().len(),
    ensures
        zone.is_live(zone.pending_commands()[k].subject()),
{
    let buffers = zone.players.map_values(|c: ClusterView| c.commands);
    let at = lemma_flatten_member(buffers, k);
    assert(zone.known()[at.0].wf());
    assert(zone.players[at.0].commands[at.1].subject() == zone.players[at.0].id());
}

/// The command phase changes nothing but outbound queues, the command
/// buffers and the staged leaves.
pub proof fn lemma_commands_run_keeps_table(zone: ZoneView)
    ensures
        same_identities(zone.commands_run().players, zone.players),
        zone.commands_run().joins == zone.joins,
        zone.commands_run().next_id == zone.next_id,
        zone.commands_run().leaves == zone.leaves + staged_by(zone.pending_commands()),
        forall|i: int|
            0 <= i < zone.players.len() ==> {
                let after = #[trigger] zone.commands_run().players[i];
                &&& after.player == zone.players[i].player
                &&& after.commands == Seq::<CommandView>::empty()
            },
        zone.wf() ==> zone.commands_run().wf(),
{
    let taken = zone.commands_taken();
    if zone.wf() {
        assert forall|i: int| 0 <= i < taken.players.len() implies (#[trigger] taken.players[i]).wf() by {
        }
        lemma_wf_from_table(zone, taken);
    }
    lemma_executed_all_keeps_table(taken, zone.pending_commands());
    assert forall|i: int| 0 <= i < zone.players.len() implies {
        let after = #[trigger] zone.commands_run().players[i];
        &&& after.player == zone.players[i].player
        &&& after.commands == Seq::<CommandView>::empty()
        &&& after.id() == zone.players[i].id()
    } by {
        assert(taken.players[i].id() == zone.players[i].id());
        assert(taken.executed_all(zone.pending_commands()).players[i].player
            == taken.players[i].player);
    }
}

/// The accept phase keeps the table. An admitted connection waits at the
/// end of the joins; it is not live.
pub proof fn lemma_accepted_keeps_table(zone: ZoneView, outcome: AcceptOutcome)
    ensures
        same_identities(zone.accepted(outcome).players, zone.players),
        zone.accepted(outcome).leaves == zone.leaves,
        zone.admits(outcome) ==> zone.accepted(outcome).joins == zone.joins.push(
            ClusterView::fresh(Player::spec_new(zone.next_id, spawn_point())),
        ) && zone.accepted(outcome).next_id == zone.next_id + 1,
        !zone.admits(outcome) ==> zone.accepted(outcome) == zone,
        zone.wf() ==> zone.accepted(outcome).wf(),
{
    if zone.admits(outcome) {
        let fresh = ClusterView::fresh(Player::spec_new(zone.next_id, spawn_point()));
        let staged = ZoneView {
            joins: zone.joins.push(fresh),
            next_id: (zone.next_id + 1) as u64,
            ..zone
        };
        let packet = PacketView::login_notification(
            zone.next_id,
            crate::game::zone::player_name(zone.next_id),
        );
        lemma_stacked_for_keeps_table(staged, Audience::Everyone, packet);
        if zone.wf() {
            assert(fresh.wf());
            assert(fresh.id() == zone.next_id);
            assert forall|i: int| 0 <= i < staged.known().len() implies (
            #[trigger] staged.known()[i]).id() < staged.next_id && staged.known()[i].wf() by {
                if i < zone.known().len() {
                    assert(zone.known()[i].wf());
                    assert(staged.known()[i] == zone.known()[i]);
                }
            }
            assert forall|i: int, j: int| 0 <= i < j < staged.known().len() implies (
            #[trigger] staged.known()[i]).id() != (#[trigger] staged.known()[j]).id() by {
                assert(staged.known()[i] == zone.known()[i]);
                if j < zone.known().len() {
                    assert(staged.known()[j] == zone.known()[j]);
                } else {
                    assert(zone.known()[i].id() < zone.next_id);
                }
            }
        }
    }
}

/// The receive, decode, simulation and send phases keep who is live, who
/// waits to join and who is to leave.
pub proof fn lemma_phases_keep_table(
    zone: ZoneView,
    reads: Seq<ReadOutcomeView>,
    writes: Seq<WriteOutcome>,
)
    ensures
        same_identities(zone.received_all(reads).players, zone.players),
        zone.received_all(reads).joins == zone.joins,
        zone.received_all(reads).leaves == zone.leaves,
        zone.received_all(reads).next_id == zone.next_id,
        zone.wf() ==> zone.received_all(reads).wf(),
        same_identities(zone.processed_all().players, zone.players),
        zone.processed_all().joins == zone.joins,
        zone.processed_all().leaves == zone.leaves,
        zone.processed_all().next_id == zone.next_id,
        zone.wf() ==> zone.processed_all().wf(),
        same_identities(zone.advanced_all().players, zone.players),
        zone.advanced_all().joins == zone.joins,
        zone.advanced_all().leaves == zone.leaves,
        zone.advanced_all().next_id == zone.next_id,
        zone.wf() ==> zone.advanced_all().wf(),
        same_identities(zone.sent_all(writes).players, zone.players),
        zone.sent_all(writes).joins == zone.joins,
        zone.sent_all(writes).leaves == zone.leaves,
        zone.sent_all(writes).next_id == zone.next_id,
        zone.wf() ==> zone.sent_all(writes).wf(),
{
    assert forall|i: int| 0 <= i < zone.players.len() implies {
        &&& (#[trigger] zone.processed_all().players[i]).id() == zone.players[i].id()
        &&& (zone.players[i].wf() ==> zone.processed_all().players[i].wf())
    } by {
        lemma_steps_keep_connection(zone.players[i]);
    }
    assert forall|i: int| 0 <= i < zone.players.len() implies {
        &&& (#[trigger] zone.advanced_all().players[i]).id() == zone.players[i].id()
        &&& (zone.players[i].wf() ==> zone.advanced_all().players[i].wf())
    } by {
        lemma_steps_keep_connection(zone.players[i]);
    }
    if zone.wf() {
        assert forall|i: int| 0 <= i < zone.players.len() implies (#[trigger] zone.players[i]).wf() by {
            assert(zone.known()[i].wf());
        }
        lemma_wf_from_table(zone, zone.received_all(reads));
        lemma_wf_from_table(zone, zone.processed_all());
        lemma_wf_from_table(zone, zone.advanced_all());
        lemma_wf_from_table(zone, zone.sent_all(writes));
    }
}

/// Whether no two connections of `table` have the same identity.
pub open spec fn distinct_identities(table: Seq<ClusterView>) -> bool {
    forall|i: int, j: int|
        0 <= i < j < table.len() ==> (#[trigger] table[i]).id() != (#[trigger] table[j]).id()
}

/// Picking connections out of a table leaves each as it is, picks only
/// what was asked for, and gives no identity twice where none was there
/// twice.
pub proof fn lemma_filter_keeps_connections(
    table: Seq<ClusterView>,
    stays: spec_fn(ClusterView) -> bool,
)
    ensures
        forall|k: int|
            0 <= k < table.filter(stays).len() ==> stays(#[trigger] table.filter(stays)[k])
                && table.contains(table.filter(stays)[k]),
        forall|i: int|
            0 <= i < table.len() && stays(#[trigger] table[i]) ==> table.filter(stays).contains(
                table[i],
            ),
        distinct_identities(table) ==> distinct_identities(table.filter(stays)),
    decreases table.len(),
{
    reveal(Seq::filter);
    if table.len() > 0 {
        let rest = table.drop_last();
        let kept = rest.filter(stays);
        lemma_filter_keeps_connections(rest, stays);
        assert forall|k: int| 0 <= k < table.filter(stays).len() implies stays(
            #[trigger] table.filter(stays)[k],
        ) && table.contains(table.filter(stays)[k]) by {
            if k < kept.len() {
                assert(rest.contains(kept[k]));
                let i = choose|i: int| 0 <= i < rest.len() && rest[i] == kept[k];
                assert(table[i] == kept[k]);
            } else {
                assert(table[table.len() - 1] == table.filter(stays)[k]);
            }
        }
        assert forall|i: int| 0 <= i < table.len() && stays(#[trigger] table[i]) implies table.filter(
            stays,
        ).contains(table[i]) by {
            if i < rest.len() {
                assert(rest[i] == table[i]);
                assert(kept.contains(rest[i]));
                let k = choose|k: int| 0 <= k < kept.len() && kept[k] == rest[i];
                assert(table.filter(stays)[k] == table[i]);
            } else {
                assert(table.filter(stays)[kept.len() as int] == table[i]);
            }
        }
        if distinct_identities(table) {
            assert(distinct_identities(rest)) by {
                assert forall|i: int, j: int| 0 <= i < j < rest.len() implies (#[trigger] rest[i]).id()
                    != (#[trigger] rest[j]).id() by {
                    assert(table[i].id() != table[j].id());
                }
            }
            assert forall|i: int, j: int| 0 <= i < j < table.filter(stays).len() implies (
            #[trigger] table.filter(stays)[i]).id() != (#[trigger] table.filter(stays)[j]).id() by {
                if j < kept.len() {
                    assert(kept[i].id() != kept[j].id());
                } else {
                    assert(rest.contains(kept[i]));
                    let at = choose|at: int| 0 <= at < rest.len() && rest[at] == kept[i];
                    assert(table[at].id() != table[table.len() - 1].id());
                }
            }
        }
    }
}

/// The joins of the commit phase: every waiting connection becomes live,
/// with the welcome as the one thing that changed, and the connections
/// that were live stay where they are.
pub proof fn lemma_joined_keeps_known(zone: ZoneView)
    ensures
        zone.joined().players.len() == zone.players.len() + zone.joins.len(),
        forall|i: int|
            0 <= i < zone.players.len() ==> (#[trigger] zone.joined().players[i])
                == zone.players[i],
        forall|i: int|
            0 <= i < zone.joins.len() ==> (#[trigger] zone.joined().players[zone.players.len() + i])
                == zone.joins[i].welcomed(),
        zone.joined().leaves == zone.leaves,
        zone.joined().next_id == zone.next_id,
        zone.wf() ==> zone.joined().wf(),
{
    let after = zone.joined();
    assert(after.known() =~= after.players);
    if zone.wf() {
        assert forall|i: int| 0 <= i < after.known().len() implies (#[trigger] after.known()[i]).id()
            == zone.known()[i].id() && after.known()[i].wf() by {
            assert(zone.known()[i].wf());
        }
        assert forall|i: int, j: int| 0 <= i < j < after.known().len() implies (
        #[trigger] after.known()[i]).id() != (#[trigger] after.known()[j]).id() by {
            assert(zone.known()[i].id() != zone.known()[j].id());
        }
        assert forall|i: int| 0 <= i < after.known().len() implies (#[trigger] after.known()[i]).id()
            < after.next_id by {
            assert(zone.known()[i].id() < zone.next_id);
        }
    }
}

/// The leaves of the commit phase: a connection is live afterwards if and
/// only if it was live and was not to leave, and such a connection is as
/// it was.
pub proof fn lemma_left_removes_leaves(zone: ZoneView, id: u64)
    ensures
        zone.left().is_live(id) <==> zone.is_live(id) && !zone.leaves.contains(id),
        forall|k: int|
            0 <= k < zone.left().players.len() ==> zone.players.contains(
                #[trigger] zone.left().players[k],
            ),
        zone.left().joins == zone.joins,
        zone.left().next_id == zone.next_id,
{
    let stays = |c: ClusterView| !zone.leaves.contains(c.id());
    let kept = zone.players.filter(stays);
    lemma_filter_keeps_connections(zone.players, stays);
    if zone.left().is_live(id) {
        let k = choose|k: int| 0 <= k < kept.len() && (#[trigger] kept[k]).id() == id;
        assert(stays(kept[k]));
        assert(zone.players.contains(kept[k]));
        let i = choose|i: int| 0 <= i < zone.players.len() && zone.players[i] == kept[k];
        assert(zone.players[i].id() == id);
    }
    if zone.is_live(id) && !zone.leaves.contains(id) {
        let i = choose|i: int| 0 <= i < zone.players.len() && (#[trigger] zone.players[i]).id() == id;
        assert(stays(zone.players[i]));
        assert(kept.contains(zone.players[i]));
        let k = choose|k: int| 0 <= k < kept.len() && kept[k] == zone.players[i];
        assert(zone.left().players[k].id() == id);
    }
}

/// Removing the connections that are to leave keeps the zone well formed.
pub proof fn lemma_left_keeps_wf(zone: ZoneView)
    requires
        zone.wf(),
    ensures
        zone.left().wf(),
{
    let stays = |c: ClusterView| !zone.leaves.contains(c.id());
    let kept = zone.players.filter(stays);
    let after = zone.left();
    lemma_filter_keeps_connections(zone.players, stays);
    assert(distinct_identities(zone.players)) by {
        assert forall|i: int, j: int| 0 <= i < j < zone.players.len() implies (
        #[trigger] zone.players[i]).id() != (#[trigger] zone.players[j]).id() by {
            assert(zone.known()[i].id() != zone.known()[j].id());
        }
    }
    assert forall|i: int| 0 <= i < after.known().len() implies (#[trigger] after.known()[i]).id()
        < after.next_id && after.known()[i].wf() by {
        if i < kept.len() {
            assert(zone.players.contains(kept[i]));
            let at = choose|at: int| 0 <= at < zone.players.len() && zone.players[at] == kept[i];
            assert(zone.known()[at].wf());
        } else {
            assert(zone.known()[zone.players.len() + (i - kept.len())].wf());
        }
    }
    assert forall|i: int, j: int| 0 <= i < j < after.known().len() implies (
    #[trigger] after.known()[i]).id() != (#[trigger] after.known()[j]).id() by {
        if j < kept.len() {
            assert(kept[i].id() != kept[j].id());
        } else if i < kept.len() {
            assert(zone.players.contains(kept[i]));
            let at = choose|at: int| 0 <= at < zone.players.len() && zone.players[at] == kept[i];
            assert(zone.known()[at].id() != zone.known()[zone.players.len() + (j - kept.len())].id());
        } else {
            assert(zone.known()[zone.players.len() + (i - kept.len())].id() != zone.known()[
                zone.players.len() + (j - kept.len())].id());
        }
    }
}

/// The phases that walk the table keep it: when they are over the table
/// holds the same identities at the same places, nothing has joined or
/// left, and what waits to join is what the accept phase left there. The
/// leaves that were staged on the way are those of live connections.
pub proof fn lemma_walk_keeps_table(
    zone: ZoneView,
    accept: AcceptOutcome,
    reads: Seq<ReadOutcomeView>,
)
    ensures
        same_identities(zone.walked(accept, reads).players, zone.players),
        zone.walked(accept, reads).joins == zone.accepted(accept).joins,
        zone.walked(accept, reads).next_id == zone.accepted(accept).next_id,
        zone.walked(accept, reads).next_id >= zone.next_id,
        zone.wf() ==> zone.walked(accept, reads).wf(),
        zone.wf() ==> forall|id: u64|
            #[trigger] zone.walked(accept, reads).leaves.contains(id) ==> zone.leaves.contains(id)
                || zone.is_live(id),
        forall|id: u64|
            zone.leaves.contains(id) ==> #[trigger] zone.walked(accept, reads).leaves.contains(id),
{
    let z1 = zone.accepted(accept);
    let z2 = z1.received_all(reads);
    let z3 = z2.processed_all();
    let z4 = z3.advanced_all();
    let z5 = z4.commands_run();
    let none = Seq::<WriteOutcome>::empty();
    lemma_accepted_keeps_table(zone, accept);
    lemma_phases_keep_table(z1, reads, none);
    lemma_phases_keep_table(z2, reads, none);
    lemma_phases_keep_table(z3, reads, none);
    lemma_commands_run_keeps_table(z4);
    let staged = staged_by(z4.pending_commands());
    assert forall|id: u64| zone.leaves.contains(id) implies #[trigger] z5.leaves.contains(id) by {
        let at = choose|at: int| 0 <= at < zone.leaves.len() && zone.leaves[at] == id;
        assert(z5.leaves[at] == id);
    }
    if zone.wf() {
        assert forall|id: u64| #[trigger] z5.leaves.contains(id) implies zone.leaves.contains(id)
            || zone.is_live(id) by {
            let at = choose|at: int| 0 <= at < z5.leaves.len() && z5.leaves[at] == id;
            if at < zone.leaves.len() {
                assert(zone.leaves[at] == id);
            } else {
                assert(staged[at - zone.leaves.len()] == id);
                lemma_staged_by_subjects(z4.pending_commands(), id);
                let k = choose|k: int|
                    0 <= k < z4.pending_commands().len() && (
                    #[trigger] z4.pending_commands()[k]).subject() == id;
                lemma_pending_commands_are_live(z4, k);
                let i = choose|i: int|
                    0 <= i < z4.players.len() && (#[trigger] z4.players[i]).id() == id;
                assert(zone.players[i].id() == id);
            }
        }
    }
}

/// Every step of a tick keeps the zone well formed, and so does the tick.
/// In a well-formed zone no identity is both live and waiting to join, nor
/// live twice.
pub proof fn lemma_tick_keeps_wf(
    zone: ZoneView,
    accept: AcceptOutcome,
    reads: Seq<ReadOutcomeView>,
    writes: Seq<WriteOutcome>,
)
    requires
        zone.wf(),
    ensures
        zone.ticked(accept, reads).wf(),
        zone.ticked(accept, reads).sent_all(writes).wf(),
        zone.ticked(accept, reads).joins.len() == 0,
        zone.ticked(accept, reads).leaves.len() == 0,
        zone.ticked(accept, reads).next_id >= zone.next_id,
{
    let joined = zone.walked(accept, reads).joined();
    lemma_walk_keeps_table(zone, accept, reads);
    lemma_joined_keeps_known(zone.walked(accept, reads));
    lemma_left_keeps_wf(joined);
    lemma_left_removes_leaves(joined, 0);
    lemma_phases_keep_table(joined.left(), reads, writes);
}

} // verus!
