//! The zone: the table of live connections and the tick that drives them.
//!
//! One tick runs seven phases in a fixed order: accept, receive, decode,
//! simulate, run the deferred commands, commit the staged joins and leaves,
//! send. Joins and leaves are only staged while the table is walked, so a
//! connection accepted in a tick is not live in that tick, and one that is
//! to leave stays live until the commit.

use crate::entity::entity::{Entity, Point3};
use crate::entity::player::{group_player, Player};
use crate::game::client::cluster::{count_fate, Cluster, ClusterView, Fate, ProcessReport};
use crate::game::client::command::{Command, CommandTrait, CommandView};
use crate::game::steps::{
    lemma_accepted_keeps_table,
    lemma_commands_run_keeps_table,
    lemma_executed_keeps_table,
    lemma_joined_keeps_known,
    lemma_left_keeps_wf,
    lemma_phases_keep_table,
    lemma_tick_keeps_wf,
};
use crate::game::tcp_client::{
    skipped_frames,
    unwritable,
    ReadOutcome,
    ReadOutcomeView,
    TcpClient,
    WriteOutcome,
};
use crate::game::zone_request_chash::{ZonePlayerLogout, ZoneRequestChash};
use crate::proto::{Packet, PacketView};
use vstd::prelude::*;

verus! {

broadcast use group_player;

/// The bit pattern of -10.0, the depth at which a new player appears.
pub const SPAWN_Z: u32 = 0xc120_0000;

/// Where a new player appears: (0, 0, -10).
pub open spec fn spawn_point() -> Point3 {
    Point3 { x: 0, y: 0, z: SPAWN_Z }
}

/// The character of one decimal digit.
pub open spec fn digit_char(digit: nat) -> char {
    if digit == 0 {
        '0'
    } else if digit == 1 {
        '1'
    } else if digit == 2 {
        '2'
    } else if digit == 3 {
        '3'
    } else if digit == 4 {
        '4'
    } else if digit == 5 {
        '5'
    } else if digit == 6 {
        '6'
    } else if digit == 7 {
        '7'
    } else if digit == 8 {
        '8'
    } else {
        '9'
    }
}

/// `n` in decimal, without leading zeros.
pub open spec fn decimal(n: nat) -> Seq<char>
    decreases n,
{
    if n < 10 {
        seq![digit_char(n)]
    } else {
        decimal(n / 10).push(digit_char(n % 10))
    }
}

/// The name under which a new connection is announced: `Player` and the
/// identity in decimal.
pub open spec fn player_name(id: u64) -> Seq<char> {
    seq!['P', 'l', 'a', 'y', 'e', 'r'] + decimal(id as nat)
}

/// What polling the listener gave.
#[derive(Clone, Copy, Debug, PartialEq, Eq, Structural)]
pub enum AcceptOutcome {
    /// A peer connected.
    Connected,
    /// Accepting failed.
    Failed,
    /// Nobody is waiting.
    Pending,
}

/// Who gets a packet.
#[derive(Clone, Copy, Debug, PartialEq, Eq, Structural)]
pub enum Audience {
    Everyone,
    Only(u64),
    Except(u64),
}

impl Audience {
    /// Whether the connection `id` belongs to the audience.
    pub open spec fn reaches(self, id: u64) -> bool {
        match self {
            Audience::Everyone => true,
            Audience::Only(one) => id == one,
            Audience::Except(one) => id != one,
        }
    }
}

/// What the caller may want to log of one tick.
#[derive(Debug, PartialEq, Eq)]
pub struct TickReport {
    /// The identity given to the connection that was accepted, if one was.
    pub accepted: Option<u64>,
    /// For each connection that was read, in table order, how many of its
    /// frames held no packet.
    pub skipped: Vec<usize>,
    /// For each connection that was live in the decode phase, in table
    /// order, what became of its packets.
    pub handled: Vec<ProcessReport>,
}

/// The mathematical value of a [`Zone`].
pub struct ZoneView {
    pub name: Seq<char>,
    /// The live connections, in the order they joined.
    pub players: Seq<ClusterView>,
    /// The connections that wait to join, in the order they were accepted.
    pub joins: Seq<ClusterView>,
    /// The identities that are to leave, in the order they were named.
    pub leaves: Seq<u64>,
    /// The identity that the next accepted connection gets.
    pub next_id: u64,
}

impl ZoneView {
    /// An empty zone.
    pub open spec fn fresh(name: Seq<char>) -> ZoneView {
        ZoneView {
            name,
            players: Seq::empty(),
            joins: Seq::empty(),
            leaves: Seq::empty(),
            next_id: 0,
        }
    }

    /// Whether `id` is in the table of live connections.
    pub open spec fn is_live(self, id: u64) -> bool {
        exists|i: int| 0 <= i < self.players.len() && (#[trigger] self.players[i]).id() == id
    }

    /// Whether `id` waits to join.
    pub open spec fn is_pending(self, id: u64) -> bool {
        exists|i: int| 0 <= i < self.joins.len() && (#[trigger] self.joins[i]).id() == id
    }

    /// The live connections followed by those that wait to join.
    pub open spec fn known(self) -> Seq<ClusterView> {
        self.players + self.joins
    }

    /// What holds of a zone between any two steps: no identity is known
    /// twice, be it live or waiting to join; every known identity was given
    /// out by the zone's counter; and the commands a connection deferred
    /// are about its own player.
    pub open spec fn wf(self) -> bool {
        &&& forall|i: int, j: int|
            0 <= i < j < self.known().len() ==> (#[trigger] self.known()[i]).id() != (
            #[trigger] self.known()[j]).id()
        &&& forall|i: int|
            0 <= i < self.known().len() ==> (#[trigger] self.known()[i]).id() < self.next_id
        &&& forall|i: int| 0 <= i < self.known().len() ==> (#[trigger] self.known()[i]).wf()
    }

    /// With `packet` at the end of the outbound queue of each live
    /// connection in `audience`. Connections that wait to join get nothing.
    pub open spec fn stacked_for(self, audience: Audience, packet: PacketView) -> ZoneView {
        ZoneView {
            players: self.players.map_values(
                |c: ClusterView|
                    if audience.reaches(c.id()) {
                        c.stacked(packet)
                    } else {
                        c
                    },
            ),
            ..self
        }
    }

    /// With `id` noted as leaving.
    pub open spec fn leave_staged(self, id: u64) -> ZoneView {
        ZoneView { leaves: self.leaves.push(id), ..self }
    }

    /// After a player asked to leave: the leave is staged, the player is
    /// told that it succeeded, if it is live, and every other live
    /// connection is told that the player leaves.
    pub open spec fn logout_requested(self, id: u64) -> ZoneView {
        self.leave_staged(id).stacked_for(
            Audience::Only(id),
            PacketView::logout_response(true),
        ).stacked_for(Audience::Except(id), PacketView::logout_notification(id))
    }

    /// After the zone gave up on a player: the leave is staged and every
    /// other live connection is told that the player leaves. The player
    /// itself is told nothing.
    pub open spec fn force_disconnected(self, id: u64) -> ZoneView {
        self.leave_staged(id).stacked_for(
            Audience::Except(id),
            PacketView::logout_notification(id),
        )
    }

    /// After `from` said `text`: every live connection, the speaker too, is
    /// handed the line.
    pub open spec fn chat_broadcast(self, from: u64, text: Seq<char>) -> ZoneView {
        self.stacked_for(Audience::Everyone, PacketView::chat_receive(from, text))
    }

    /// After carrying out one command.
    pub open spec fn executed(self, command: CommandView) -> ZoneView {
        match command {
            CommandView::Logout { player_id } => self.logout_requested(player_id),
            CommandView::ForceDisconnect { player_id } => self.force_disconnected(player_id),
            CommandView::ChatBroadcast { from, text } => self.chat_broadcast(from, text),
        }
    }

    /// After carrying out `commands`, first to last.
    pub open spec fn executed_all(self, commands: Seq<CommandView>) -> ZoneView
        decreases commands.len(),
    {
        if commands.len() == 0 {
            self
        } else {
            self.executed_all(commands.drop_last()).executed(commands.last())
        }
    }

    /// The commands that the live connections deferred: each connection's
    /// commands in the order it deferred them, connection after connection
    /// in table order.
    pub open spec fn pending_commands(self) -> Seq<CommandView> {
        self.players.map_values(|c: ClusterView| c.commands).flatten()
    }

    /// With no command deferred by any live connection.
    pub open spec fn commands_taken(self) -> ZoneView {
        ZoneView {
            players: self.players.map_values(|c: ClusterView| c.without_commands()),
            ..self
        }
    }

    /// After the command phase: every deferred command was taken and
    /// carried out, in the order of [`pending_commands`](Self::pending_commands).
    pub open spec fn commands_run(self) -> ZoneView {
        self.commands_taken().executed_all(self.pending_commands())
    }

    /// Whether a connection can be admitted: one connected and the counter
    /// has an identity left to give.
    pub open spec fn admits(self, outcome: AcceptOutcome) -> bool {
        outcome == AcceptOutcome::Connected && self.next_id < u64::MAX
    }

    /// After the accept phase. An admitted connection gets the counter's
    /// identity and a player at the spawn point, and waits to join; the
    /// live connections are told of it. Otherwise nothing changes.
    pub open spec fn accepted(self, outcome: AcceptOutcome) -> ZoneView {
        if self.admits(outcome) {
            ZoneView {
                joins: self.joins.push(
                    ClusterView::fresh(Player::spec_new(self.next_id, spawn_point())),
                ),
                next_id: (self.next_id + 1) as u64,
                ..self
            }.stacked_for(
                Audience::Everyone,
                PacketView::login_notification(self.next_id, player_name(self.next_id)),
            )
        } else {
            self
        }
    }

    /// After the receive phase, where `reads[i]` is what reading the socket
    /// of the `i`-th live connection gave. A connection without a read is
    /// left as it is; a read without a connection is passed over.
    pub open spec fn received_all(self, reads: Seq<ReadOutcomeView>) -> ZoneView {
        ZoneView {
            players: Seq::new(
                self.players.len(),
                |i: int|
                    if i < reads.len() {
                        self.players[i].received(reads[i])
                    } else {
                        self.players[i]
                    },
            ),
            ..self
        }
    }

    /// After the decode phase: every live connection handled what came in
    /// for it, and nothing else.
    pub open spec fn processed_all(self) -> ZoneView {
        ZoneView { players: self.players.map_values(|c: ClusterView| c.processed()), ..self }
    }

    /// After the simulation phase.
    pub open spec fn advanced_all(self) -> ZoneView {
        ZoneView { players: self.players.map_values(|c: ClusterView| c.advanced()), ..self }
    }

    /// With every waiting connection welcomed and at the end of the table,
    /// in the order they were accepted.
    pub open spec fn joined(self) -> ZoneView {
        ZoneView {
            players: self.players + self.joins.map_values(|c: ClusterView| c.welcomed()),
            joins: Seq::empty(),
            ..self
        }
    }

    /// Without the live connections that are to leave. Leaving twice, or
    /// without being live, is leaving once, or not at all.
    pub open spec fn left(self) -> ZoneView {
        ZoneView {
            players: self.players.filter(|c: ClusterView| !self.leaves.contains(c.id())),
            leaves: Seq::empty(),
            ..self
        }
    }

    /// After the commit phase: first the joins, then the leaves, and
    /// nothing is staged any more.
    pub open spec fn committed(self) -> ZoneView {
        self.joined().left()
    }

    /// After the five phases of one tick that walk the table: accept,
    /// receive, decode, simulate, run the deferred commands.
    pub open spec fn walked(self, accept: AcceptOutcome, reads: Seq<ReadOutcomeView>) -> ZoneView {
        self.accepted(accept).received_all(reads).processed_all().advanced_all().commands_run()
    }

    /// After the first six phases of one tick: the table is walked, then
    /// the joins and leaves are committed.
    pub open spec fn ticked(self, accept: AcceptOutcome, reads: Seq<ReadOutcomeView>) -> ZoneView {
        self.walked(accept, reads).committed()
    }

    /// After the send phase, where `writes[i]` is what writing the batch of
    /// the `i`-th live connection gave. A connection without an outcome is
    /// left as it is.
    pub open spec fn sent_all(self, writes: Seq<WriteOutcome>) -> ZoneView {
        ZoneView {
            players: Seq::new(
                self.players.len(),
                |i: int|
                    if i < writes.len() {
                        self.players[i].sent(writes[i])
                    } else {
                        self.players[i]
                    },
            ),
            ..self
        }
    }
}

/// The text of one decimal digit.
fn digit_str(digit: u8) -> (text: &'static str)
    requires
        digit < 10,
    ensures
        text@ == seq![digit_char(digit as nat)],
{
    proof {
        reveal_strlit("0");
        reveal_strlit("1");
        reveal_strlit("2");
        reveal_strlit("3");
        reveal_strlit("4");
        reveal_strlit("5");
        reveal_strlit("6");
        reveal_strlit("7");
        reveal_strlit("8");
        reveal_strlit("9");
    }
    let text = match digit {
        0 => "0",
        1 => "1",
        2 => "2",
        3 => "3",
        4 => "4",
        5 => "5",
        6 => "6",
        7 => "7",
        8 => "8",
        _ => "9",
    };
    assert(text@ =~= seq![digit_char(digit as nat)]);
    text
}

/// The characters of `digits` from the last to the first.
spec fn backwards(digits: Seq<u8>) -> Seq<char> {
    Seq::new(digits.len(), |i: int| digit_char(digits[digits.len() - 1 - i] as nat))
}

/// The name under which the connection `id` is announced.
pub fn make_player_name(id: u64) -> (name: String)
    ensures
        name@ == player_name(id),
{
    let mut digits: Vec<u8> = Vec::new();
    let mut rest: u64 = id;
    if rest == 0 {
        digits.push(0);
        assert(backwards(digits@) =~= decimal(0));
    }
    while rest > 0
        invariant
            forall|i: int| 0 <= i < digits.len() ==> digits[i] < 10,
            rest > 0 ==> decimal(id as nat) == decimal(rest as nat) + backwards(digits@),
            rest == 0 ==> decimal(id as nat) == backwards(digits@),
        decreases rest,
    {
        let ghost before = digits@;
        let digit: u8 = (rest % 10) as u8;
        digits.push(digit);
        assert(backwards(digits@) =~= seq![digit_char(digit as nat)] + backwards(before));
        proof {
            if rest >= 10 {
                assert(decimal(rest as nat) == decimal((rest / 10) as nat).push(
                    digit_char(digit as nat),
                ));
                assert(decimal(id as nat) =~= decimal((rest / 10) as nat) + backwards(digits@));
            } else {
                assert(decimal(rest as nat) == seq![digit_char(digit as nat)]);
                assert(decimal(id as nat) =~= backwards(digits@));
            }
        }
        rest = rest / 10;
    }
    proof {
        reveal_strlit("Player");
    }
    let mut name = String::from_str("Player");
    let mut left: usize = digits.len();
    assert("Player"@ =~= seq!['P', 'l', 'a', 'y', 'e', 'r']);
    while left > 0
        invariant
            left <= digits.len(),
            forall|i: int| 0 <= i < digits.len() ==> digits[i] < 10,
            name@ == seq!['P', 'l', 'a', 'y', 'e', 'r'] + backwards(digits@).take(
                digits.len() - left,
            ),
        decreases left,
    {
        left -= 1;
        let ghost before = name@;
        name.append(digit_str(digits[left]));
        assert(name@ =~= seq!['P', 'l', 'a', 'y', 'e', 'r'] + backwards(digits@).take(
            digits.len() - left,
        ));
    }
    assert(backwards(digits@).take(digits.len() as int) =~= backwards(digits@));
    name
}

/// Whether `id` is among `leaves`.
fn is_leaving(leaves: &Vec<ZonePlayerLogout>, id: u64) -> (found: bool)
    ensures
        found == leaves.deep_view().contains(id),
{
    let mut i: usize = 0;
    while i < leaves.len()
        invariant
            i <= leaves.len(),
            forall|j: int| 0 <= j < i ==> leaves.deep_view()[j] != id,
        decreases leaves.len() - i,
    {
        if leaves[i].entity_id == id {
            assert(leaves.deep_view()[i as int] == id);
            return true;
        }
        i += 1;
    }
    false
}

/// One zone. The table of live connections is kept in the order in which
/// they joined: that is the order in which every phase walks it, and so
/// the order in which the commands of different connections are carried
/// out.
#[derive(Debug)]
pub struct Zone {
    name: String,
    players: Vec<Cluster>,
    zone_request_chash: ZoneRequestChash,
    next_id: u64,
}

impl View for Zone {
    type V = ZoneView;

    closed spec fn view(&self) -> ZoneView {
        ZoneView {
            name: self.name@,
            players: self.players.deep_view(),
            joins: self.zone_request_chash@.joins,
            leaves: self.zone_request_chash@.leaves,
            next_id: self.next_id,
        }
    }
}

impl Zone {
    /// An empty zone. Its first connection gets the identity 0.
    pub fn new(name: String) -> (zone: Zone)
        ensures
            zone@ == ZoneView::fresh(name@),
            zone@.wf(),
    {
        let zone = Zone {
            name,
            players: Vec::new(),
            zone_request_chash: ZoneRequestChash::new(),
            next_id: 0,
        };
        assert(zone.players.deep_view() =~= Seq::empty());
        zone
    }

    /// The zone's name.
    pub fn name(&self) -> (name: &str)
        ensures
            name@ == self@.name,
    {
        self.name.as_str()
    }

    /// The live connections, in table order.
    pub fn players(&self) -> (players: &Vec<Cluster>)
        ensures
            players.deep_view() == self@.players,
    {
        &self.players
    }

    /// Whether `id` is in the table of live connections.
    pub fn is_live(&self, id: u64) -> (live: bool)
        ensures
            live == self@.is_live(id),
    {
        let mut i: usize = 0;
        while i < self.players.len()
            invariant
                i <= self.players.len(),
                forall|j: int| 0 <= j < i ==> (#[trigger] self@.players[j]).id() != id,
            decreases self.players.len() - i,
        {
            if self.players[i].id() == id {
                assert(self@.players[i as int].id() == id);
                return true;
            }
            i += 1;
        }
        false
    }

    /// Puts a copy of `packet` at the end of the outbound queue of each
    /// live connection in `audience`.
    fn stack_for(&mut self, audience: Audience, packet: &Packet)
        ensures
            final(self)@ == old(self)@.stacked_for(audience, packet@),
    {
        let mut i: usize = 0;
        while i < self.players.len()
            invariant
                i <= self.players.len(),
                self.players.len() == old(self).players.len(),
                self.name == old(self).name,
                self.zone_request_chash == old(self).zone_request_chash,
                self.next_id == old(self).next_id,
                forall|j: int|
                    0 <= j < i ==> (#[trigger] self.players[j])@ == if audience.reaches(
                        old(self).players[j]@.id(),
                    ) {
                        old(self).players[j]@.stacked(packet@)
                    } else {
                        old(self).players[j]@
                    },
                forall|j: int|
                    i <= j < self.players.len() ==> (#[trigger] self.players[j]) == old(
                        self,
                    ).players[j],
            decreases self.players.len() - i,
        {
            let id = self.players[i].id();
            let reached = match audience {
                Audience::Everyone => true,
                Audience::Only(one) => id == one,
                Audience::Except(one) => id != one,
            };
            if reached {
                self.players[i].stack_packet(packet.clone());
            }
            i += 1;
        }
        assert(self@.players =~= old(self)@.stacked_for(audience, packet@).players);
    }

    /// A player asked to leave. The leave is staged for the commit; until
    /// then the player stays live.
    pub fn dissconnect_request(&mut self, player_id: &u64)
        ensures
            final(self)@ == old(self)@.logout_requested(*player_id),
            old(self)@.wf() ==> final(self)@.wf(),
    {
        proof {
            lemma_executed_keeps_table(self@, CommandView::Logout { player_id: *player_id });
        }
        self.zone_request_chash.push_logout(*player_id);
        let response = Packet::logout_response(true);
        self.stack_for(Audience::Only(*player_id), &response);
        let notification = Packet::logout_notification(*player_id);
        self.stack_for(Audience::Except(*player_id), &notification);
    }

    /// The zone gives up on a player. The leave is staged for the commit;
    /// until then the player stays live.
    pub fn dissconnect_client_force(&mut self, player_id: &u64)
        ensures
            final(self)@ == old(self)@.force_disconnected(*player_id),
            old(self)@.wf() ==> final(self)@.wf(),
    {
        proof {
            lemma_executed_keeps_table(self@, CommandView::ForceDisconnect { player_id: *player_id });
        }
        self.zone_request_chash.push_logout(*player_id);
        let notification = Packet::logout_notification(*player_id);
        self.stack_for(Audience::Except(*player_id), &notification);
    }

    /// Hands `message`, said by `id`, to every live connection.
    pub fn broadcast_chat_message(&mut self, id: u64, message: &str)
        ensures
            final(self)@ == old(self)@.chat_broadcast(id, message@),
            old(self)@.wf() ==> final(self)@.wf(),
    {
        proof {
            lemma_executed_keeps_table(self@, CommandView::ChatBroadcast { from: id, text: message@ });
        }
        let packet = Packet::chat_receive(id, String::from_str(message));
        self.stack_for(Audience::Everyone, &packet);
    }

    /// The accept phase. Says which identity the new connection got, if
    /// one was admitted.
    pub fn accept_client(&mut self, outcome: AcceptOutcome) -> (accepted: Option<u64>)
        ensures
            final(self)@ == old(self)@.accepted(outcome),
            old(self)@.wf() ==> final(self)@.wf(),
            accepted == if old(self)@.admits(outcome) {
                Some(old(self)@.next_id)
            } else {
                None
            },
    {
        proof {
            lemma_accepted_keeps_table(self@, outcome);
        }
        match outcome {
            AcceptOutcome::Connected => {
                if self.next_id == u64::MAX {
                    return None;
                }
                let player_id = self.next_id;
                self.next_id = player_id + 1;
                let position = Point3::new(0, 0, SPAWN_Z);
                let player = Player::new(player_id, position);
                let client_cluster = Cluster::new(player, TcpClient::new());
                self.zone_request_chash.push_login(client_cluster);
                let notify_packet = Packet::login_notification(
                    player_id,
                    make_player_name(player_id),
                );
                self.stack_for(Audience::Everyone, &notify_packet);
                Some(player_id)
            },
            _ => None,
        }
    }

    /// The receive phase: hands each live connection what reading its
    /// socket gave, `reads[i]` to the `i`-th connection of the table. Says,
    /// for each connection that was read, how many frames held no packet.
    pub fn recv_all(&mut self, reads: Vec<ReadOutcome>) -> (skipped: Vec<usize>)
        ensures
            final(self)@ == old(self)@.received_all(reads.deep_view()),
            old(self)@.wf() ==> final(self)@.wf(),
            skipped.len() == if reads.len() <= old(self)@.players.len() {
                reads.len() as int
            } else {
                old(self)@.players.len() as int
            },
            forall|i: int|
                0 <= i < skipped.len() ==> #[trigger] skipped[i] == skipped_frames(
                    reads.deep_view()[i],
                ),
    {
        proof {
            lemma_phases_keep_table(self@, reads.deep_view(), Seq::empty());
        }
        let ghost raw = reads@;
        let ghost all = reads.deep_view();
        assert(raw.len() == reads.len());
        let mut skipped: Vec<usize> = Vec::new();
        let mut i: usize = 0;
        for outcome in it: reads.into_iter()
            invariant
                it.seq() == raw,
                raw.len() <= usize::MAX,
                all == raw.map_values(|r: ReadOutcome| r.deep_view()),
                i == it.index(),
                self.players.len() == old(self).players.len(),
                self.name == old(self).name,
                self.zone_request_chash == old(self).zone_request_chash,
                self.next_id == old(self).next_id,
                skipped.len() == if i <= self.players.len() {
                    i as int
                } else {
                    self.players.len() as int
                },
                forall|j: int|
                    0 <= j < skipped.len() ==> #[trigger] skipped[j] == skipped_frames(all[j]),
                forall|j: int|
                    0 <= j < self.players.len() && j < i ==> (#[trigger] self.players[j])@ == old(
                        self,
                    ).players[j]@.received(all[j]),
                forall|j: int|
                    i <= j < self.players.len() ==> (#[trigger] self.players[j]) == old(
                        self,
                    ).players[j],
        {
            if i < self.players.len() {
                let count = self.players[i].recv_packets(outcome);
                skipped.push(count);
            }
            i += 1;
        }
        assert(self@.players =~= old(self)@.received_all(all).players);
        skipped
    }

    /// The decode phase: every live connection handles what came in for
    /// it. Says, connection by connection, what became of the packets.
    pub fn process_all(&mut self) -> (handled: Vec<ProcessReport>)
        ensures
            final(self)@ == old(self)@.processed_all(),
            old(self)@.wf() ==> final(self)@.wf(),
            handled.len() == old(self)@.players.len(),
            forall|i: int|
                #![trigger handled[i]]
                0 <= i < handled.len() ==> {
                    let inbound = old(self)@.players[i].tcp.recv_messages;
                    &&& handled[i].applied == count_fate(inbound, Fate::Applied)
                    &&& handled[i].dropped == count_fate(inbound, Fate::Dropped)
                    &&& handled[i].unknown == count_fate(inbound, Fate::Unknown)
                },
    {
        proof {
            lemma_phases_keep_table(self@, Seq::empty(), Seq::empty());
        }
        let mut handled: Vec<ProcessReport> = Vec::new();
        let mut i: usize = 0;
        while i < self.players.len()
            invariant
                i <= self.players.len(),
                handled.len() == i,
                self.players.len() == old(self).players.len(),
                self.name == old(self).name,
                self.zone_request_chash == old(self).zone_request_chash,
                self.next_id == old(self).next_id,
                forall|j: int|
                    0 <= j < i ==> (#[trigger] self.players[j])@ == old(
                        self,
                    ).players[j]@.processed(),
                forall|j: int|
                    i <= j < self.players.len() ==> (#[trigger] self.players[j]) == old(
                        self,
                    ).players[j],
                forall|j: int|
                    #![trigger handled[j]]
                    0 <= j < i ==> {
                        let inbound = old(self)@.players[j].tcp.recv_messages;
                        &&& handled[j].applied == count_fate(inbound, Fate::Applied)
                        &&& handled[j].dropped == count_fate(inbound, Fate::Dropped)
                        &&& handled[j].unknown == count_fate(inbound, Fate::Unknown)
                    },
            decreases self.players.len() - i,
        {
            let report = self.players[i].process_packets();
            handled.push(report);
            i += 1;
        }
        assert(self@.players =~= old(self)@.processed_all().players);
        handled
    }

    /// The simulation phase: every live connection is advanced one step.
    /// What else lives in the zone is the caller's to advance, right after.
    pub fn advance_all(&mut self)
        ensures
            final(self)@ == old(self)@.advanced_all(),
            old(self)@.wf() ==> final(self)@.wf(),
    {
        proof {
            lemma_phases_keep_table(self@, Seq::empty(), Seq::empty());
        }
        let mut i: usize = 0;
        while i < self.players.len()
            invariant
                i <= self.players.len(),
                self.players.len() == old(self).players.len(),
                self.name == old(self).name,
                self.zone_request_chash == old(self).zone_request_chash,
                self.next_id == old(self).next_id,
                forall|j: int|
                    0 <= j < i ==> (#[trigger] self.players[j])@ == old(
                        self,
                    ).players[j]@.advanced(),
                forall|j: int|
                    i <= j < self.players.len() ==> (#[trigger] self.players[j]) == old(
                        self,
                    ).players[j],
            decreases self.players.len() - i,
        {
            self.players[i].update();
            i += 1;
        }
        assert(self@.players =~= old(self)@.advanced_all().players);
    }

    /// Takes the deferred commands of every live connection, connection
    /// after connection in table order.
    fn take_all_commands(&mut self) -> (commands: Vec<Command>)
        ensures
            final(self)@ == old(self)@.commands_taken(),
            commands.deep_view() == old(self)@.pending_commands(),
    {
        let ghost buffers = old(self)@.players.map_values(|c: ClusterView| c.commands);
        let mut commands: Vec<Command> = Vec::new();
        assert(commands.deep_view() =~= buffers.take(0).flatten());
        let mut i: usize = 0;
        while i < self.players.len()
            invariant
                i <= self.players.len(),
                self.players.len() == old(self).players.len(),
                self.name == old(self).name,
                self.zone_request_chash == old(self).zone_request_chash,
                self.next_id == old(self).next_id,
                buffers == old(self)@.players.map_values(|c: ClusterView| c.commands),
                commands.deep_view() == buffers.take(i as int).flatten(),
                forall|j: int|
                    0 <= j < i ==> (#[trigger] self.players[j])@ == old(
                        self,
                    ).players[j]@.without_commands(),
                forall|j: int|
                    i <= j < self.players.len() ==> (#[trigger] self.players[j]) == old(
                        self,
                    ).players[j],
            decreases self.players.len() - i,
        {
            let ghost before = commands.deep_view();
            let mut taken = self.players[i].take_commands();
            let ghost added = taken.deep_view();
            commands.append(&mut taken);
            proof {
                assert(commands.deep_view() =~= before + added);
                assert(buffers.take(i + 1) =~= buffers.take(i as int).push(added));
                buffers.take(i as int).lemma_flatten_push(added);
            }
            i += 1;
        }
        assert(buffers.take(i as int) =~= buffers);
        assert(self@.players =~= old(self)@.commands_taken().players);
        commands
    }

    /// The command phase: takes every deferred command and carries them
    /// out in one sequence, each connection's commands in the order it
    /// deferred them, connection after connection in table order.
    pub fn execute_client_commands(&mut self)
        ensures
            final(self)@ == old(self)@.commands_run(),
            old(self)@.wf() ==> final(self)@.wf(),
    {
        proof {
            lemma_commands_run_keeps_table(self@);
        }
        let commands = self.take_all_commands();
        let ghost start = self@;
        let ghost all = commands.deep_view();
        let mut i: usize = 0;
        while i < commands.len()
            invariant
                i <= commands.len(),
                all == commands.deep_view(),
                self@ == start.executed_all(all.take(i as int)),
            decreases commands.len() - i,
        {
            proof {
                assert(all.take(i + 1).drop_last() =~= all.take(i as int));
            }
            commands[i].execute(self);
            i += 1;
        }
        assert(all.take(i as int) =~= all);
    }

    /// Welcomes every connection that waits to join and puts it at the end
    /// of the table.
    pub fn add_client_accepted(&mut self)
        ensures
            final(self)@ == old(self)@.joined(),
            old(self)@.wf() ==> final(self)@.wf(),
    {
        proof {
            lemma_joined_keeps_known(self@);
        }
        let login_chash = self.zone_request_chash.get_login_chash_take();
        let ghost raw = login_chash@;
        let ghost all = login_chash.deep_view();
        let ghost welcome = |c: ClusterView| c.welcomed();
        assert(raw.len() == login_chash.len());
        assert(self.players.deep_view() =~= old(self)@.players + all.take(0).map_values(welcome));
        for login in it: login_chash.into_iter()
            invariant
                it.seq() == raw,
                all == raw.map_values(|l: crate::game::zone_request_chash::ZonePlayerLogin| l.deep_view()),
                welcome == |c: ClusterView| c.welcomed(),
                self.name == old(self).name,
                self.next_id == old(self).next_id,
                self.zone_request_chash@.leaves == old(self).zone_request_chash@.leaves,
                self.zone_request_chash@.joins == Seq::<ClusterView>::empty(),
                self.players.deep_view() == old(self)@.players + all.take(
                    it.index() as int,
                ).map_values(welcome),
        {
            let ghost before = self.players.deep_view();
            let mut client_cluster = login.client_cluster;
            client_cluster.on_accepted();
            self.players.push(client_cluster);
            proof {
                assert(self.players.deep_view() =~= before.push(client_cluster@));
                assert(all.take(it.index() + 1) =~= all.take(it.index() as int).push(
                    all[it.index() as int],
                ));
                assert(self.players.deep_view() =~= old(self)@.players + all.take(
                    it.index() + 1,
                ).map_values(welcome));
            }
        }
        assert(all.take(all.len() as int) =~= all);
    }

    /// Takes every live connection that is to leave out of the table.
    pub fn remove_client_chashed(&mut self)
        ensures
            final(self)@ == old(self)@.left(),
            old(self)@.wf() ==> final(self)@.wf(),
    {
        proof {
            if self@.wf() {
                lemma_left_keeps_wf(self@);
            }
        }
        let logout_chash = self.zone_request_chash.get_logout_chash_take();
        let ghost leaves = logout_chash.deep_view();
        let ghost table = self.players.deep_view();
        let ghost stays = |c: ClusterView| !leaves.contains(c.id());
        let total: usize = self.players.len();
        let mut at: usize = 0;
        let mut seen: usize = 0;
        proof {
            reveal(Seq::filter);
            assert(self.players.deep_view() =~= table.take(0).filter(stays) + table.skip(0));
        }
        while seen < total
            invariant
                total == table.len(),
                seen <= total,
                at <= seen,
                leaves == logout_chash.deep_view(),
                stays == |c: ClusterView| !leaves.contains(c.id()),
                self.name == old(self).name,
                self.next_id == old(self).next_id,
                self.zone_request_chash@.joins == old(self).zone_request_chash@.joins,
                self.zone_request_chash@.leaves == Seq::<u64>::empty(),
                at == table.take(seen as int).filter(stays).len(),
                self.players.deep_view() == table.take(seen as int).filter(stays) + table.skip(
                    seen as int,
                ),
            decreases total - seen,
        {
            let ghost now = self.players.deep_view();
            proof {
                assert(table.take(seen + 1) =~= table.take(seen as int).push(table[seen as int]));
                table.take(seen as int).lemma_filter_push(table[seen as int], stays);
                assert(now.len() == at + table.skip(seen as int).len());
                assert(now.len() == self.players.len());
                assert(now[at as int] == table[seen as int]);
            }
            if is_leaving(&logout_chash, self.players[at].id()) {
                self.players.remove(at);
                assert(self.players.deep_view() =~= now.remove(at as int));
                assert(now.remove(at as int) =~= table.take(seen + 1).filter(stays) + table.skip(
                    seen + 1,
                ));
            } else {
                assert(now =~= table.take(seen + 1).filter(stays) + table.skip(seen + 1));
                at += 1;
            }
            seen += 1;
        }
        assert(table.take(seen as int) =~= table);
        assert(self.players.deep_view() =~= table.filter(stays));
    }

    /// The first six phases of one tick: accept, receive, decode,
    /// simulate, run the deferred commands, commit the joins and leaves.
    /// `accept` is what polling the listener gave and `reads[i]` what
    /// reading the socket of the `i`-th live connection gave. The send
    /// phase follows in [`send_all`](Self::send_all), once the caller has
    /// written what each connection offers.
    pub fn update(&mut self, accept: AcceptOutcome, reads: Vec<ReadOutcome>) -> (report: TickReport)
        ensures
            final(self)@ == old(self)@.ticked(accept, reads.deep_view()),
            old(self)@.wf() ==> final(self)@.wf(),
            report.accepted == if old(self)@.admits(accept) {
                Some(old(self)@.next_id)
            } else {
                None
            },
            report.skipped.len() == if reads.len() <= old(self)@.players.len() {
                reads.len() as int
            } else {
                old(self)@.players.len() as int
            },
            forall|i: int|
                0 <= i < report.skipped.len() ==> #[trigger] report.skipped[i] == skipped_frames(
                    reads.deep_view()[i],
                ),
            report.handled.len() == old(self)@.players.len(),
            forall|i: int|
                #![trigger report.handled[i]]
                0 <= i < report.handled.len() ==> {
                    let inbound = old(self)@.accepted(accept).received_all(
                        reads.deep_view(),
                    ).players[i].tcp.recv_messages;
                    &&& report.handled[i].applied == count_fate(inbound, Fate::Applied)
                    &&& report.handled[i].dropped == count_fate(inbound, Fate::Dropped)
                    &&& report.handled[i].unknown == count_fate(inbound, Fate::Unknown)
                },
    {
        proof {
            if self@.wf() {
                lemma_tick_keeps_wf(self@, accept, reads.deep_view(), Seq::empty());
            }
        }
        let accepted = self.accept_client(accept);
        let skipped = self.recv_all(reads);
        let handled = self.process_all();
        self.advance_all();
        self.execute_client_commands();
        self.add_client_accepted();
        self.remove_client_chashed();
        self.zone_request_chash.clear();
        TickReport { accepted, skipped, handled }
    }

    /// The send phase: settles the flush of each live connection,
    /// `writes[i]` for the `i`-th connection of the table. Says, for each
    /// connection that was settled, how many of its queued packets do not
    /// serialise.
    pub fn send_all(&mut self, writes: &Vec<WriteOutcome>) -> (failed: Vec<usize>)
        ensures
            final(self)@ == old(self)@.sent_all(writes@),
            old(self)@.wf() ==> final(self)@.wf(),
            failed.len() == if writes.len() <= old(self)@.players.len() {
                writes.len() as int
            } else {
                old(self)@.players.len() as int
            },
            forall|i: int|
                0 <= i < failed.len() ==> #[trigger] failed[i] == unwritable(
                    old(self)@.players[i].tcp.send_messages,
                ),
    {
        proof {
            lemma_phases_keep_table(self@, Seq::empty(), writes@);
        }
        let mut failed: Vec<usize> = Vec::new();
        let mut i: usize = 0;
        while i < self.players.len() && i < writes.len()
            invariant
                i <= self.players.len(),
                i <= writes.len(),
                failed.len() == i,
                self.players.len() == old(self).players.len(),
                self.name == old(self).name,
                self.zone_request_chash == old(self).zone_request_chash,
                self.next_id == old(self).next_id,
                forall|j: int|
                    0 <= j < i ==> #[trigger] failed[j] == unwritable(
                        old(self)@.players[j].tcp.send_messages,
                    ),
                forall|j: int|
                    0 <= j < i ==> (#[trigger] self.players[j])@ == old(self).players[j]@.sent(
                        writes[j],
                    ),
                forall|j: int|
                    i <= j < self.players.len() ==> (#[trigger] self.players[j]) == old(
                        self,
                    ).players[j],
            decreases self.players.len() - i,
        {
            let count = self.players[i].send_packets(writes[i]);
            failed.push(count);
            i += 1;
        }
        assert(self@.players =~= old(self)@.sent_all(writes@).players);
        failed
    }
}

} // verus!
