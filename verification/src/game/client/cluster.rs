//! A connection binds one player to its transport and to the commands that
//! handling its packets deferred.

use crate::entity::entity::Entity;
use crate::entity::player::{group_player, Player};
use crate::game::client::command::{
    ChatBroadcastCommand,
    Command,
    CommandView,
    DisconnectForceCommand,
    LogoutRequestCommand,
};
use crate::game::steps::lemma_steps_keep_connection;
use crate::game::tcp_client::{
    skipped_frames,
    unwritable,
    ReadOutcome,
    ReadOutcomeView,
    TcpClient,
    TcpClientView,
    WriteOutcome,
};
use crate::proto::{
    Body,
    BodyView,
    Category,
    LogoutPacketType,
    Packet,
    PacketView,
    SyncPacketType,
    TextMessageType,
};
use vstd::prelude::*;

verus! {

broadcast use group_player;

/// What became of one inbound packet.
#[derive(Clone, Copy, Debug, PartialEq, Eq, Structural)]
pub enum Fate {
    /// It moved the player or deferred a command.
    Applied,
    /// Its body did not decode; it was left out.
    Dropped,
    /// Its category is none that a connection handles; it was passed over.
    Unknown,
}

/// What becomes of `packet` when a connection handles it.
pub open spec fn fate_of(packet: PacketView) -> Fate {
    match packet.category {
        Category::Logout(LogoutPacketType::Request) => Fate::Applied,
        Category::Sync(SyncPacketType::Transform) => if packet.body is TransformSync {
            Fate::Applied
        } else {
            Fate::Dropped
        },
        Category::TextMessage(TextMessageType::ChatSend) => if packet.body is ChatMessage {
            Fate::Applied
        } else {
            Fate::Dropped
        },
        _ => Fate::Unknown,
    }
}

/// How many of `packets` meet `fate`.
pub open spec fn count_fate(packets: Seq<PacketView>, fate: Fate) -> nat
    decreases packets.len(),
{
    if packets.len() == 0 {
        0
    } else {
        count_fate(packets.drop_last(), fate) + if fate_of(packets.last()) == fate {
            1nat
        } else {
            0nat
        }
    }
}

/// How many packets of one batch met each fate.
#[derive(Clone, Copy, Debug, PartialEq, Eq, Structural)]
pub struct ProcessReport {
    pub applied: usize,
    pub dropped: usize,
    pub unknown: usize,
}

/// The mathematical value of a [`Cluster`].
pub struct ClusterView {
    pub player: Player,
    pub tcp: TcpClientView,
    /// The commands deferred and not yet taken, oldest first.
    pub commands: Seq<CommandView>,
}

impl ClusterView {
    /// The connection of `player` over a transport that has seen nothing.
    pub open spec fn fresh(player: Player) -> ClusterView {
        ClusterView { player, tcp: TcpClientView::fresh(), commands: Seq::empty() }
    }

    /// The identity of the connection: that of its player.
    pub open spec fn id(self) -> u64 {
        self.player.entity_id()
    }

    /// Every deferred command is about the connection's own player.
    pub open spec fn wf(self) -> bool {
        forall|i: int| 0 <= i < self.commands.len() ==> (#[trigger] self.commands[i]).subject()
            == self.id()
    }

    /// With `packet` at the end of the outbound queue.
    pub open spec fn stacked(self, packet: PacketView) -> ClusterView {
        ClusterView { tcp: self.tcp.stacked(packet), ..self }
    }

    /// With `command` deferred.
    pub open spec fn deferred(self, command: CommandView) -> ClusterView {
        ClusterView { commands: self.commands.push(command), ..self }
    }

    /// After one read of the socket.
    pub open spec fn received(self, outcome: ReadOutcomeView) -> ClusterView {
        ClusterView { tcp: self.tcp.received(outcome), ..self }
    }

    /// After handling one inbound packet. A request to leave defers a
    /// logout; a transform moves the player, whatever the distance; a chat
    /// line defers a broadcast in the player's own name, whoever the body
    /// names. A body that does not fit the category, and a category that
    /// is not handled, change nothing.
    pub open spec fn handled(self, packet: PacketView) -> ClusterView {
        match packet.category {
            Category::Logout(LogoutPacketType::Request) => self.deferred(
                CommandView::Logout { player_id: self.id() },
            ),
            Category::Sync(SyncPacketType::Transform) => match packet.body {
                BodyView::TransformSync { position, .. } => ClusterView {
                    player: self.player.moved_to(position),
                    ..self
                },
                _ => self,
            },
            Category::TextMessage(TextMessageType::ChatSend) => match packet.body {
                BodyView::ChatMessage { text, .. } => self.deferred(
                    CommandView::ChatBroadcast { from: self.id(), text },
                ),
                _ => self,
            },
            _ => self,
        }
    }

    /// After handling `packets`, oldest first.
    pub open spec fn handled_all(self, packets: Seq<PacketView>) -> ClusterView
        decreases packets.len(),
    {
        if packets.len() == 0 {
            self
        } else {
            self.handled_all(packets.drop_last()).handled(packets.last())
        }
    }

    /// After handling all that came in: the inbound queue is empty and each
    /// of its packets was handled in turn.
    pub open spec fn processed(self) -> ClusterView {
        ClusterView { tcp: self.tcp.drained(), ..self }.handled_all(self.tcp.recv_messages)
    }

    /// After one step of simulation: the player is advanced, a transport
    /// that is given up defers a forced disconnect, and a closed one defers
    /// a logout. Both may happen in one step.
    pub open spec fn advanced(self) -> ClusterView {
        let moved = ClusterView { player: self.player.advanced(), ..self };
        let checked = if self.tcp.unhealthy() {
            moved.deferred(CommandView::ForceDisconnect { player_id: self.id() })
        } else {
            moved
        };
        if self.tcp.disconnected {
            checked.deferred(CommandView::Logout { player_id: self.id() })
        } else {
            checked
        }
    }

    /// With no command deferred.
    pub open spec fn without_commands(self) -> ClusterView {
        ClusterView { commands: Seq::empty(), ..self }
    }

    /// After the connection was told the identity it was given.
    pub open spec fn welcomed(self) -> ClusterView {
        self.stacked(PacketView::login_result(self.id()))
    }

    /// After one flush of the transport.
    pub open spec fn sent(self, outcome: WriteOutcome) -> ClusterView {
        ClusterView { tcp: self.tcp.sent(outcome), ..self }
    }
}

/// Whether a connection is well formed depends on its identity and its
/// deferred commands alone.
pub proof fn lemma_wf_of_commands(before: ClusterView, after: ClusterView)
    requires
        before.wf(),
        after.commands == before.commands,
        after.id() == before.id(),
    ensures
        after.wf(),
{
    assert forall|i: int| 0 <= i < after.commands.len() implies (#[trigger] after.commands[i]).subject()
        == after.id() by {
        assert(before.commands[i].subject() == before.id());
    }
}

/// One live or pending connection.
#[derive(Debug)]
pub struct Cluster {
    player: Player,
    tcp: TcpClient,
    command_buffers: Vec<Command>,
}

impl View for Cluster {
    type V = ClusterView;

    closed spec fn view(&self) -> ClusterView {
        ClusterView {
            player: self.player,
            tcp: self.tcp@,
            commands: self.command_buffers.deep_view(),
        }
    }
}

impl DeepView for Cluster {
    type V = ClusterView;

    open spec fn deep_view(&self) -> ClusterView {
        self@
    }
}

impl Cluster {
    /// The connection of `player` over `tcp`, with no command deferred.
    pub fn new(player: Player, tcp: TcpClient) -> (cluster: Cluster)
        ensures
            cluster@ == (ClusterView { player, tcp: tcp@, commands: Seq::empty() }),
            cluster@.wf(),
    {
        let cluster = Cluster { player, tcp, command_buffers: Vec::new() };
        assert(cluster.command_buffers.deep_view() =~= Seq::empty());
        cluster
    }

    /// Takes in what one read of the connection's socket gave, and says
    /// how many frames were no packets.
    pub fn recv_packets(&mut self, outcome: ReadOutcome) -> (skipped: usize)
        ensures
            final(self)@ == old(self)@.received(outcome@),
            old(self)@.wf() ==> final(self)@.wf(),
            skipped == skipped_frames(outcome@),
    {
        let skipped = self.tcp.recv(outcome);
        proof {
            if old(self)@.wf() {
                lemma_wf_of_commands(old(self)@, self@);
            }
        }
        skipped
    }

    fn defer(&mut self, command: Command)
        ensures
            final(self)@ == old(self)@.deferred(command@),
    {
        self.command_buffers.push(command);
        assert(self.command_buffers.deep_view() =~= old(self).command_buffers.deep_view().push(
            command@,
        ));
    }

    /// Handles one inbound packet and says what became of it.
    fn process_packet(&mut self, packet: Packet) -> (fate: Fate)
        ensures
            final(self)@ == old(self)@.handled(packet@),
            fate == fate_of(packet@),
    {
        match packet.category {
            Category::Logout(LogoutPacketType::Request) => {
                self.defer(Command::Logout(LogoutRequestCommand::new(self.player.id())));
                Fate::Applied
            },
            Category::Sync(SyncPacketType::Transform) => match packet.body {
                Body::TransformSync { position, rotation: _ } => {
                    self.player.set_position(position);
                    Fate::Applied
                },
                _ => Fate::Dropped,
            },
            Category::TextMessage(TextMessageType::ChatSend) => match packet.body {
                Body::ChatMessage { user_id: _, text } => {
                    self.defer(
                        Command::ChatBroadcast(ChatBroadcastCommand::new(self.player.id(), text)),
                    );
                    Fate::Applied
                },
                _ => Fate::Dropped,
            },
            _ => Fate::Unknown,
        }
    }

    /// Handles every packet that came in, oldest first, and empties the
    /// inbound queue. A packet whose body did not decode is left out and
    /// the next one is handled as if it had never come.
    pub fn process_packets(&mut self) -> (report: ProcessReport)
        ensures
            final(self)@ == old(self)@.processed(),
            old(self)@.wf() ==> final(self)@.wf(),
            report.applied == count_fate(old(self)@.tcp.recv_messages, Fate::Applied),
            report.dropped == count_fate(old(self)@.tcp.recv_messages, Fate::Dropped),
            report.unknown == count_fate(old(self)@.tcp.recv_messages, Fate::Unknown),
    {
        proof {
            lemma_steps_keep_connection(self@);
        }
        let messages = self.tcp.into_recv_messages();
        let ghost all = messages.deep_view();
        let ghost raw = messages@;
        let ghost start = self@;
        assert(raw.len() == messages.len());
        let mut report = ProcessReport { applied: 0, dropped: 0, unknown: 0 };
        for message in it: messages.into_iter()
            invariant
                it.seq() == raw,
                raw.len() <= usize::MAX,
                all == raw.map_values(|p: Packet| p.deep_view()),
                self@ == start.handled_all(all.take(it.index() as int)),
                report.applied == count_fate(all.take(it.index() as int), Fate::Applied),
                report.dropped == count_fate(all.take(it.index() as int), Fate::Dropped),
                report.unknown == count_fate(all.take(it.index() as int), Fate::Unknown),
                report.applied + report.dropped + report.unknown == it.index(),
        {
            proof {
                assert(all.take(it.index() + 1).drop_last() =~= all.take(it.index() as int));
            }
            let fate = self.process_packet(message);
            match fate {
                Fate::Applied => {
                    report.applied += 1;
                },
                Fate::Dropped => {
                    report.dropped += 1;
                },
                Fate::Unknown => {
                    report.unknown += 1;
                },
            }
        }
        assert(all.take(all.len() as int) =~= all);
        report
    }

    /// One step of simulation for this connection.
    pub fn update(&mut self)
        ensures
            final(self)@ == old(self)@.advanced(),
            old(self)@.wf() ==> final(self)@.wf(),
    {
        proof {
            lemma_steps_keep_connection(self@);
        }
        self.player.update();
        if self.tcp.check_error() {
            self.defer(Command::ForceDisconnect(DisconnectForceCommand::new(self.player.id())));
        }
        if self.tcp.is_disconnected() {
            self.defer(Command::Logout(LogoutRequestCommand::new(self.player.id())));
        }
    }

    /// The buffers to hand to one vectored write of this connection.
    pub fn send_batch(&self) -> (batch: Vec<Vec<u8>>)
        ensures
            batch.deep_view() == self@.tcp.batch(),
    {
        self.tcp.send_batch()
    }

    /// Settles one flush of the connection's transport, and says how many
    /// queued packets do not serialise.
    pub fn send_packets(&mut self, outcome: WriteOutcome) -> (failed: usize)
        ensures
            final(self)@ == old(self)@.sent(outcome),
            old(self)@.wf() ==> final(self)@.wf(),
            failed == unwritable(old(self)@.tcp.send_messages),
    {
        let failed = self.tcp.send(outcome);
        proof {
            if old(self)@.wf() {
                lemma_wf_of_commands(old(self)@, self@);
            }
        }
        failed
    }

    /// Hands out the deferred commands, oldest first, and forgets them.
    pub fn take_commands(&mut self) -> (commands: Vec<Command>)
        ensures
            commands.deep_view() == old(self)@.commands,
            final(self)@ == old(self)@.without_commands(),
            old(self)@.wf() ==> final(self)@.wf(),
    {
        let mut commands: Vec<Command> = Vec::new();
        core::mem::swap(&mut commands, &mut self.command_buffers);
        assert(self.command_buffers.deep_view() =~= Seq::empty());
        commands
    }

    /// Puts `packet` at the end of the connection's outbound queue.
    pub fn stack_packet(&mut self, packet: Packet)
        ensures
            final(self)@ == old(self)@.stacked(packet@),
            old(self)@.wf() ==> final(self)@.wf(),
    {
        self.tcp.stack_packet(packet);
        proof {
            if old(self)@.wf() {
                lemma_wf_of_commands(old(self)@, self@);
            }
        }
    }

    /// Tells the connection the identity it was given. The zone does this
    /// once, when the connection joins the table.
    pub fn on_accepted(&mut self)
        ensures
            final(self)@ == old(self)@.welcomed(),
            old(self)@.wf() ==> final(self)@.wf(),
    {
        let packet = Packet::login_result(self.player.id());
        self.tcp.stack_packet(packet);
        proof {
            if old(self)@.wf() {
                lemma_wf_of_commands(old(self)@, self@);
            }
        }
    }

    /// The identity of the connection: that of its player.
    pub fn id(&self) -> (id: u64)
        ensures
            id == self@.id(),
    {
        self.player.id()
    }

    /// The connection's player.
    pub fn player(&self) -> (player: &Player)
        ensures
            *player == self@.player,
    {
        &self.player
    }

    /// The connection's transport.
    pub fn tcp(&self) -> (tcp: &TcpClient)
        ensures
            tcp@ == self@.tcp,
    {
        &self.tcp
    }
}

} // verus!
