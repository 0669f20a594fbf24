//! The requests that packet handling defers to the zone.

use crate::game::zone::{Zone, ZoneView};
use vstd::prelude::*;

verus! {

/// A command is carried out against the zone and nothing else.
pub trait CommandTrait {
    /// The zone after the command was carried out.
    spec fn outcome(&self, zone: ZoneView) -> ZoneView;

    /// Carries the command out.
    fn execute(&self, zone: &mut Zone)
        ensures
            final(zone)@ == self.outcome(old(zone)@),
    ;
}

/// A player asked to leave, or its peer closed the connection.
#[derive(Clone, Copy, Debug, PartialEq, Eq, Structural)]
pub struct LogoutRequestCommand {
    player_id: u64,
}

impl LogoutRequestCommand {
    /// The player that leaves.
    pub closed spec fn spec_player_id(&self) -> u64 {
        self.player_id
    }

    pub fn new(player_id: u64) -> (command: Self)
        ensures
            command.spec_player_id() == player_id,
    {
        LogoutRequestCommand { player_id }
    }

    /// The player that leaves.
    #[verifier::when_used_as_spec(spec_player_id)]
    pub fn player_id(&self) -> (id: u64)
        ensures
            id == self.spec_player_id(),
    {
        self.player_id
    }
}

impl CommandTrait for LogoutRequestCommand {
    open spec fn outcome(&self, zone: ZoneView) -> ZoneView {
        zone.logout_requested(self.spec_player_id())
    }

    fn execute(&self, zone: &mut Zone) {
        zone.dissconnect_request(&self.player_id);
    }
}

/// The zone gives up on a player whose transport is dead.
#[derive(Clone, Copy, Debug, PartialEq, Eq, Structural)]
pub struct DisconnectForceCommand {
    player_id: u64,
}

impl DisconnectForceCommand {
    /// The player that is removed.
    pub closed spec fn spec_player_id(&self) -> u64 {
        self.player_id
    }

    pub fn new(player_id: u64) -> (command: Self)
        ensures
            command.spec_player_id() == player_id,
    {
        DisconnectForceCommand { player_id }
    }

    /// The player that is removed.
    #[verifier::when_used_as_spec(spec_player_id)]
    pub fn player_id(&self) -> (id: u64)
        ensures
            id == self.spec_player_id(),
    {
        self.player_id
    }
}

impl CommandTrait for DisconnectForceCommand {
    open spec fn outcome(&self, zone: ZoneView) -> ZoneView {
        zone.force_disconnected(self.spec_player_id())
    }

    fn execute(&self, zone: &mut Zone) {
        zone.dissconnect_client_force(&self.player_id);
    }
}

/// A player said something to everyone in the zone.
#[derive(Debug, PartialEq, Eq)]
pub struct ChatBroadcastCommand {
    from: u64,
    text: String,
}

impl ChatBroadcastCommand {
    /// The player that spoke.
    pub closed spec fn spec_from(&self) -> u64 {
        self.from
    }

    /// What was said.
    pub closed spec fn spec_text(&self) -> Seq<char> {
        self.text@
    }

    pub fn new(from: u64, text: String) -> (command: Self)
        ensures
            command.spec_from() == from,
            command.spec_text() == text@,
    {
        ChatBroadcastCommand { from, text }
    }

    /// The player that spoke.
    #[verifier::when_used_as_spec(spec_from)]
    pub fn from(&self) -> (id: u64)
        ensures
            id == self.spec_from(),
    {
        self.from
    }

    /// What was said.
    pub fn text(&self) -> (text: &str)
        ensures
            text@ == self.spec_text(),
    {
        self.text.as_str()
    }
}

impl CommandTrait for ChatBroadcastCommand {
    open spec fn outcome(&self, zone: ZoneView) -> ZoneView {
        zone.chat_broadcast(self.spec_from(), self.spec_text())
    }

    fn execute(&self, zone: &mut Zone) {
        zone.broadcast_chat_message(self.from, self.text.as_str());
    }
}

/// A deferred request. It is made while a connection's packets are handled
/// and carried out once, later in the same tick, against the zone.
#[derive(Debug, PartialEq, Eq)]
pub enum Command {
    Logout(LogoutRequestCommand),
    ForceDisconnect(DisconnectForceCommand),
    ChatBroadcast(ChatBroadcastCommand),
}

/// The mathematical value of a [`Command`].
pub enum CommandView {
    Logout { player_id: u64 },
    ForceDisconnect { player_id: u64 },
    ChatBroadcast { from: u64, text: Seq<char> },
}

impl CommandView {
    /// The player that the command is about: the one that leaves, or the
    /// one that spoke.
    pub open spec fn subject(self) -> u64 {
        match self {
            CommandView::Logout { player_id } => player_id,
            CommandView::ForceDisconnect { player_id } => player_id,
            CommandView::ChatBroadcast { from, .. } => from,
        }
    }
}

impl View for Command {
    type V = CommandView;

    open spec fn view(&self) -> CommandView {
        match *self {
            Command::Logout(c) => CommandView::Logout { player_id: c.spec_player_id() },
            Command::ForceDisconnect(c) => CommandView::ForceDisconnect {
                player_id: c.spec_player_id(),
            },
            Command::ChatBroadcast(c) => CommandView::ChatBroadcast {
                from: c.spec_from(),
                text: c.spec_text(),
            },
        }
    }
}

impl DeepView for Command {
    type V = CommandView;

    open spec fn deep_view(&self) -> CommandView {
        self@
    }
}

impl CommandTrait for Command {
    open spec fn outcome(&self, zone: ZoneView) -> ZoneView {
        zone.executed(self@)
    }

    fn execute(&self, zone: &mut Zone) {
        match self {
            Command::Logout(c) => c.execute(zone),
            Command::ForceDisconnect(c) => c.execute(zone),
            Command::ChatBroadcast(c) => c.execute(zone),
        }
    }
}

} // verus!
