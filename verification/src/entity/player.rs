//! The entity that a connected user steers.

use crate::entity::entity::{Entity, Point3};
use vstd::prelude::*;

verus! {

/// The bit pattern of 1.0, the radius of every player.
pub const PLAYER_RADIUS: u32 = 0x3f80_0000;

/// A player: an identity, a position that only the player's own
/// synchronisation packets move, and a radius.
#[derive(Clone, Copy, Debug, PartialEq, Eq, Structural)]
pub struct Player {
    id: u64,
    position: Point3,
    radius: u32,
}

impl Player {
    /// The player `id` at `position`, with the radius of every player.
    pub closed spec fn spec_new(id: u64, position: Point3) -> Player {
        Player { id, position, radius: PLAYER_RADIUS }
    }

    /// A player at `position` with the radius of every player.
    pub fn new(id: u64, position: Point3) -> (p: Player)
        ensures
            p == Player::spec_new(id, position),
    {
        Player { id, position, radius: PLAYER_RADIUS }
    }

    /// What a new player is made of.
    pub broadcast proof fn lemma_new(id: u64, position: Point3)
        ensures
            #![trigger Player::spec_new(id, position)]
            Player::spec_new(id, position).entity_id() == id,
            Player::spec_new(id, position).entity_position() == position,
            Player::spec_new(id, position).entity_radius() == PLAYER_RADIUS,
    {
    }

    /// The player moved to `position`.
    pub closed spec fn moved_to(self, position: Point3) -> Player {
        Player { position, ..self }
    }

    /// Moves the player to `position`, whatever the distance.
    pub fn set_position(&mut self, position: Point3)
        ensures
            *final(self) == old(self).moved_to(position),
    {
        self.position = position;
    }

    /// A moved player is the same player elsewhere.
    pub broadcast proof fn lemma_moved_to(self, position: Point3)
        ensures
            #![trigger self.moved_to(position)]
            self.moved_to(position).entity_id() == self.entity_id(),
            self.moved_to(position).entity_position() == position,
            self.moved_to(position).entity_radius() == self.entity_radius(),
    {
    }
}

impl Entity for Player {
    closed spec fn entity_id(&self) -> u64 {
        self.id
    }

    closed spec fn entity_position(&self) -> Point3 {
        self.position
    }

    closed spec fn entity_radius(&self) -> u32 {
        self.radius
    }

    open spec fn advanced(&self) -> Player {
        *self
    }

    fn update(&mut self) {
    }

    fn position(&self) -> (p: Point3) {
        self.position
    }

    fn radius(&self) -> (r: u32) {
        self.radius
    }

    fn id(&self) -> (id: u64) {
        self.id
    }
}

/// What holds of players however they were made.
pub broadcast group group_player {
    Player::lemma_new,
    Player::lemma_moved_to,
}

} // verus!
