//! An entity that the zone itself steers.

use crate::entity::entity::{Entity, Point3};
use vstd::prelude::*;

verus! {

/// An enemy: an identity, a position and a radius.
#[derive(Clone, Copy, Debug, PartialEq, Eq, Structural)]
pub struct Enemy {
    id: u64,
    position: Point3,
    radius: u32,
}

impl Enemy {
    pub fn new(id: u64, position: Point3, radius: u32) -> (e: Enemy)
        ensures
            e.entity_id() == id,
            e.entity_position() == position,
            e.entity_radius() == radius,
    {
        Enemy { id, position, radius }
    }
}

impl Entity for Enemy {
    closed spec fn entity_id(&self) -> u64 {
        self.id
    }

    closed spec fn entity_position(&self) -> Point3 {
        self.position
    }

    closed spec fn entity_radius(&self) -> u32 {
        self.radius
    }

    open spec fn advanced(&self) -> Enemy {
        *self
    }

    fn update(&mut self) {
    }

    fn position(&self) -> (p: Point3) {
        self.position
    }

    fn radius(&self) -> (r: u32) {
        self.radius
    }

    fn id(&self) -> (id: u64) {
        self.id
    }
}

} // verus!
