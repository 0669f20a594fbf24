//! What every entity of a zone offers.

use vstd::prelude::*;

verus! {

/// Three single-precision coordinates, each held as its IEEE-754 bit
/// pattern. The zone stores and forwards coordinates and never computes
/// with them.
#[derive(Clone, Copy, Debug, PartialEq, Eq, Structural)]
pub struct Point3 {
    pub x: u32,
    pub y: u32,
    pub z: u32,
}

impl Point3 {
    pub fn new(x: u32, y: u32, z: u32) -> (p: Point3)
        ensures
            p == (Point3 { x, y, z }),
    {
        Point3 { x, y, z }
    }
}

/// An entity has an identity, a place and a size, and is advanced once per
/// tick. Advancing never changes the identity.
pub trait Entity: Sized {
    /// The identity of the entity.
    spec fn entity_id(&self) -> u64;

    /// Where the entity is.
    spec fn entity_position(&self) -> Point3;

    /// The bit pattern of the entity's radius.
    spec fn entity_radius(&self) -> u32;

    /// What one tick makes of the entity.
    spec fn advanced(&self) -> Self;

    fn update(&mut self)
        ensures
            *final(self) == old(self).advanced(),
            final(self).entity_id() == old(self).entity_id(),
    ;

    fn position(&self) -> (p: Point3)
        ensures
            p == self.entity_position(),
    ;

    fn radius(&self) -> (r: u32)
        ensures
            r == self.entity_radius(),
    ;

    fn id(&self) -> (id: u64)
        ensures
            id == self.entity_id(),
    ;
}

} // verus!
