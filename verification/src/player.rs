use vstd::prelude::*;

verus! {

/// Public identifier of a session; doubles as the player identifier.
pub type PlayerId = u128;

/// A position in the world, held as three plain axis values so that the
/// registry and the wire format can speak about it directly. The world
/// subsystem that interprets these values is an external collaborator.
#[derive(Clone, Copy, PartialEq, Eq, Structural, Debug)]
pub struct WorldCoordinate {
    pub x: i64,
    pub y: i64,
    pub z: i64,
}

impl WorldCoordinate {
    pub fn new(x: i64, y: i64, z: i64) -> (r: WorldCoordinate)
        ensures
            r == (WorldCoordinate { x, y, z }),
    {
        WorldCoordinate { x, y, z }
    }
}

impl Default for WorldCoordinate {
    /// The origin, where a freshly connected player is placed.
    fn default() -> (r: WorldCoordinate)
        ensures
            r == (WorldCoordinate { x: 0i64, y: 0i64, z: 0i64 }),
    {
        WorldCoordinate { x: 0, y: 0, z: 0 }
    }
}

/// Presence state of one session: its identity, its position, and the
/// instant (milliseconds on the caller's clock) of its last activity.
#[derive(Clone, Copy, PartialEq, Eq, Structural, Debug)]
pub struct Player {
    pub id: PlayerId,
    pub position: WorldCoordinate,
    pub last_update: u64,
}

impl Player {
    /// A fresh player at the default position, last active `now`.
    pub fn new(id: PlayerId, now: u64) -> (r: Player)
        ensures
            r == (Player { id, position: WorldCoordinate { x: 0i64, y: 0i64, z: 0i64 }, last_update: now }),
    {
        Player { id, position: WorldCoordinate::default(), last_update: now }
    }

    pub fn id(&self) -> (r: PlayerId)
        ensures
            r == self.id,
    {
        self.id
    }

    pub fn position(&self) -> (r: WorldCoordinate)
        ensures
            r == self.position,
    {
        self.position
    }

    /// Moves the player and refreshes its activity instant.
    pub fn set_position(&mut self, position: WorldCoordinate, now: u64)
        ensures
            *final(self) == (Player { id: old(self).id, position, last_update: now }),
    {
        self.position = position;
        self.last_update = now;
    }

    pub fn last_update(&self) -> (r: u64)
        ensures
            r == self.last_update,
    {
        self.last_update
    }
}

} // verus!
