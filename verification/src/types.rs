//! Identifiers shared between the server and its clients.

use vstd::prelude::*;

verus! {

/// Identifier of a player connected to a game server.
#[derive(Debug, Clone, Copy, PartialEq, Eq, Structural, Hash)]
pub struct PlayerId(pub u32);

impl PlayerId {
    /// The identifier's numeric value.
    pub fn to_u32(self) -> (r: u32)
        ensures
            r == self.0,
    {
        self.0
    }

    /// The identifier's numeric value, widened for indexing.
    pub fn to_usize(self) -> (r: usize)
        ensures
            r == self.0 as usize,
    {
        self.0 as usize
    }
}

/// Identifier of an entity in the game world.
#[derive(Debug, Clone, Copy, PartialEq, Eq, Structural, Hash)]
pub struct EntityId(pub u32);

impl EntityId {
    /// The identifier's numeric value.
    pub fn to_u32(self) -> (r: u32)
        ensures
            r == self.0,
    {
        self.0
    }

    /// The identifier's numeric value, widened for indexing.
    pub fn to_usize(self) -> (r: usize)
        ensures
            r == self.0 as usize,
    {
        self.0 as usize
    }
}

} // verus!
