//! Handles to engine scene nodes.

use vstd::prelude::*;

verus! {

/// A weak reference to one scene node of the engine.
///
/// The handle holds the identifier that the engine gave the node. It does not
/// own the node and says nothing about whether the node is still alive: a
/// handle whose node has been freed is stale, and whoever consumes it has to
/// skip it. Two handles are equal exactly when they name the same node, no
/// matter when or how each was made.
#[derive(Debug, Clone, Copy, PartialEq, Eq, Hash, Structural)]
pub struct GodotNodeHandle {
    /// The engine's identifier of the node, stable for the node's lifetime.
    pub instance_id: i64,
}

impl GodotNodeHandle {
    /// The handle of the node with the given engine identifier.
    pub fn from_instance_id(instance_id: i64) -> (handle: Self)
        ensures
            handle.instance_id == instance_id,
    {
        GodotNodeHandle { instance_id }
    }

    /// The engine identifier of the node that this handle names.
    pub fn instance_id(&self) -> (id: i64)
        ensures
            id == self.instance_id,
    {
        self.instance_id
    }

    /// Whether both handles name the same node.
    pub fn same_node(&self, other: &GodotNodeHandle) -> (same: bool)
        ensures
            same == (*self == *other),
            same == (self.instance_id == other.instance_id),
    {
        self.instance_id == other.instance_id
    }
}

/// Identifier of an entity of the ECS world.
///
/// The world hands these out; the bit pattern is opaque and only serves to
/// tell entities apart.
#[derive(Debug, Clone, Copy, PartialEq, Eq, Hash, Structural)]
pub struct Entity {
    /// The identifier's bit pattern.
    pub bits: u64,
}

impl Entity {
    /// The entity with the given bit pattern.
    pub fn from_bits(bits: u64) -> (entity: Self)
        ensures
            entity.bits == bits,
    {
        Entity { bits }
    }

    /// The bit pattern of this entity.
    pub fn to_bits(self) -> (bits: u64)
        ensures
            bits == self.bits,
    {
        self.bits
    }
}

} // verus!
