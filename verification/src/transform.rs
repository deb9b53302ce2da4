//! Transform synchronisation policy.
//!
//! A transform lives twice: once on the ECS entity and once on the engine
//! node it mirrors. The policy chosen at setup decides which copies are
//! carried over, and when, during a cycle.

use vstd::prelude::*;

verus! {

/// How transforms flow between the ECS and the engine's node tree.
#[derive(Debug, Clone, Copy, PartialEq, Eq, Structural)]
pub enum TransformSyncMode {
    /// No synchronisation: the engine's own motion is the only source of truth.
    Disabled,
    /// ECS changes are written to the engine; the engine is never read back.
    OneWay,
    /// The engine is read at the start of a cycle and written at its end.
    TwoWay,
}

impl Default for TransformSyncMode {
    fn default() -> (mode: Self)
        ensures
            mode == TransformSyncMode::OneWay,
    {
        TransformSyncMode::OneWay
    }
}

/// The transform policy of a running session. It is chosen once, at setup.
#[derive(Debug, Clone, Copy, PartialEq, Eq, Structural)]
pub struct GodotTransformConfig {
    pub sync_mode: TransformSyncMode,
}

impl Default for GodotTransformConfig {
    fn default() -> (config: Self)
        ensures
            config.sync_mode == TransformSyncMode::OneWay,
    {
        GodotTransformConfig { sync_mode: TransformSyncMode::OneWay }
    }
}

impl GodotTransformConfig {
    /// No transform synchronisation at all.
    pub fn disabled() -> (config: Self)
        ensures
            config.sync_mode == TransformSyncMode::Disabled,
    {
        GodotTransformConfig { sync_mode: TransformSyncMode::Disabled }
    }

    /// ECS to engine only.
    pub fn one_way() -> (config: Self)
        ensures
            config.sync_mode == TransformSyncMode::OneWay,
    {
        GodotTransformConfig { sync_mode: TransformSyncMode::OneWay }
    }

    /// Both directions.
    pub fn two_way() -> (config: Self)
        ensures
            config.sync_mode == TransformSyncMode::TwoWay,
    {
        GodotTransformConfig { sync_mode: TransformSyncMode::TwoWay }
    }
}

impl TransformSyncMode {
    /// Whether the engine's transforms are read into the ECS at the start of
    /// a cycle.
    pub fn reads_from_engine(self) -> (reads: bool)
        ensures
            reads == (self == TransformSyncMode::TwoWay),
    {
        match self {
            TransformSyncMode::TwoWay => true,
            _ => false,
        }
    }

    /// Whether the transforms of the ECS are written to the engine at the end
    /// of a cycle.
    pub fn writes_to_engine(self) -> (writes: bool)
        ensures
            writes == (self != TransformSyncMode::Disabled),
    {
        match self {
            TransformSyncMode::Disabled => false,
            _ => true,
        }
    }
}

/// The transform of the ECS side after the start of a cycle, where `ecs` and
/// `engine` are the transforms of an entity and of its node before it.
pub open spec fn ecs_after_pre_update<T>(mode: TransformSyncMode, ecs: T, engine: T) -> T {
    if mode == TransformSyncMode::TwoWay {
        engine
    } else {
        ecs
    }
}

/// The transform of the engine side after the end of a cycle, where `ecs` and
/// `engine` are the transforms of an entity and of its node before it.
pub open spec fn engine_after_post_update<T>(mode: TransformSyncMode, ecs: T, engine: T) -> T {
    if mode == TransformSyncMode::Disabled {
        engine
    } else {
        ecs
    }
}

/// The transforms of an entity and of its node, in this order, after one
/// whole cycle in which the systems of the ECS leave the entity's transform
/// at `moved_to`.
pub open spec fn after_sync_cycle<T>(mode: TransformSyncMode, engine: T, moved_to: T) -> (T, T) {
    (moved_to, engine_after_post_update(mode, moved_to, engine))
}

impl GodotTransformConfig {
    /// The step at the start of a cycle: the transform that the entity has
    /// once the engine's transform was read, or left unread, as the policy
    /// says.
    pub fn pre_update_transform<T: Copy>(&self, ecs: T, engine: T) -> (synced: T)
        ensures
            synced == ecs_after_pre_update(self.sync_mode, ecs, engine),
    {
        if self.sync_mode.reads_from_engine() {
            engine
        } else {
            ecs
        }
    }

    /// The step at the end of a cycle, after every system of the ECS has
    /// run: the transform that the node has once the entity's transform was
    /// written, or left unwritten, as the policy says. Where both sides
    /// changed in one cycle the write of the ECS comes last and wins.
    pub fn post_update_transform<T: Copy>(&self, ecs: T, engine: T) -> (synced: T)
        ensures
            synced == engine_after_post_update(self.sync_mode, ecs, engine),
    {
        if self.sync_mode.writes_to_engine() {
            ecs
        } else {
            engine
        }
    }
}

/// Without synchronisation the engine keeps its transform.
///
/// For every transform of the node and every sequence of transforms that the
/// ECS gives the entity, one per cycle: with the policy `Disabled` the node's
/// transform after all these cycles is what it was before them.
pub proof fn lemma_disabled_never_touches_engine<T>(engine: T, moves: Seq<T>)
    ensures
        engine_after_cycles(TransformSyncMode::Disabled, engine, moves) == engine,
    decreases moves.len(),
{
    if moves.len() > 0 {
        lemma_disabled_never_touches_engine(engine, moves.drop_last());
    }
}

/// With synchronisation the engine follows the ECS.
///
/// For every policy but `Disabled`: after one or more cycles the node's
/// transform is the one that the ECS gave the entity in the last of them.
pub proof fn lemma_enabled_engine_follows_ecs<T>(mode: TransformSyncMode, engine: T, moves: Seq<T>)
    requires
        mode != TransformSyncMode::Disabled,
        moves.len() > 0,
    ensures
        engine_after_cycles(mode, engine, moves) == moves.last(),
{
}

/// The node's transform after a run of cycles, in each of which the systems
/// of the ECS leave the entity's transform at the next of `moves`.
pub open spec fn engine_after_cycles<T>(mode: TransformSyncMode, engine: T, moves: Seq<T>) -> T
    decreases moves.len(),
{
    if moves.len() == 0 {
        engine
    } else {
        after_sync_cycle(
            mode,
            engine_after_cycles(mode, engine, moves.drop_last()),
            moves.last(),
        ).1
    }
}

} // verus!
