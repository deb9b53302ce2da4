//! Synchronisation core between an engine's scene tree and an ECS world.
//!
//! The engine owns nodes, physics and rendering; game logic runs as ECS
//! systems. This crate holds the rules that keep the two sides consistent:
//! node handles, the collision bridge, the scene-tree component registry,
//! phases and timing, and the transform synchronisation policy. Every
//! function states its behaviour in a contract that is checked by the
//! verifier.

pub mod collision_laws;
pub mod collisions;
pub mod handle;
pub mod names;
pub mod registry;
pub mod timing;
pub mod transform;

pub use collisions::{
    find_collisions, resolve_entity, update_godot_collisions, write_godot_collision_events,
    CollisionEvent, CollisionEventReader, CollisionEventType, Collisions, GodotCollisionsPlugin,
    AREA_ENTERED, AREA_EXITED, BODY_ENTERED, BODY_EXITED,
};
pub use handle::{Entity, GodotNodeHandle};
pub use names::FindEntityByNameExt;
pub use registry::{AppSceneTreeExt, DefaultInitializer, SceneTreeComponentRegistry};
pub use timing::{
    plan_engine_call, EngineCall, MainThreadMarker, PhysicsUpdate, ScheduleAction,
    SystemDeltaTimer,
};
pub use transform::{GodotTransformConfig, TransformSyncMode};
