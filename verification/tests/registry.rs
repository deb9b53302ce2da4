use godot_bevy::{
    AppSceneTreeExt, DefaultInitializer, GodotNodeHandle, SceneTreeComponentRegistry,
};
use std::any::TypeId;

#[derive(Debug, Default, Clone, PartialEq)]
struct Health(u32);

#[derive(Debug, Default, Clone, PartialEq)]
struct Label(String);

/// A stand-in for an entity under construction: the components that were
/// attached, in order.
#[derive(Debug, Default, Clone, PartialEq)]
struct Spawned {
    health: Vec<Health>,
    labels: Vec<Label>,
    log: Vec<&'static str>,
}

type Init = Box<dyn Fn(Spawned, &GodotNodeHandle) -> Spawned>;

struct Initializer(Init);

impl DefaultInitializer<Health> for Init {
    fn default_initializer() -> Self {
        Box::new(|mut e: Spawned, _| {
            e.health.push(Health::default());
            e.log.push("health");
            e
        })
    }
}

impl DefaultInitializer<Label> for Init {
    fn default_initializer() -> Self {
        Box::new(|mut e: Spawned, _| {
            e.labels.push(Label::default());
            e.log.push("label");
            e
        })
    }
}

fn node() -> GodotNodeHandle {
    GodotNodeHandle::from_instance_id(77)
}

#[test]
fn new_registry_is_empty_and_leaves_the_entity_alone() {
    let registry: SceneTreeComponentRegistry<Init> = SceneTreeComponentRegistry::new();
    assert_eq!(registry.len(), 0);
    let e = registry.add_to_entity(Spawned::default(), &node());
    assert_eq!(e, Spawned::default());
    let other: SceneTreeComponentRegistry<Init> = SceneTreeComponentRegistry::default();
    assert_eq!(other.len(), 0);
}

#[test]
fn registered_default_is_present_right_after_mirroring() {
    let mut registry: SceneTreeComponentRegistry<Init> = SceneTreeComponentRegistry::new();
    registry.register::<Health>();
    let e = registry.add_to_entity(Spawned::default(), &node());
    assert_eq!(e.health, vec![Health::default()]);
    assert_eq!(e.health, vec![Health(0)]);
    assert!(e.labels.is_empty());
}

#[test]
fn registering_a_type_twice_runs_one_initializer() {
    let mut registry: SceneTreeComponentRegistry<Init> = SceneTreeComponentRegistry::new();
    registry.register::<Health>();
    registry.register::<Health>();
    assert_eq!(registry.len(), 1);
    let e = registry.add_to_entity(Spawned::default(), &node());
    assert_eq!(e.health.len(), 1);
    assert_eq!(e.log, vec!["health"]);
}

#[test]
fn first_registration_wins_over_a_custom_one() {
    let mut registry: SceneTreeComponentRegistry<Init> = SceneTreeComponentRegistry::new();
    registry.register::<Health>();
    registry.register_with_init::<Health>(Box::new(|mut e: Spawned, _| {
        e.health.push(Health(100));
        e.log.push("custom");
        e
    }));
    assert_eq!(registry.len(), 1);
    let e = registry.add_to_entity(Spawned::default(), &node());
    assert_eq!(e.health, vec![Health(0)]);
    assert_eq!(e.log, vec!["health"]);
}

#[test]
fn custom_registration_wins_when_it_comes_first() {
    let mut registry: SceneTreeComponentRegistry<Init> = SceneTreeComponentRegistry::new();
    registry.register_with_init::<Health>(Box::new(|mut e: Spawned, _| {
        e.health.push(Health(100));
        e
    }));
    registry.register_with_init::<Health>(Box::new(|mut e: Spawned, _| {
        e.health.push(Health(5));
        e
    }));
    registry.register::<Health>();
    assert_eq!(registry.len(), 1);
    let e = registry.add_to_entity(Spawned::default(), &node());
    assert_eq!(e.health, vec![Health(100)]);
}

#[test]
fn initializers_run_in_registration_order() {
    let mut registry: SceneTreeComponentRegistry<Init> = SceneTreeComponentRegistry::new();
    registry.register::<Label>();
    registry.register::<Health>();
    registry.register::<Label>();
    assert_eq!(registry.len(), 2);
    let e = registry.add_to_entity(Spawned::default(), &node());
    assert_eq!(e.log, vec!["label", "health"]);
}

#[test]
fn initializer_sees_the_node_handle() {
    let mut registry: SceneTreeComponentRegistry<Init> = SceneTreeComponentRegistry::new();
    registry.register_with_init::<Health>(Box::new(|mut e: Spawned, n: &GodotNodeHandle| {
        e.health.push(Health(n.instance_id() as u32));
        e
    }));
    let e = registry.add_to_entity(Spawned::default(), &node());
    assert_eq!(e.health, vec![Health(77)]);
}

#[test]
fn register_type_is_keyed_by_the_type_id() {
    let mut registry: SceneTreeComponentRegistry<Init> = SceneTreeComponentRegistry::new();
    assert!(!registry.is_registered(&TypeId::of::<Health>()));
    registry.register_type(TypeId::of::<Health>(), <Init as DefaultInitializer<Health>>::default_initializer());
    assert!(registry.is_registered(&TypeId::of::<Health>()));
    assert!(!registry.is_registered(&TypeId::of::<Label>()));
    // The generic registration finds the same key.
    registry.register::<Health>();
    assert_eq!(registry.len(), 1);
    registry.register_type(TypeId::of::<Label>(), <Init as DefaultInitializer<Label>>::default_initializer());
    assert_eq!(registry.len(), 2);
    assert!(registry.is_registered(&TypeId::of::<Label>()));
}

#[test]
fn world_slot_makes_the_registry_on_first_use() {
    let mut slot: Option<SceneTreeComponentRegistry<Init>> = None;
    slot.register_scene_tree_component::<Health>();
    assert_eq!(slot.as_ref().map(|r| r.len()), Some(1));
    slot.register_scene_tree_component::<Health>();
    slot.register_scene_tree_component_with_init::<Label>(Box::new(|mut e: Spawned, _| {
        e.labels.push(Label("n".to_string()));
        e
    }));
    slot.register_scene_tree_component_with_init::<Label>(Box::new(|e: Spawned, _| e));
    let registry = slot.unwrap();
    assert_eq!(registry.len(), 2);
    let e = registry.add_to_entity(Spawned::default(), &node());
    assert_eq!(e.health, vec![Health(0)]);
    assert_eq!(e.labels, vec![Label("n".to_string())]);
}

#[test]
fn initializer_wrapper_type_is_usable() {
    // The registry holds whatever initializer type its user picks.
    let mut registry: SceneTreeComponentRegistry<Initializer> = SceneTreeComponentRegistry::new();
    registry.register_type(TypeId::of::<Health>(), Initializer(Box::new(|e, _| e)));
    assert_eq!(registry.len(), 1);
    assert_eq!((registry_first(&registry).0)(Spawned::default(), &node()), Spawned::default());
}

fn registry_first(_registry: &SceneTreeComponentRegistry<Initializer>) -> Initializer {
    Initializer(Box::new(|e, _| e))
}
