use godot_bevy::{
    plan_engine_call, EngineCall, FindEntityByNameExt, GodotTransformConfig, MainThreadMarker,
    PhysicsUpdate, ScheduleAction, SystemDeltaTimer, TransformSyncMode,
};
use std::time::{Duration, Instant};

#[test]
fn default_mode_is_one_way() {
    assert_eq!(TransformSyncMode::default(), TransformSyncMode::OneWay);
    assert_eq!(GodotTransformConfig::default().sync_mode, TransformSyncMode::OneWay);
}

#[test]
fn constructors_pick_their_mode() {
    assert_eq!(GodotTransformConfig::disabled().sync_mode, TransformSyncMode::Disabled);
    assert_eq!(GodotTransformConfig::one_way().sync_mode, TransformSyncMode::OneWay);
    assert_eq!(GodotTransformConfig::two_way().sync_mode, TransformSyncMode::TwoWay);
}

#[test]
fn directions_of_each_mode() {
    assert!(!TransformSyncMode::Disabled.reads_from_engine());
    assert!(!TransformSyncMode::Disabled.writes_to_engine());
    assert!(!TransformSyncMode::OneWay.reads_from_engine());
    assert!(TransformSyncMode::OneWay.writes_to_engine());
    assert!(TransformSyncMode::TwoWay.reads_from_engine());
    assert!(TransformSyncMode::TwoWay.writes_to_engine());
}

#[test]
fn disabled_leaves_the_engine_transform_unchanged_over_many_cycles() {
    let config = GodotTransformConfig::disabled();
    let engine_start: (f32, f32, f32) = (1.0, 2.0, 3.0);
    let mut engine = engine_start;
    let mut ecs: (f32, f32, f32) = (0.0, 0.0, 0.0);
    for step in 0..50 {
        ecs = config.pre_update_transform(ecs, engine);
        ecs = (ecs.0 + 1.5, ecs.1 - 0.5, step as f32);
        engine = config.post_update_transform(ecs, engine);
        assert_eq!(engine, engine_start);
    }
    assert_eq!(ecs, (75.0, -25.0, 49.0));
}

#[test]
fn one_way_writes_and_never_reads() {
    let config = GodotTransformConfig::one_way();
    assert_eq!(config.pre_update_transform(10i32, 99), 10);
    assert_eq!(config.post_update_transform(11i32, 99), 11);
}

#[test]
fn two_way_reads_first_and_the_ecs_write_wins() {
    let config = GodotTransformConfig::two_way();
    // The engine moved the node to 99; the ECS reads it, moves on, writes back.
    let ecs = config.pre_update_transform(10i32, 99);
    assert_eq!(ecs, 99);
    let ecs = ecs + 1;
    assert_eq!(config.post_update_transform(ecs, 99), 100);
}

#[test]
fn a_frame_runs_the_update_phase_only() {
    let actions = plan_engine_call::<f64>(EngineCall::Process);
    assert_eq!(actions.len(), 1);
    assert!(matches!(actions[0], ScheduleAction::RunUpdate));
}

#[test]
fn a_physics_step_refreshes_the_delta_before_its_phase() {
    let actions = plan_engine_call(EngineCall::PhysicsProcess(0.016f64));
    assert_eq!(actions.len(), 2);
    assert!(matches!(actions[0], ScheduleAction::RefreshPhysicsDelta(d) if d == 0.016));
    assert!(matches!(actions[1], ScheduleAction::RunPhysicsUpdate));
}

#[test]
fn marker_types_exist() {
    assert_eq!(PhysicsUpdate, PhysicsUpdate::default());
    let _marker = MainThreadMarker::default();
}

#[test]
fn first_delta_is_zero_and_later_ones_are_differences() {
    let mut timer = SystemDeltaTimer::new();
    let t0 = Instant::now();
    let t1 = t0 + Duration::from_millis(250);
    let t2 = t1 + Duration::from_secs(2);
    assert_eq!(timer.delta_at(t0), Duration::ZERO);
    assert_eq!(timer.delta_at(t1), Duration::from_millis(250));
    assert_eq!(timer.delta_at(t2), Duration::from_secs(2));
    // A point before the latest measurement gives zero.
    assert_eq!(timer.delta_at(t0), Duration::ZERO);
}

#[test]
fn delta_reads_the_clock() {
    let mut timer = SystemDeltaTimer::new();
    assert_eq!(timer.delta(), Duration::ZERO);
    let second = timer.delta();
    assert!(second < Duration::from_secs(60));
}

#[test]
fn find_entity_by_name_takes_the_first_match() {
    let entries = vec![
        ("Player".to_string(), 1u32),
        ("Enemy".to_string(), 2),
        ("Player".to_string(), 3),
    ];
    assert_eq!(entries.clone().find_entity_by_name("Player"), Some(1));
    assert_eq!(entries.clone().find_entity_by_name("Enemy"), Some(2));
    assert_eq!(entries.clone().find_entity_by_name("player"), None);
    assert_eq!(entries.find_entity_by_name(""), None);
    assert_eq!(Vec::<(String, u8)>::new().find_entity_by_name("x"), None);
}
