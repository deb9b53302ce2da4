use godot_bevy::{
    find_collisions, resolve_entity, update_godot_collisions, write_godot_collision_events,
    CollisionEvent, CollisionEventReader, CollisionEventType, Collisions, Entity,
    GodotCollisionsPlugin, GodotNodeHandle, AREA_ENTERED, AREA_EXITED, BODY_ENTERED, BODY_EXITED,
};

fn handle(id: i64) -> GodotNodeHandle {
    GodotNodeHandle::from_instance_id(id)
}

fn entity(bits: u64) -> Entity {
    Entity::from_bits(bits)
}

fn started(origin: i64, target: i64) -> CollisionEvent {
    CollisionEvent {
        event_type: CollisionEventType::Started,
        origin: handle(origin),
        target: handle(target),
    }
}

fn ended(origin: i64, target: i64) -> CollisionEvent {
    CollisionEvent {
        event_type: CollisionEventType::Ended,
        origin: handle(origin),
        target: handle(target),
    }
}

/// Two mirrored nodes, A (1 -> entity 10) and B (2 -> entity 20); both track
/// collisions.
fn world() -> (Vec<(GodotNodeHandle, Collisions)>, Vec<(Entity, GodotNodeHandle)>) {
    let entities = vec![(handle(1), Collisions::default()), (handle(2), Collisions::default())];
    let all = vec![(entity(10), handle(1)), (entity(20), handle(2))];
    (entities, all)
}

#[test]
fn signal_names_are_those_of_the_engine() {
    assert_eq!(BODY_ENTERED, "body_entered");
    assert_eq!(BODY_EXITED, "body_exited");
    assert_eq!(AREA_ENTERED, "area_entered");
    assert_eq!(AREA_EXITED, "area_exited");
}

#[test]
fn handles_are_equal_exactly_for_the_same_node() {
    let a = handle(7);
    let b = GodotNodeHandle { instance_id: 7 };
    let c = handle(8);
    assert_eq!(a, b);
    assert_ne!(a, c);
    assert!(a.same_node(&b));
    assert!(!a.same_node(&c));
    assert_eq!(a.instance_id(), 7);
}

#[test]
fn entity_bits_round_trip() {
    assert_eq!(Entity::from_bits(42).to_bits(), 42);
    assert_eq!(Entity::from_bits(u64::MAX).to_bits(), u64::MAX);
    assert_ne!(Entity::from_bits(1), Entity::from_bits(2));
}

#[test]
fn default_collisions_are_empty() {
    let c = Collisions::default();
    assert!(c.colliding().is_empty());
    assert!(c.recent_collisions().is_empty());
}

#[test]
fn resolve_entity_takes_the_first_match() {
    let all = vec![(entity(10), handle(1)), (entity(20), handle(2)), (entity(30), handle(2))];
    assert_eq!(resolve_entity(&all, &handle(2)), Some(entity(20)));
    assert_eq!(resolve_entity(&all, &handle(1)), Some(entity(10)));
    assert_eq!(resolve_entity(&all, &handle(3)), None);
    assert_eq!(resolve_entity(&Vec::new(), &handle(1)), None);
}

#[test]
fn find_collisions_takes_the_first_match() {
    let entities = vec![
        (handle(5), Collisions::default()),
        (handle(6), Collisions::default()),
        (handle(6), Collisions::default()),
    ];
    assert_eq!(find_collisions(&entities, &handle(6)), Some(1));
    assert_eq!(find_collisions(&entities, &handle(5)), Some(0));
    assert_eq!(find_collisions(&entities, &handle(7)), None);
}

#[test]
fn started_then_quiet_then_ended_over_three_cycles() {
    let (mut entities, all) = world();
    let mut reader = CollisionEventReader::new();
    let plugin = GodotCollisionsPlugin;

    // Cycle 1: Started(A, B) was queued before the drain.
    reader.push(started(1, 2));
    let events = plugin.run_cycle(&mut reader, &mut entities, &all);
    assert_eq!(events, vec![started(1, 2)]);
    assert_eq!(entities[0].1.colliding(), &[entity(20)][..]);
    assert_eq!(entities[0].1.recent_collisions(), &[entity(20)][..]);

    // Cycle 2: nothing new.
    let events = plugin.run_cycle(&mut reader, &mut entities, &all);
    assert!(events.is_empty());
    assert_eq!(entities[0].1.colliding(), &[entity(20)][..]);
    assert!(entities[0].1.recent_collisions().is_empty());

    // Cycle 3: Ended(A, B).
    reader.push(ended(1, 2));
    let events = plugin.run_cycle(&mut reader, &mut entities, &all);
    assert_eq!(events, vec![ended(1, 2)]);
    assert!(entities[0].1.colliding().is_empty());
    assert!(entities[0].1.recent_collisions().is_empty());

    // B never was an origin.
    assert!(entities[1].1.colliding().is_empty());
}

#[test]
fn ended_without_started_changes_nothing() {
    let (mut entities, all) = world();
    update_godot_collisions(&vec![started(1, 1)], &mut entities, &all);
    assert_eq!(entities[0].1.colliding(), &[entity(10)][..]);
    update_godot_collisions(&vec![ended(1, 2)], &mut entities, &all);
    assert_eq!(entities[0].1.colliding(), &[entity(10)][..]);
    assert!(entities[0].1.recent_collisions().is_empty());
}

#[test]
fn duplicate_starts_accumulate_and_one_end_removes_all() {
    let (mut entities, all) = world();
    update_godot_collisions(&vec![started(1, 2), started(1, 2)], &mut entities, &all);
    assert_eq!(entities[0].1.colliding(), &[entity(20), entity(20)][..]);
    assert_eq!(entities[0].1.recent_collisions(), &[entity(20), entity(20)][..]);
    update_godot_collisions(&vec![ended(1, 2)], &mut entities, &all);
    assert!(entities[0].1.colliding().is_empty());
}

#[test]
fn end_keeps_the_other_entities_in_order() {
    let mut entities = vec![(handle(1), Collisions::default())];
    let all = vec![
        (entity(10), handle(1)),
        (entity(20), handle(2)),
        (entity(30), handle(3)),
        (entity(40), handle(4)),
    ];
    update_godot_collisions(
        &vec![started(1, 2), started(1, 3), started(1, 2), started(1, 4), ended(1, 2)],
        &mut entities,
        &all,
    );
    assert_eq!(entities[0].1.colliding(), &[entity(30), entity(40)][..]);
    assert_eq!(
        entities[0].1.recent_collisions(),
        &[entity(20), entity(30), entity(20), entity(40)][..]
    );
}

#[test]
fn events_of_one_cycle_apply_in_order() {
    let (mut entities, all) = world();
    update_godot_collisions(
        &vec![started(1, 2), ended(1, 2), started(1, 2)],
        &mut entities,
        &all,
    );
    assert_eq!(entities[0].1.colliding(), &[entity(20)][..]);
    assert_eq!(entities[0].1.recent_collisions(), &[entity(20), entity(20)][..]);
}

#[test]
fn unresolved_target_is_dropped() {
    let (mut entities, all) = world();
    update_godot_collisions(&vec![started(1, 99)], &mut entities, &all);
    assert!(entities[0].1.colliding().is_empty());
    assert!(entities[0].1.recent_collisions().is_empty());
}

#[test]
fn unresolved_origin_is_dropped() {
    let (mut entities, all) = world();
    update_godot_collisions(&vec![started(99, 2), ended(99, 1)], &mut entities, &all);
    assert!(entities[0].1.colliding().is_empty());
    assert!(entities[1].1.colliding().is_empty());
}

#[test]
fn origin_without_collision_state_is_dropped() {
    // Node 2 is mirrored but tracks no collisions.
    let mut entities = vec![(handle(1), Collisions::default())];
    let all = vec![(entity(10), handle(1)), (entity(20), handle(2))];
    update_godot_collisions(&vec![started(2, 1)], &mut entities, &all);
    assert!(entities[0].1.colliding().is_empty());
}

#[test]
fn recent_is_reset_for_every_entity_each_cycle() {
    let (mut entities, all) = world();
    update_godot_collisions(&vec![started(1, 2), started(2, 1)], &mut entities, &all);
    assert_eq!(entities[0].1.recent_collisions(), &[entity(20)][..]);
    assert_eq!(entities[1].1.recent_collisions(), &[entity(10)][..]);
    update_godot_collisions(&vec![started(1, 2)], &mut entities, &all);
    assert_eq!(entities[0].1.recent_collisions(), &[entity(20)][..]);
    assert!(entities[1].1.recent_collisions().is_empty());
    assert_eq!(entities[1].1.colliding(), &[entity(10)][..]);
}

#[test]
fn update_keeps_handles_and_length() {
    let (mut entities, all) = world();
    update_godot_collisions(&vec![started(1, 2), ended(2, 1)], &mut entities, &all);
    assert_eq!(entities.len(), 2);
    assert_eq!(entities[0].0, handle(1));
    assert_eq!(entities[1].0, handle(2));
}

#[test]
fn drain_publishes_in_order_behind_what_is_there() {
    let mut reader = CollisionEventReader::new();
    reader.push(started(1, 2));
    reader.push(ended(1, 2));
    assert_eq!(reader.len(), 2);
    let mut writer = vec![started(9, 9)];
    write_godot_collision_events(&mut reader, &mut writer);
    assert_eq!(writer, vec![started(9, 9), started(1, 2), ended(1, 2)]);
    assert_eq!(reader.len(), 0);
}

#[test]
fn signals_queued_after_a_drain_wait_for_the_next() {
    let mut reader = CollisionEventReader::new();
    reader.push(started(1, 2));
    let mut first = Vec::new();
    write_godot_collision_events(&mut reader, &mut first);
    reader.push(ended(1, 2));
    reader.push(started(2, 1));
    assert_eq!(first, vec![started(1, 2)]);
    let mut second = Vec::new();
    write_godot_collision_events(&mut reader, &mut second);
    assert_eq!(second, vec![ended(1, 2), started(2, 1)]);
    let mut third = Vec::new();
    write_godot_collision_events(&mut reader, &mut third);
    assert!(third.is_empty());
}

#[test]
fn net_effect_over_many_cycles() {
    let (mut entities, all) = world();
    let plugin = GodotCollisionsPlugin;
    let mut reader = CollisionEventReader::new();
    let cycles: Vec<Vec<CollisionEvent>> = vec![
        vec![ended(1, 2)],
        vec![started(1, 2), started(1, 2)],
        vec![],
        vec![ended(1, 2), started(1, 2)],
        vec![ended(1, 2)],
    ];
    let expected: [usize; 5] = [0, 2, 2, 1, 0];
    for (cycle, count) in cycles.iter().zip(expected.iter()) {
        for event in cycle {
            reader.push(*event);
        }
        plugin.run_cycle(&mut reader, &mut entities, &all);
        let present = entities[0].1.colliding().iter().filter(|e| **e == entity(20)).count();
        assert_eq!(present, *count);
        assert_eq!(entities[0].1.colliding().contains(&entity(20)), *count > 0);
    }
}

#[test]
fn signals_translate_to_transitions() {
    assert_eq!(CollisionEventType::from_signal("body_entered"), Some(CollisionEventType::Started));
    assert_eq!(CollisionEventType::from_signal("area_entered"), Some(CollisionEventType::Started));
    assert_eq!(CollisionEventType::from_signal("body_exited"), Some(CollisionEventType::Ended));
    assert_eq!(CollisionEventType::from_signal("area_exited"), Some(CollisionEventType::Ended));
    assert_eq!(CollisionEventType::from_signal(BODY_ENTERED), Some(CollisionEventType::Started));
    assert_eq!(CollisionEventType::from_signal("Body_Entered"), None);
    assert_eq!(CollisionEventType::from_signal("ready"), None);
    assert_eq!(CollisionEventType::from_signal(""), None);
}
