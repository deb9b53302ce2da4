//! What holds of the collision bridge over whole runs of events and cycles.

use crate::collisions::{
    after_cycle, apply_event, apply_events, collider_handles, find_collider, is_not,
    lemma_apply_events_keeps_handles, reset_recent, resolve, CollisionEvent, CollisionEventType,
    CollisionsView,
};
use crate::handle::{Entity, GodotNodeHandle};
use vstd::prelude::*;

verus! {

/// How often `target` stands in `entities`.
pub open spec fn occurrences(entities: Seq<Entity>, target: Entity) -> nat {
    entities.to_multiset().count(target)
}

/// Whether `event` is about the collision state at position `i` and about
/// the entity `target`: its origin resolves to that position and its target
/// to that entity.
pub open spec fn concerns(
    handles: Seq<GodotNodeHandle>,
    all_entities: Seq<(Entity, GodotNodeHandle)>,
    event: CollisionEvent,
    i: int,
    target: Entity,
) -> bool {
    handles.index_of_first(event.origin) == Some(i) && resolve(all_entities, event.target) == Some(
        target,
    )
}

/// The net effect of `events` on how often `target` collides with the entity
/// at position `i`, which it did `initial` times before: every start that
/// concerns the two adds one, every end that concerns them removes all.
pub open spec fn net_count(
    handles: Seq<GodotNodeHandle>,
    all_entities: Seq<(Entity, GodotNodeHandle)>,
    events: Seq<CollisionEvent>,
    i: int,
    target: Entity,
    initial: nat,
) -> nat
    decreases events.len(),
{
    if events.len() == 0 {
        initial
    } else {
        let before = net_count(handles, all_entities, events.drop_last(), i, target, initial);
        if concerns(handles, all_entities, events.last(), i, target) {
            match events.last().event_type {
                CollisionEventType::Started => before + 1,
                CollisionEventType::Ended => 0,
            }
        } else {
            before
        }
    }
}

/// The collision states after a run of cycles, one sequence of events each.
pub open spec fn after_cycles(
    colliders: Seq<(GodotNodeHandle, CollisionsView)>,
    all_entities: Seq<(Entity, GodotNodeHandle)>,
    cycles: Seq<Seq<CollisionEvent>>,
) -> Seq<(GodotNodeHandle, CollisionsView)>
    decreases cycles.len(),
{
    if cycles.len() == 0 {
        colliders
    } else {
        after_cycle(
            after_cycles(colliders, all_entities, cycles.drop_last()),
            all_entities,
            cycles.last(),
        )
    }
}

/// The test for a start that reaches the collision state at position `i`.
pub open spec fn is_start_at(
    handles: Seq<GodotNodeHandle>,
    all_entities: Seq<(Entity, GodotNodeHandle)>,
    i: int,
) -> spec_fn(CollisionEvent) -> bool {
    |event: CollisionEvent|
        event.event_type == CollisionEventType::Started && handles.index_of_first(event.origin)
            == Some(i) && resolve(all_entities, event.target) is Some
}

/// The entities whose collision with the entity at position `i` starts in
/// `events`, in the order of the events.
pub open spec fn started_in(
    handles: Seq<GodotNodeHandle>,
    all_entities: Seq<(Entity, GodotNodeHandle)>,
    events: Seq<CollisionEvent>,
    i: int,
) -> Seq<Entity> {
    events.filter(is_start_at(handles, all_entities, i)).map_values(
        |event: CollisionEvent| resolve(all_entities, event.target).unwrap(),
    )
}

proof fn lemma_occurrences_push(entities: Seq<Entity>, added: Entity, target: Entity)
    ensures
        occurrences(entities.push(added), target) == occurrences(entities, target) + if added
            == target {
            1nat
        } else {
            0nat
        },
{
    broadcast use vstd::multiset::group_multiset_axioms;

    vstd::seq_lib::to_multiset_build(entities, added);
}

proof fn lemma_occurrences_removed(entities: Seq<Entity>, removed: Entity, target: Entity)
    ensures
        occurrences(entities.filter(is_not(removed)), target) == if target == removed {
            0nat
        } else {
            occurrences(entities, target)
        },
    decreases entities.len(),
{
    broadcast use vstd::multiset::group_multiset_axioms;

    if entities.len() == 0 {
        entities.lemma_filter_len(is_not(removed));
        assert(entities.filter(is_not(removed)) =~= entities);
        vstd::seq_lib::to_multiset_len(entities);
        assert(entities.to_multiset().count(target) == 0) by {
            if entities.to_multiset().count(target) > 0 {
                vstd::seq_lib::to_multiset_contains(entities, target);
            }
        }
    } else {
        let front = entities.drop_last();
        let last = entities.last();
        assert(entities =~= front.push(last));
        front.lemma_filter_push(last, is_not(removed));
        lemma_occurrences_removed(front, removed, target);
        lemma_occurrences_push(front, last, target);
        if last != removed {
            lemma_occurrences_push(front.filter(is_not(removed)), last, target);
        }
    }
}

/// The colliding entities are the net effect of the events.
///
/// For every entity that tracks collisions and every other entity: after a
/// sequence of events, the second stands among the colliding entities of the
/// first as often as the starts and ends that concern the two leave it there,
/// a start adding one occurrence and an end removing all. So it is present
/// exactly if that net count is positive. An end without a start before it
/// finds nothing to remove and changes nothing.
pub proof fn lemma_colliding_is_net_effect(
    colliders: Seq<(GodotNodeHandle, CollisionsView)>,
    all_entities: Seq<(Entity, GodotNodeHandle)>,
    events: Seq<CollisionEvent>,
    i: int,
    target: Entity,
)
    requires
        0 <= i < colliders.len(),
    ensures
        occurrences(apply_events(colliders, all_entities, events)[i].1.colliding, target)
            == net_count(
            collider_handles(colliders),
            all_entities,
            events,
            i,
            target,
            occurrences(colliders[i].1.colliding, target),
        ),
        apply_events(colliders, all_entities, events)[i].1.colliding.contains(target) <==> net_count(
            collider_handles(colliders),
            all_entities,
            events,
            i,
            target,
            occurrences(colliders[i].1.colliding, target),
        ) > 0,
    decreases events.len(),
{
    let handles = collider_handles(colliders);
    let after = apply_events(colliders, all_entities, events);
    if events.len() > 0 {
        let before = apply_events(colliders, all_entities, events.drop_last());
        let event = events.last();
        lemma_colliding_is_net_effect(colliders, all_entities, events.drop_last(), i, target);
        lemma_apply_events_keeps_handles(colliders, all_entities, events.drop_last());
        handles.index_of_first_ensures(event.origin);
        assert(find_collider(before, event.origin) == handles.index_of_first(event.origin));
        match (resolve(all_entities, event.target), find_collider(before, event.origin)) {
            (Some(hit), Some(j)) => {
                if j == i {
                    match event.event_type {
                        CollisionEventType::Started => {
                            lemma_occurrences_push(before[i].1.colliding, hit, target);
                        },
                        CollisionEventType::Ended => {
                            lemma_occurrences_removed(before[i].1.colliding, hit, target);
                        },
                    }
                }
            },
            _ => {},
        }
    }
    vstd::seq_lib::to_multiset_contains(after[i].1.colliding, target);
}

/// An end for a target that does not collide leaves the colliding entities
/// as they are.
pub proof fn lemma_end_without_start_changes_nothing(
    colliders: Seq<(GodotNodeHandle, CollisionsView)>,
    all_entities: Seq<(Entity, GodotNodeHandle)>,
    event: CollisionEvent,
    i: int,
)
    requires
        0 <= i < colliders.len(),
        event.event_type == CollisionEventType::Ended,
        resolve(all_entities, event.target) matches Some(target) ==> !colliders[i].1.colliding.contains(
            target,
        ),
    ensures
        apply_event(colliders, all_entities, event)[i] == colliders[i],
{
    collider_handles(colliders).index_of_first_ensures(event.origin);
    match (resolve(all_entities, event.target), find_collider(colliders, event.origin)) {
        (Some(target), Some(j)) => {
            if j == i {
                lemma_filter_keeps_all(colliders[i].1.colliding, target);
            }
        },
        _ => {},
    }
}

proof fn lemma_filter_keeps_all(entities: Seq<Entity>, absent: Entity)
    requires
        !entities.contains(absent),
    ensures
        entities.filter(is_not(absent)) == entities,
    decreases entities.len(),
{
    if entities.len() == 0 {
        entities.lemma_filter_len(is_not(absent));
        assert(entities.filter(is_not(absent)) =~= entities);
    } else {
        let front = entities.drop_last();
        let last = entities.last();
        assert(entities =~= front.push(last));
        assert(!front.contains(absent)) by {
            if front.contains(absent) {
                let k = choose|k: int| 0 <= k < front.len() && front[k] == absent;
                assert(entities[k] == absent);
            }
        }
        assert(last != absent) by {
            assert(entities[entities.len() - 1] == last);
        }
        front.lemma_filter_push(last, is_not(absent));
        lemma_filter_keeps_all(front, absent);
    }
}

proof fn lemma_net_count_concat(
    handles: Seq<GodotNodeHandle>,
    all_entities: Seq<(Entity, GodotNodeHandle)>,
    first: Seq<CollisionEvent>,
    second: Seq<CollisionEvent>,
    i: int,
    target: Entity,
    initial: nat,
)
    ensures
        net_count(handles, all_entities, first + second, i, target, initial) == net_count(
            handles,
            all_entities,
            second,
            i,
            target,
            net_count(handles, all_entities, first, i, target, initial),
        ),
    decreases second.len(),
{
    if second.len() == 0 {
        assert(first + second =~= first);
    } else {
        assert((first + second).drop_last() =~= first + second.drop_last());
        assert((first + second).last() == second.last());
        lemma_net_count_concat(
            handles,
            all_entities,
            first,
            second.drop_last(),
            i,
            target,
            initial,
        );
    }
}

/// A run of cycles changes no handle and no position.
pub proof fn lemma_after_cycles_keeps_handles(
    colliders: Seq<(GodotNodeHandle, CollisionsView)>,
    all_entities: Seq<(Entity, GodotNodeHandle)>,
    cycles: Seq<Seq<CollisionEvent>>,
)
    ensures
        after_cycles(colliders, all_entities, cycles).len() == colliders.len(),
        collider_handles(after_cycles(colliders, all_entities, cycles)) == collider_handles(
            colliders,
        ),
    decreases cycles.len(),
{
    if cycles.len() > 0 {
        lemma_after_cycles_keeps_handles(colliders, all_entities, cycles.drop_last());
        let before = after_cycles(colliders, all_entities, cycles.drop_last());
        assert(collider_handles(reset_recent(before)) =~= collider_handles(before));
        lemma_apply_events_keeps_handles(reset_recent(before), all_entities, cycles.last());
    }
}

/// After every cycle the colliding entities are the net effect of all events
/// so far.
///
/// For every entity that tracks collisions and every other entity, as long
/// as the mirrored entities stay the same: after any run of cycles, the
/// second stands among the colliding entities of the first as often as the
/// events of all these cycles, taken in order, leave it there, and is
/// present exactly if that net count is positive. Where one cycle ends and
/// the next begins makes no difference to the colliding entities.
pub proof fn lemma_colliding_after_cycles_is_net_effect(
    colliders: Seq<(GodotNodeHandle, CollisionsView)>,
    all_entities: Seq<(Entity, GodotNodeHandle)>,
    cycles: Seq<Seq<CollisionEvent>>,
    i: int,
    target: Entity,
)
    requires
        0 <= i < colliders.len(),
    ensures
        occurrences(after_cycles(colliders, all_entities, cycles)[i].1.colliding, target)
            == net_count(
            collider_handles(colliders),
            all_entities,
            cycles.flatten(),
            i,
            target,
            occurrences(colliders[i].1.colliding, target),
        ),
        after_cycles(colliders, all_entities, cycles)[i].1.colliding.contains(target) <==> net_count(
            collider_handles(colliders),
            all_entities,
            cycles.flatten(),
            i,
            target,
            occurrences(colliders[i].1.colliding, target),
        ) > 0,
    decreases cycles.len(),
{
    let handles = collider_handles(colliders);
    let initial = occurrences(colliders[i].1.colliding, target);
    let after = after_cycles(colliders, all_entities, cycles);
    if cycles.len() > 0 {
        let earlier = cycles.drop_last();
        let before = after_cycles(colliders, all_entities, earlier);
        lemma_colliding_after_cycles_is_net_effect(colliders, all_entities, earlier, i, target);
        lemma_after_cycles_keeps_handles(colliders, all_entities, earlier);
        assert(collider_handles(reset_recent(before)) =~= handles);
        lemma_colliding_is_net_effect(reset_recent(before), all_entities, cycles.last(), i, target);
        assert(cycles =~= earlier.push(cycles.last()));
        earlier.lemma_flatten_push(cycles.last());
        lemma_net_count_concat(
            handles,
            all_entities,
            earlier.flatten(),
            cycles.last(),
            i,
            target,
            initial,
        );
    }
    vstd::seq_lib::to_multiset_contains(after[i].1.colliding, target);
}

proof fn lemma_recent_grows_by_starts(
    colliders: Seq<(GodotNodeHandle, CollisionsView)>,
    all_entities: Seq<(Entity, GodotNodeHandle)>,
    events: Seq<CollisionEvent>,
    i: int,
)
    requires
        0 <= i < colliders.len(),
    ensures
        apply_events(colliders, all_entities, events)[i].1.recent == colliders[i].1.recent
            + started_in(collider_handles(colliders), all_entities, events, i),
    decreases events.len(),
{
    let handles = collider_handles(colliders);
    let test = is_start_at(handles, all_entities, i);
    let target_of = |event: CollisionEvent| resolve(all_entities, event.target).unwrap();
    if events.len() == 0 {
        events.lemma_filter_len(test);
        assert(events.filter(test).map_values(target_of) =~= Seq::<Entity>::empty());
        assert(colliders[i].1.recent + Seq::<Entity>::empty() =~= colliders[i].1.recent);
    } else {
        let front = events.drop_last();
        let event = events.last();
        let before = apply_events(colliders, all_entities, front);
        lemma_recent_grows_by_starts(colliders, all_entities, front, i);
        lemma_apply_events_keeps_handles(colliders, all_entities, front);
        handles.index_of_first_ensures(event.origin);
        assert(find_collider(before, event.origin) == handles.index_of_first(event.origin));
        assert(events =~= front.push(event));
        front.lemma_filter_push(event, test);
        if test(event) {
            assert(front.filter(test).push(event).map_values(target_of) =~= front.filter(
                test,
            ).map_values(target_of).push(target_of(event)));
            assert(colliders[i].1.recent + started_in(handles, all_entities, front, i).push(
                target_of(event),
            ) =~= (colliders[i].1.recent + started_in(handles, all_entities, front, i)).push(
                target_of(event),
            ));
        }
    }
}

/// What is recent after a cycle started in that cycle.
///
/// For every entity that tracks collisions: after a cycle its recent
/// entities are the targets of the starts of this cycle that reached it, in
/// the order of the events, whatever was recent before. Nothing is carried
/// over from an earlier cycle.
pub proof fn lemma_recent_is_of_this_cycle(
    colliders: Seq<(GodotNodeHandle, CollisionsView)>,
    all_entities: Seq<(Entity, GodotNodeHandle)>,
    events: Seq<CollisionEvent>,
    i: int,
)
    requires
        0 <= i < colliders.len(),
    ensures
        after_cycle(colliders, all_entities, events)[i].1.recent == started_in(
            collider_handles(colliders),
            all_entities,
            events,
            i,
        ),
{
    assert(collider_handles(reset_recent(colliders)) =~= collider_handles(colliders));
    lemma_recent_grows_by_starts(reset_recent(colliders), all_entities, events, i);
    assert(Seq::<Entity>::empty() + started_in(
        collider_handles(colliders),
        all_entities,
        events,
        i,
    ) =~= started_in(collider_handles(colliders), all_entities, events, i));
}

/// A cycle without events leaves nothing recent.
pub proof fn lemma_recent_is_empty_after_quiet_cycle(
    colliders: Seq<(GodotNodeHandle, CollisionsView)>,
    all_entities: Seq<(Entity, GodotNodeHandle)>,
    i: int,
)
    requires
        0 <= i < colliders.len(),
    ensures
        after_cycle(colliders, all_entities, Seq::empty())[i].1.recent == Seq::<Entity>::empty(),
        after_cycle(colliders, all_entities, Seq::empty())[i].1.colliding
            == colliders[i].1.colliding,
{
}

} // verus!
