//! The collision bridge.
//!
//! The engine reports collisions through signals that fire on its own
//! schedule. The bridge queues them, publishes the queue as events once per
//! cycle, and folds the events of the cycle into the [`Collisions`] of the
//! entities they concern.

use crate::handle::{Entity, GodotNodeHandle};
use vstd::prelude::*;

verus! {

/// Name of the engine signal for a body that starts to overlap.
pub const BODY_ENTERED: &'static str = "body_entered";

/// Name of the engine signal for a body that stops overlapping.
pub const BODY_EXITED: &'static str = "body_exited";

/// Name of the engine signal for an area that starts to overlap.
pub const AREA_ENTERED: &'static str = "area_entered";

/// Name of the engine signal for an area that stops overlapping.
pub const AREA_EXITED: &'static str = "area_exited";

/// The two transitions of a pair of colliding nodes.
#[derive(Debug, Clone, Copy, PartialEq, Eq, Structural)]
pub enum CollisionEventType {
    Started,
    Ended,
}

/// The transition that the engine signal of the given name reports, if it is
/// one of the four collision signals.
pub open spec fn transition_of_signal(signal: Seq<char>) -> Option<CollisionEventType> {
    if signal == BODY_ENTERED@ || signal == AREA_ENTERED@ {
        Some(CollisionEventType::Started)
    } else if signal == BODY_EXITED@ || signal == AREA_EXITED@ {
        Some(CollisionEventType::Ended)
    } else {
        None
    }
}

impl CollisionEventType {
    /// Translates the name of an engine signal: the two entered-signals start
    /// a collision, the two exited-signals end one, and any other name is no
    /// collision signal.
    pub fn from_signal(signal: &str) -> (event_type: Option<CollisionEventType>)
        ensures
            event_type == transition_of_signal(signal@),
    {
        let name = signal.to_owned();
        if name == BODY_ENTERED.to_owned() || name == AREA_ENTERED.to_owned() {
            Some(CollisionEventType::Started)
        } else if name == BODY_EXITED.to_owned() || name == AREA_EXITED.to_owned() {
            Some(CollisionEventType::Ended)
        } else {
            None
        }
    }
}

/// One collision transition between two nodes, as the engine reported it.
#[derive(Debug, Clone, Copy, PartialEq, Eq, Structural)]
pub struct CollisionEvent {
    pub event_type: CollisionEventType,
    /// The node whose signal fired.
    pub origin: GodotNodeHandle,
    /// The node that entered or left it.
    pub target: GodotNodeHandle,
}

/// What a [`Collisions`] holds, as two sequences.
pub struct CollisionsView {
    /// The entities that collide at present, in the order in which their
    /// collisions started. An entity stands here once for every start that
    /// was reported since it last ended.
    pub colliding: Seq<Entity>,
    /// The entities whose collision started in the latest cycle.
    pub recent: Seq<Entity>,
}

/// The collision state of one entity.
///
/// Only [`update_godot_collisions`] changes it.
#[derive(Debug, PartialEq, Eq, Hash, Clone)]
pub struct Collisions {
    colliding_entities: Vec<Entity>,
    recent_collisions: Vec<Entity>,
}

impl View for Collisions {
    type V = CollisionsView;

    closed spec fn view(&self) -> CollisionsView {
        CollisionsView {
            colliding: self.colliding_entities@,
            recent: self.recent_collisions@,
        }
    }
}

impl Default for Collisions {
    fn default() -> (collisions: Self)
        ensures
            collisions@.colliding == Seq::<Entity>::empty(),
            collisions@.recent == Seq::<Entity>::empty(),
    {
        Collisions { colliding_entities: Vec::new(), recent_collisions: Vec::new() }
    }
}

impl Collisions {
    /// The entities that collide with this one at present.
    pub fn colliding(&self) -> (entities: &[Entity])
        ensures
            entities@ == self@.colliding,
    {
        self.colliding_entities.as_slice()
    }

    /// The entities whose collision with this one started in the latest cycle.
    pub fn recent_collisions(&self) -> (entities: &[Entity])
        ensures
            entities@ == self@.recent,
    {
        self.recent_collisions.as_slice()
    }
}

/// The handles of the mirrored entities, in iteration order.
pub open spec fn entity_handles(all_entities: Seq<(Entity, GodotNodeHandle)>) -> Seq<
    GodotNodeHandle,
> {
    Seq::new(all_entities.len(), |i: int| all_entities[i].1)
}

/// The entity that mirrors the node of `handle`: the first one, in iteration
/// order, that carries this handle, if there is any.
pub open spec fn resolve(
    all_entities: Seq<(Entity, GodotNodeHandle)>,
    handle: GodotNodeHandle,
) -> Option<Entity> {
    match entity_handles(all_entities).index_of_first(handle) {
        Some(i) => Some(all_entities[i].0),
        None => None,
    }
}

/// The handles of the entities that track collisions, in iteration order.
pub open spec fn collider_handles(colliders: Seq<(GodotNodeHandle, CollisionsView)>) -> Seq<
    GodotNodeHandle,
> {
    Seq::new(colliders.len(), |i: int| colliders[i].0)
}

/// The position of the collision state that belongs to the node of `handle`:
/// the first one, in iteration order, that stands beside this handle.
pub open spec fn find_collider(
    colliders: Seq<(GodotNodeHandle, CollisionsView)>,
    handle: GodotNodeHandle,
) -> Option<int> {
    collider_handles(colliders).index_of_first(handle)
}

/// The test that keeps every entity but `target`.
pub open spec fn is_not(target: Entity) -> spec_fn(Entity) -> bool {
    |entity: Entity| entity != target
}

/// A collision state after a collision with `target` has started.
pub open spec fn after_start(collisions: CollisionsView, target: Entity) -> CollisionsView {
    CollisionsView {
        colliding: collisions.colliding.push(target),
        recent: collisions.recent.push(target),
    }
}

/// A collision state after the collision with `target` has ended: every
/// occurrence of `target` leaves the colliding entities.
pub open spec fn after_end(collisions: CollisionsView, target: Entity) -> CollisionsView {
    CollisionsView {
        colliding: collisions.colliding.filter(is_not(target)),
        recent: collisions.recent,
    }
}

/// The collision states after one event.
///
/// An event whose target mirrors no entity, or whose origin tracks no
/// collisions, changes nothing.
pub open spec fn apply_event(
    colliders: Seq<(GodotNodeHandle, CollisionsView)>,
    all_entities: Seq<(Entity, GodotNodeHandle)>,
    event: CollisionEvent,
) -> Seq<(GodotNodeHandle, CollisionsView)> {
    match (resolve(all_entities, event.target), find_collider(colliders, event.origin)) {
        (Some(target), Some(i)) => {
            let collisions = match event.event_type {
                CollisionEventType::Started => after_start(colliders[i].1, target),
                CollisionEventType::Ended => after_end(colliders[i].1, target),
            };
            colliders.update(i, (colliders[i].0, collisions))
        },
        _ => colliders,
    }
}

/// The collision states after a sequence of events, applied in order.
pub open spec fn apply_events(
    colliders: Seq<(GodotNodeHandle, CollisionsView)>,
    all_entities: Seq<(Entity, GodotNodeHandle)>,
    events: Seq<CollisionEvent>,
) -> Seq<(GodotNodeHandle, CollisionsView)>
    decreases events.len(),
{
    if events.len() == 0 {
        colliders
    } else {
        apply_event(
            apply_events(colliders, all_entities, events.drop_last()),
            all_entities,
            events.last(),
        )
    }
}

/// The collision states at the start of a cycle: nothing is recent.
pub open spec fn reset_recent(colliders: Seq<(GodotNodeHandle, CollisionsView)>) -> Seq<
    (GodotNodeHandle, CollisionsView),
> {
    Seq::new(
        colliders.len(),
        |i: int|
            (
                colliders[i].0,
                CollisionsView { colliding: colliders[i].1.colliding, recent: Seq::empty() },
            ),
    )
}

/// The collision states after one cycle with the given events.
pub open spec fn after_cycle(
    colliders: Seq<(GodotNodeHandle, CollisionsView)>,
    all_entities: Seq<(Entity, GodotNodeHandle)>,
    events: Seq<CollisionEvent>,
) -> Seq<(GodotNodeHandle, CollisionsView)> {
    apply_events(reset_recent(colliders), all_entities, events)
}

/// The handles and collision states of the given entities as sequences.
pub open spec fn collider_views(entities: Seq<(GodotNodeHandle, Collisions)>) -> Seq<
    (GodotNodeHandle, CollisionsView),
> {
    Seq::new(entities.len(), |i: int| (entities[i].0, entities[i].1@))
}

/// An event changes no handle and no position.
pub proof fn lemma_apply_event_keeps_handles(
    colliders: Seq<(GodotNodeHandle, CollisionsView)>,
    all_entities: Seq<(Entity, GodotNodeHandle)>,
    event: CollisionEvent,
)
    ensures
        apply_event(colliders, all_entities, event).len() == colliders.len(),
        collider_handles(apply_event(colliders, all_entities, event)) == collider_handles(
            colliders,
        ),
{
    collider_handles(colliders).index_of_first_ensures(event.origin);
    assert(collider_handles(apply_event(colliders, all_entities, event)) =~= collider_handles(
        colliders,
    ));
}

/// A sequence of events changes no handle and no position.
pub proof fn lemma_apply_events_keeps_handles(
    colliders: Seq<(GodotNodeHandle, CollisionsView)>,
    all_entities: Seq<(Entity, GodotNodeHandle)>,
    events: Seq<CollisionEvent>,
)
    ensures
        apply_events(colliders, all_entities, events).len() == colliders.len(),
        collider_handles(apply_events(colliders, all_entities, events)) == collider_handles(
            colliders,
        ),
    decreases events.len(),
{
    if events.len() > 0 {
        lemma_apply_events_keeps_handles(colliders, all_entities, events.drop_last());
        lemma_apply_event_keeps_handles(
            apply_events(colliders, all_entities, events.drop_last()),
            all_entities,
            events.last(),
        );
    }
}

/// An index at which `handle` stands, with no earlier one, is the first.
proof fn lemma_first_index(handles: Seq<GodotNodeHandle>, handle: GodotNodeHandle, i: int)
    requires
        0 <= i < handles.len(),
        handles[i] == handle,
        forall|j: int| 0 <= j < i ==> handles[j] != handle,
    ensures
        handles.index_of_first(handle) == Some(i),
{
    handles.index_of_first_ensures(handle);
    assert(handles.contains(handle));
}

/// A handle that stands nowhere has no first index.
proof fn lemma_no_index(handles: Seq<GodotNodeHandle>, handle: GodotNodeHandle)
    requires
        forall|j: int| 0 <= j < handles.len() ==> handles[j] != handle,
    ensures
        handles.index_of_first(handle) is None,
{
    handles.index_of_first_ensures(handle);
}

/// Looks up the entity that mirrors the node of `handle` by a scan over all
/// mirrored entities.
pub fn resolve_entity(all_entities: &Vec<(Entity, GodotNodeHandle)>, handle: &GodotNodeHandle) -> (found:
    Option<Entity>)
    ensures
        found == resolve(all_entities@, *handle),
{
    let mut i: usize = 0;
    while i < all_entities.len()
        invariant
            i <= all_entities@.len(),
            forall|j: int| 0 <= j < i ==> entity_handles(all_entities@)[j] != *handle,
        decreases all_entities@.len() - i,
    {
        if all_entities[i].1 == *handle {
            proof {
                lemma_first_index(entity_handles(all_entities@), *handle, i as int);
            }
            return Some(all_entities[i].0);
        }
        i += 1;
    }
    proof {
        lemma_no_index(entity_handles(all_entities@), *handle);
    }
    None
}

/// Looks up the position of the collision state that belongs to the node of
/// `handle` by a scan over the entities that track collisions.
pub fn find_collisions(entities: &Vec<(GodotNodeHandle, Collisions)>, handle: &GodotNodeHandle) -> (found:
    Option<usize>)
    ensures
        match found {
            Some(i) => find_collider(collider_views(entities@), *handle) == Some(i as int) && i
                < entities@.len(),
            None => find_collider(collider_views(entities@), *handle) is None,
        },
{
    let ghost handles = collider_handles(collider_views(entities@));
    let mut i: usize = 0;
    while i < entities.len()
        invariant
            i <= entities@.len(),
            handles == collider_handles(collider_views(entities@)),
            forall|j: int| 0 <= j < i ==> handles[j] != *handle,
        decreases entities@.len() - i,
    {
        if entities[i].0 == *handle {
            proof {
                lemma_first_index(handles, *handle, i as int);
            }
            return Some(i);
        }
        i += 1;
    }
    proof {
        lemma_no_index(handles, *handle);
    }
    None
}

/// Takes every occurrence of `target` out of `entities` and keeps the order
/// of the others.
fn remove_entity(entities: &mut Vec<Entity>, target: Entity)
    ensures
        final(entities)@ == old(entities)@.filter(is_not(target)),
{
    let mut kept: Vec<Entity> = Vec::new();
    let mut i: usize = 0;
    while i < entities.len()
        invariant
            i <= entities@.len(),
            entities@ == old(entities)@,
            kept@ == entities@.take(i as int).filter(is_not(target)),
        decreases entities@.len() - i,
    {
        let entity = entities[i];
        proof {
            assert(entities@.take(i as int + 1) == entities@.take(i as int).push(entity));
            entities@.take(i as int).lemma_filter_push(entity, is_not(target));
        }
        if entity != target {
            kept.push(entity);
        }
        i += 1;
    }
    proof {
        assert(entities@.take(i as int) == entities@);
    }
    *entities = kept;
}

/// Brings the collision state of every entity up to date with the events of
/// one cycle.
///
/// `entities` are the entities that track collisions, each with its node
/// handle; `all_entities` are all mirrored entities. First nothing is recent
/// any more. Then each event, in order, is resolved: its target to the entity
/// that mirrors it, its origin to the collision state that belongs to it. A
/// start adds the target to the colliding and to the recent entities of the
/// origin; an end removes the target from the colliding ones. An event that
/// cannot be resolved on either side is dropped.
pub fn update_godot_collisions(
    events: &Vec<CollisionEvent>,
    entities: &mut Vec<(GodotNodeHandle, Collisions)>,
    all_entities: &Vec<(Entity, GodotNodeHandle)>,
)
    ensures
        collider_views(final(entities)@) == after_cycle(
            collider_views(old(entities)@),
            all_entities@,
            events@,
        ),
        final(entities)@.len() == old(entities)@.len(),
        forall|i: int|
            0 <= i < old(entities)@.len() ==> (#[trigger] final(entities)@[i]).0 == old(
                entities,
            )@[i].0,
{
    let mut i: usize = 0;
    while i < entities.len()
        invariant
            i <= entities@.len(),
            entities@.len() == old(entities)@.len(),
            forall|j: int|
                0 <= j < i ==> {
                    &&& (#[trigger] entities@[j]).0 == old(entities)@[j].0
                    &&& entities@[j].1@.colliding == old(entities)@[j].1@.colliding
                    &&& entities@[j].1@.recent =~= Seq::empty()
                },
            forall|j: int| i <= j < entities@.len() ==> entities@[j] == old(entities)@[j],
        decreases entities@.len() - i,
    {
        entities[i].1.recent_collisions = Vec::new();
        i += 1;
    }
    assert(collider_views(entities@) =~= reset_recent(collider_views(old(entities)@)));

    let mut k: usize = 0;
    while k < events.len()
        invariant
            k <= events@.len(),
            collider_views(entities@) == after_cycle(
                collider_views(old(entities)@),
                all_entities@,
                events@.take(k as int),
            ),
        decreases events@.len() - k,
    {
        let event = events[k];
        let ghost before = collider_views(entities@);
        proof {
            assert(events@.take(k as int + 1).drop_last() == events@.take(k as int));
        }
        let target = resolve_entity(all_entities, &event.target);
        let origin = find_collisions(entities, &event.origin);
        match (target, origin) {
            (Some(target), Some(i)) => {
                match event.event_type {
                    CollisionEventType::Started => {
                        entities[i].1.colliding_entities.push(target);
                        entities[i].1.recent_collisions.push(target);
                    },
                    CollisionEventType::Ended => {
                        remove_entity(&mut entities[i].1.colliding_entities, target);
                    },
                }
                assert(collider_views(entities@) == apply_event(before, all_entities@, event));
            },
            _ => {},
        }
        k += 1;
    }
    assert(events@.take(k as int) == events@);
    proof {
        let start = reset_recent(collider_views(old(entities)@));
        assert(collider_handles(start) =~= collider_handles(collider_views(old(entities)@)));
        lemma_apply_events_keeps_handles(start, all_entities@, events@);
        assert forall|i: int| 0 <= i < old(entities)@.len() implies (#[trigger] entities@[i]).0
            == old(entities)@[i].0 by {
            assert(collider_handles(collider_views(entities@))[i] == collider_handles(
                collider_views(old(entities)@),
            )[i]);
        }
    }
}

/// The hand-off queue between the engine's collision callbacks and the ECS.
///
/// The engine side only ever pushes; the ECS side empties the queue once per
/// cycle with [`write_godot_collision_events`]. The queue grows as far as
/// memory allows and keeps the order in which the events arrived.
#[derive(Debug)]
pub struct CollisionEventReader {
    pending: Vec<CollisionEvent>,
}

impl View for CollisionEventReader {
    type V = Seq<CollisionEvent>;

    closed spec fn view(&self) -> Seq<CollisionEvent> {
        self.pending@
    }
}

impl CollisionEventReader {
    /// An empty queue.
    pub fn new() -> (reader: Self)
        ensures
            reader@ == Seq::<CollisionEvent>::empty(),
    {
        CollisionEventReader { pending: Vec::new() }
    }

    /// Queues one event behind those that wait already.
    pub fn push(&mut self, event: CollisionEvent)
        ensures
            final(self)@ == old(self)@.push(event),
    {
        self.pending.push(event);
    }

    /// The number of events that wait for the next cycle.
    pub fn len(&self) -> (n: usize)
        ensures
            n == self@.len(),
    {
        self.pending.len()
    }
}

/// Publishes everything that is queued as events of the current cycle and
/// leaves the queue empty. The events come out in the order in which they
/// were queued, behind those that `event_writer` holds already.
pub fn write_godot_collision_events(
    events: &mut CollisionEventReader,
    event_writer: &mut Vec<CollisionEvent>,
)
    ensures
        final(events)@ == Seq::<CollisionEvent>::empty(),
        final(event_writer)@ == old(event_writer)@ + old(events)@,
{
    event_writer.append(&mut events.pending);
}

/// The collision systems as one unit of a cycle.
#[derive(Debug, Default, Clone, Copy)]
pub struct GodotCollisionsPlugin;

impl GodotCollisionsPlugin {
    /// Runs one cycle of the bridge: publishes what is queued, then brings
    /// the collision states up to date with exactly these events. Returns the
    /// events of the cycle; none of them is kept for a later one.
    pub fn run_cycle(
        &self,
        reader: &mut CollisionEventReader,
        entities: &mut Vec<(GodotNodeHandle, Collisions)>,
        all_entities: &Vec<(Entity, GodotNodeHandle)>,
    ) -> (events: Vec<CollisionEvent>)
        ensures
            events@ == old(reader)@,
            final(reader)@ == Seq::<CollisionEvent>::empty(),
            collider_views(final(entities)@) == after_cycle(
                collider_views(old(entities)@),
                all_entities@,
                old(reader)@,
            ),
    {
        let mut events: Vec<CollisionEvent> = Vec::new();
        write_godot_collision_events(reader, &mut events);
        assert(events@ == old(reader)@);
        update_godot_collisions(&events, entities, all_entities);
        events
    }
}

/// One thing that happens to the hand-off queue.
pub enum QueueStep {
    /// The engine side queues an event.
    Push(CollisionEvent),
    /// The ECS side publishes all that is queued.
    Drain,
}

/// What waits in a queue that was empty before `steps`.
pub open spec fn waiting_after(steps: Seq<QueueStep>) -> Seq<CollisionEvent>
    decreases steps.len(),
{
    if steps.len() == 0 {
        Seq::empty()
    } else {
        match steps.last() {
            QueueStep::Push(event) => waiting_after(steps.drop_last()).push(event),
            QueueStep::Drain => Seq::empty(),
        }
    }
}

/// The events that each drain among `steps` published, one sequence for each
/// drain, for a queue that was empty before `steps`.
pub open spec fn published_after(steps: Seq<QueueStep>) -> Seq<Seq<CollisionEvent>>
    decreases steps.len(),
{
    if steps.len() == 0 {
        Seq::empty()
    } else {
        match steps.last() {
            QueueStep::Push(_) => published_after(steps.drop_last()),
            QueueStep::Drain => published_after(steps.drop_last()).push(
                waiting_after(steps.drop_last()),
            ),
        }
    }
}

/// All events that were queued in `steps`, in order.
pub open spec fn pushed_in(steps: Seq<QueueStep>) -> Seq<CollisionEvent>
    decreases steps.len(),
{
    if steps.len() == 0 {
        Seq::empty()
    } else {
        match steps.last() {
            QueueStep::Push(event) => pushed_in(steps.drop_last()).push(event),
            QueueStep::Drain => pushed_in(steps.drop_last()),
        }
    }
}

/// The steps that queue `events` one after the other.
pub open spec fn pushes(events: Seq<CollisionEvent>) -> Seq<QueueStep> {
    Seq::new(events.len(), |i: int| QueueStep::Push(events[i]))
}

/// No event is lost, repeated or reordered.
///
/// For every sequence of pushes and drains on a queue that was empty: the
/// events that the drains published, one drain after the other, followed by
/// the events that still wait, are the events that were pushed, in the order
/// in which they were pushed.
pub proof fn lemma_queue_loses_nothing(steps: Seq<QueueStep>)
    ensures
        published_after(steps).flatten() + waiting_after(steps) == pushed_in(steps),
    decreases steps.len(),
{
    if steps.len() == 0 {
        assert(published_after(steps).flatten() + waiting_after(steps) =~= pushed_in(steps));
    } else {
        let earlier = steps.drop_last();
        lemma_queue_loses_nothing(earlier);
        match steps.last() {
            QueueStep::Push(event) => {
                assert(published_after(earlier).flatten() + waiting_after(earlier).push(event)
                    =~= (published_after(earlier).flatten() + waiting_after(earlier)).push(event));
            },
            QueueStep::Drain => {
                published_after(earlier).lemma_flatten_push(waiting_after(earlier));
                assert(published_after(steps).flatten() + Seq::<CollisionEvent>::empty()
                    =~= published_after(steps).flatten());
            },
        }
    }
}

/// What is queued after a drain waits for the next one.
///
/// For every sequence of steps and every sequence of events: when the steps
/// are followed by a drain, then by pushes of these events, then by one more
/// drain, the first of the two drains publishes none of the events, and the
/// second publishes exactly them, in order. Nothing of them waits after it.
pub proof fn lemma_queued_after_drain_waits_one_cycle(
    earlier: Seq<QueueStep>,
    events: Seq<CollisionEvent>,
)
    ensures
        published_after(earlier.push(QueueStep::Drain) + pushes(events)) == published_after(
            earlier.push(QueueStep::Drain),
        ),
        waiting_after(earlier.push(QueueStep::Drain) + pushes(events)) == events,
        published_after((earlier.push(QueueStep::Drain) + pushes(events)).push(QueueStep::Drain))
            == published_after(earlier.push(QueueStep::Drain)).push(events),
        waiting_after((earlier.push(QueueStep::Drain) + pushes(events)).push(QueueStep::Drain))
            == Seq::<CollisionEvent>::empty(),
    decreases events.len(),
{
    let drained = earlier.push(QueueStep::Drain);
    let steps = drained + pushes(events);
    assert(drained.drop_last() =~= earlier);
    assert(drained.last() == QueueStep::Drain);
    assert(waiting_after(drained) == Seq::<CollisionEvent>::empty());
    if events.len() == 0 {
        assert(steps =~= drained);
        assert(waiting_after(steps) =~= events);
    } else {
        let front = events.drop_last();
        lemma_queued_after_drain_waits_one_cycle(earlier, front);
        let shorter = drained + pushes(front);
        assert(steps.drop_last() =~= shorter);
        assert(steps.last() == QueueStep::Push(events.last()));
        assert(waiting_after(steps) == waiting_after(shorter).push(events.last()));
        assert(published_after(steps) == published_after(shorter));
        assert(front.push(events.last()) =~= events);
    }
    let closed = steps.push(QueueStep::Drain);
    assert(closed.drop_last() =~= steps);
    assert(closed.last() == QueueStep::Drain);
    assert(published_after(closed) == published_after(steps).push(waiting_after(steps)));
    assert(waiting_after(closed) == Seq::<CollisionEvent>::empty());
}

} // verus!
