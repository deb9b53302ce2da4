//! The scene-tree component registry.
//!
//! Every node of the scene tree that is mirrored into the ECS world gets the
//! components that were registered here. The registry keeps one initializer
//! per component type, in the order of registration.

use crate::handle::GodotNodeHandle;
use std::any::TypeId;
use vstd::prelude::*;

verus! {

/// The identifier that the standard library gives to each type.
#[verifier::external_type_specification]
#[verifier::external_body]
pub struct ExTypeId(TypeId);

/// `TypeId::of`: the identifier of the type `C`.
///
/// Nothing is claimed of the identifier that comes back.
#[verifier::external_body]
fn type_id_of<C: 'static>() -> (type_id: TypeId) {
    TypeId::of::<C>()
}

/// `==` on `TypeId`: whether both identifiers are the same one.
///
/// The standard library compares the whole identifier, so the test holds
/// exactly of equal values.
#[verifier::external_body]
fn same_type(a: &TypeId, b: &TypeId) -> (same: bool)
    ensures
        same == (*a == *b),
{
    a == b
}

/// An initializer type that can insert the default value of the component
/// type `C`.
pub trait DefaultInitializer<C>: Sized {
    /// The initializer that inserts `C`'s default value.
    fn default_initializer() -> Self;
}

/// The component types of the given entries, in order.
pub open spec fn type_ids<I>(entries: Seq<(TypeId, I)>) -> Seq<TypeId> {
    Seq::new(entries.len(), |i: int| entries[i].0)
}

/// The entries after `init_fn` has been registered for `type_id`: a type that
/// has an initializer keeps it, and a new type goes to the end.
pub open spec fn registered<I>(entries: Seq<(TypeId, I)>, type_id: TypeId, init_fn: I) -> Seq<
    (TypeId, I),
> {
    if type_ids(entries).contains(type_id) {
        entries
    } else {
        entries.push((type_id, init_fn))
    }
}

/// Whether `after` can come out when the initializers of `entries` are
/// called one after the other, in order, on `before` and what each of them
/// returned, all for the node of `node`.
pub open spec fn initialized<I: Fn(E, &GodotNodeHandle) -> E, E>(
    entries: Seq<(TypeId, I)>,
    node: GodotNodeHandle,
    before: E,
    after: E,
) -> bool
    decreases entries.len(),
{
    if entries.len() == 0 {
        after == before
    } else {
        exists|between: E|
            initialized(entries.drop_last(), node, before, between) && #[trigger] call_ensures(
                entries.last().1,
                (between, &node),
                after,
            )
    }
}

/// Initializers for the entities that mirror scene-tree nodes, one per
/// component type, in the order in which the types were registered.
pub struct SceneTreeComponentRegistry<I> {
    components: Vec<(TypeId, I)>,
}

impl<I> View for SceneTreeComponentRegistry<I> {
    type V = Seq<(TypeId, I)>;

    closed spec fn view(&self) -> Seq<(TypeId, I)> {
        self.components@
    }
}

impl<I> Default for SceneTreeComponentRegistry<I> {
    fn default() -> (registry: Self)
        ensures
            registry@ == Seq::<(TypeId, I)>::empty(),
    {
        SceneTreeComponentRegistry { components: Vec::new() }
    }
}

impl<I> SceneTreeComponentRegistry<I> {
    #[verifier::type_invariant]
    spec fn one_initializer_per_type(self) -> bool {
        type_ids(self.components@).no_duplicates()
    }

    /// A registry without initializers.
    pub fn new() -> (registry: Self)
        ensures
            registry@ == Seq::<(TypeId, I)>::empty(),
    {
        SceneTreeComponentRegistry { components: Vec::new() }
    }

    /// The number of component types that have an initializer.
    pub fn len(&self) -> (n: usize)
        ensures
            n == self@.len(),
            type_ids(self@).no_duplicates(),
    {
        proof {
            use_type_invariant(self);
        }
        self.components.len()
    }

    /// Whether the component type has an initializer.
    pub fn is_registered(&self, type_id: &TypeId) -> (found: bool)
        ensures
            found == type_ids(self@).contains(*type_id),
    {
        let mut i: usize = 0;
        while i < self.components.len()
            invariant
                i <= self.components@.len(),
                forall|j: int| 0 <= j < i ==> type_ids(self.components@)[j] != *type_id,
            decreases self.components@.len() - i,
        {
            if same_type(&self.components[i].0, type_id) {
                assert(type_ids(self.components@)[i as int] == *type_id);
                return true;
            }
            i += 1;
        }
        false
    }

    /// Registers `init_fn` for the component type `type_id`, unless the type
    /// has an initializer already: then nothing changes.
    pub fn register_type(&mut self, type_id: TypeId, init_fn: I)
        ensures
            final(self)@ == registered(old(self)@, type_id, init_fn),
            type_ids(final(self)@).no_duplicates(),
    {
        proof {
            use_type_invariant(&*self);
        }
        if self.is_registered(&type_id) {
            return ;
        }
        let ghost before = self.components@;
        let mut components: Vec<(TypeId, I)> = Vec::new();
        core::mem::swap(&mut self.components, &mut components);
        components.push((type_id, init_fn));
        proof {
            let after = components@;
            assert forall|i: int, j: int|
                0 <= i < type_ids(after).len() && 0 <= j < type_ids(after).len() && i
                    != j implies type_ids(after)[i] != type_ids(after)[j] by {
                if i < before.len() {
                    assert(type_ids(before)[i] == type_ids(after)[i]);
                }
                if j < before.len() {
                    assert(type_ids(before)[j] == type_ids(after)[j]);
                }
            }
        }
        core::mem::swap(&mut self.components, &mut components);
    }

    /// Registers the default initializer for the component type `C`, unless
    /// `C` has an initializer already.
    pub fn register<C: 'static>(&mut self) where I: DefaultInitializer<C>
        ensures
            exists|type_id: TypeId, init_fn: I|
                final(self)@ == registered(old(self)@, type_id, init_fn),
            type_ids(final(self)@).no_duplicates(),
    {
        let init_fn = I::default_initializer();
        let type_id = type_id_of::<C>();
        self.register_type(type_id, init_fn);
    }

    /// Registers `init_fn` for the component type `C`, unless `C` has an
    /// initializer already.
    pub fn register_with_init<C: 'static>(&mut self, init_fn: I)
        ensures
            exists|type_id: TypeId| final(self)@ == registered(old(self)@, type_id, init_fn),
            type_ids(final(self)@).no_duplicates(),
    {
        let type_id = type_id_of::<C>();
        self.register_type(type_id, init_fn);
    }

    /// Calls every initializer, in the order of registration, on the entity
    /// that mirrors the node of `node`, and returns the entity as the last
    /// one left it.
    pub fn add_to_entity<E>(&self, entity: E, node: &GodotNodeHandle) -> (initialized_entity: E) where
        I: Fn(E, &GodotNodeHandle) -> E,

        requires
            forall|i: int, e: E|
                0 <= i < self@.len() ==> #[trigger] call_requires(self@[i].1, (e, node)),
        ensures
            initialized(self@, *node, entity, initialized_entity),
    {
        let mut current = entity;
        let mut i: usize = 0;
        while i < self.components.len()
            invariant
                i <= self@.len(),
                self@ == self.components@,
                forall|i: int, e: E|
                    0 <= i < self@.len() ==> #[trigger] call_requires(self@[i].1, (e, node)),
                initialized(self@.take(i as int), *node, entity, current),
            decreases self@.len() - i,
        {
            let ghost between = current;
            let ghost done = self@.take(i as int + 1);
            assert(call_requires(self@[i as int].1, (current, node)));
            let next = (self.components[i].1)(current, node);
            proof {
                assert(done.drop_last() == self@.take(i as int));
                assert(done.last() == self@[i as int]);
                assert(call_ensures(done.last().1, (between, node), next));
                assert(initialized(done, *node, entity, next));
            }
            current = next;
            i += 1;
        }
        proof {
            assert(self@.take(i as int) == self@);
        }
        current
    }
}

/// Registering a component type twice leaves it with one initializer, the
/// first.
///
/// For every registry and every component type: after the type has been
/// registered and then registered again, with whatever initializers, the
/// registry is what it was after the first registration, no type stands in
/// it twice, and the type stands in it exactly once. So exactly one
/// initializer runs for that type on each entity.
pub proof fn lemma_register_twice_keeps_first<I>(
    entries: Seq<(TypeId, I)>,
    type_id: TypeId,
    first: I,
    second: I,
)
    requires
        type_ids(entries).no_duplicates(),
    ensures
        registered(registered(entries, type_id, first), type_id, second) == registered(
            entries,
            type_id,
            first,
        ),
        type_ids(registered(entries, type_id, first)).no_duplicates(),
        type_ids(registered(entries, type_id, first)).to_multiset().count(type_id) == 1,
{
    let once = registered(entries, type_id, first);
    let ids = type_ids(once);
    if !type_ids(entries).contains(type_id) {
        assert(ids[entries.len() as int] == type_id);
        assert forall|i: int, j: int| 0 <= i < ids.len() && 0 <= j < ids.len() && i != j implies ids[i]
            != ids[j] by {
            if i < entries.len() {
                assert(type_ids(entries)[i] == ids[i]);
            }
            if j < entries.len() {
                assert(type_ids(entries)[j] == ids[j]);
            }
        }
    }
    assert(ids.contains(type_id));
    ids.lemma_multiset_has_no_duplicates();
    vstd::seq_lib::to_multiset_contains(ids, type_id);
}

/// Every registered initializer is called once, in order.
///
/// For every registry, node and entity: the entity comes out of a registry
/// with one more entry exactly as it comes out of the registry without that
/// entry and then out of one call of that entry's initializer. So an empty
/// registry leaves the entity as it is, and a registry with one entry calls
/// one initializer once.
pub proof fn lemma_initialized_calls_each_once<I: Fn(E, &GodotNodeHandle) -> E, E>(
    entries: Seq<(TypeId, I)>,
    type_id: TypeId,
    init_fn: I,
    node: GodotNodeHandle,
    before: E,
    after: E,
)
    ensures
        initialized(Seq::<(TypeId, I)>::empty(), node, before, after) <==> after == before,
        initialized(entries.push((type_id, init_fn)), node, before, after) <==> exists|between: E|
            initialized(entries, node, before, between) && #[trigger] call_ensures(
                init_fn,
                (between, &node),
                after,
            ),
        initialized(seq![(type_id, init_fn)], node, before, after) <==> call_ensures(
            init_fn,
            (before, &node),
            after,
        ),
{
    let longer = entries.push((type_id, init_fn));
    assert(longer.drop_last() =~= entries);
    assert(longer.last() == (type_id, init_fn));
    let single = seq![(type_id, init_fn)];
    assert(single.drop_last() =~= Seq::<(TypeId, I)>::empty());
    assert(single.last() == (type_id, init_fn));
    if initialized(single, node, before, after) {
        let between = choose|between: E|
            initialized(single.drop_last(), node, before, between) && #[trigger] call_ensures(
                single.last().1,
                (between, &node),
                after,
            );
        assert(between == before);
    }
    if call_ensures(init_fn, (before, &node), after) {
        assert(initialized(single.drop_last(), node, before, before));
    }
}

/// Registration keeps the initializers that are there, in their order.
///
/// For every registry: a registration changes no entry that stood in the
/// registry before and moves none.
pub proof fn lemma_register_keeps_order<I>(entries: Seq<(TypeId, I)>, type_id: TypeId, init_fn: I)
    ensures
        entries.is_prefix_of(registered(entries, type_id, init_fn)),
{
}

/// The place of the registry in a world: empty until the first registration.
pub trait AppSceneTreeExt<I>: Sized {
    /// The initializers that are registered, none where there is no registry
    /// yet.
    spec fn scene_tree_components(&self) -> Seq<(TypeId, I)>;

    /// Registers the default initializer for `C`, in a registry that is made
    /// first if there is none.
    fn register_scene_tree_component<C: 'static>(&mut self) where I: DefaultInitializer<C>
        ensures
            exists|type_id: TypeId, init_fn: I|
                final(self).scene_tree_components() == registered(
                    old(self).scene_tree_components(),
                    type_id,
                    init_fn,
                ),
            type_ids(final(self).scene_tree_components()).no_duplicates(),
    ;

    /// Registers `init_fn` for `C`, in a registry that is made first if there
    /// is none.
    fn register_scene_tree_component_with_init<C: 'static>(&mut self, init_fn: I)
        ensures
            exists|type_id: TypeId|
                final(self).scene_tree_components() == registered(
                    old(self).scene_tree_components(),
                    type_id,
                    init_fn,
                ),
            type_ids(final(self).scene_tree_components()).no_duplicates(),
    ;
}

impl<I> AppSceneTreeExt<I> for Option<SceneTreeComponentRegistry<I>> {
    open spec fn scene_tree_components(&self) -> Seq<(TypeId, I)> {
        match self {
            Some(registry) => registry@,
            None => Seq::empty(),
        }
    }

    fn register_scene_tree_component<C: 'static>(&mut self) where I: DefaultInitializer<C>
        ensures
            *final(self) is Some,
    {
        let ghost before = self.scene_tree_components();
        let mut registry = match self.take() {
            Some(registry) => registry,
            None => SceneTreeComponentRegistry::new(),
        };
        assert(registry@ == before);
        registry.register::<C>();
        let ghost after = registry@;
        *self = Some(registry);
        assert(self.scene_tree_components() == after);
    }

    fn register_scene_tree_component_with_init<C: 'static>(&mut self, init_fn: I)
        ensures
            *final(self) is Some,
    {
        let ghost before = self.scene_tree_components();
        let mut registry = match self.take() {
            Some(registry) => registry,
            None => SceneTreeComponentRegistry::new(),
        };
        assert(registry@ == before);
        registry.register_with_init::<C>(init_fn);
        let ghost after = registry@;
        *self = Some(registry);
        assert(self.scene_tree_components() == after);
    }
}

} // verus!
