//! Trigger descriptors and registration helpers.
//!
//! A [`ReactorType`] names one class of observable change. Entities and
//! payload/component types are identified by plain `u64` ids supplied by the
//! host, so descriptors compare structurally in constant time.

use vstd::prelude::*;

use crate::world::{
    accepted_of, reg_accepts, reg_fold, reg_step, same_alive, same_data, same_dispatch,
    same_groups, same_queue, same_store, ReactWorld,
};

verus! {

/// A trigger descriptor: identifies one class of observable change.
#[derive(Clone, Copy, Debug, PartialEq, Eq, Structural)]
pub enum ReactorType {
    /// A component of the given type was inserted on any entity.
    ComponentInsertion(u64),
    /// A component of the given type was mutated on any entity.
    ComponentMutation(u64),
    /// A component of the given type was removed from any entity.
    ComponentRemoval(u64),
    /// A component of the given type was inserted on the given entity.
    EntityInsertion(u64, u64),
    /// A component of the given type was mutated on the given entity.
    EntityMutation(u64, u64),
    /// A component of the given type was removed from the given entity.
    EntityRemoval(u64, u64),
    /// An event of the given type was sent to the given entity.
    EntityEvent(u64, u64),
    /// A resource of the given type was mutated.
    ResourceMutation(u64),
    /// An event of the given type was broadcast.
    Broadcast(u64),
    /// The given entity was despawned.
    Despawn(u64),
}

/// A redeemable record of one registration call: the descriptors that were
/// registered together with the id of the reactor they refer to.
///
/// Redeeming the token removes every listed entry; redeeming it twice, or
/// after the entries are already gone, is a no-op.
pub struct RevokeToken {
    pub(crate) reactors: Vec<ReactorType>,
    pub(crate) id: u64,
}

impl RevokeToken {
    /// The descriptors recorded in this token.
    pub closed spec fn descriptors(self) -> Seq<ReactorType> {
        self.reactors@
    }

    /// The reactor id this token revokes.
    pub closed spec fn spec_id(self) -> u64 {
        self.id
    }

    /// The reactor id this token revokes.
    pub fn id(&self) -> (r: u64)
        ensures
            r == self.spec_id(),
    {
        self.id
    }

    /// How many descriptors the token lists.
    pub fn len(&self) -> (r: usize)
        ensures
            r == self.descriptors().len(),
    {
        self.reactors.len()
    }

    /// The `i`th descriptor recorded in this token.
    pub fn get(&self, i: usize) -> (t: ReactorType)
        requires
            i < self.descriptors().len(),
        ensures
            t == self.descriptors()[i as int],
    {
        self.reactors[i]
    }
}

/// A trigger that can be registered against a world: it names one
/// descriptor, and registering it appends the reactor handle under that
/// descriptor (declining when the descriptor's target entity is dead).
pub trait ReactionTrigger: Sized {
    /// The descriptor this trigger stands for.
    spec fn descriptor_spec(&self) -> ReactorType;

    /// The descriptor this trigger stands for.
    fn reactor_type(&self) -> (r: ReactorType)
        ensures
            r == self.descriptor_spec(),
    ;

    /// Registers `sys_handle` for this trigger, returning the descriptor to
    /// record in a revocation token when the registration was accepted.
    fn register(self, world: &mut ReactWorld, sys_handle: u64) -> (r: Option<ReactorType>)
        requires
            old(world).wf(),
        ensures
            final(world).wf(),
            final(world).reg_view() == reg_step(
                old(world).reg_view(),
                self.descriptor_spec(),
                sys_handle,
            ),
            same_store(*old(world), *final(world)),
            same_dispatch(*old(world), *final(world)),
            r == if reg_accepts(old(world).reg_view(), self.descriptor_spec()) {
                Some(self.descriptor_spec())
            } else {
                None::<ReactorType>
            },
    ;
}

/// Reaction trigger for component insertions on any entity.
#[derive(Clone, Copy, Debug)]
pub struct InsertionTrigger {
    /// The component type reacted to.
    pub component: u64,
}

impl ReactionTrigger for InsertionTrigger {
    open spec fn descriptor_spec(&self) -> ReactorType {
        ReactorType::ComponentInsertion(self.component)
    }

    fn reactor_type(&self) -> (r: ReactorType) {
        ReactorType::ComponentInsertion(self.component)
    }

    fn register(self, world: &mut ReactWorld, sys_handle: u64) -> (r: Option<ReactorType>) {
        let t = self.reactor_type();
        if world.register_trigger(t, sys_handle) {
            Some(t)
        } else {
            None
        }
    }
}

/// Returns an [`InsertionTrigger`] for component type `component`.
pub fn insertion(component: u64) -> (t: InsertionTrigger)
    ensures
        t.descriptor_spec() == ReactorType::ComponentInsertion(component),
{
    InsertionTrigger { component }
}

/// Reaction trigger for component mutations on any entity.
#[derive(Clone, Copy, Debug)]
pub struct MutationTrigger {
    /// The component type reacted to.
    pub component: u64,
}

impl ReactionTrigger for MutationTrigger {
    open spec fn descriptor_spec(&self) -> ReactorType {
        ReactorType::ComponentMutation(self.component)
    }

    fn reactor_type(&self) -> (r: ReactorType) {
        ReactorType::ComponentMutation(self.component)
    }

    fn register(self, world: &mut ReactWorld, sys_handle: u64) -> (r: Option<ReactorType>) {
        let t = self.reactor_type();
        if world.register_trigger(t, sys_handle) {
            Some(t)
        } else {
            None
        }
    }
}

/// Returns a [`MutationTrigger`] for component type `component`.
pub fn mutation(component: u64) -> (t: MutationTrigger)
    ensures
        t.descriptor_spec() == ReactorType::ComponentMutation(component),
{
    MutationTrigger { component }
}

/// Reaction trigger for component removals from any entity; registering it
/// enables removal tracking for the component type as a side effect.
#[derive(Clone, Copy, Debug)]
pub struct RemovalTrigger {
    /// The component type reacted to.
    pub component: u64,
}

impl ReactionTrigger for RemovalTrigger {
    open spec fn descriptor_spec(&self) -> ReactorType {
        ReactorType::ComponentRemoval(self.component)
    }

    fn reactor_type(&self) -> (r: ReactorType) {
        ReactorType::ComponentRemoval(self.component)
    }

    fn register(self, world: &mut ReactWorld, sys_handle: u64) -> (r: Option<ReactorType>) {
        let t = self.reactor_type();
        if world.register_trigger(t, sys_handle) {
            Some(t)
        } else {
            None
        }
    }
}

/// Returns a [`RemovalTrigger`] for component type `component`.
pub fn removal(component: u64) -> (t: RemovalTrigger)
    ensures
        t.descriptor_spec() == ReactorType::ComponentRemoval(component),
{
    RemovalTrigger { component }
}

/// Reaction trigger for component insertions on a specific entity.
/// Registration does nothing if the entity does not exist.
#[derive(Clone, Copy, Debug)]
pub struct EntityInsertionTrigger {
    /// The entity watched.
    pub entity: u64,
    /// The component type reacted to.
    pub component: u64,
}

impl ReactionTrigger for EntityInsertionTrigger {
    open spec fn descriptor_spec(&self) -> ReactorType {
        ReactorType::EntityInsertion(self.entity, self.component)
    }

    fn reactor_type(&self) -> (r: ReactorType) {
        ReactorType::EntityInsertion(self.entity, self.component)
    }

    fn register(self, world: &mut ReactWorld, sys_handle: u64) -> (r: Option<ReactorType>) {
        let t = self.reactor_type();
        if world.register_trigger(t, sys_handle) {
            Some(t)
        } else {
            None
        }
    }
}

/// Returns an [`EntityInsertionTrigger`] for `component` on `entity`.
pub fn entity_insertion(entity: u64, component: u64) -> (t: EntityInsertionTrigger)
    ensures
        t.descriptor_spec() == ReactorType::EntityInsertion(entity, component),
{
    EntityInsertionTrigger { entity, component }
}

/// Reaction trigger for component mutations on a specific entity.
/// Registration does nothing if the entity does not exist.
#[derive(Clone, Copy, Debug)]
pub struct EntityMutationTrigger {
    /// The entity watched.
    pub entity: u64,
    /// The component type reacted to.
    pub component: u64,
}

impl ReactionTrigger for EntityMutationTrigger {
    open spec fn descriptor_spec(&self) -> ReactorType {
        ReactorType::EntityMutation(self.entity, self.component)
    }

    fn reactor_type(&self) -> (r: ReactorType) {
        ReactorType::EntityMutation(self.entity, self.component)
    }

    fn register(self, world: &mut ReactWorld, sys_handle: u64) -> (r: Option<ReactorType>) {
        let t = self.reactor_type();
        if world.register_trigger(t, sys_handle) {
            Some(t)
        } else {
            None
        }
    }
}

/// Returns an [`EntityMutationTrigger`] for `component` on `entity`.
pub fn entity_mutation(entity: u64, component: u64) -> (t: EntityMutationTrigger)
    ensures
        t.descriptor_spec() == ReactorType::EntityMutation(entity, component),
{
    EntityMutationTrigger { entity, component }
}

/// Reaction trigger for component removals from a specific entity;
/// registering it enables removal tracking for the component type.
/// Registration does nothing if the entity does not exist.
#[derive(Clone, Copy, Debug)]
pub struct EntityRemovalTrigger {
    /// The entity watched.
    pub entity: u64,
    /// The component type reacted to.
    pub component: u64,
}

impl ReactionTrigger for EntityRemovalTrigger {
    open spec fn descriptor_spec(&self) -> ReactorType {
        ReactorType::EntityRemoval(self.entity, self.component)
    }

    fn reactor_type(&self) -> (r: ReactorType) {
        ReactorType::EntityRemoval(self.entity, self.component)
    }

    fn register(self, world: &mut ReactWorld, sys_handle: u64) -> (r: Option<ReactorType>) {
        let t = self.reactor_type();
        if world.register_trigger(t, sys_handle) {
            Some(t)
        } else {
            None
        }
    }
}

/// Returns an [`EntityRemovalTrigger`] for `component` on `entity`.
pub fn entity_removal(entity: u64, component: u64) -> (t: EntityRemovalTrigger)
    ensures
        t.descriptor_spec() == ReactorType::EntityRemoval(entity, component),
{
    EntityRemovalTrigger { entity, component }
}

/// Reaction trigger for entity events: reactions occur only for events sent
/// to the named entity with that entity as target.
#[derive(Clone, Copy, Debug)]
pub struct EntityEventTrigger {
    /// The target entity whose channel is watched.
    pub entity: u64,
    /// The event type reacted to.
    pub event: u64,
}

impl ReactionTrigger for EntityEventTrigger {
    open spec fn descriptor_spec(&self) -> ReactorType {
        ReactorType::EntityEvent(self.entity, self.event)
    }

    fn reactor_type(&self) -> (r: ReactorType) {
        ReactorType::EntityEvent(self.entity, self.event)
    }

    fn register(self, world: &mut ReactWorld, sys_handle: u64) -> (r: Option<ReactorType>) {
        let t = self.reactor_type();
        if world.register_trigger(t, sys_handle) {
            Some(t)
        } else {
            None
        }
    }
}

/// Returns an [`EntityEventTrigger`] for events of type `event` targeted at
/// `target`.
pub fn entity_event(target: u64, event: u64) -> (t: EntityEventTrigger)
    ensures
        t.descriptor_spec() == ReactorType::EntityEvent(target, event),
{
    EntityEventTrigger { entity: target, event }
}

/// Reaction trigger for resource mutations.
#[derive(Clone, Copy, Debug)]
pub struct ResourceMutationTrigger {
    /// The resource type reacted to.
    pub resource: u64,
}

impl ReactionTrigger for ResourceMutationTrigger {
    open spec fn descriptor_spec(&self) -> ReactorType {
        ReactorType::ResourceMutation(self.resource)
    }

    fn reactor_type(&self) -> (r: ReactorType) {
        ReactorType::ResourceMutation(self.resource)
    }

    fn register(self, world: &mut ReactWorld, sys_handle: u64) -> (r: Option<ReactorType>) {
        let t = self.reactor_type();
        if world.register_trigger(t, sys_handle) {
            Some(t)
        } else {
            None
        }
    }
}

/// Returns a [`ResourceMutationTrigger`] for resource type `resource`.
pub fn resource_mutation(resource: u64) -> (t: ResourceMutationTrigger)
    ensures
        t.descriptor_spec() == ReactorType::ResourceMutation(resource),
{
    ResourceMutationTrigger { resource }
}

/// Reaction trigger for broadcast events: reactions occur only for events
/// broadcast under the named event type.
#[derive(Clone, Copy, Debug)]
pub struct BroadcastEventTrigger {
    /// The event type reacted to.
    pub event: u64,
}

impl ReactionTrigger for BroadcastEventTrigger {
    open spec fn descriptor_spec(&self) -> ReactorType {
        ReactorType::Broadcast(self.event)
    }

    fn reactor_type(&self) -> (r: ReactorType) {
        ReactorType::Broadcast(self.event)
    }

    fn register(self, world: &mut ReactWorld, sys_handle: u64) -> (r: Option<ReactorType>) {
        let t = self.reactor_type();
        if world.register_trigger(t, sys_handle) {
            Some(t)
        } else {
            None
        }
    }
}

/// Returns a [`BroadcastEventTrigger`] for events of type `event`.
pub fn broadcast(event: u64) -> (t: BroadcastEventTrigger)
    ensures
        t.descriptor_spec() == ReactorType::Broadcast(event),
{
    BroadcastEventTrigger { event }
}

/// Reaction trigger for despawns. Registration attaches a despawn-tracking
/// marker to the entity — at most one, however many despawn reactors are
/// registered — and does nothing if the entity does not exist.
#[derive(Clone, Copy, Debug)]
pub struct DespawnTrigger {
    /// The entity whose destruction is watched.
    pub entity: u64,
}

impl ReactionTrigger for DespawnTrigger {
    open spec fn descriptor_spec(&self) -> ReactorType {
        ReactorType::Despawn(self.entity)
    }

    fn reactor_type(&self) -> (r: ReactorType) {
        ReactorType::Despawn(self.entity)
    }

    fn register(self, world: &mut ReactWorld, sys_handle: u64) -> (r: Option<ReactorType>) {
        let t = self.reactor_type();
        if world.register_trigger(t, sys_handle) {
            Some(t)
        } else {
            None
        }
    }
}

/// Returns a [`DespawnTrigger`] for `entity`.
pub fn despawn(entity: u64) -> (t: DespawnTrigger)
    ensures
        t.descriptor_spec() == ReactorType::Despawn(entity),
{
    DespawnTrigger { entity }
}

/// A bundle of triggers to register atomically under one revocation token:
/// accumulate descriptors, then commit the bundle with
/// [`reactor_registration`].
pub struct ReactionTriggerBundle {
    triggers: Vec<ReactorType>,
}

impl ReactionTriggerBundle {
    /// The accumulated descriptors, in the order they were added.
    pub closed spec fn triggers(self) -> Seq<ReactorType> {
        self.triggers@
    }

    /// An empty bundle.
    pub fn new() -> (b: Self)
        ensures
            b.triggers() == Seq::<ReactorType>::empty(),
    {
        ReactionTriggerBundle { triggers: Vec::new() }
    }

    /// Adds one trigger to the bundle.
    pub fn add<T: ReactionTrigger>(&mut self, t: T)
        ensures
            final(self).triggers() == old(self).triggers().push(t.descriptor_spec()),
    {
        let rt = t.reactor_type();
        self.triggers.push(rt);
    }

    /// How many triggers the bundle holds.
    pub fn len(&self) -> (r: usize)
        ensures
            r == self.triggers().len(),
    {
        self.triggers.len()
    }
}

/// Registers every trigger of a bundle for the reactor `sys_handle` and
/// returns the revocation token recording the accepted descriptors, in
/// bundle order. The world's registration state advances by one registration
/// step per trigger; nothing else in the world changes.
pub fn reactor_registration(
    world: &mut ReactWorld,
    sys_handle: u64,
    triggers: ReactionTriggerBundle,
) -> (token: RevokeToken)
    requires
        old(world).wf(),
    ensures
        final(world).wf(),
        final(world).reg_view() == reg_fold(
            old(world).reg_view(),
            triggers.triggers(),
            sys_handle,
        ),
        token.spec_id() == sys_handle,
        token.descriptors() == accepted_of(old(world).reg_view(), triggers.triggers()),
        same_store(*old(world), *final(world)),
        same_dispatch(*old(world), *final(world)),
{
    let ghost pre = *old(world);
    let ghost ts = triggers.triggers();
    let mut reactors: Vec<ReactorType> = Vec::new();
    proof {
        reveal_with_fuel(Seq::filter, 1);
        assert(ts.take(0) =~= Seq::<ReactorType>::empty());
        assert(reactors@ == accepted_of(pre.reg_view(), ts.take(0)));
    }
    let n = triggers.len();
    let mut i: usize = 0;
    while i < n
        invariant
            world.wf(),
            n == ts.len(),
            i <= n,
            triggers.triggers() == ts,
            world.reg_view() == reg_fold(pre.reg_view(), ts.take(i as int), sys_handle),
            reactors@ == accepted_of(pre.reg_view(), ts.take(i as int)),
            same_store(pre, *world),
            same_dispatch(pre, *world),
        decreases n - i,
    {
        let t = triggers.triggers[i];
        let ghost mid = *world;
        let accepted = world.register_trigger(t, sys_handle);
        if accepted {
            reactors.push(t);
        }
        proof {
            crate::world::lemma_reg_fold_snoc(pre.reg_view(), ts.take(i as int), ts[i as int], sys_handle);
            assert(ts.take(i + 1 as int) =~= ts.take(i as int).push(ts[i as int]));
            match t {
                ReactorType::Despawn(e) => {
                    assert(mid.alive(e) == pre.alive(e));
                    assert(mid.reg_view().alive.contains(e) == pre.reg_view().alive.contains(e));
                },
                _ => {},
            }
            assert(reg_accepts(mid.reg_view(), t) == reg_accepts(pre.reg_view(), t));
            reveal_with_fuel(Seq::filter, 2);
            assert(ts.take(i + 1 as int).drop_last() =~= ts.take(i as int));
            assert(reactors@ == accepted_of(pre.reg_view(), ts.take(i + 1 as int)));
            assert(same_alive(pre, *world));
            assert(same_data(pre, *world));
            assert(same_groups(pre, *world));
            assert(same_queue(pre, *world));
        }
        i += 1;
    }
    proof {
        assert(ts.take(n as int) =~= ts);
    }
    RevokeToken { reactors, id: sys_handle }
}

} // verus!
