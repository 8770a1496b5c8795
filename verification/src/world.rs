//! The dispatch engine: a world model holding the registry, the live
//! entities, the per-entity reactor tables, the transient payload stores and
//! the queue of pending reactor invocations.
//!
//! A host drives the engine: it emits events, then repeatedly asks for the
//! next reactor invocation with [`ReactWorld::next_reactor`], runs the
//! reactor's own code, and closes the invocation with
//! [`ReactWorld::end_reactor`]. Events emitted while an invocation is open
//! resolve depth-first: they run to completion before the emitting reactor's
//! siblings and before any event queued behind the emitter.

use vstd::prelude::*;

use crate::autodespawn::{spec_release, AutoDespawnSignal, AutoDespawner};
use crate::maps::{ne, IdMap, IdSet, TriggerMap};
use crate::payload::{
    spec_take, DespawnAccessTracker, SystemEventAccessTracker, SystemEventData,
};
use crate::registry::ReactCache;
use crate::trigger::{ReactorType, RevokeToken};

verus! {

/// Where one pending event's payload lives.
#[derive(Clone, Copy, Debug, PartialEq, Eq, Structural)]
pub enum PayloadRef {
    /// The payload sits in a transient store on the given data entity.
    Data(u64),
    /// The event reacts to the destruction of the given entity; the source
    /// entity itself is the payload.
    DespawnOf(u64),
}

/// One queued event: its payload and the reactors that have not run yet, in
/// dispatch order.
pub struct PendingEvent {
    /// Where the event's payload lives.
    pub payload: PayloadRef,
    /// The matched reactors that have not been invoked yet, front first.
    pub remaining: Vec<u64>,
}

/// The mathematical view of one queued event.
pub struct EventView {
    /// Where the event's payload lives.
    pub payload: PayloadRef,
    /// The matched reactors that have not been invoked yet, front first.
    pub remaining: Seq<u64>,
}

impl View for PendingEvent {
    type V = EventView;

    open spec fn view(&self) -> EventView {
        EventView { payload: self.payload, remaining: self.remaining@ }
    }
}

/// The invocation currently being run by the host.
pub struct ActiveInvocation {
    reactor: u64,
    payload: PayloadRef,
    remaining: Vec<u64>,
    emitted: Vec<PendingEvent>,
}

/// The mathematical view of the open invocation.
pub struct ActiveView {
    /// The reactor the host is running.
    pub reactor: u64,
    /// Where the running event's payload lives.
    pub payload: PayloadRef,
    /// The reactors of the same event still to run after this one.
    pub remaining: Seq<u64>,
    /// The events emitted so far from inside this invocation, oldest first.
    pub emitted: Seq<EventView>,
}

impl View for ActiveInvocation {
    type V = ActiveView;

    closed spec fn view(&self) -> ActiveView {
        ActiveView {
            reactor: self.reactor,
            payload: self.payload,
            remaining: self.remaining@,
            emitted: self.emitted@.map_values(|e: PendingEvent| e@),
        }
    }
}

/// A per-entity side table of entity-scoped reactor lists, created lazily on
/// the first entity-scoped registration and destroyed with its entity.
pub struct EntityReactors {
    map: TriggerMap,
}

impl EntityReactors {
    /// The ordered reactor list this table holds under `t`.
    pub closed spec fn list(self, t: ReactorType) -> Seq<u64> {
        self.map.list(t)
    }

    /// The underlying table is well formed.
    pub closed spec fn wf(self) -> bool {
        self.map.wf()
    }

    /// An empty table.
    pub fn new() -> (r: Self)
        ensures
            r.wf(),
            forall|t: ReactorType| #[trigger] r.list(t) == Seq::<u64>::empty(),
    {
        EntityReactors { map: TriggerMap::new() }
    }

    /// Appends `handle` to the list held under `rtype`.
    pub fn insert(&mut self, rtype: ReactorType, handle: u64)
        requires
            old(self).wf(),
        ensures
            final(self).wf(),
            forall|t2: ReactorType| #[trigger] final(self).list(t2) == if t2 == rtype {
                old(self).list(rtype).push(handle)
            } else {
                old(self).list(t2)
            },
    {
        self.map.register(rtype, handle);
    }

    /// A copy of the list held under `t`.
    pub fn get_list(&self, t: ReactorType) -> (r: Vec<u64>)
        ensures
            r@ == self.list(t),
    {
        self.map.get_list(t)
    }

    /// Removes every entry with handle `id` from the list held under `t`.
    pub fn remove_id(&mut self, t: ReactorType, id: u64)
        requires
            old(self).wf(),
        ensures
            final(self).wf(),
            forall|t2: ReactorType| #[trigger] final(self).list(t2) == if t2 == t {
                old(self).list(t).filter(ne(id))
            } else {
                old(self).list(t2)
            },
    {
        self.map.remove_id(t, id);
    }
}

impl Default for EntityReactors {
    /// An empty table.
    fn default() -> (r: Self)
        ensures
            r.wf(),
            forall|t: ReactorType| #[trigger] r.list(t) == Seq::<u64>::empty(),
    {
        EntityReactors::new()
    }
}

/// The registration-relevant state of a world: the global reactor lists, the
/// removal-tracking set, the per-entity tables, the despawn markers and the
/// live entities.
#[verifier::ext_equal]
pub struct RegView {
    /// Global descriptor to ordered reactor list, total: unregistered
    /// descriptors map to the empty list.
    pub lists: Map<ReactorType, Seq<u64>>,
    /// The component types with removal tracking enabled.
    pub tracking: Set<u64>,
    /// Per-entity tables, total in both arguments.
    pub tables: Map<u64, Map<ReactorType, Seq<u64>>>,
    /// The entities carrying a despawn-tracking marker.
    pub markers: Set<u64>,
    /// The live entities.
    pub alive: Set<u64>,
}

/// Whether registering `t` is accepted: a despawn trigger for a dead entity
/// declines, everything else is accepted.
pub open spec fn reg_accepts(rv: RegView, t: ReactorType) -> bool {
    match t {
        ReactorType::Despawn(e) => rv.alive.contains(e),
        _ => true,
    }
}

/// One registration step on the registration view.
pub open spec fn reg_step(rv: RegView, t: ReactorType, h: u64) -> RegView {
    match t {
        ReactorType::ComponentInsertion(_)
        | ReactorType::ComponentMutation(_)
        | ReactorType::ResourceMutation(_)
        | ReactorType::Broadcast(_) => RegView {
            lists: rv.lists.insert(t, rv.lists[t].push(h)),
            ..rv
        },
        ReactorType::ComponentRemoval(c) => RegView {
            lists: rv.lists.insert(t, rv.lists[t].push(h)),
            tracking: rv.tracking.insert(c),
            ..rv
        },
        ReactorType::EntityInsertion(e, _)
        | ReactorType::EntityMutation(e, _)
        | ReactorType::EntityEvent(e, _) => if rv.alive.contains(e) {
            RegView { tables: table_put(rv.tables, e, t, h), ..rv }
        } else {
            rv
        },
        ReactorType::EntityRemoval(e, c) => {
            let rv1 = RegView { tracking: rv.tracking.insert(c), ..rv };
            if rv.alive.contains(e) {
                RegView { tables: table_put(rv1.tables, e, t, h), ..rv1 }
            } else {
                rv1
            }
        },
        ReactorType::Despawn(e) => if rv.alive.contains(e) {
            RegView {
                lists: rv.lists.insert(t, rv.lists[t].push(h)),
                markers: rv.markers.insert(e),
                ..rv
            }
        } else {
            rv
        },
    }
}

/// Appends `h` under `t` in entity `e`'s table.
pub open spec fn table_put(
    tables: Map<u64, Map<ReactorType, Seq<u64>>>,
    e: u64,
    t: ReactorType,
    h: u64,
) -> Map<u64, Map<ReactorType, Seq<u64>>> {
    tables.insert(e, tables[e].insert(t, tables[e][t].push(h)))
}

/// Registration steps folded over a bundle of descriptors, front first.
pub open spec fn reg_fold(rv: RegView, ts: Seq<ReactorType>, h: u64) -> RegView
    decreases ts.len(),
{
    if ts.len() == 0 {
        rv
    } else {
        reg_fold(reg_step(rv, ts[0], h), ts.drop_first(), h)
    }
}

/// The descriptors of a bundle that registration accepts, in bundle order.
pub open spec fn accepted_of(rv: RegView, ts: Seq<ReactorType>) -> Seq<ReactorType> {
    ts.filter(|t: ReactorType| reg_accepts(rv, t))
}

/// One revocation step on the registration view: removes every entry with
/// handle `id` under `t`, keeping the remaining entries in order.
pub open spec fn revoke_step(rv: RegView, t: ReactorType, id: u64) -> RegView {
    match t {
        ReactorType::EntityInsertion(e, _)
        | ReactorType::EntityMutation(e, _)
        | ReactorType::EntityRemoval(e, _)
        | ReactorType::EntityEvent(e, _) => RegView {
            tables: rv.tables.insert(e, rv.tables[e].insert(t, rv.tables[e][t].filter(ne(id)))),
            ..rv
        },
        _ => RegView { lists: rv.lists.insert(t, rv.lists[t].filter(ne(id))), ..rv },
    }
}

/// Revocation steps folded over a token's descriptors, front first.
pub open spec fn revoke_fold(rv: RegView, ts: Seq<ReactorType>, id: u64) -> RegView
    decreases ts.len(),
{
    if ts.len() == 0 {
        rv
    } else {
        revoke_fold(revoke_step(rv, ts[0], id), ts.drop_first(), id)
    }
}

/// Where an event lands when it is emitted: into the open invocation's
/// emission buffer, or at the back of the outermost pending level when the
/// engine is between invocations.
pub open spec fn spec_enqueue(
    levels: Seq<Seq<EventView>>,
    active: Option<ActiveView>,
    ev: EventView,
) -> (Seq<Seq<EventView>>, Option<ActiveView>) {
    match active {
        Some(a) => (
            levels,
            Some(ActiveView { emitted: a.emitted.push(ev), ..a }),
        ),
        None => if levels.len() == 0 {
            (seq![seq![ev]], None)
        } else {
            (levels.update(0, levels[0].push(ev)), None)
        },
    }
}

/// What closing an invocation leaves pending: the unfinished part of its own
/// event comes back as a new level, and the events it emitted come back as a
/// further level above that, so they run first — depth-first resolution.
pub open spec fn levels_after_end(lv: Seq<Seq<EventView>>, a: ActiveView) -> Seq<Seq<EventView>> {
    let lv1 = if a.remaining.len() > 0 {
        lv.push(seq![EventView { payload: a.payload, remaining: a.remaining }])
    } else {
        lv
    };
    if a.emitted.len() > 0 {
        lv1.push(a.emitted)
    } else {
        lv1
    }
}

/// The world model: the single mutable owner of all reactive state.
pub struct ReactWorld {
    cache: ReactCache,
    alive: IdSet,
    next_entity: u64,
    entity_reactors: IdMap<EntityReactors>,
    markers: IdSet,
    despawner: AutoDespawner,
    event_data: IdMap<SystemEventData>,
    levels: Vec<Vec<PendingEvent>>,
    active: Option<ActiveInvocation>,
    sys_tracker: SystemEventAccessTracker,
    despawn_tracker: DespawnAccessTracker,
}

impl ReactWorld {
    /// The global reactor list registered under `t`.
    pub closed spec fn list(self, t: ReactorType) -> Seq<u64> {
        self.cache.list(t)
    }

    /// Whether removal tracking is enabled for component type `c`.
    pub closed spec fn tracks(self, c: u64) -> bool {
        self.cache.tracks(c)
    }

    /// The queued despawn notifications, oldest first.
    pub closed spec fn queue(self) -> Seq<u64> {
        self.cache.queue()
    }

    /// Whether entity `e` is alive.
    pub closed spec fn alive(self, e: u64) -> bool {
        self.alive.has(e)
    }

    /// The next entity id to be handed out.
    pub closed spec fn next_id(self) -> u64 {
        self.next_entity
    }

    /// The entity-scoped reactor list of entity `e` under `t`; empty when
    /// `e` has no table.
    pub closed spec fn table_list(self, e: u64, t: ReactorType) -> Seq<u64> {
        match self.entity_reactors.get(e) {
            Some(tbl) => tbl.list(t),
            None => Seq::empty(),
        }
    }

    /// Whether entity `e` carries a despawn-tracking marker.
    pub closed spec fn marker(self, e: u64) -> bool {
        self.markers.has(e)
    }

    /// The auto-cleanup group table.
    pub closed spec fn groups(self) -> Map<u64, (u64, u64)> {
        self.despawner.groups()
    }

    /// The next auto-cleanup group id to be handed out.
    pub closed spec fn group_cursor(self) -> u64 {
        self.despawner.spec_next_group()
    }

    /// The transient payload store of data entity `d`, if any.
    pub closed spec fn data(self, d: u64) -> Option<SystemEventData> {
        self.event_data.get(d)
    }

    /// The pending levels of the reaction tree, outermost first; the last
    /// level is served first.
    pub closed spec fn levels_view(self) -> Seq<Seq<EventView>> {
        self.levels@.map_values(|l: Vec<PendingEvent>| l@.map_values(|e: PendingEvent| e@))
    }

    /// The open invocation, if any.
    pub closed spec fn active_view(self) -> Option<ActiveView> {
        match self.active {
            Some(a) => Some(a@),
            None => None,
        }
    }

    /// The payload access tracker.
    pub closed spec fn sys_tracker_view(self) -> SystemEventAccessTracker {
        self.sys_tracker
    }

    /// The despawn access tracker.
    pub closed spec fn despawn_tracker_view(self) -> DespawnAccessTracker {
        self.despawn_tracker
    }

    /// The registration view of this world.
    pub open spec fn reg_view(self) -> RegView {
        RegView {
            lists: Map::new(|t: ReactorType| true, |t: ReactorType| self.list(t)),
            tracking: Set::new(|c: u64| self.tracks(c)),
            tables: Map::new(
                |e: u64| true,
                |e: u64| Map::new(|t: ReactorType| true, |t: ReactorType| self.table_list(e, t)),
            ),
            markers: Set::new(|e: u64| self.marker(e)),
            alive: Set::new(|e: u64| self.alive(e)),
        }
    }

    /// The internal tables are well formed, ids are below the allocation
    /// cursor, side state is attached to live entities only, and every
    /// pending event still has reactors to run.
    pub closed spec fn wf(self) -> bool {
        &&& self.cache.wf()
        &&& self.alive.wf()
        &&& self.markers.wf()
        &&& self.despawner.wf()
        &&& self.event_data.wf()
        &&& self.entity_reactors.wf()
        &&& forall|e: u64| #[trigger] self.alive.has(e) ==> e < self.next_entity
        &&& forall|d: u64| (#[trigger] self.event_data.get(d)) is Some ==> self.alive.has(d)
        &&& forall|e: u64|
            (#[trigger] self.entity_reactors.get(e)) is Some ==> self.alive.has(e)
                && self.entity_reactors.get(e)->Some_0.wf()
        &&& forall|e: u64| #[trigger] self.markers.has(e) ==> self.alive.has(e)
        &&& forall|i: int| 0 <= i < self.levels@.len() ==> (#[trigger] self.levels@[i])@.len() > 0
        &&& forall|i: int, j: int|
            0 <= i < self.levels@.len() && 0 <= j < self.levels@[i]@.len() ==> (
            #[trigger] self.levels@[i]@[j]).remaining@.len() > 0
        &&& match self.active {
            Some(a) => forall|k: int|
                0 <= k < a.emitted@.len() ==> (#[trigger] a.emitted@[k]).remaining@.len() > 0,
            None => true,
        }
    }
}

/// The global lists agree between two worlds.
pub open spec fn same_lists(a: ReactWorld, b: ReactWorld) -> bool {
    forall|t: ReactorType| #[trigger] b.list(t) == a.list(t)
}

/// The removal-tracking sets agree between two worlds.
pub open spec fn same_tracks(a: ReactWorld, b: ReactWorld) -> bool {
    forall|c: u64| #[trigger] b.tracks(c) == a.tracks(c)
}

/// The per-entity tables agree between two worlds.
pub open spec fn same_tables(a: ReactWorld, b: ReactWorld) -> bool {
    forall|e: u64, t: ReactorType| #[trigger] b.table_list(e, t) == a.table_list(e, t)
}

/// The despawn markers agree between two worlds.
pub open spec fn same_markers(a: ReactWorld, b: ReactWorld) -> bool {
    forall|e: u64| #[trigger] b.marker(e) == a.marker(e)
}

/// The whole registration state agrees between two worlds.
pub open spec fn same_reg(a: ReactWorld, b: ReactWorld) -> bool {
    same_lists(a, b) && same_tracks(a, b) && same_tables(a, b) && same_markers(a, b)
}

/// Liveness and the allocation cursor agree between two worlds.
pub open spec fn same_alive(a: ReactWorld, b: ReactWorld) -> bool {
    (forall|e: u64| #[trigger] b.alive(e) == a.alive(e)) && b.next_id() == a.next_id()
}

/// The payload stores agree between two worlds.
pub open spec fn same_data(a: ReactWorld, b: ReactWorld) -> bool {
    forall|d: u64| #[trigger] b.data(d) == a.data(d)
}

/// The auto-cleanup groups agree between two worlds.
pub open spec fn same_groups(a: ReactWorld, b: ReactWorld) -> bool {
    b.groups() == a.groups() && b.group_cursor() == a.group_cursor()
}

/// The notification queues agree between two worlds.
pub open spec fn same_queue(a: ReactWorld, b: ReactWorld) -> bool {
    b.queue() == a.queue()
}

/// Liveness, stores, groups and the queue all agree between two worlds.
pub open spec fn same_store(a: ReactWorld, b: ReactWorld) -> bool {
    same_alive(a, b) && same_data(a, b) && same_groups(a, b) && same_queue(a, b)
}

/// The pending levels, the open invocation and the access trackers all agree
/// between two worlds.
pub open spec fn same_dispatch(a: ReactWorld, b: ReactWorld) -> bool {
    &&& b.levels_view() == a.levels_view()
    &&& b.active_view() == a.active_view()
    &&& b.sys_tracker_view() == a.sys_tracker_view()
    &&& b.despawn_tracker_view() == a.despawn_tracker_view()
}

/// What destroying entity `e` does to the registration state, the stores and
/// the queue: everything attached to `e` is released, and when `e` carried a
/// despawn marker its identity is reported once through the channel.
/// Destroying a dead entity changes none of this state.
pub open spec fn despawn_rel_core(pre: ReactWorld, post: ReactWorld, e: u64) -> bool {
    if pre.alive(e) {
        &&& forall|x: u64| #[trigger] post.alive(x) == (pre.alive(x) && x != e)
        &&& post.next_id() == pre.next_id()
        &&& forall|d: u64| #[trigger] post.data(d) == if d == e {
            None::<SystemEventData>
        } else {
            pre.data(d)
        }
        &&& forall|e2: u64, t: ReactorType| #[trigger] post.table_list(e2, t) == if e2 == e {
            Seq::<u64>::empty()
        } else {
            pre.table_list(e2, t)
        }
        &&& forall|x: u64| #[trigger] post.marker(x) == (pre.marker(x) && x != e)
        &&& post.queue() == if pre.marker(e) {
            pre.queue().push(e)
        } else {
            pre.queue()
        }
        &&& same_lists(pre, post)
        &&& same_tracks(pre, post)
    } else {
        &&& same_reg(pre, post)
        &&& same_alive(pre, post)
        &&& same_data(pre, post)
        &&& same_queue(pre, post)
    }
}

impl ReactWorld {
    /// A fresh world: nothing registered, nothing alive, nothing pending.
    pub fn new() -> (w: Self)
        ensures
            w.wf(),
            forall|t: ReactorType| #[trigger] w.list(t) == Seq::<u64>::empty(),
            forall|c: u64| !(#[trigger] w.tracks(c)),
            forall|e: u64, t: ReactorType| #[trigger] w.table_list(e, t) == Seq::<u64>::empty(),
            forall|e: u64| !(#[trigger] w.alive(e)),
            forall|e: u64| !(#[trigger] w.marker(e)),
            forall|d: u64| (#[trigger] w.data(d)) is None,
            w.groups() =~= Map::<u64, (u64, u64)>::empty(),
            w.queue() == Seq::<u64>::empty(),
            w.levels_view() == Seq::<Seq<EventView>>::empty(),
            w.active_view() is None,
            w.next_id() == 0,
            !w.sys_tracker_view().currently_reacting,
            !w.despawn_tracker_view().currently_reacting,
    {
        let w = ReactWorld {
            cache: ReactCache::new(),
            alive: IdSet::new(),
            next_entity: 0,
            entity_reactors: IdMap::new(),
            markers: IdSet::new(),
            despawner: AutoDespawner::new(),
            event_data: IdMap::new(),
            levels: Vec::new(),
            active: None,
            sys_tracker: SystemEventAccessTracker::default(),
            despawn_tracker: DespawnAccessTracker::default(),
        };
        proof {
            assert(w.levels_view() =~= Seq::<Seq<EventView>>::empty());
        }
        w
    }

    /// Allocates a fresh entity.
    pub fn spawn_entity(&mut self) -> (e: u64)
        requires
            old(self).wf(),
            old(self).next_id() < u64::MAX,
        ensures
            final(self).wf(),
            e == old(self).next_id(),
            !old(self).alive(e),
            final(self).next_id() == e + 1,
            forall|x: u64| #[trigger] final(self).alive(x) == (old(self).alive(x) || x == e),
            same_reg(*old(self), *final(self)),
            same_data(*old(self), *final(self)),
            same_groups(*old(self), *final(self)),
            same_queue(*old(self), *final(self)),
            same_dispatch(*old(self), *final(self)),
    {
        let e = self.next_entity;
        self.alive.insert(e);
        self.next_entity = e + 1;
        e
    }

    /// Whether entity `e` is alive.
    pub fn is_alive(&self, e: u64) -> (r: bool)
        ensures
            r == self.alive(e),
    {
        self.alive.contains(e)
    }

    /// Destroys entity `e` and everything attached to it: its reactor table,
    /// any transient payload store on it, and its despawn marker — whose
    /// removal reports `e` once through the notification channel. Destroying
    /// a dead entity is a no-op.
    pub fn despawn_entity(&mut self, e: u64)
        requires
            old(self).wf(),
        ensures
            final(self).wf(),
            despawn_rel_core(*old(self), *final(self), e),
            same_groups(*old(self), *final(self)),
            same_dispatch(*old(self), *final(self)),
    {
        self.despawn_inner(e);
    }

    fn despawn_inner(&mut self, e: u64)
        requires
            old(self).wf(),
        ensures
            final(self).wf(),
            despawn_rel_core(*old(self), *final(self), e),
            same_groups(*old(self), *final(self)),
            same_dispatch(*old(self), *final(self)),
    {
        if !self.alive.contains(e) {
            return ;
        }
        self.alive.remove(e);
        let _ = self.entity_reactors.remove(e);
        let _ = self.event_data.remove(e);
        if self.markers.contains(e) {
            self.markers.remove(e);
            self.cache.notify_despawn(e);
        }
    }

    /// Opens a new auto-cleanup group referencing `target` and returns its
    /// first signal handle.
    pub fn prepare_signal(&mut self, target: u64) -> (s: AutoDespawnSignal)
        requires
            old(self).wf(),
            old(self).group_cursor() < u64::MAX,
        ensures
            final(self).wf(),
            s.spec_entity() == target,
            s.spec_group() == old(self).group_cursor(),
            final(self).group_cursor() == old(self).group_cursor() + 1,
            final(self).groups() == old(self).groups().insert(s.spec_group(), (target, 1u64)),
            same_reg(*old(self), *final(self)),
            same_alive(*old(self), *final(self)),
            same_data(*old(self), *final(self)),
            same_queue(*old(self), *final(self)),
            same_dispatch(*old(self), *final(self)),
    {
        self.despawner.prepare(target)
    }

    /// Clones a live signal handle, raising its group's count by one.
    pub fn clone_signal(&mut self, s: &AutoDespawnSignal) -> (s2: AutoDespawnSignal)
        requires
            old(self).wf(),
            old(self).groups().contains_key(s.spec_group()),
            old(self).groups()[s.spec_group()].0 == s.spec_entity(),
            old(self).groups()[s.spec_group()].1 < u64::MAX,
        ensures
            final(self).wf(),
            s2.spec_entity() == s.spec_entity(),
            s2.spec_group() == s.spec_group(),
            final(self).group_cursor() == old(self).group_cursor(),
            final(self).groups() == old(self).groups().insert(
                s.spec_group(),
                (s.spec_entity(), (old(self).groups()[s.spec_group()].1 + 1) as u64),
            ),
            same_reg(*old(self), *final(self)),
            same_alive(*old(self), *final(self)),
            same_data(*old(self), *final(self)),
            same_queue(*old(self), *final(self)),
            same_dispatch(*old(self), *final(self)),
    {
        self.despawner.clone_signal(s)
    }

    /// Releases a signal handle. The release that brings its group's count
    /// to zero destroys the group's target entity — exactly once per group,
    /// however many handles were cloned.
    pub fn drop_signal(&mut self, s: AutoDespawnSignal) -> (r: Option<u64>)
        requires
            old(self).wf(),
            old(self).groups().contains_key(s.spec_group()),
            old(self).groups()[s.spec_group()].0 == s.spec_entity(),
        ensures
            final(self).wf(),
            final(self).group_cursor() == old(self).group_cursor(),
            (final(self).groups(), r) == spec_release(old(self).groups(), s.spec_group()),
            r == if old(self).groups()[s.spec_group()].1 == 1 {
                Some(s.spec_entity())
            } else {
                None::<u64>
            },
            match r {
                Some(target) => despawn_rel_core(*old(self), *final(self), target)
                    && same_dispatch(*old(self), *final(self)),
                None => same_reg(*old(self), *final(self)) && same_alive(*old(self), *final(self))
                    && same_data(*old(self), *final(self)) && same_queue(*old(self), *final(self))
                    && same_dispatch(*old(self), *final(self)),
            },
    {
        let r = self.despawner.release(s);
        match r {
            Some(target) => {
                self.despawn_inner(target);
                Some(target)
            },
            None => None,
        }
    }

    /// Enables removal tracking for component type `ty`, from this point
    /// forward: earlier removals stay unobservable. Registering a removal
    /// trigger enables tracking for its type automatically.
    pub fn enable_removal_tracking(&mut self, ty: u64)
        requires
            old(self).wf(),
        ensures
            final(self).wf(),
            forall|c: u64| #[trigger] final(self).tracks(c) == (old(self).tracks(c) || c == ty),
            same_lists(*old(self), *final(self)),
            same_tables(*old(self), *final(self)),
            same_markers(*old(self), *final(self)),
            same_store(*old(self), *final(self)),
            same_dispatch(*old(self), *final(self)),
    {
        self.cache.track_removals(ty);
    }

    /// Registers `handle` under the descriptor `t`. Component-scoped and
    /// broadcast descriptors append to the global lists (removal descriptors
    /// also enable removal tracking for their type, as a side effect of
    /// registration); entity-scoped descriptors append to the entity's own
    /// table, declining silently when the entity is dead; a despawn
    /// descriptor additionally attaches the entity's despawn-tracking marker
    /// — at most one, however many despawn reactors are registered — and
    /// declines, returning false, when the entity is dead.
    pub fn register_trigger(&mut self, t: ReactorType, handle: u64) -> (accepted: bool)
        requires
            old(self).wf(),
        ensures
            final(self).wf(),
            final(self).reg_view() == reg_step(old(self).reg_view(), t, handle),
            accepted == reg_accepts(old(self).reg_view(), t),
            same_store(*old(self), *final(self)),
            same_dispatch(*old(self), *final(self)),
    {
        let ghost pre = *old(self);
        match t {
            ReactorType::ComponentInsertion(_)
            | ReactorType::ComponentMutation(_)
            | ReactorType::ResourceMutation(_)
            | ReactorType::Broadcast(_) => {
                self.cache.register(t, handle);
                proof {
                    lemma_reg_views_equal(pre, *self, t, handle);
                }
                true
            },
            ReactorType::ComponentRemoval(c) => {
                self.cache.track_removals(c);
                self.cache.register(t, handle);
                proof {
                    lemma_reg_views_equal(pre, *self, t, handle);
                }
                true
            },
            ReactorType::EntityInsertion(e, _)
            | ReactorType::EntityMutation(e, _)
            | ReactorType::EntityEvent(e, _) => {
                self.entity_register(e, t, handle);
                proof {
                    lemma_reg_views_equal(pre, *self, t, handle);
                }
                true
            },
            ReactorType::EntityRemoval(e, c) => {
                self.cache.track_removals(c);
                self.entity_register(e, t, handle);
                proof {
                    lemma_reg_views_equal(pre, *self, t, handle);
                }
                true
            },
            ReactorType::Despawn(e) => {
                if self.alive.contains(e) {
                    self.cache.register(t, handle);
                    self.markers.insert(e);
                    proof {
                        lemma_reg_views_equal(pre, *self, t, handle);
                    }
                    true
                } else {
                    proof {
                        lemma_reg_views_equal(pre, *self, t, handle);
                    }
                    false
                }
            },
        }
    }

    fn entity_register(&mut self, e: u64, t: ReactorType, handle: u64)
        requires
            old(self).wf(),
        ensures
            final(self).wf(),
            old(self).alive(e) ==> forall|e2: u64, t2: ReactorType|
                #[trigger] final(self).table_list(e2, t2) == if e2 == e && t2 == t {
                    old(self).table_list(e, t).push(handle)
                } else {
                    old(self).table_list(e2, t2)
                },
            !old(self).alive(e) ==> same_tables(*old(self), *final(self)),
            same_lists(*old(self), *final(self)),
            same_tracks(*old(self), *final(self)),
            same_markers(*old(self), *final(self)),
            same_store(*old(self), *final(self)),
            same_dispatch(*old(self), *final(self)),
    {
        if !self.alive.contains(e) {
            return ;
        }
        let tbl = self.entity_reactors.remove(e);
        match tbl {
            Some(mut tbl) => {
                tbl.insert(t, handle);
                self.entity_reactors.insert(e, tbl);
            },
            None => {
                let mut tbl = EntityReactors::new();
                tbl.insert(t, handle);
                self.entity_reactors.insert(e, tbl);
            },
        }
    }

    /// Redeems a revocation token: every entry the token lists is removed
    /// from its list, global or entity-scoped. Entries already gone — the
    /// token was redeemed before, or the entity is dead — are silently
    /// ignored; revocation never fails.
    pub fn revoke(&mut self, token: RevokeToken)
        requires
            old(self).wf(),
        ensures
            final(self).wf(),
            final(self).reg_view() == revoke_fold(
                old(self).reg_view(),
                token.descriptors(),
                token.spec_id(),
            ),
            same_store(*old(self), *final(self)),
            same_dispatch(*old(self), *final(self)),
    {
        let ghost pre = *old(self);
        let ghost ts = token.descriptors();
        let id = token.id();
        let n = token.len();
        let mut i: usize = 0;
        while i < n
            invariant
                self.wf(),
                n == ts.len(),
                i <= n,
                token.descriptors() == ts,
                token.spec_id() == id,
                self.reg_view() == revoke_fold(pre.reg_view(), ts.take(i as int), id),
                same_store(pre, *self),
                same_dispatch(pre, *self),
            decreases n - i,
        {
            let t = token.get(i);
            let ghost mid = *self;
            match t {
                ReactorType::EntityInsertion(e, _)
                | ReactorType::EntityMutation(e, _)
                | ReactorType::EntityRemoval(e, _)
                | ReactorType::EntityEvent(e, _) => {
                    self.entity_revoke(e, t, id);
                },
                _ => {
                    self.cache.revoke_entry(t, id);
                },
            }
            proof {
                lemma_revoke_views_equal(mid, *self, t, id);
                lemma_revoke_fold_snoc(pre.reg_view(), ts.take(i as int), ts[i as int], id);
                assert(ts.take(i + 1 as int) =~= ts.take(i as int).push(ts[i as int]));
                assert(same_alive(pre, mid));
                assert(same_alive(mid, *self));
                assert(same_alive(pre, *self));
                assert(same_data(pre, mid));
                assert(same_data(mid, *self));
                assert(same_data(pre, *self));
                assert(same_groups(pre, *self));
                assert(same_queue(pre, *self));
            }
            i += 1;
        }
        proof {
            assert(ts.take(n as int) =~= ts);
        }
    }

    fn entity_revoke(&mut self, e: u64, t: ReactorType, id: u64)
        requires
            old(self).wf(),
        ensures
            final(self).wf(),
            forall|e2: u64, t2: ReactorType| #[trigger] final(self).table_list(e2, t2) == if e2 == e
                && t2 == t {
                old(self).table_list(e, t).filter(ne(id))
            } else {
                old(self).table_list(e2, t2)
            },
            same_lists(*old(self), *final(self)),
            same_tracks(*old(self), *final(self)),
            same_markers(*old(self), *final(self)),
            same_store(*old(self), *final(self)),
            same_dispatch(*old(self), *final(self)),
    {
        let tbl = self.entity_reactors.remove(e);
        match tbl {
            Some(mut tbl) => {
                tbl.remove_id(t, id);
                self.entity_reactors.insert(e, tbl);
            },
            None => {
                proof {
                    assert(old(self).table_list(e, t) =~= Seq::<u64>::empty());
                    reveal_with_fuel(Seq::filter, 1);
                    assert(old(self).table_list(e, t).filter(ne(id)) =~= Seq::<u64>::empty());
                }
            },
        }
    }
}

/// The registration views of `pre` and `post` stand in the `reg_step`
/// relation, given the pointwise effects that registration produced.
proof fn lemma_reg_views_equal(pre: ReactWorld, post: ReactWorld, t: ReactorType, h: u64)
    requires
        ({
            let b = reg_step(pre.reg_view(), t, h);
            &&& forall|t2: ReactorType| #[trigger] post.list(t2) == b.lists[t2]
            &&& forall|c: u64| #[trigger] post.tracks(c) == b.tracking.contains(c)
            &&& forall|e2: u64, t2: ReactorType| #[trigger] post.table_list(e2, t2) == b.tables[e2][t2]
            &&& forall|e2: u64| #[trigger] post.marker(e2) == b.markers.contains(e2)
            &&& forall|e2: u64| #[trigger] post.alive(e2) == b.alive.contains(e2)
        }),
    ensures
        post.reg_view() == reg_step(pre.reg_view(), t, h),
{
    let a = post.reg_view();
    let b = reg_step(pre.reg_view(), t, h);
    assert(a.lists =~~= b.lists);
    assert(a.tracking =~~= b.tracking);
    assert forall|e2: u64| true implies #[trigger] a.tables[e2] =~~= b.tables[e2] by {
        assert forall|t2: ReactorType| true implies #[trigger] a.tables[e2][t2] == b.tables[e2][t2] by {
            assert(post.table_list(e2, t2) == b.tables[e2][t2]);
        }
    }
    assert(a.tables =~~= b.tables);
    assert(a.markers =~~= b.markers);
    assert(a.alive =~~= b.alive);
    assert(a =~~= b);
}

/// The registration views of `pre` and `post` stand in the `revoke_step`
/// relation, given the pointwise effects that revocation produced.
proof fn lemma_revoke_views_equal(pre: ReactWorld, post: ReactWorld, t: ReactorType, id: u64)
    requires
        ({
            let b = revoke_step(pre.reg_view(), t, id);
            &&& forall|t2: ReactorType| #[trigger] post.list(t2) == b.lists[t2]
            &&& forall|c: u64| #[trigger] post.tracks(c) == b.tracking.contains(c)
            &&& forall|e2: u64, t2: ReactorType| #[trigger] post.table_list(e2, t2) == b.tables[e2][t2]
            &&& forall|e2: u64| #[trigger] post.marker(e2) == b.markers.contains(e2)
            &&& forall|e2: u64| #[trigger] post.alive(e2) == b.alive.contains(e2)
        }),
    ensures
        post.reg_view() == revoke_step(pre.reg_view(), t, id),
{
    let a = post.reg_view();
    let b = revoke_step(pre.reg_view(), t, id);
    assert(a.lists =~~= b.lists);
    assert(a.tracking =~~= b.tracking);
    assert forall|e2: u64| true implies #[trigger] a.tables[e2] =~~= b.tables[e2] by {
        assert forall|t2: ReactorType| true implies #[trigger] a.tables[e2][t2] == b.tables[e2][t2] by {
            assert(post.table_list(e2, t2) == b.tables[e2][t2]);
        }
    }
    assert(a.tables =~~= b.tables);
    assert(a.markers =~~= b.markers);
    assert(a.alive =~~= b.alive);
    assert(a =~~= b);
}

/// Folding one more descriptor applies one more step at the end.
pub proof fn lemma_reg_fold_snoc(rv: RegView, ts: Seq<ReactorType>, t: ReactorType, h: u64)
    ensures
        reg_fold(rv, ts.push(t), h) == reg_step(reg_fold(rv, ts, h), t, h),
    decreases ts.len(),
{
    reveal_with_fuel(reg_fold, 2);
    if ts.len() == 0 {
        assert(ts.push(t)[0] == t);
        assert(ts.push(t).drop_first() =~= Seq::<ReactorType>::empty());
    } else {
        assert(ts.push(t)[0] == ts[0]);
        assert(ts.push(t).drop_first() =~= ts.drop_first().push(t));
        lemma_reg_fold_snoc(reg_step(rv, ts[0], h), ts.drop_first(), t, h);
    }
}

/// Folding one more descriptor applies one more revocation step at the end.
pub proof fn lemma_revoke_fold_snoc(rv: RegView, ts: Seq<ReactorType>, t: ReactorType, id: u64)
    ensures
        revoke_fold(rv, ts.push(t), id) == revoke_step(revoke_fold(rv, ts, id), t, id),
    decreases ts.len(),
{
    reveal_with_fuel(revoke_fold, 2);
    if ts.len() == 0 {
        assert(ts.push(t)[0] == t);
        assert(ts.push(t).drop_first() =~= Seq::<ReactorType>::empty());
    } else {
        assert(ts.push(t)[0] == ts[0]);
        assert(ts.push(t).drop_first() =~= ts.drop_first().push(t));
        lemma_revoke_fold_snoc(revoke_step(rv, ts[0], id), ts.drop_first(), t, id);
    }
}

impl ReactWorld {
    /// The reactors a broadcast of type `ty` dispatches to, in order.
    pub open spec fn matched_broadcast(self, ty: u64) -> Seq<u64> {
        self.list(ReactorType::Broadcast(ty))
    }

    /// The reactors an entity event of type `ty` sent to `e` dispatches to.
    pub open spec fn matched_entity_event(self, e: u64, ty: u64) -> Seq<u64> {
        self.table_list(e, ReactorType::EntityEvent(e, ty))
    }

    /// The reactors an insertion of component type `ty` on `e` dispatches
    /// to: the global insertion list, then `e`'s entity-scoped list.
    pub open spec fn matched_insertion(self, e: u64, ty: u64) -> Seq<u64> {
        self.list(ReactorType::ComponentInsertion(ty)) + self.table_list(
            e,
            ReactorType::EntityInsertion(e, ty),
        )
    }

    /// The reactors a mutation of component type `ty` on `e` dispatches to.
    pub open spec fn matched_mutation(self, e: u64, ty: u64) -> Seq<u64> {
        self.list(ReactorType::ComponentMutation(ty)) + self.table_list(
            e,
            ReactorType::EntityMutation(e, ty),
        )
    }

    /// The reactors a mutation of resource type `ty` dispatches to.
    pub open spec fn matched_resource_mutation(self, ty: u64) -> Seq<u64> {
        self.list(ReactorType::ResourceMutation(ty))
    }

    /// The reactors a removal of component type `ty` from `e` dispatches to;
    /// empty unless removal tracking was enabled for `ty` beforehand.
    pub open spec fn matched_removal(self, e: u64, ty: u64) -> Seq<u64> {
        if self.tracks(ty) {
            self.list(ReactorType::ComponentRemoval(ty)) + self.table_list(
                e,
                ReactorType::EntityRemoval(e, ty),
            )
        } else {
            Seq::empty()
        }
    }

    /// The reactors the destruction of `e` dispatches to.
    pub open spec fn matched_despawn(self, e: u64) -> Seq<u64> {
        self.list(ReactorType::Despawn(e))
    }
}

/// What emitting one event with matched reactor list `m`, payload type `ty`
/// and payload value `v` does. With no matched reactors the emission is a
/// no-op. Otherwise a fresh data entity is spawned to hold the payload and
/// the event is queued: into the open invocation's emission buffer, or at
/// the back of the outermost level when the engine is between invocations.
pub open spec fn emit_post(
    pre: ReactWorld,
    post: ReactWorld,
    r: Option<u64>,
    ty: u64,
    v: u64,
    m: Seq<u64>,
) -> bool {
    if m.len() == 0 {
        r is None && post == pre
    } else {
        let d = pre.next_id();
        &&& r == Some(d)
        &&& !pre.alive(d)
        &&& post.next_id() == d + 1
        &&& forall|x: u64| #[trigger] post.alive(x) == (pre.alive(x) || x == d)
        &&& forall|x: u64| #[trigger] post.data(x) == if x == d {
            Some(SystemEventData { type_id: ty, data: Some(v) })
        } else {
            pre.data(x)
        }
        &&& (post.levels_view(), post.active_view()) == spec_enqueue(
            pre.levels_view(),
            pre.active_view(),
            EventView { payload: PayloadRef::Data(d), remaining: m },
        )
        &&& same_reg(pre, post)
        &&& same_groups(pre, post)
        &&& same_queue(pre, post)
        &&& post.sys_tracker_view() == pre.sys_tracker_view()
        &&& post.despawn_tracker_view() == pre.despawn_tracker_view()
    }
}

/// What asking for the next invocation does: with nothing pending, nothing;
/// otherwise the front reactor of the front event of the innermost level is
/// popped and becomes the open invocation, and the matching access tracker
/// is started.
pub open spec fn next_post(pre: ReactWorld, post: ReactWorld, r: Option<u64>) -> bool {
    if pre.levels_view().len() == 0 {
        r is None && post == pre
    } else {
        let lv = pre.levels_view();
        let top = lv.last();
        let ev = top[0];
        &&& r == Some(ev.remaining[0])
        &&& post.levels_view() == if top.len() > 1 {
            lv.update(lv.len() - 1, top.drop_first())
        } else {
            lv.drop_last()
        }
        &&& post.active_view() == Some(
            ActiveView {
                reactor: ev.remaining[0],
                payload: ev.payload,
                remaining: ev.remaining.drop_first(),
                emitted: Seq::empty(),
            },
        )
        &&& match ev.payload {
            PayloadRef::Data(d) => post.sys_tracker_view() == (SystemEventAccessTracker {
                currently_reacting: true,
                data_entity: d,
            }) && post.despawn_tracker_view() == pre.despawn_tracker_view(),
            PayloadRef::DespawnOf(s) => post.despawn_tracker_view() == (DespawnAccessTracker {
                currently_reacting: true,
                reaction_source: s,
            }) && post.sys_tracker_view() == pre.sys_tracker_view(),
        }
        &&& same_reg(pre, post)
        &&& same_store(pre, post)
    }
}

/// What closing the open invocation does: the unfinished part of its event
/// and then its emitted events come back as new innermost levels (so the
/// emitted events run first, depth-first), the trackers are reset, and when
/// the event's whole matched set has run and its payload sat on a data
/// entity, that entity is destroyed.
pub open spec fn end_post(pre: ReactWorld, post: ReactWorld) -> bool {
    let a = pre.active_view()->Some_0;
    &&& post.active_view() is None
    &&& !post.sys_tracker_view().currently_reacting
    &&& !post.despawn_tracker_view().currently_reacting
    &&& post.levels_view() == levels_after_end(pre.levels_view(), a)
    &&& if a.remaining.len() == 0 && a.payload is Data {
        despawn_rel_core(pre, post, a.payload->Data_0) && same_groups(pre, post)
    } else {
        same_reg(pre, post) && same_store(pre, post)
    }
}

impl ReactWorld {
    fn table_get_list(&self, e: u64, t: ReactorType) -> (r: Vec<u64>)
        ensures
            r@ == self.table_list(e, t),
    {
        match self.entity_reactors.get_ref(e) {
            Some(tbl) => tbl.get_list(t),
            None => Vec::new(),
        }
    }

    fn enqueue(&mut self, ev: PendingEvent)
        requires
            old(self).wf(),
            ev.remaining@.len() > 0,
        ensures
            final(self).wf(),
            (final(self).levels_view(), final(self).active_view()) == spec_enqueue(
                old(self).levels_view(),
                old(self).active_view(),
                ev@,
            ),
            same_reg(*old(self), *final(self)),
            same_store(*old(self), *final(self)),
            final(self).sys_tracker_view() == old(self).sys_tracker_view(),
            final(self).despawn_tracker_view() == old(self).despawn_tracker_view(),
    {
        let ghost evv = ev@;
        let is_active = match &self.active {
            Some(_) => true,
            None => false,
        };
        if is_active {
            match &mut self.active {
                Some(a) => {
                    a.emitted.push(ev);
                },
                None => {},
            }
            proof {
                let a0 = old(self).active_view()->Some_0;
                let a1 = self.active_view()->Some_0;
                assert(a1.emitted =~~= a0.emitted.push(evv));
                assert(self.active_view() =~~= spec_enqueue(
                    old(self).levels_view(),
                    old(self).active_view(),
                    evv,
                ).1);
            }
        } else {
            if self.levels.len() == 0 {
                let mut l: Vec<PendingEvent> = Vec::new();
                l.push(ev);
                self.levels.push(l);
                proof {
                    assert(self.levels_view() =~~= seq![seq![evv]]);
                }
            } else {
                let mut l0 = self.levels.remove(0);
                l0.push(ev);
                self.levels.insert(0, l0);
                proof {
                    assert(self.levels@ =~= old(self).levels@.update(0, l0));
                    assert(self.levels_view() =~~= old(self).levels_view().update(
                        0,
                        old(self).levels_view()[0].push(evv),
                    ));
                }
            }
        }
    }

    fn emit_data_event(&mut self, ty: u64, v: u64, matched: Vec<u64>) -> (r: Option<u64>)
        requires
            old(self).wf(),
            old(self).next_id() < u64::MAX,
        ensures
            final(self).wf(),
            emit_post(*old(self), *final(self), r, ty, v, matched@),
    {
        if matched.len() == 0 {
            return None;
        }
        let d = self.next_entity;
        proof {
            assert(!old(self).alive.has(d));
            assert(old(self).event_data.get(d) is None);
        }
        self.alive.insert(d);
        self.event_data.insert(d, SystemEventData::new(ty, v));
        self.next_entity = d + 1;
        let ev = PendingEvent { payload: PayloadRef::Data(d), remaining: matched };
        self.enqueue(ev);
        Some(d)
    }

    /// Broadcasts an event of type `ty` carrying `v`: one invocation of every
    /// reactor registered for broadcasts of `ty`, in registration order, is
    /// queued. Returns the fresh data entity holding the transient payload,
    /// or nothing when no reactor matched.
    pub fn broadcast(&mut self, ty: u64, v: u64) -> (r: Option<u64>)
        requires
            old(self).wf(),
            old(self).next_id() < u64::MAX,
        ensures
            final(self).wf(),
            emit_post(*old(self), *final(self), r, ty, v, old(self).matched_broadcast(ty)),
    {
        let matched = self.cache.get_list(ReactorType::Broadcast(ty));
        self.emit_data_event(ty, v, matched)
    }

    /// Sends an entity event of type `ty` carrying `v` to entity `e`: only
    /// reactors registered on `e`'s own channel for `ty` are dispatched.
    pub fn entity_event(&mut self, e: u64, ty: u64, v: u64) -> (r: Option<u64>)
        requires
            old(self).wf(),
            old(self).next_id() < u64::MAX,
        ensures
            final(self).wf(),
            emit_post(*old(self), *final(self), r, ty, v, old(self).matched_entity_event(e, ty)),
    {
        let matched = self.table_get_list(e, ReactorType::EntityEvent(e, ty));
        self.emit_data_event(ty, v, matched)
    }

    /// Reports an insertion of component type `ty` on entity `e`; the
    /// payload delivered to the matched reactors is `e` itself.
    pub fn notify_insertion(&mut self, e: u64, ty: u64) -> (r: Option<u64>)
        requires
            old(self).wf(),
            old(self).next_id() < u64::MAX,
        ensures
            final(self).wf(),
            emit_post(*old(self), *final(self), r, ty, e, old(self).matched_insertion(e, ty)),
    {
        let mut matched = self.cache.get_list(ReactorType::ComponentInsertion(ty));
        let mut scoped = self.table_get_list(e, ReactorType::EntityInsertion(e, ty));
        matched.append(&mut scoped);
        self.emit_data_event(ty, e, matched)
    }

    /// Reports a mutation of component type `ty` on entity `e`.
    pub fn notify_mutation(&mut self, e: u64, ty: u64) -> (r: Option<u64>)
        requires
            old(self).wf(),
            old(self).next_id() < u64::MAX,
        ensures
            final(self).wf(),
            emit_post(*old(self), *final(self), r, ty, e, old(self).matched_mutation(e, ty)),
    {
        let mut matched = self.cache.get_list(ReactorType::ComponentMutation(ty));
        let mut scoped = self.table_get_list(e, ReactorType::EntityMutation(e, ty));
        matched.append(&mut scoped);
        self.emit_data_event(ty, e, matched)
    }

    /// Reports a mutation of resource type `ty`.
    pub fn notify_resource_mutation(&mut self, ty: u64) -> (r: Option<u64>)
        requires
            old(self).wf(),
            old(self).next_id() < u64::MAX,
        ensures
            final(self).wf(),
            emit_post(*old(self), *final(self), r, ty, ty, old(self).matched_resource_mutation(ty)),
    {
        let matched = self.cache.get_list(ReactorType::ResourceMutation(ty));
        self.emit_data_event(ty, ty, matched)
    }

    /// Reports a removal of component type `ty` from entity `e`. Removals
    /// dispatch only when removal tracking was enabled for `ty` before the
    /// removal — tracking is opt-in and observes removals from that point
    /// forward only.
    pub fn notify_removal(&mut self, e: u64, ty: u64) -> (r: Option<u64>)
        requires
            old(self).wf(),
            old(self).next_id() < u64::MAX,
        ensures
            final(self).wf(),
            emit_post(*old(self), *final(self), r, ty, e, old(self).matched_removal(e, ty)),
    {
        if !self.cache.is_tracked(ty) {
            return None;
        }
        let mut matched = self.cache.get_list(ReactorType::ComponentRemoval(ty));
        let mut scoped = self.table_get_list(e, ReactorType::EntityRemoval(e, ty));
        matched.append(&mut scoped);
        self.emit_data_event(ty, e, matched)
    }

    /// Turns the oldest queued despawn notification into a pending despawn
    /// event: the notified entity's despawn reactor list is dispatched and
    /// its registry entry is discarded, so a later notification for the same
    /// entity dispatches nothing. Returns whether a notification was
    /// processed.
    pub fn react_next_despawn(&mut self) -> (progressed: bool)
        requires
            old(self).wf(),
            old(self).active_view() is None,
        ensures
            final(self).wf(),
            old(self).queue().len() == 0 ==> !progressed && same_reg(*old(self), *final(self))
                && same_store(*old(self), *final(self)) && same_dispatch(
                *old(self),
                *final(self),
            ),
            old(self).queue().len() > 0 ==> progressed && {
                let e = old(self).queue()[0];
                let m = old(self).matched_despawn(e);
                &&& final(self).queue() == old(self).queue().drop_first()
                &&& forall|t2: ReactorType| #[trigger] final(self).list(t2) == if t2
                    == ReactorType::Despawn(e) {
                    Seq::<u64>::empty()
                } else {
                    old(self).list(t2)
                }
                &&& (final(self).levels_view(), final(self).active_view()) == if m.len() > 0 {
                    spec_enqueue(
                        old(self).levels_view(),
                        old(self).active_view(),
                        EventView { payload: PayloadRef::DespawnOf(e), remaining: m },
                    )
                } else {
                    (old(self).levels_view(), old(self).active_view())
                }
                &&& same_tables(*old(self), *final(self))
                &&& same_tracks(*old(self), *final(self))
                &&& same_markers(*old(self), *final(self))
                &&& same_alive(*old(self), *final(self))
                &&& same_data(*old(self), *final(self))
                &&& same_groups(*old(self), *final(self))
                &&& final(self).sys_tracker_view() == old(self).sys_tracker_view()
                &&& final(self).despawn_tracker_view() == old(self).despawn_tracker_view()
            },
    {
        let popped = self.cache.next_despawn();
        match popped {
            None => false,
            Some(e) => {
                let matched = self.cache.take_list(ReactorType::Despawn(e));
                if matched.len() > 0 {
                    let ev = PendingEvent { payload: PayloadRef::DespawnOf(e), remaining: matched };
                    self.enqueue(ev);
                }
                true
            },
        }
    }

    /// Hands the host the next reactor invocation, if any is pending, and
    /// starts the matching access tracker. The invocation stays open until
    /// [`ReactWorld::end_reactor`] is called.
    pub fn next_reactor(&mut self) -> (r: Option<u64>)
        requires
            old(self).wf(),
            old(self).active_view() is None,
        ensures
            final(self).wf(),
            final(self).active_view() is Some <==> r is Some,
            next_post(*old(self), *final(self), r),
    {
        if self.levels.len() == 0 {
            return None;
        }
        let last = self.levels.len() - 1;
        let ghost lv = self.levels_view();
        let mut top = match self.levels.pop() {
            Some(t) => t,
            None => Vec::new(),  // unreachable: the stack is nonempty
        };
        proof {
            assert(top@.map_values(|e: PendingEvent| e@) == lv.last());
            assert(top@.len() > 0);
            assert(top@[0]@.remaining.len() > 0);
        }
        let mut ev = top.remove(0);
        let rid = ev.remaining.remove(0);
        if top.len() > 0 {
            self.levels.push(top);
            proof {
                assert(self.levels_view() =~~= lv.update(
                    lv.len() - 1,
                    lv.last().drop_first(),
                ));
            }
        } else {
            proof {
                assert(self.levels_view() =~~= lv.drop_last());
            }
        }
        match ev.payload {
            PayloadRef::Data(d) => {
                self.sys_tracker.start(d);
            },
            PayloadRef::DespawnOf(s) => {
                self.despawn_tracker.start(s);
            },
        }
        let act = ActiveInvocation {
            reactor: rid,
            payload: ev.payload,
            remaining: ev.remaining,
            emitted: Vec::new(),
        };
        self.active = Some(act);
        proof {
            assert(self.active_view()->Some_0.emitted =~~= Seq::<EventView>::empty());
            assert(self.active_view() =~~= Some(
                ActiveView {
                    reactor: lv.last()[0].remaining[0],
                    payload: lv.last()[0].payload,
                    remaining: lv.last()[0].remaining.drop_first(),
                    emitted: Seq::empty(),
                },
            ));
        }
        Some(rid)
    }

    /// Closes the open invocation: resets the access trackers, queues the
    /// unfinished part of the event and then the events the invocation
    /// emitted (which therefore run first), and, when the event's whole
    /// matched set has run, destroys the data entity holding its payload.
    pub fn end_reactor(&mut self)
        requires
            old(self).wf(),
            old(self).active_view() is Some,
        ensures
            final(self).wf(),
            end_post(*old(self), *final(self)),
    {
        let a = match self.active.take() {
            Some(a) => a,
            None => ActiveInvocation {
                reactor: 0,
                payload: PayloadRef::Data(0),
                remaining: Vec::new(),
                emitted: Vec::new(),
            },  // unreachable: an invocation is open
        };
        let ghost av = a@;
        let _ = self.sys_tracker.end();
        self.despawn_tracker.end();
        let ActiveInvocation { reactor: _, payload, remaining, emitted } = a;
        let ghost lv = old(self).levels_view();
        if remaining.len() > 0 {
            let mut cont: Vec<PendingEvent> = Vec::new();
            cont.push(PendingEvent { payload, remaining });
            self.levels.push(cont);
            proof {
                assert(self.levels_view() =~~= lv.push(
                    seq![EventView { payload: av.payload, remaining: av.remaining }],
                ));
            }
        } else {
            match payload {
                PayloadRef::Data(d) => {
                    let ghost pre_rel = *self;
                    self.despawn_inner(d);
                    proof {
                        assert(same_reg(*old(self), pre_rel));
                        assert(same_alive(*old(self), pre_rel));
                        assert(same_data(*old(self), pre_rel));
                        assert(same_queue(*old(self), pre_rel));
                        assert(despawn_rel_core(*old(self), *self, d));
                    }
                },
                PayloadRef::DespawnOf(_) => {},
            }
        }
        let ghost mid = *self;
        if emitted.len() > 0 {
            self.levels.push(emitted);
            proof {
                assert(self.levels_view() =~~= mid.levels_view().push(av.emitted));
                assert(same_reg(mid, *self));
                assert(same_store(mid, *self));
            }
        }
        proof {
            assert(self.levels_view() =~~= levels_after_end(lv, av));
            if av.remaining.len() == 0 && av.payload is Data {
                assert(despawn_rel_core(*old(self), *self, av.payload->Data_0));
                assert(same_groups(*old(self), *self));
            } else {
                assert(same_reg(*old(self), *self));
                assert(same_store(*old(self), *self));
            }
        }
    }

    /// The single-read payload accessor. Inside an invocation whose event
    /// carries a data payload, the first call across the event's whole
    /// matched set returns the payload and empties the store; every later
    /// call, and every call outside such an invocation, returns nothing.
    pub fn read_current(&mut self) -> (r: Option<u64>)
        requires
            old(self).wf(),
        ensures
            final(self).wf(),
            !old(self).sys_tracker_view().currently_reacting ==> r is None && *final(self) == *old(
                self,
            ),
            old(self).sys_tracker_view().currently_reacting ==> {
                let d = old(self).sys_tracker_view().data_entity;
                match old(self).data(d) {
                    Some(sed) => {
                        &&& r == sed.data
                        &&& forall|d2: u64| #[trigger] final(self).data(d2) == if d2 == d {
                            Some(spec_take(sed).0)
                        } else {
                            old(self).data(d2)
                        }
                        &&& same_reg(*old(self), *final(self))
                        &&& same_alive(*old(self), *final(self))
                        &&& same_groups(*old(self), *final(self))
                        &&& same_queue(*old(self), *final(self))
                        &&& same_dispatch(*old(self), *final(self))
                    },
                    None => r is None && *final(self) == *old(self),
                }
            },
    {
        if !self.sys_tracker.is_reacting() {
            return None;
        }
        let d = self.sys_tracker.data_entity();
        let slot = self.event_data.remove(d);
        match slot {
            None => None,
            Some(mut sed) => {
                let r = sed.take();
                self.event_data.insert(d, sed);
                r
            },
        }
    }

    /// Whether an invocation is currently open; the host must close it with
    /// [`ReactWorld::end_reactor`] before asking for the next one.
    pub fn has_open_invocation(&self) -> (r: bool)
        ensures
            r == (self.active_view() is Some),
    {
        match &self.active {
            Some(_) => true,
            None => false,
        }
    }

    /// The despawn payload accessor: inside an invocation reacting to an
    /// entity's destruction it returns that entity, outside it returns
    /// nothing. Reading is not destructive.
    pub fn read_despawn(&self) -> (r: Option<u64>)
        ensures
            r == if self.despawn_tracker_view().currently_reacting {
                Some(self.despawn_tracker_view().reaction_source)
            } else {
                None::<u64>
            },
    {
        if self.despawn_tracker.is_reacting() {
            Some(self.despawn_tracker.source())
        } else {
            None
        }
    }
}

} // verus!
