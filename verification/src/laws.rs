//! The engine's cross-cutting guarantees, stated and proved over the spec
//! functions that the public contracts use.
//!
//! Auto-cleanup termination is stated beside the despawner itself, in
//! [`crate::autodespawn::lemma_auto_cleanup_termination`].

use vstd::prelude::*;

use crate::maps::ne;
use crate::payload::{spec_take, SystemEventData};
use crate::trigger::ReactorType;
use crate::world::{
    despawn_rel_core, emit_post, levels_after_end, reg_step, revoke_step, same_alive, same_data,
    same_queue, same_reg, ActiveView, EventView, ReactWorld, RegView,
};

verus! {

/// The results of `n` successive reads on one payload store.
pub open spec fn take_results(d: SystemEventData, n: nat) -> Seq<Option<u64>>
    decreases n,
{
    if n == 0 {
        Seq::empty()
    } else {
        let step = spec_take(d);
        seq![step.1] + take_results(step.0, (n - 1) as nat)
    }
}

/// Reading `n` times yields `n` results.
pub proof fn lemma_take_results_len(d: SystemEventData, n: nat)
    ensures
        take_results(d, n).len() == n,
    decreases n,
{
    if n > 0 {
        lemma_take_results_len(spec_take(d).0, (n - 1) as nat);
    }
}

proof fn lemma_takes_of_empty(d: SystemEventData, n: nat)
    requires
        d.data is None,
    ensures
        forall|k: int| 0 <= k < n ==> take_results(d, n)[k] is None,
    decreases n,
{
    reveal_with_fuel(take_results, 2);
    lemma_take_results_len(d, n);
    if n > 0 {
        let step = spec_take(d);
        assert(step.0 == d);
        lemma_take_results_len(d, (n - 1) as nat);
        lemma_takes_of_empty(d, (n - 1) as nat);
        assert forall|k: int| 0 <= k < n implies take_results(d, n)[k] is None by {
            if k > 0 {
                assert(take_results(d, n)[k] == take_results(d, (n - 1) as nat)[k - 1]);
            }
        }
    }
}

/// At-most-once consumption: across any number of reads on one event's
/// payload store, only the first read returns the stored payload — exactly
/// once when the store held one — and every later read observes absence.
pub proof fn lemma_at_most_once_consumption(d: SystemEventData, n: nat)
    requires
        n >= 1,
    ensures
        take_results(d, n)[0] == d.data,
        forall|k: int| 1 <= k < n ==> take_results(d, n)[k] is None,
{
    reveal_with_fuel(take_results, 2);
    lemma_take_results_len(d, n);
    let step = spec_take(d);
    assert(step.0.data is None);
    lemma_take_results_len(step.0, (n - 1) as nat);
    lemma_takes_of_empty(step.0, (n - 1) as nat);
    assert forall|k: int| 1 <= k < n implies take_results(d, n)[k] is None by {
        assert(take_results(d, n)[k] == take_results(step.0, (n - 1) as nat)[k - 1]);
    }
}

/// Order preservation: registering reactors `r1`, `r2`, `r3` for one
/// broadcast descriptor in that order appends them in that order, so the
/// matched set of a subsequent broadcast of that type dispatches them in
/// registration order; with nothing registered before, the list is exactly
/// `[r1, r2, r3]`.
pub proof fn lemma_order_preservation(rv: RegView, ty: u64, r1: u64, r2: u64, r3: u64)
    ensures
        ({
            let t = ReactorType::Broadcast(ty);
            let rv3 = reg_step(reg_step(reg_step(rv, t, r1), t, r2), t, r3);
            &&& rv3.lists[t] == rv.lists[t].push(r1).push(r2).push(r3)
            &&& rv.lists[t].len() == 0 ==> rv3.lists[t] == seq![r1, r2, r3] && rv3.lists[t][0] == r1
                && rv3.lists[t][1] == r2 && rv3.lists[t][2] == r3
        }),
{
    let t = ReactorType::Broadcast(ty);
    let rv3 = reg_step(reg_step(reg_step(rv, t, r1), t, r2), t, r3);
    if rv.lists[t].len() == 0 {
        assert(rv3.lists[t] =~= seq![r1, r2, r3]);
    }
}

/// Recursive depth-first resolution: when a closing invocation emitted
/// events, they become the innermost pending level, so the next invocation
/// served belongs to the first emitted event — its reactors run to
/// completion before the emitter's own unfinished reactors and before every
/// previously pending event, all of which stay queued behind, unchanged.
pub proof fn lemma_depth_first(lv: Seq<Seq<EventView>>, a: ActiveView)
    requires
        a.emitted.len() > 0,
    ensures
        levels_after_end(lv, a).last() == a.emitted,
        levels_after_end(lv, a).last()[0] == a.emitted[0],
        forall|i: int| 0 <= i < lv.len() ==> #[trigger] levels_after_end(lv, a)[i] == lv[i],
        a.remaining.len() > 0 ==> levels_after_end(lv, a)[lv.len() as int] == seq![
            EventView { payload: a.payload, remaining: a.remaining },
        ],
{
}

/// Isolation across sequential emissions: two emissions allocate distinct
/// transient payload stores; the second emission leaves the first store
/// untouched, so the two events can neither cross-deliver nor double-count
/// their payloads.
pub proof fn lemma_emission_isolation(
    w0: ReactWorld,
    w1: ReactWorld,
    w2: ReactWorld,
    r1: Option<u64>,
    r2: Option<u64>,
    ty1: u64,
    v1: u64,
    m1: Seq<u64>,
    ty2: u64,
    v2: u64,
    m2: Seq<u64>,
)
    requires
        m1.len() > 0,
        m2.len() > 0,
        emit_post(w0, w1, r1, ty1, v1, m1),
        emit_post(w1, w2, r2, ty2, v2, m2),
    ensures
        r1 is Some && r2 is Some,
        r1->Some_0 != r2->Some_0,
        w2.data(r1->Some_0) == Some(SystemEventData { type_id: ty1, data: Some(v1) }),
        w2.data(r2->Some_0) == Some(SystemEventData { type_id: ty2, data: Some(v2) }),
{
}

/// Scoping: registering a reactor on entity `e1`'s event channel never
/// changes another entity's table, so the reactor cannot enter the matched
/// set of an event sent to a different entity, even for the same event type.
pub proof fn lemma_entity_event_scoping(rv: RegView, e1: u64, e2: u64, ty: u64, h: u64)
    requires
        e1 != e2,
    ensures
        reg_step(rv, ReactorType::EntityEvent(e1, ty), h).tables[e2] == rv.tables[e2],
        !rv.tables[e2][ReactorType::EntityEvent(e2, ty)].contains(h) ==> !reg_step(
            rv,
            ReactorType::EntityEvent(e1, ty),
            h,
        ).tables[e2][ReactorType::EntityEvent(e2, ty)].contains(h),
{
}

/// Revocation correctness for a broadcast descriptor: after revoking handle
/// `id` under descriptor `t`, no entry with that handle remains in `t`'s
/// list; every other reactor on `t` keeps its place in the original relative
/// order, and every other descriptor's list is untouched.
pub proof fn lemma_revocation_broadcast(rv: RegView, ty: u64, id: u64)
    ensures
        ({
            let t = ReactorType::Broadcast(ty);
            let after = revoke_step(rv, t, id);
            &&& after.lists[t] == rv.lists[t].filter(ne(id))
            &&& forall|k: int| 0 <= k < after.lists[t].len() ==> after.lists[t][k] != id
            &&& forall|k: int|
                0 <= k < rv.lists[t].len() && rv.lists[t][k] != id
                    ==> after.lists[t].contains(#[trigger] rv.lists[t][k])
            &&& forall|t2: ReactorType| t2 != t ==> #[trigger] after.lists[t2] == rv.lists[t2]
            &&& after.tables == rv.tables
        }),
{
    let t = ReactorType::Broadcast(ty);
    let after = revoke_step(rv, t, id);
    assert forall|k: int| 0 <= k < after.lists[t].len() implies after.lists[t][k] != id by {
        rv.lists[t].lemma_filter_pred(ne(id), k);
    }
    assert forall|k: int|
        0 <= k < rv.lists[t].len() && rv.lists[t][k] != id implies after.lists[t].contains(
        #[trigger] rv.lists[t][k],
    ) by {
        rv.lists[t].lemma_filter_contains(ne(id), k);
    }
}

/// Revocation correctness for an entity event descriptor: revoking handle
/// `id` removes it from the entity's own list, keeps the entity's other
/// reactors in order, and leaves every other entity's table untouched.
pub proof fn lemma_revocation_entity_event(rv: RegView, e: u64, ty: u64, id: u64)
    ensures
        ({
            let t = ReactorType::EntityEvent(e, ty);
            let after = revoke_step(rv, t, id);
            &&& after.tables[e][t] == rv.tables[e][t].filter(ne(id))
            &&& forall|k: int| 0 <= k < after.tables[e][t].len() ==> after.tables[e][t][k] != id
            &&& forall|k: int|
                0 <= k < rv.tables[e][t].len() && rv.tables[e][t][k] != id
                    ==> after.tables[e][t].contains(#[trigger] rv.tables[e][t][k])
            &&& forall|e2: u64| e2 != e ==> #[trigger] after.tables[e2] == rv.tables[e2]
            &&& after.lists == rv.lists
        }),
{
    let t = ReactorType::EntityEvent(e, ty);
    let after = revoke_step(rv, t, id);
    assert forall|k: int| 0 <= k < after.tables[e][t].len() implies after.tables[e][t][k] != id by {
        rv.tables[e][t].lemma_filter_pred(ne(id), k);
    }
    assert forall|k: int|
        0 <= k < rv.tables[e][t].len() && rv.tables[e][t][k] != id implies after.tables[e][t]
        .contains(#[trigger] rv.tables[e][t][k]) by {
        rv.tables[e][t].lemma_filter_contains(ne(id), k);
    }
}

/// Despawn-once: a second despawn registration adds no second marker, the
/// two handles both join the entity's despawn list (each to be invoked once),
/// and the list order is registration order.
pub proof fn lemma_marker_idempotent(rv: RegView, e: u64, h1: u64, h2: u64)
    requires
        rv.alive.contains(e),
    ensures
        ({
            let t = ReactorType::Despawn(e);
            let once = reg_step(rv, t, h1);
            let twice = reg_step(once, t, h2);
            &&& twice.markers == once.markers
            &&& once.markers == rv.markers.insert(e)
            &&& twice.lists[t] == rv.lists[t].push(h1).push(h2)
        }),
{
    let t = ReactorType::Despawn(e);
    let once = reg_step(rv, t, h1);
    let twice = reg_step(once, t, h2);
    assert(twice.markers =~= once.markers);
}

/// Despawn-once: destroying a marked entity reports it through the
/// notification channel exactly once — the marker leaves with the entity, so
/// a second destruction of the same entity reports nothing and changes no
/// registration state, liveness, store or queue.
pub proof fn lemma_despawn_once(pre: ReactWorld, mid: ReactWorld, post: ReactWorld, e: u64)
    requires
        pre.alive(e),
        despawn_rel_core(pre, mid, e),
        despawn_rel_core(mid, post, e),
    ensures
        mid.queue() == if pre.marker(e) {
            pre.queue().push(e)
        } else {
            pre.queue()
        },
        !mid.marker(e),
        !mid.alive(e),
        same_reg(mid, post),
        same_alive(mid, post),
        same_data(mid, post),
        same_queue(mid, post),
{
}

} // verus!
