//! Scenario tests for the engine's guarantees: single-read payload delivery,
//! dispatch order, depth-first resolution, despawn tracking, removal
//! tracking, auto-cleanup and revocation edge cases.

use react_engine::trigger::{
    broadcast, despawn, entity_event, entity_insertion, entity_mutation, entity_removal, insertion,
    mutation, reactor_registration, removal, resource_mutation, ReactionTriggerBundle,
};
use react_engine::world::ReactWorld;

const EV: u64 = 10;
const EV_B: u64 = 11;
const COMP: u64 = 20;
const RES: u64 = 30;

fn drive<F: FnMut(&mut ReactWorld, u64)>(w: &mut ReactWorld, mut f: F) {
    loop {
        while w.react_next_despawn() {}
        let r = match w.next_reactor() {
            Some(r) => r,
            None => break,
        };
        f(w, r);
        w.end_reactor();
    }
}

fn register_one<T: react_engine::trigger::ReactionTrigger>(
    w: &mut ReactWorld,
    reactor: u64,
    t: T,
) -> react_engine::trigger::RevokeToken {
    let mut b = ReactionTriggerBundle::new();
    b.add(t);
    reactor_registration(w, reactor, b)
}

// The payload is handed out once across the whole matched set: the first
// reader takes it, the second observes absence.
#[test]
fn at_most_once_consumption() {
    let mut w = ReactWorld::new();
    let _t1 = register_one(&mut w, 1, broadcast(EV));
    let _t2 = register_one(&mut w, 2, broadcast(EV));

    let mut some_reads: u64 = 0;
    let mut none_reads: u64 = 0;
    w.broadcast(EV, 77);
    drive(&mut w, |w, _r| {
        // both reactors read twice: the very first read gets the payload
        match w.read_current() {
            Some(v) => {
                assert_eq!(v, 77);
                some_reads += 1;
            }
            None => {
                none_reads += 1;
            }
        }
        match w.read_current() {
            Some(_) => {
                some_reads += 1;
            }
            None => {
                none_reads += 1;
            }
        }
    });
    assert_eq!(some_reads, 1);
    assert_eq!(none_reads, 3);
}

// The accessor reports absence outside of any invocation.
#[test]
fn accessor_absent_outside_dispatch() {
    let mut w = ReactWorld::new();
    assert_eq!(w.read_current(), None);
    assert_eq!(w.read_despawn(), None);
    let _t = register_one(&mut w, 1, broadcast(EV));
    w.broadcast(EV, 5);
    drive(&mut w, |_w, _r| {});
    // the payload was never read inside; outside it is gone all the same
    assert_eq!(w.read_current(), None);
}

// Reactors for one descriptor run in registration order.
#[test]
fn order_preservation() {
    let mut w = ReactWorld::new();
    let _t1 = register_one(&mut w, 1, broadcast(EV));
    let _t2 = register_one(&mut w, 2, broadcast(EV));
    let _t3 = register_one(&mut w, 3, broadcast(EV));

    let mut log: Vec<u64> = Vec::new();
    w.broadcast(EV, 0);
    drive(&mut w, |w, r| {
        w.read_current();
        log.push(r);
    });
    assert_eq!(log, vec![1, 2, 3]);
}

// A nested emission resolves fully before the emitter's sibling runs:
// event A has reactors [a1, a2]; a1 emits B (reactor b1); order is a1, b1, a2.
#[test]
fn depth_first_resolution() {
    let mut w = ReactWorld::new();
    let _a1 = register_one(&mut w, 1, broadcast(EV));
    let _a2 = register_one(&mut w, 2, broadcast(EV));
    let _b1 = register_one(&mut w, 3, broadcast(EV_B));

    let mut log: Vec<u64> = Vec::new();
    w.broadcast(EV, 0);
    drive(&mut w, |w, r| {
        w.read_current();
        log.push(r);
        if r == 1 {
            w.broadcast(EV_B, 0);
        }
    });
    assert_eq!(log, vec![1, 3, 2]);
}

// Two despawn reactors on one entity each fire exactly once when it dies;
// the despawn accessor names the destroyed entity; destroying an entity with
// no despawn reactors dispatches nothing.
#[test]
fn despawn_once_guarantee() {
    let mut w = ReactWorld::new();
    let e = w.spawn_entity();
    let quiet = w.spawn_entity();

    let _t1 = register_one(&mut w, 1, despawn(e));
    let _t2 = register_one(&mut w, 2, despawn(e));

    let mut fired: Vec<u64> = Vec::new();
    w.despawn_entity(e);
    w.despawn_entity(e);  // destroying a dead entity reports nothing
    drive(&mut w, |w, r| {
        assert_eq!(w.read_despawn(), Some(e));
        fired.push(r);
    });
    assert_eq!(fired, vec![1, 2]);

    // an entity without despawn reactors produces no dispatch
    let mut count: u64 = 0;
    w.despawn_entity(quiet);
    drive(&mut w, |_w, _r| {
        count += 1;
    });
    assert_eq!(count, 0);
}

// Registering a despawn reactor for a dead entity declines: the token
// records nothing and nothing ever fires.
#[test]
fn despawn_registration_on_dead_entity_declines() {
    let mut w = ReactWorld::new();
    let e = w.spawn_entity();
    w.despawn_entity(e);

    let token = register_one(&mut w, 1, despawn(e));
    assert_eq!(token.len(), 0);
}

// An entity-scoped registration on a dead entity is a silent no-op; events
// for the dead entity dispatch nothing.
#[test]
fn stale_entity_registration_declines() {
    let mut w = ReactWorld::new();
    let e = w.spawn_entity();
    w.despawn_entity(e);

    let t = register_one(&mut w, 1, entity_event(e, EV));
    // the token still lists the descriptor; revoking it later stays a no-op
    assert_eq!(t.len(), 1);
    let mut count: u64 = 0;
    w.entity_event(e, EV, 5);
    drive(&mut w, |_w, _r| {
        count += 1;
    });
    assert_eq!(count, 0);
    w.revoke(t);
}

// Entity-scoped mutation and removal reactors fire only for their own
// entity; the scoped removal reactor enables tracking for its type.
#[test]
fn entity_scoped_mutation_and_removal() {
    let mut w = ReactWorld::new();
    let e1 = w.spawn_entity();
    let e2 = w.spawn_entity();
    let _t1 = register_one(&mut w, 1, entity_mutation(e1, COMP));
    let _t2 = register_one(&mut w, 2, entity_removal(e1, COMP));

    let mut log: Vec<u64> = Vec::new();
    w.notify_mutation(e1, COMP);
    w.notify_mutation(e2, COMP);
    w.notify_removal(e1, COMP);
    w.notify_removal(e2, COMP);
    drive(&mut w, |w, r| {
        w.read_current();
        log.push(r);
    });
    assert_eq!(log, vec![1, 2]);
}

// Destroying an entity releases its reactor table: reactors scoped to it
// never fire again.
#[test]
fn despawn_releases_entity_table() {
    let mut w = ReactWorld::new();
    let e = w.spawn_entity();
    let _t = register_one(&mut w, 1, entity_event(e, EV));
    w.despawn_entity(e);

    let mut count: u64 = 0;
    w.entity_event(e, EV, 5);
    drive(&mut w, |_w, _r| {
        count += 1;
    });
    assert_eq!(count, 0);
}

// A storage unit referenced by two cloned signals is destroyed exactly when
// the second one is released.
#[test]
fn auto_cleanup_termination() {
    let mut w = ReactWorld::new();
    let proxy = w.spawn_entity();

    let s1 = w.prepare_signal(proxy);
    let s2 = w.clone_signal(&s1);
    assert_eq!(s1.entity(), proxy);
    assert_eq!(s2.entity(), proxy);

    assert_eq!(w.drop_signal(s1), None);
    assert!(w.is_alive(proxy));
    assert_eq!(w.drop_signal(s2), Some(proxy));
    assert!(!w.is_alive(proxy));
}

// A single signal destroys its target at its release.
#[test]
fn auto_cleanup_single_handle() {
    let mut w = ReactWorld::new();
    let proxy = w.spawn_entity();
    let s = w.prepare_signal(proxy);
    assert!(w.is_alive(proxy));
    assert_eq!(w.drop_signal(s), Some(proxy));
    assert!(!w.is_alive(proxy));
}

// Removal notices dispatch only after a removal reactor enabled tracking,
// and only from that point forward.
#[test]
fn removal_tracking_is_opt_in() {
    let mut w = ReactWorld::new();
    let e = w.spawn_entity();

    // removal before any removal reactor: unobservable
    let mut count: u64 = 0;
    w.notify_removal(e, COMP);
    drive(&mut w, |_w, _r| {
        count += 1;
    });
    assert_eq!(count, 0);

    // tracking alone dispatches nothing without a registered reactor
    w.enable_removal_tracking(COMP);
    w.notify_removal(e, COMP);
    drive(&mut w, |_w, _r| {
        count += 1;
    });
    assert_eq!(count, 0);

    // registering the removal reactor enables tracking as a side effect
    let _t = register_one(&mut w, 1, removal(COMP));
    w.notify_removal(e, COMP);
    drive(&mut w, |_w, _r| {
        count += 1;
    });
    assert_eq!(count, 1);
}

// Insertion notices reach the global reactor and the entity-scoped reactor,
// global list first; the payload is the affected entity.
#[test]
fn insertion_dispatch_order_and_payload() {
    let mut w = ReactWorld::new();
    let e = w.spawn_entity();
    let _t1 = register_one(&mut w, 1, insertion(COMP));
    let _t2 = register_one(&mut w, 2, entity_insertion(e, COMP));

    let mut log: Vec<(u64, u64)> = Vec::new();
    w.notify_insertion(e, COMP);
    drive(&mut w, |w, r| {
        if let Some(v) = w.read_current() {
            log.push((r, v));
        } else {
            log.push((r, u64::MAX));
        }
    });
    assert_eq!(log, vec![(1, e), (2, u64::MAX)]);
}

// Mutation and resource-mutation notices dispatch their registered reactors.
#[test]
fn mutation_and_resource_dispatch() {
    let mut w = ReactWorld::new();
    let e = w.spawn_entity();
    let _t1 = register_one(&mut w, 1, mutation(COMP));
    let _t2 = register_one(&mut w, 2, resource_mutation(RES));

    let mut log: Vec<u64> = Vec::new();
    w.notify_mutation(e, COMP);
    w.notify_resource_mutation(RES);
    drive(&mut w, |w, r| {
        w.read_current();
        log.push(r);
    });
    assert_eq!(log, vec![1, 2]);
}

// Revoking one reactor leaves the others on the same descriptor untouched,
// and redeeming a token twice is a harmless no-op.
#[test]
fn revocation_is_selective_and_idempotent() {
    let mut w = ReactWorld::new();
    let t1 = register_one(&mut w, 1, broadcast(EV));
    let _t2 = register_one(&mut w, 2, broadcast(EV));

    w.revoke(t1);
    let mut log: Vec<u64> = Vec::new();
    w.broadcast(EV, 0);
    drive(&mut w, |w, r| {
        w.read_current();
        log.push(r);
    });
    assert_eq!(log, vec![2]);

    // revoking again through an identical token is a no-op
    let t1_again = register_one(&mut w, 1, broadcast(EV));
    w.revoke(t1_again);
    let mut log2: Vec<u64> = Vec::new();
    w.broadcast(EV, 0);
    drive(&mut w, |w, r| {
        w.read_current();
        log2.push(r);
    });
    assert_eq!(log2, vec![2]);
}

// One token can carry several triggers; redeeming it removes them all.
#[test]
fn bundle_registration_and_revocation() {
    let mut w = ReactWorld::new();
    let e = w.spawn_entity();
    let mut b = ReactionTriggerBundle::new();
    b.add(broadcast(EV));
    b.add(entity_event(e, EV));
    let token = reactor_registration(&mut w, 7, b);
    assert_eq!(token.len(), 2);
    assert_eq!(token.id(), 7);

    let mut count: u64 = 0;
    w.broadcast(EV, 1);
    w.entity_event(e, EV, 2);
    drive(&mut w, |w, _r| {
        w.read_current();
        count += 1;
    });
    assert_eq!(count, 2);

    w.revoke(token);
    w.broadcast(EV, 1);
    w.entity_event(e, EV, 2);
    drive(&mut w, |w, _r| {
        w.read_current();
        count += 1;
    });
    assert_eq!(count, 2);
}
