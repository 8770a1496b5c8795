//! Broadcast and entity-event dispatch behavior, driven through the engine's
//! host protocol: emit, then repeatedly run the next queued reactor.

use react_engine::trigger::{broadcast, entity_event, reactor_registration, ReactionTriggerBundle};
use react_engine::world::ReactWorld;

const INT_EVENT: u64 = 1;
const UNIT_EVENT: u64 = 2;
const USIZE_EVENT: u64 = 3;

/// Runs queued despawn notifications and reactor invocations to completion,
/// handing each invocation to `f`.
fn drive<F: FnMut(&mut ReactWorld, u64)>(w: &mut ReactWorld, mut f: F) {
    loop {
        while w.react_next_despawn() {}
        let r = match w.next_reactor() {
            Some(r) => r,
            None => break,
        };
        f(w, r);
        w.end_reactor();
    }
}

fn on_broadcast(w: &mut ReactWorld, reactor: u64) -> react_engine::trigger::RevokeToken {
    let mut b = ReactionTriggerBundle::new();
    b.add(broadcast(INT_EVENT));
    reactor_registration(w, reactor, b)
}

fn on_entity_event(w: &mut ReactWorld, entity: u64, reactor: u64) -> react_engine::trigger::RevokeToken {
    let mut b = ReactionTriggerBundle::new();
    b.add(entity_event(entity, INT_EVENT));
    reactor_registration(w, reactor, b)
}

#[test]
fn test_broadcast() {
    let mut w = ReactWorld::new();
    let mut recorder: u64 = 0;

    // add reactor
    let _token = on_broadcast(&mut w, 1);
    assert_eq!(recorder, 0);

    // send event (reaction)
    w.broadcast(INT_EVENT, 222);
    drive(&mut w, |w, r| {
        if r == 1 {
            if let Some(v) = w.read_current() {
                recorder = v;
            }
        }
    });
    assert_eq!(recorder, 222);

    // send event (reaction)
    w.broadcast(INT_EVENT, 1);
    drive(&mut w, |w, r| {
        if r == 1 {
            if let Some(v) = w.read_current() {
                recorder = v;
            }
        }
    });
    assert_eq!(recorder, 1);
}

#[test]
fn broadcast_out_of_order() {
    let mut w = ReactWorld::new();
    let mut recorder: u64 = 0;

    // send event (no reaction)
    w.broadcast(INT_EVENT, 222);
    drive(&mut w, |w, r| {
        if r == 1 {
            if let Some(v) = w.read_current() {
                recorder = v;
            }
        }
    });
    assert_eq!(recorder, 0);

    // add reactor (no reaction to prior event)
    let _token = on_broadcast(&mut w, 1);
    assert_eq!(recorder, 0);

    // send event (reaction)
    w.broadcast(INT_EVENT, 1);
    drive(&mut w, |w, r| {
        if r == 1 {
            if let Some(v) = w.read_current() {
                recorder = v;
            }
        }
    });
    assert_eq!(recorder, 1);
}

#[test]
fn recursive_broadcasts() {
    let mut w = ReactWorld::new();
    let mut recorder: u64 = 0;

    // add recursive reactor (no reaction)
    let _token = on_broadcast(&mut w, 1);
    assert_eq!(recorder, 0);

    // send event (only one reaction)
    w.broadcast(INT_EVENT, 0);
    drive(&mut w, |w, r| {
        if r == 1 {
            let v = w.read_current().unwrap();
            recorder += 1;
            if v > 0 {
                w.broadcast(INT_EVENT, v - 1);
            }
        }
    });
    assert_eq!(recorder, 1);

    // send event recursively (two reactions)
    recorder = 0;
    w.broadcast(INT_EVENT, 1);
    drive(&mut w, |w, r| {
        if r == 1 {
            let v = w.read_current().unwrap();
            recorder += 1;
            if v > 0 {
                w.broadcast(INT_EVENT, v - 1);
            }
        }
    });
    assert_eq!(recorder, 2);

    // send event recursively (three reactions)
    recorder = 0;
    w.broadcast(INT_EVENT, 2);
    drive(&mut w, |w, r| {
        if r == 1 {
            let v = w.read_current().unwrap();
            recorder += 1;
            if v > 0 {
                w.broadcast(INT_EVENT, v - 1);
            }
        }
    });
    assert_eq!(recorder, 3);
}

// Broadcast events are visible to registered reactors only.
#[test]
fn broadcast_scoping() {
    let mut w = ReactWorld::new();
    let mut recorder: u64 = 0;

    // add reactors: one on the unit event type, one on the integer type
    let mut b = ReactionTriggerBundle::new();
    b.add(broadcast(UNIT_EVENT));
    let _t1 = reactor_registration(&mut w, 1, b);
    let mut b = ReactionTriggerBundle::new();
    b.add(broadcast(USIZE_EVENT));
    let _t2 = reactor_registration(&mut w, 2, b);

    // send unit broadcast
    w.broadcast(UNIT_EVENT, 0);
    drive(&mut w, |w, r| match r {
        1 => {
            w.read_current();
            recorder += 1;
        }
        2 => {
            recorder += w.read_current().unwrap();
        }
        _ => {}
    });
    assert_eq!(recorder, 1);

    // send integer broadcast
    w.broadcast(USIZE_EVENT, 10);
    drive(&mut w, |w, r| match r {
        1 => {
            w.read_current();
            recorder += 1;
        }
        2 => {
            recorder += w.read_current().unwrap();
        }
        _ => {}
    });
    assert_eq!(recorder, 11);
}

// Multiple broadcast events scheduled in a row do not interfere.
#[test]
fn multiple_broadcast_noninterference() {
    let mut w = ReactWorld::new();
    let mut recorder: u64 = 0;

    // add reactor
    let _token = on_broadcast(&mut w, 1);
    assert_eq!(recorder, 0);

    // send events back-to-back, processed by the same reaction tree
    w.broadcast(INT_EVENT, 1);
    w.broadcast(INT_EVENT, 2);
    w.broadcast(INT_EVENT, 3);
    drive(&mut w, |w, r| {
        if r == 1 {
            if let Some(v) = w.read_current() {
                recorder += v;
            }
        }
    });
    assert_eq!(recorder, 6);
}

// Reaction data is despawned after the last reader has run.
#[test]
fn broadcast_data_is_dropped() {
    let mut w = ReactWorld::new();

    // add reactors
    let _t1 = on_broadcast(&mut w, 1);
    let _t2 = on_broadcast(&mut w, 2);

    // send event (reaction)
    let data_entity = w.broadcast(INT_EVENT, 222).unwrap();
    assert!(w.is_alive(data_entity));
    drive(&mut w, |w, _r| {
        w.read_current();
    });
    assert!(!w.is_alive(data_entity));
}

// Test entity events.
#[test]
fn test_entity_event() {
    let mut w = ReactWorld::new();
    let mut recorder: u64 = 0;

    let test_entity = w.spawn_entity();

    // add reactor
    let _token = on_entity_event(&mut w, test_entity, 1);
    assert_eq!(recorder, 0);

    // send event (reaction)
    w.entity_event(test_entity, INT_EVENT, 222);
    drive(&mut w, |w, r| {
        if r == 1 {
            if let Some(v) = w.read_current() {
                recorder = v;
            }
        }
    });
    assert_eq!(recorder, 222);

    // send event (reaction)
    w.entity_event(test_entity, INT_EVENT, 1);
    drive(&mut w, |w, r| {
        if r == 1 {
            if let Some(v) = w.read_current() {
                recorder = v;
            }
        }
    });
    assert_eq!(recorder, 1);
}

// Recursive entity events.
#[test]
fn recursive_entity_events() {
    let mut w = ReactWorld::new();
    let mut recorder: u64 = 0;

    let test_entity = w.spawn_entity();

    // add recursive reactor (no reaction)
    let _token = on_entity_event(&mut w, test_entity, 1);
    assert_eq!(recorder, 0);

    // send event (only one reaction)
    w.entity_event(test_entity, INT_EVENT, 0);
    drive(&mut w, |w, r| {
        if r == 1 {
            let v = w.read_current().unwrap();
            recorder += 1;
            if v > 0 {
                w.entity_event(test_entity, INT_EVENT, v - 1);
            }
        }
    });
    assert_eq!(recorder, 1);

    // send event recursively (two reactions)
    recorder = 0;
    w.entity_event(test_entity, INT_EVENT, 1);
    drive(&mut w, |w, r| {
        if r == 1 {
            let v = w.read_current().unwrap();
            recorder += 1;
            if v > 0 {
                w.entity_event(test_entity, INT_EVENT, v - 1);
            }
        }
    });
    assert_eq!(recorder, 2);

    // send event recursively (three reactions)
    recorder = 0;
    w.entity_event(test_entity, INT_EVENT, 2);
    drive(&mut w, |w, r| {
        if r == 1 {
            let v = w.read_current().unwrap();
            recorder += 1;
            if v > 0 {
                w.entity_event(test_entity, INT_EVENT, v - 1);
            }
        }
    });
    assert_eq!(recorder, 3);
}

// Entity events are visible to reactors registered on that entity only.
#[test]
fn entity_event_scoping() {
    let mut w = ReactWorld::new();
    let mut recorder: u64 = 0;

    let test_entity_a = w.spawn_entity();
    let test_entity_b = w.spawn_entity();

    // add reactors
    let _ta = on_entity_event(&mut w, test_entity_a, 1);
    let _tb = on_entity_event(&mut w, test_entity_b, 2);
    assert_eq!(recorder, 0);

    // send event to a
    w.entity_event(test_entity_a, INT_EVENT, 1);
    drive(&mut w, |w, _r| {
        if let Some(v) = w.read_current() {
            recorder += v;
        }
    });
    assert_eq!(recorder, 1);

    // send event to b
    w.entity_event(test_entity_b, INT_EVENT, 10);
    drive(&mut w, |w, _r| {
        if let Some(v) = w.read_current() {
            recorder += v;
        }
    });
    assert_eq!(recorder, 11);
}

// Multiple entity events scheduled in a row do not interfere.
#[test]
fn multiple_entity_events_noninterference() {
    let mut w = ReactWorld::new();
    let mut recorder: u64 = 0;

    let test_entity = w.spawn_entity();

    // add reactor
    let _token = on_entity_event(&mut w, test_entity, 1);
    assert_eq!(recorder, 0);

    // send events back-to-back, processed by the same reaction tree
    w.entity_event(test_entity, INT_EVENT, 1);
    w.entity_event(test_entity, INT_EVENT, 2);
    w.entity_event(test_entity, INT_EVENT, 3);
    drive(&mut w, |w, r| {
        if r == 1 {
            if let Some(v) = w.read_current() {
                recorder += v;
            }
        }
    });
    assert_eq!(recorder, 6);
}

// Reaction data is despawned after the last reader has run.
#[test]
fn entity_event_data_is_dropped() {
    let mut w = ReactWorld::new();

    let test_entity = w.spawn_entity();

    // add reactors
    let _t1 = on_entity_event(&mut w, test_entity, 1);
    let _t2 = on_entity_event(&mut w, test_entity, 2);

    // send event (reaction)
    let data_entity = w.entity_event(test_entity, INT_EVENT, 222).unwrap();
    assert!(w.is_alive(data_entity));
    drive(&mut w, |w, _r| {
        w.read_current();
    });
    assert!(!w.is_alive(data_entity));
}

#[test]
fn revoke_broadcast_reactor() {
    let mut w = ReactWorld::new();
    let mut recorder: u64 = 0;

    // add reactor
    let revoke_token = on_broadcast(&mut w, 1);
    assert_eq!(recorder, 0);

    // send event (reaction)
    w.broadcast(INT_EVENT, 222);
    drive(&mut w, |w, r| {
        if r == 1 {
            if let Some(v) = w.read_current() {
                recorder = v;
            }
        }
    });
    assert_eq!(recorder, 222);

    // revoke reactor
    w.revoke(revoke_token);

    // send event (no reaction)
    w.broadcast(INT_EVENT, 1);
    drive(&mut w, |w, r| {
        if r == 1 {
            if let Some(v) = w.read_current() {
                recorder = v;
            }
        }
    });
    assert_eq!(recorder, 222);
}

#[test]
fn revoke_entity_event_reactor() {
    let mut w = ReactWorld::new();
    let mut recorder: u64 = 0;

    let test_entity = w.spawn_entity();

    // add reactor
    let revoke_token = on_entity_event(&mut w, test_entity, 1);
    assert_eq!(recorder, 0);

    // send event (reaction)
    w.entity_event(test_entity, INT_EVENT, 222);
    drive(&mut w, |w, r| {
        if r == 1 {
            if let Some(v) = w.read_current() {
                recorder = v;
            }
        }
    });
    assert_eq!(recorder, 222);

    // revoke reactor
    w.revoke(revoke_token);

    // send event (no reaction)
    w.entity_event(test_entity, INT_EVENT, 1);
    drive(&mut w, |w, r| {
        if r == 1 {
            if let Some(v) = w.read_current() {
                recorder = v;
            }
        }
    });
    assert_eq!(recorder, 222);
}
