//! Reference-counted auto-cleanup signals.
//!
//! `prepare(target)` opens a new counted group referencing `target` and hands
//! back its first signal handle; cloning a handle raises the group's count,
//! releasing one lowers it; the release that brings the count to zero closes
//! the group and reports `target` as due for destruction. Each group reports
//! its target exactly once, at the moment its last handle is released.

use vstd::prelude::*;

verus! {

/// A counted handle referencing a storage entity that is to be destroyed
/// when the last handle of its group is released.
///
/// Handles are deliberately not cloneable on their own: clones are made
/// through the despawner so the group count always matches the number of
/// outstanding handles.
#[derive(Debug)]
pub struct AutoDespawnSignal {
    target: u64,
    group: u64,
}

impl AutoDespawnSignal {
    /// The entity this signal keeps alive.
    pub closed spec fn spec_entity(self) -> u64 {
        self.target
    }

    /// The counted group this signal belongs to.
    pub closed spec fn spec_group(self) -> u64 {
        self.group
    }

    /// The entity this signal keeps alive.
    pub fn entity(&self) -> (r: u64)
        ensures
            r == self.spec_entity(),
    {
        self.target
    }
}

/// One release step on the group table: lowers `g`'s count, closing the
/// group and reporting its target when the count reaches zero. A release on
/// an unknown group changes nothing.
pub open spec fn spec_release(m: Map<u64, (u64, u64)>, g: u64) -> (Map<u64, (u64, u64)>, Option<
    u64,
>) {
    if m.contains_key(g) {
        let (target, count) = m[g];
        if count <= 1 {
            (m.remove(g), Some(target))
        } else {
            (m.insert(g, (target, (count - 1) as u64)), None)
        }
    } else {
        (m, None)
    }
}

/// `n` release steps in a row on group `g`.
pub open spec fn spec_release_n(m: Map<u64, (u64, u64)>, g: u64, n: nat) -> (Map<u64, (u64, u64)>, nat)
    decreases n,
{
    if n == 0 {
        (m, 0)
    } else {
        let step = spec_release(m, g);
        let rest = spec_release_n(step.0, g, (n - 1) as nat);
        (rest.0, rest.1 + if step.1 is Some {
            1nat
        } else {
            0nat
        })
    }
}

/// Allocates counted groups and tracks how many handles of each are
/// outstanding.
pub struct AutoDespawner {
    next_group: u64,
    counts: crate::maps::IdMap<(u64, u64)>,
}

impl AutoDespawner {
    /// The group table: group id to (target entity, outstanding count).
    pub closed spec fn groups(self) -> Map<u64, (u64, u64)> {
        Map::new(|g: u64| self.counts.get(g) is Some, |g: u64| self.counts.get(g)->Some_0)
    }

    /// The next group id to be handed out.
    pub closed spec fn spec_next_group(self) -> u64 {
        self.next_group
    }

    /// Counts are positive, group ids are below the allocation cursor, and
    /// the underlying table is well formed.
    pub closed spec fn wf(self) -> bool {
        &&& self.counts.wf()
        &&& forall|g: u64|
            (#[trigger] self.counts.get(g)) is Some ==> g < self.next_group && self.counts.get(
                g,
            )->Some_0.1 >= 1
    }

    /// `s` is a live handle of this despawner: its group is open and refers
    /// to the entity the handle names.
    pub open spec fn valid(self, s: AutoDespawnSignal) -> bool {
        &&& self.groups().contains_key(s.spec_group())
        &&& self.groups()[s.spec_group()].0 == s.spec_entity()
    }

    /// The outstanding count of `s`'s group.
    pub open spec fn count_of(self, s: AutoDespawnSignal) -> u64 {
        self.groups()[s.spec_group()].1
    }

    /// A despawner with no open groups.
    pub fn new() -> (d: Self)
        ensures
            d.wf(),
            d.groups() =~= Map::<u64, (u64, u64)>::empty(),
            d.spec_next_group() == 0,
    {
        let d = AutoDespawner { next_group: 0, counts: crate::maps::IdMap::new() };
        proof {
            assert(d.groups() =~= Map::<u64, (u64, u64)>::empty());
        }
        d
    }

    /// Opens a new group referencing `target` with count 1 and returns its
    /// first handle.
    pub fn prepare(&mut self, target: u64) -> (s: AutoDespawnSignal)
        requires
            old(self).wf(),
            old(self).spec_next_group() < u64::MAX,
        ensures
            final(self).wf(),
            s.spec_entity() == target,
            s.spec_group() == old(self).spec_next_group(),
            final(self).spec_next_group() == old(self).spec_next_group() + 1,
            final(self).groups() =~= old(self).groups().insert(s.spec_group(), (target, 1u64)),
            final(self).valid(s),
            final(self).count_of(s) == 1,
    {
        let g = self.next_group;
        self.counts.insert(g, (target, 1));
        self.next_group = g + 1;
        proof {
            assert(old(self).counts.get(g) is None);
            assert(self.groups() =~= old(self).groups().insert(g, (target, 1u64)));
        }
        AutoDespawnSignal { target, group: g }
    }

    /// Clones a live handle, raising its group's count by one.
    pub fn clone_signal(&mut self, s: &AutoDespawnSignal) -> (s2: AutoDespawnSignal)
        requires
            old(self).wf(),
            old(self).valid(*s),
            old(self).count_of(*s) < u64::MAX,
        ensures
            final(self).wf(),
            s2.spec_entity() == s.spec_entity(),
            s2.spec_group() == s.spec_group(),
            final(self).spec_next_group() == old(self).spec_next_group(),
            final(self).groups() =~= old(self).groups().insert(
                s.spec_group(),
                (s.spec_entity(), (old(self).count_of(*s) + 1) as u64),
            ),
    {
        let g = s.group;
        let entry = self.counts.get_ref(g);
        let (target, count) = match entry {
            Some(p) => (p.0, p.1),
            None => (0, 0),  // unreachable: the handle is valid
        };
        self.counts.insert(g, (target, count + 1));
        proof {
            assert(self.groups() =~= old(self).groups().insert(
                g,
                (s.spec_entity(), (old(self).count_of(*s) + 1) as u64),
            ));
        }
        AutoDespawnSignal { target: s.target, group: g }
    }

    /// Releases a live handle: lowers its group's count, and when this
    /// handle was the last one, closes the group and returns the target as
    /// due for destruction.
    pub fn release(&mut self, s: AutoDespawnSignal) -> (r: Option<u64>)
        requires
            old(self).wf(),
            old(self).valid(s),
        ensures
            final(self).wf(),
            final(self).spec_next_group() == old(self).spec_next_group(),
            (final(self).groups(), r) == spec_release(old(self).groups(), s.spec_group()),
            r == if old(self).count_of(s) == 1 {
                Some(s.spec_entity())
            } else {
                None::<u64>
            },
    {
        let g = s.group;
        let entry = self.counts.get_ref(g);
        let (target, count) = match entry {
            Some(p) => (p.0, p.1),
            None => (0, 0),  // unreachable: the handle is valid
        };
        if count <= 1 {
            let _ = self.counts.remove(g);
            proof {
                assert(self.groups() =~= old(self).groups().remove(g));
                assert((final(self).groups(), Some(target)) == spec_release(
                    old(self).groups(),
                    g,
                ));
            }
            Some(target)
        } else {
            self.counts.insert(g, (target, count - 1));
            proof {
                assert(self.groups() =~= old(self).groups().insert(
                    g,
                    (target, (count - 1) as u64),
                ));
            }
            None
        }
    }
}

/// Auto-cleanup termination: a target referenced by a group of `count`
/// outstanding handles is reported for destruction if and only if all
/// `count` handles are released, and it is reported exactly once — by the
/// final release, after which the group is closed.
pub proof fn lemma_auto_cleanup_termination(
    m: Map<u64, (u64, u64)>,
    g: u64,
    target: u64,
    count: u64,
    n: nat,
)
    requires
        m.contains_key(g),
        m[g] == (target, count),
        count >= 1,
        n <= count,
    ensures
        n < count ==> spec_release_n(m, g, n).1 == 0 && spec_release_n(m, g, n).0.contains_key(g)
            && spec_release_n(m, g, n).0[g] == (target, (count - n) as u64),
        n == count ==> spec_release_n(m, g, n).1 == 1 && !spec_release_n(m, g, n).0.contains_key(g),
    decreases n,
{
    if n > 0 {
        let step = spec_release(m, g);
        if count == 1 {
            assert(step.1 == Some(target));
            assert(n == 1);
            lemma_release_none(step.0, g, (n - 1) as nat);
        } else {
            assert(step.0 == m.insert(g, (target, (count - 1) as u64)));
            lemma_auto_cleanup_termination(step.0, g, target, (count - 1) as u64, (n - 1) as nat);
        }
    }
}

/// Releasing against a closed group changes nothing and reports nothing,
/// however often it is repeated: a target is never reported twice.
pub proof fn lemma_release_none(m: Map<u64, (u64, u64)>, g: u64, n: nat)
    requires
        !m.contains_key(g),
    ensures
        spec_release_n(m, g, n) == (m, 0nat),
    decreases n,
{
    if n > 0 {
        lemma_release_none(m, g, (n - 1) as nat);
    }
}

} // verus!
