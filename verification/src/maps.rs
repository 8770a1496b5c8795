//! Small verified association containers used by the registry and the world.
//!
//! Keys are looked up by first match over a vector of pairs; a distinctness
//! invariant makes the first match the only match, so the containers behave
//! as maps. [`TriggerMap`] maps trigger descriptors to ordered reactor lists,
//! [`IdMap`] maps plain `u64` ids to arbitrary values, and [`IdSet`] is a set
//! of plain `u64` ids.

use vstd::prelude::*;

use crate::trigger::ReactorType;

verus! {

/// The predicate "is not the handle `id`", used to state what revocation
/// leaves behind in a reactor list.
pub open spec fn ne(id: u64) -> spec_fn(u64) -> bool {
    |h: u64| h != id
}

/// A map from trigger descriptors to ordered lists of reactor ids.
pub struct TriggerMap {
    items: Vec<(ReactorType, Vec<u64>)>,
}

impl TriggerMap {
    spec fn find(s: Seq<(ReactorType, Vec<u64>)>, t: ReactorType) -> Seq<u64>
        decreases s.len(),
    {
        if s.len() == 0 {
            Seq::empty()
        } else if s[0].0 == t {
            s[0].1@
        } else {
            Self::find(s.drop_first(), t)
        }
    }

    /// The ordered reactor list registered under `t`; empty when `t` has no
    /// entry.
    pub closed spec fn list(self, t: ReactorType) -> Seq<u64> {
        Self::find(self.items@, t)
    }

    /// Keys are distinct, so each descriptor has at most one entry.
    pub closed spec fn wf(self) -> bool {
        forall|i: int, j: int|
            0 <= i < j < self.items@.len() ==> (#[trigger] self.items@[i]).0 != (
            #[trigger] self.items@[j]).0
    }

    proof fn lemma_find_skip(s: Seq<(ReactorType, Vec<u64>)>, t: ReactorType, i: int)
        requires
            0 <= i <= s.len(),
            forall|j: int| 0 <= j < i ==> (#[trigger] s[j]).0 != t,
        ensures
            Self::find(s, t) == Self::find(s.skip(i), t),
        decreases i,
    {
        if i > 0 {
            Self::lemma_find_skip(s.drop_first(), t, i - 1);
            assert(s.skip(i) =~= s.drop_first().skip(i - 1));
        } else {
            assert(s.skip(0) =~= s);
        }
    }

    proof fn lemma_find_update(
        s: Seq<(ReactorType, Vec<u64>)>,
        i: int,
        p: (ReactorType, Vec<u64>),
        t2: ReactorType,
    )
        requires
            0 <= i < s.len(),
            s[i].0 == p.0,
            forall|m: int, n: int|
                0 <= m < n < s.len() ==> (#[trigger] s[m]).0 != (#[trigger] s[n]).0,
        ensures
            Self::find(s.update(i, p), t2) == if t2 == p.0 {
                p.1@
            } else {
                Self::find(s, t2)
            },
        decreases i,
    {
        let u = s.update(i, p);
        if i == 0 {
            assert(u.drop_first() =~= s.drop_first());
        } else {
            assert(u[0] == s[0]);
            assert(s[0].0 != p.0);
            assert(u.drop_first() =~= s.drop_first().update(i - 1, p));
            Self::lemma_find_update(s.drop_first(), i - 1, p, t2);
        }
    }

    proof fn lemma_find_remove(s: Seq<(ReactorType, Vec<u64>)>, i: int, t2: ReactorType)
        requires
            0 <= i < s.len(),
            forall|m: int, n: int|
                0 <= m < n < s.len() ==> (#[trigger] s[m]).0 != (#[trigger] s[n]).0,
        ensures
            Self::find(s.remove(i), t2) == if t2 == s[i].0 {
                Seq::<u64>::empty()
            } else {
                Self::find(s, t2)
            },
        decreases i,
    {
        let u = s.remove(i);
        if i == 0 {
            assert(u =~= s.drop_first());
            if t2 == s[0].0 {
                assert(forall|j: int| 0 <= j < u.len() ==> (#[trigger] u[j]).0 != t2);
                Self::lemma_find_skip(u, t2, u.len() as int);
                assert(u.skip(u.len() as int) =~= Seq::<(ReactorType, Vec<u64>)>::empty());
            }
        } else {
            assert(u[0] == s[0]);
            assert(u.drop_first() =~= s.drop_first().remove(i - 1));
            Self::lemma_find_remove(s.drop_first(), i - 1, t2);
            if t2 == s[i].0 {
                assert(s[0].0 != s[i].0);
            }
        }
    }

    proof fn lemma_find_push_new(
        s: Seq<(ReactorType, Vec<u64>)>,
        p: (ReactorType, Vec<u64>),
        t2: ReactorType,
    )
        requires
            forall|j: int| 0 <= j < s.len() ==> (#[trigger] s[j]).0 != p.0,
        ensures
            Self::find(s.push(p), t2) == if t2 == p.0 {
                p.1@
            } else {
                Self::find(s, t2)
            },
        decreases s.len(),
    {
        let u = s.push(p);
        reveal_with_fuel(TriggerMap::find, 3);
        if s.len() == 0 {
            assert(u[0] == p);
            assert(u.drop_first() =~= Seq::<(ReactorType, Vec<u64>)>::empty());
        } else {
            assert(u[0] == s[0]);
            assert(u.drop_first() =~= s.drop_first().push(p));
            Self::lemma_find_push_new(s.drop_first(), p, t2);
        }
    }

    /// An empty map: every descriptor's list is empty.
    pub fn new() -> (m: Self)
        ensures
            m.wf(),
            forall|t: ReactorType| #[trigger] m.list(t) == Seq::<u64>::empty(),
    {
        let m = TriggerMap { items: Vec::new() };
        proof {
            assert forall|t: ReactorType| #[trigger] m.list(t) == Seq::<u64>::empty() by {
                assert(m.items@.len() == 0);
            }
        }
        m
    }

    fn index_of(&self, t: ReactorType) -> (r: Option<usize>)
        ensures
            match r {
                Some(i) => i < self.items@.len() && self.items@[i as int].0 == t && forall|j: int|
                    0 <= j < i ==> (#[trigger] self.items@[j]).0 != t,
                None => forall|j: int|
                    0 <= j < self.items@.len() ==> (#[trigger] self.items@[j]).0 != t,
            },
    {
        let n = self.items.len();
        let mut i: usize = 0;
        while i < n
            invariant
                n == self.items@.len(),
                i <= n,
                forall|j: int| 0 <= j < i ==> (#[trigger] self.items@[j]).0 != t,
            decreases n - i,
        {
            if self.items[i].0 == t {
                return Some(i);
            }
            i += 1;
        }
        None
    }

    /// Appends `h` to the list registered under `t`, creating the entry when
    /// it is absent. Every other descriptor's list is unchanged.
    pub fn register(&mut self, t: ReactorType, h: u64)
        requires
            old(self).wf(),
        ensures
            final(self).wf(),
            forall|t2: ReactorType| #[trigger] final(self).list(t2) == if t2 == t {
                old(self).list(t).push(h)
            } else {
                old(self).list(t2)
            },
    {
        let idx = self.index_of(t);
        match idx {
            Some(i) => {
                proof {
                    Self::lemma_find_skip(self.items@, t, i as int);
                    assert(self.items@.skip(i as int)[0] == self.items@[i as int]);
                    assert(self.list(t) == self.items@[i as int].1@);
                }
                let mut pair = self.items.remove(i);
                pair.1.push(h);
                self.items.insert(i, pair);
                proof {
                    assert(self.items@ =~= old(self).items@.update(i as int, pair));
                    assert forall|t2: ReactorType| #[trigger] self.list(t2) == if t2 == t {
                        old(self).list(t).push(h)
                    } else {
                        old(self).list(t2)
                    } by {
                        Self::lemma_find_update(old(self).items@, i as int, pair, t2);
                    }
                }
            },
            None => {
                let mut l: Vec<u64> = Vec::new();
                l.push(h);
                let pair = (t, l);
                self.items.push(pair);
                proof {
                    assert forall|t2: ReactorType| #[trigger] self.list(t2) == if t2 == t {
                        old(self).list(t).push(h)
                    } else {
                        old(self).list(t2)
                    } by {
                        Self::lemma_find_push_new(old(self).items@, pair, t2);
                        if t2 == t {
                            Self::lemma_find_skip(
                                old(self).items@,
                                t,
                                old(self).items@.len() as int,
                            );
                            assert(old(self).items@.skip(old(self).items@.len() as int) =~= Seq::<
                                (ReactorType, Vec<u64>),
                            >::empty());
                            assert(old(self).list(t) =~= Seq::<u64>::empty());
                        }
                    }
                }
            },
        }
    }

    /// A copy of the list registered under `t`.
    pub fn get_list(&self, t: ReactorType) -> (r: Vec<u64>)
        ensures
            r@ == self.list(t),
    {
        match self.index_of(t) {
            Some(i) => {
                proof {
                    Self::lemma_find_skip(self.items@, t, i as int);
                    assert(self.items@.skip(i as int)[0] == self.items@[i as int]);
                }
                let r = clone_ids(&self.items[i].1);
                r
            },
            None => {
                proof {
                    Self::lemma_find_skip(self.items@, t, self.items@.len() as int);
                    assert(self.items@.skip(self.items@.len() as int) =~= Seq::<
                        (ReactorType, Vec<u64>),
                    >::empty());
                }
                Vec::new()
            },
        }
    }

    /// Removes the entry for `t` and returns its list; afterwards `t`'s list
    /// is empty and every other descriptor's list is unchanged.
    pub fn take_list(&mut self, t: ReactorType) -> (r: Vec<u64>)
        requires
            old(self).wf(),
        ensures
            final(self).wf(),
            r@ == old(self).list(t),
            forall|t2: ReactorType| #[trigger] final(self).list(t2) == if t2 == t {
                Seq::<u64>::empty()
            } else {
                old(self).list(t2)
            },
    {
        match self.index_of(t) {
            Some(i) => {
                proof {
                    Self::lemma_find_skip(self.items@, t, i as int);
                    assert(self.items@.skip(i as int)[0] == self.items@[i as int]);
                }
                let pair = self.items.remove(i);
                proof {
                    assert forall|t2: ReactorType| #[trigger] self.list(t2) == if t2 == t {
                        Seq::<u64>::empty()
                    } else {
                        old(self).list(t2)
                    } by {
                        Self::lemma_find_remove(old(self).items@, i as int, t2);
                    }
                }
                pair.1
            },
            None => {
                proof {
                    Self::lemma_find_skip(self.items@, t, self.items@.len() as int);
                    assert(self.items@.skip(self.items@.len() as int) =~= Seq::<
                        (ReactorType, Vec<u64>),
                    >::empty());
                }
                Vec::new()
            },
        }
    }

    /// Removes every occurrence of the handle `id` from the list registered
    /// under `t`, keeping the remaining entries in order. Every other
    /// descriptor's list is unchanged.
    pub fn remove_id(&mut self, t: ReactorType, id: u64)
        requires
            old(self).wf(),
        ensures
            final(self).wf(),
            forall|t2: ReactorType| #[trigger] final(self).list(t2) == if t2 == t {
                old(self).list(t).filter(ne(id))
            } else {
                old(self).list(t2)
            },
    {
        match self.index_of(t) {
            Some(i) => {
                proof {
                    Self::lemma_find_skip(self.items@, t, i as int);
                    assert(self.items@.skip(i as int)[0] == self.items@[i as int]);
                    assert(self.list(t) == self.items@[i as int].1@);
                }
                let mut pair = self.items.remove(i);
                let filtered = filter_ids(&pair.1, id);
                let pair2 = (t, filtered);
                self.items.insert(i, pair2);
                proof {
                    assert(self.items@ =~= old(self).items@.update(i as int, pair2));
                    assert forall|t2: ReactorType| #[trigger] self.list(t2) == if t2 == t {
                        old(self).list(t).filter(ne(id))
                    } else {
                        old(self).list(t2)
                    } by {
                        Self::lemma_find_update(old(self).items@, i as int, pair2, t2);
                    }
                }
            },
            None => {
                proof {
                    Self::lemma_find_skip(self.items@, t, self.items@.len() as int);
                    assert(self.items@.skip(self.items@.len() as int) =~= Seq::<
                        (ReactorType, Vec<u64>),
                    >::empty());
                    assert(self.list(t) =~= Seq::<u64>::empty());
                    reveal_with_fuel(Seq::filter, 1);
                    assert(self.list(t).filter(ne(id)) =~= Seq::<u64>::empty());
                }
            },
        }
    }
}

/// A map from plain `u64` ids to values.
pub struct IdMap<V> {
    items: Vec<(u64, V)>,
}

impl<V> IdMap<V> {
    spec fn find(s: Seq<(u64, V)>, k: u64) -> Option<V>
        decreases s.len(),
    {
        if s.len() == 0 {
            None
        } else if s[0].0 == k {
            Some(s[0].1)
        } else {
            Self::find(s.drop_first(), k)
        }
    }

    /// The value stored under `k`, if any.
    pub closed spec fn get(self, k: u64) -> Option<V> {
        Self::find(self.items@, k)
    }

    /// Keys are distinct, so each id has at most one entry.
    pub closed spec fn wf(self) -> bool {
        forall|i: int, j: int|
            0 <= i < j < self.items@.len() ==> (#[trigger] self.items@[i]).0 != (
            #[trigger] self.items@[j]).0
    }

    proof fn lemma_find_skip(s: Seq<(u64, V)>, k: u64, i: int)
        requires
            0 <= i <= s.len(),
            forall|j: int| 0 <= j < i ==> (#[trigger] s[j]).0 != k,
        ensures
            Self::find(s, k) == Self::find(s.skip(i), k),
        decreases i,
    {
        if i > 0 {
            Self::lemma_find_skip(s.drop_first(), k, i - 1);
            assert(s.skip(i) =~= s.drop_first().skip(i - 1));
        } else {
            assert(s.skip(0) =~= s);
        }
    }

    proof fn lemma_find_remove(s: Seq<(u64, V)>, i: int, k2: u64)
        requires
            0 <= i < s.len(),
            forall|m: int, n: int|
                0 <= m < n < s.len() ==> (#[trigger] s[m]).0 != (#[trigger] s[n]).0,
        ensures
            Self::find(s.remove(i), k2) == if k2 == s[i].0 {
                None::<V>
            } else {
                Self::find(s, k2)
            },
        decreases i,
    {
        let u = s.remove(i);
        if i == 0 {
            assert(u =~= s.drop_first());
            if k2 == s[0].0 {
                assert(forall|j: int| 0 <= j < u.len() ==> (#[trigger] u[j]).0 != k2);
                Self::lemma_find_skip(u, k2, u.len() as int);
                assert(u.skip(u.len() as int) =~= Seq::<(u64, V)>::empty());
            }
        } else {
            assert(u[0] == s[0]);
            assert(u.drop_first() =~= s.drop_first().remove(i - 1));
            Self::lemma_find_remove(s.drop_first(), i - 1, k2);
            if k2 == s[i].0 {
                assert(s[0].0 != s[i].0);
            }
        }
    }

    proof fn lemma_find_push_new(s: Seq<(u64, V)>, p: (u64, V), k2: u64)
        requires
            forall|j: int| 0 <= j < s.len() ==> (#[trigger] s[j]).0 != p.0,
        ensures
            Self::find(s.push(p), k2) == if k2 == p.0 {
                Some(p.1)
            } else {
                Self::find(s, k2)
            },
        decreases s.len(),
    {
        let u = s.push(p);
        if s.len() == 0 {
            assert(u[0] == p);
            assert(u.drop_first() =~= Seq::<(u64, V)>::empty());
            assert(Self::find(Seq::<(u64, V)>::empty(), k2) is None);
        } else {
            assert(u[0] == s[0]);
            assert(u.drop_first() =~= s.drop_first().push(p));
            Self::lemma_find_push_new(s.drop_first(), p, k2);
        }
    }

    /// An empty map: every id is unmapped.
    pub fn new() -> (m: Self)
        ensures
            m.wf(),
            forall|k: u64| #[trigger] m.get(k) is None,
    {
        let m = IdMap { items: Vec::new() };
        proof {
            assert forall|k: u64| #[trigger] m.get(k) is None by {
                assert(m.items@.len() == 0);
            }
        }
        m
    }

    fn index_of(&self, k: u64) -> (r: Option<usize>)
        ensures
            match r {
                Some(i) => i < self.items@.len() && self.items@[i as int].0 == k && forall|j: int|
                    0 <= j < i ==> (#[trigger] self.items@[j]).0 != k,
                None => forall|j: int|
                    0 <= j < self.items@.len() ==> (#[trigger] self.items@[j]).0 != k,
            },
    {
        let n = self.items.len();
        let mut i: usize = 0;
        while i < n
            invariant
                n == self.items@.len(),
                i <= n,
                forall|j: int| 0 <= j < i ==> (#[trigger] self.items@[j]).0 != k,
            decreases n - i,
        {
            if self.items[i].0 == k {
                return Some(i);
            }
            i += 1;
        }
        None
    }

    /// Whether `k` is mapped.
    pub fn contains_key(&self, k: u64) -> (r: bool)
        ensures
            r == (self.get(k) is Some),
    {
        match self.index_of(k) {
            Some(i) => {
                proof {
                    Self::lemma_find_skip(self.items@, k, i as int);
                    assert(self.items@.skip(i as int)[0] == self.items@[i as int]);
                }
                true
            },
            None => {
                proof {
                    Self::lemma_find_skip(self.items@, k, self.items@.len() as int);
                    assert(self.items@.skip(self.items@.len() as int) =~= Seq::<(u64, V)>::empty());
                }
                false
            },
        }
    }

    /// A reference to the value stored under `k`, if any.
    pub fn get_ref(&self, k: u64) -> (r: Option<&V>)
        ensures
            match r {
                Some(v) => self.get(k) == Some(*v),
                None => self.get(k) is None,
            },
    {
        match self.index_of(k) {
            Some(i) => {
                proof {
                    Self::lemma_find_skip(self.items@, k, i as int);
                    assert(self.items@.skip(i as int)[0] == self.items@[i as int]);
                }
                Some(&self.items[i].1)
            },
            None => {
                proof {
                    Self::lemma_find_skip(self.items@, k, self.items@.len() as int);
                    assert(self.items@.skip(self.items@.len() as int) =~= Seq::<(u64, V)>::empty());
                }
                None
            },
        }
    }

    /// Maps `k` to `v`, replacing any previous value. Every other id's value
    /// is unchanged.
    pub fn insert(&mut self, k: u64, v: V)
        requires
            old(self).wf(),
        ensures
            final(self).wf(),
            forall|k2: u64| #[trigger] final(self).get(k2) == if k2 == k {
                Some(v)
            } else {
                old(self).get(k2)
            },
    {
        match self.index_of(k) {
            Some(i) => {
                let _ = self.items.remove(i);
                let mid = Ghost(*self);
                self.items.push((k, v));
                proof {
                    assert forall|j: int|
                        0 <= j < mid@.items@.len() implies (#[trigger] mid@.items@[j]).0 != k by {
                        if j < i {
                            assert(mid@.items@[j] == old(self).items@[j]);
                        } else {
                            assert(mid@.items@[j] == old(self).items@[j + 1]);
                        }
                    }
                    assert forall|k2: u64| #[trigger] self.get(k2) == if k2 == k {
                        Some(v)
                    } else {
                        old(self).get(k2)
                    } by {
                        Self::lemma_find_remove(old(self).items@, i as int, k2);
                        Self::lemma_find_push_new(mid@.items@, (k, v), k2);
                        assert(mid@.items@ == old(self).items@.remove(i as int));
                        assert(self.items@ == mid@.items@.push((k, v)));
                    }
                    assert forall|m: int, n: int|
                        0 <= m < n < self.items@.len() implies (#[trigger] self.items@[m]).0 != (
                    #[trigger] self.items@[n]).0 by {
                        if n == self.items@.len() - 1 {
                            assert(self.items@[m] == mid@.items@[m]);
                        }
                    }
                }
            },
            None => {
                self.items.push((k, v));
                proof {
                    assert forall|k2: u64| #[trigger] self.get(k2) == if k2 == k {
                        Some(v)
                    } else {
                        old(self).get(k2)
                    } by {
                        Self::lemma_find_push_new(old(self).items@, (k, v), k2);
                    }
                    assert forall|m: int, n: int|
                        0 <= m < n < self.items@.len() implies (#[trigger] self.items@[m]).0 != (
                    #[trigger] self.items@[n]).0 by {
                        if n == self.items@.len() - 1 {
                            assert(self.items@[m] == old(self).items@[m]);
                        }
                    }
                }
            },
        }
    }

    /// Unmaps `k`, returning the value it held, if any. Every other id's
    /// value is unchanged.
    pub fn remove(&mut self, k: u64) -> (r: Option<V>)
        requires
            old(self).wf(),
        ensures
            final(self).wf(),
            r == old(self).get(k),
            old(self).get(k) is None ==> *final(self) == *old(self),
            forall|k2: u64| #[trigger] final(self).get(k2) == if k2 == k {
                None::<V>
            } else {
                old(self).get(k2)
            },
    {
        match self.index_of(k) {
            Some(i) => {
                proof {
                    Self::lemma_find_skip(self.items@, k, i as int);
                    assert(self.items@.skip(i as int)[0] == self.items@[i as int]);
                }
                let pair = self.items.remove(i);
                proof {
                    assert forall|k2: u64| #[trigger] self.get(k2) == if k2 == k {
                        None::<V>
                    } else {
                        old(self).get(k2)
                    } by {
                        Self::lemma_find_remove(old(self).items@, i as int, k2);
                    }
                }
                Some(pair.1)
            },
            None => {
                proof {
                    Self::lemma_find_skip(self.items@, k, self.items@.len() as int);
                    assert(self.items@.skip(self.items@.len() as int) =~= Seq::<(u64, V)>::empty());
                }
                None
            },
        }
    }
}

/// A set of plain `u64` ids.
pub struct IdSet {
    items: Vec<u64>,
}

impl IdSet {
    /// Whether `e` is in the set.
    pub closed spec fn has(self, e: u64) -> bool {
        self.items@.contains(e)
    }

    /// How many ids the set holds.
    pub closed spec fn size(self) -> nat {
        self.items@.len()
    }

    /// Elements are distinct.
    pub closed spec fn wf(self) -> bool {
        forall|i: int, j: int|
            0 <= i < j < self.items@.len() ==> (#[trigger] self.items@[i]) != (
            #[trigger] self.items@[j])
    }

    /// An empty set.
    pub fn new() -> (s: Self)
        ensures
            s.wf(),
            forall|e: u64| !(#[trigger] s.has(e)),
            s.size() == 0,
    {
        IdSet { items: Vec::new() }
    }

    fn index_of(&self, e: u64) -> (r: Option<usize>)
        ensures
            match r {
                Some(i) => i < self.items@.len() && self.items@[i as int] == e,
                None => !self.items@.contains(e),
            },
    {
        let n = self.items.len();
        let mut i: usize = 0;
        while i < n
            invariant
                n == self.items@.len(),
                i <= n,
                forall|j: int| 0 <= j < i ==> self.items@[j] != e,
            decreases n - i,
        {
            if self.items[i] == e {
                return Some(i);
            }
            i += 1;
        }
        None
    }

    /// Whether `e` is in the set.
    pub fn contains(&self, e: u64) -> (r: bool)
        ensures
            r == self.has(e),
    {
        match self.index_of(e) {
            Some(_) => true,
            None => false,
        }
    }

    /// Adds `e`; adding an id twice leaves the set as it was.
    pub fn insert(&mut self, e: u64)
        requires
            old(self).wf(),
        ensures
            final(self).wf(),
            forall|x: u64| #[trigger] final(self).has(x) == (old(self).has(x) || x == e),
            final(self).size() == if old(self).has(e) {
                old(self).size()
            } else {
                old(self).size() + 1
            },
    {
        match self.index_of(e) {
            Some(_) => {},
            None => {
                self.items.push(e);
                proof {
                    assert forall|x: u64| #[trigger] self.has(x) == (old(self).has(x) || x == e) by {
                        if x == e {
                            assert(self.items@[self.items@.len() - 1] == e);
                        } else {
                            if old(self).has(x) {
                                let j = choose|j: int|
                                    0 <= j < old(self).items@.len() && old(self).items@[j] == x;
                                assert(self.items@[j] == x);
                            } else {
                                assert forall|j: int| 0 <= j < self.items@.len() implies self.items@[j]
                                    != x by {
                                    if j < old(self).items@.len() {
                                        assert(old(self).items@[j] == self.items@[j]);
                                        assert(old(self).items@.contains(old(self).items@[j]));
                                    }
                                }
                            }
                        }
                    }
                    assert forall|i: int, j: int|
                        0 <= i < j < self.items@.len() implies (#[trigger] self.items@[i]) != (
                    #[trigger] self.items@[j]) by {
                        if j == self.items@.len() - 1 {
                            assert(old(self).items@[i] == self.items@[i]);
                            assert(old(self).items@.contains(old(self).items@[i]));
                        }
                    }
                }
            },
        }
    }

    /// Removes `e`; removing an absent id leaves the set as it was.
    pub fn remove(&mut self, e: u64)
        requires
            old(self).wf(),
        ensures
            final(self).wf(),
            forall|x: u64| #[trigger] final(self).has(x) == (old(self).has(x) && x != e),
            final(self).size() == if old(self).has(e) {
                (old(self).size() - 1) as nat
            } else {
                old(self).size()
            },
    {
        match self.index_of(e) {
            Some(i) => {
                self.items.remove(i);
                proof {
                    let s0 = old(self).items@;
                    let s1 = self.items@;
                    assert forall|x: u64| #[trigger] self.has(x) == (old(self).has(x) && x != e) by {
                        if x == e {
                            assert forall|j: int| 0 <= j < s1.len() implies s1[j] != e by {
                                if j < i {
                                    assert(s1[j] == s0[j]);
                                } else {
                                    assert(s1[j] == s0[j + 1]);
                                }
                            }
                        } else {
                            if old(self).has(x) {
                                let j = choose|j: int| 0 <= j < s0.len() && s0[j] == x;
                                if j < i {
                                    assert(s1[j] == x);
                                } else {
                                    assert(j > i);
                                    assert(s1[j - 1] == x);
                                }
                            } else {
                                assert forall|j: int| 0 <= j < s1.len() implies s1[j] != x by {
                                    if j < i {
                                        assert(s1[j] == s0[j]);
                                        assert(s0.contains(s0[j]));
                                    } else {
                                        assert(s1[j] == s0[j + 1]);
                                        assert(s0.contains(s0[j + 1]));
                                    }
                                }
                            }
                        }
                    }
                    assert forall|m: int, n: int|
                        0 <= m < n < s1.len() implies (#[trigger] s1[m]) != (#[trigger] s1[n]) by {
                        let m0: int = if m < i {
                            m
                        } else {
                            m + 1
                        };
                        let n0: int = if n < i {
                            n
                        } else {
                            n + 1
                        };
                        assert(s1[m] == s0[m0]);
                        assert(s1[n] == s0[n0]);
                    }
                }
            },
            None => {},
        }
    }
}

/// Copies a vector of ids.
fn clone_ids(v: &Vec<u64>) -> (r: Vec<u64>)
    ensures
        r@ == v@,
{
    let mut r: Vec<u64> = Vec::new();
    let n = v.len();
    let mut i: usize = 0;
    while i < n
        invariant
            n == v@.len(),
            i <= n,
            r@ == v@.take(i as int),
        decreases n - i,
    {
        r.push(v[i]);
        proof {
            assert(v@.take(i + 1 as int) =~= v@.take(i as int).push(v@[i as int]));
        }
        i += 1;
    }
    proof {
        assert(v@.take(n as int) =~= v@);
    }
    r
}

/// Copies a vector of ids, dropping every occurrence of `id` and keeping the
/// remaining entries in order.
fn filter_ids(v: &Vec<u64>, id: u64) -> (r: Vec<u64>)
    ensures
        r@ == v@.filter(ne(id)),
{
    let mut r: Vec<u64> = Vec::new();
    let n = v.len();
    let mut i: usize = 0;
    proof {
        reveal_with_fuel(Seq::filter, 1);
        assert(v@.take(0) =~= Seq::<u64>::empty());
        assert(r@ == v@.take(0).filter(ne(id)));
    }
    while i < n
        invariant
            n == v@.len(),
            i <= n,
            r@ == v@.take(i as int).filter(ne(id)),
        decreases n - i,
    {
        let x = v[i];
        if x != id {
            r.push(x);
        }
        proof {
            reveal_with_fuel(Seq::filter, 2);
            let pre = v@.take(i as int);
            let post = v@.take(i + 1 as int);
            assert(post.drop_last() =~= pre);
            assert(post.last() == v@[i as int]);
        }
        i += 1;
    }
    proof {
        assert(v@.take(n as int) =~= v@);
    }
    r
}

} // verus!
