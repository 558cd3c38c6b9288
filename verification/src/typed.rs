//! The typed slab: a slot store behind keys of a caller-chosen type.
//!
//! A key is converted exactly once at the edge of each operation: from the
//! raw index on the way out, into it on the way in. What a conversion gives
//! is up to the key type. Each contract ties key and raw index by the
//! conversion's own contract (`call_ensures`) and, where the key type states
//! its conversions (`obeys_from_spec`, `obeys_into_spec`), by their spec
//! functions.

use vstd::prelude::*;
use vstd::std_specs::convert::{FromSpec, IntoSpec};
use std::marker::PhantomData;
use crate::slot_store::SlotStore;

verus! {

/// `From<T> for T`, std's conversion of a type into itself: it returns its
/// argument unchanged, as std documents it. With this a slab keyed by
/// `usize` itself has its keys equal to the raw indices.
pub assume_specification<T>[ <T as core::convert::From<T>>::from ](t: T) -> (r: T)
    ensures
        r == t,
;

/// Pre-allocated storage for values of one type, addressed by keys that
/// convert from and into `usize`.
pub struct TypedSlab<K, V> {
    store: SlotStore<V>,
    _key: PhantomData<K>,
}

impl<K, V> View for TypedSlab<K, V> {
    type V = Map<usize, V>;

    /// The occupied slots: raw index to stored value.
    open spec fn view(&self) -> Map<usize, V> {
        self.store()@
    }
}

impl<K, V> TypedSlab<K, V> {
    /// The slot store behind the keys.
    pub closed spec fn store(&self) -> SlotStore<V> {
        self.store
    }

    /// The invariant of the slot store.
    pub open spec fn wf(&self) -> bool {
        self.store().wf()
    }
}

impl<K, V> Default for TypedSlab<K, V> {
    fn default() -> (s: Self)
        ensures
            s.wf(),
            s@ == Map::<usize, V>::empty(),
            s.store().slot_count() == 0,
            s.store().free_chain() == Seq::<usize>::empty(),
    {
        TypedSlab { store: SlotStore::new(), _key: PhantomData }
    }
}

impl<K, V> TypedSlab<K, V> where K: From<usize> + Into<usize> {
    /// Construct a new, empty `TypedSlab`.
    pub fn new() -> (s: Self)
        ensures
            s.wf(),
            s@ == Map::<usize, V>::empty(),
            s.store().slot_count() == 0,
            s.store().free_chain() == Seq::<usize>::empty(),
    {
        TypedSlab { store: SlotStore::new(), _key: PhantomData }
    }

    /// Insert a value in the slab, returning key assigned to the value: the
    /// key made from the raw index of the slot that the value was given.
    pub fn insert(&mut self, value: V) -> (key: K)
        requires
            old(self).wf(),
        ensures
            final(self).wf(),
            old(self).store().inserted(final(self).store(), old(self).store().next_index(), value),
            !old(self)@.contains_key(old(self).store().next_index()),
            final(self)@.len() == old(self)@.len() + 1,
            call_ensures(K::from, (old(self).store().next_index(),), key),
            K::obeys_from_spec() ==> key == K::from_spec(old(self).store().next_index()),
    {
        let idx = self.store.insert(value);
        K::from(idx)
    }

    /// Insert a value in the slab, returning key assigned and a reference
    /// to the stored value.
    pub fn insert_entry(&mut self, value: V) -> (r: (K, &mut V))
        requires
            old(self).wf(),
        ensures
            final(self).wf(),
            *r.1 == value,
            old(self).store().inserted(
                final(self).store(),
                old(self).store().next_index(),
                *final(r.1),
            ),
            !old(self)@.contains_key(old(self).store().next_index()),
            final(self)@.len() == old(self)@.len() + 1,
            call_ensures(K::from, (old(self).store().next_index(),), r.0),
            K::obeys_from_spec() ==> r.0 == K::from_spec(old(self).store().next_index()),
    {
        let (idx, value_mut) = self.store.insert_entry(value);
        (K::from(idx), value_mut)
    }

    /// Remove and return the value associated with the given key.
    /// The key is then released and may be associated with future stored
    /// values. A key that is not associated with a value gives `None` and
    /// changes nothing.
    pub fn remove(&mut self, key: K) -> (r: Option<V>)
        requires
            old(self).wf(),
        ensures
            final(self).wf(),
            r.is_none() ==> final(self)@ == old(self)@,
            r.is_none() ==> final(self).store().free_chain() == old(self).store().free_chain(),
            exists|idx: usize|
                call_ensures(<K as Into<usize>>::into, (key,), idx)
                    && #[trigger] old(self).store().removed(final(self).store(), idx)
                    && r == old(self).store().lookup(idx),
            final(self).store().slot_count() == old(self).store().slot_count(),
            final(self)@.len() == old(self)@.len() - (if r.is_some() {
                1int
            } else {
                0int
            }),
            K::obeys_into_spec() ==> old(self).store().removed(
                final(self).store(),
                key.into_spec(),
            ) && r == old(self).store().lookup(key.into_spec()),
    {
        let idx: usize = key.into();
        let r = self.store.remove(idx);
        proof {
            assert(old(self).store().removed(self.store(), idx));
            if r.is_none() {
                assert(old(self)@.remove(idx) =~= old(self)@);
            }
        }
        r
    }

    /// Return a reference to the value associated with the given key.
    /// If the given key is not associated with a value, then `None` is returned.
    pub fn get(&self, key: K) -> (r: Option<&V>)
        ensures
            K::obeys_into_spec() ==> r == (if self@.contains_key(key.into_spec()) {
                Some(&self@[key.into_spec()])
            } else {
                None
            }),
            exists|idx: usize|
                call_ensures(<K as Into<usize>>::into, (key,), idx) && (
                #[trigger] self.store().lookup(idx)) == (match r {
                    Some(v) => Some(*v),
                    None => None,
                }),
    {
        let idx: usize = key.into();
        let r = self.store.get(idx);
        proof {
            assert(self.store().lookup(idx) == (match r {
                Some(v) => Some(*v),
                None => None,
            }));
        }
        r
    }

    /// Return a mutable reference to the value associated with the given key.
    /// If the given key is not associated with a value, then `None` is returned.
    pub fn get_mut(&mut self, key: K) -> (r: Option<&mut V>)
        requires
            old(self).wf(),
        ensures
            final(self).wf(),
            final(self).store().slot_count() == old(self).store().slot_count(),
            final(self).store().free_chain() == old(self).store().free_chain(),
            final(self)@.dom() == old(self)@.dom(),
            r.is_none() ==> final(self)@ == old(self)@,
            exists|idx: usize|
                call_ensures(<K as Into<usize>>::into, (key,), idx) && (
                #[trigger] old(self).store().lookup(idx)) == (match r {
                    Some(v) => Some(*v),
                    None => None,
                }) && (r matches Some(v) ==> final(self)@ == old(self)@.insert(idx, *final(v))),
            K::obeys_into_spec() ==> match r {
                Some(v) => old(self)@.contains_key(key.into_spec())
                    && *v == old(self)@[key.into_spec()]
                    && final(self)@ == old(self)@.insert(key.into_spec(), *final(v)),
                None => !old(self)@.contains_key(key.into_spec()),
            },
    {
        let idx: usize = key.into();
        proof {
            assert(old(self).store().lookup(idx).is_some() == old(self)@.contains_key(idx));
            let m = old(self)@;
            assert forall|x: V| m.contains_key(idx) implies (#[trigger] m.insert(idx, x)).dom()
                == m.dom() by {
                assert(m.insert(idx, x).dom() =~= m.dom());
            }
        }
        self.store.get_mut(idx)
    }

    /// Return true if there are no values stored in the slab.
    pub fn is_empty(&self) -> (b: bool)
        requires
            self.wf(),
        ensures
            b == (self@.len() == 0),
            b == (self@ == Map::<usize, V>::empty()),
    {
        self.store.is_empty()
    }

    /// Return every key with a reference to its value, in ascending order of
    /// raw index.
    pub fn iter(&self) -> (r: Vec<(K, &V)>)
        ensures
            r@.len() == self.store().entries().len(),
            forall|j: int|
                0 <= j < r@.len() ==> *(#[trigger] r@[j]).1 == self.store().entries()[j].1,
            forall|j: int|
                0 <= j < r@.len() ==> call_ensures(
                    K::from,
                    (self.store().entries()[j].0,),
                    (#[trigger] r@[j]).0,
                ),
            K::obeys_from_spec() ==> forall|j: int|
                0 <= j < r@.len() ==> (#[trigger] r@[j]).0 == K::from_spec(
                    self.store().entries()[j].0,
                ),
    {
        let raw = self.store.iter();
        let mut out: Vec<(K, &V)> = Vec::new();
        let mut i: usize = 0;
        while i < raw.len()
            invariant
                i <= raw@.len(),
                out@.len() == i,
                raw@.len() == self.store().entries().len(),
                forall|j: int|
                    0 <= j < raw@.len() ==> (#[trigger] raw@[j]).0 == self.store().entries()[j].0
                        && *raw@[j].1 == self.store().entries()[j].1,
                forall|j: int|
                    0 <= j < out@.len() ==> *(#[trigger] out@[j]).1 == self.store().entries()[j].1,
                forall|j: int|
                    0 <= j < out@.len() ==> call_ensures(
                        K::from,
                        (self.store().entries()[j].0,),
                        (#[trigger] out@[j]).0,
                    ),
                K::obeys_from_spec() ==> forall|j: int|
                    0 <= j < out@.len() ==> (#[trigger] out@[j]).0 == K::from_spec(
                        self.store().entries()[j].0,
                    ),
            decreases raw@.len() - i,
        {
            let idx: usize = raw[i].0;
            let v: &V = raw[i].1;
            out.push((K::from(idx), v));
            i = i + 1;
        }
        out
    }

    /// Return every key with a mutable reference to its value, in ascending
    /// order of raw index. What the caller writes through a reference becomes
    /// that slot's value; nothing else changes.
    pub fn iter_mut(&mut self) -> (r: Vec<(K, &mut V)>)
        requires
            old(self).wf(),
        ensures
            final(self).wf(),
            final(self).store().slot_count() == old(self).store().slot_count(),
            final(self).store().free_chain() == old(self).store().free_chain(),
            final(self)@.dom() == old(self)@.dom(),
            r@.len() == old(self).store().entries().len(),
            forall|j: int|
                0 <= j < r@.len() ==> *(#[trigger] r@[j]).1 == old(self).store().entries()[j].1
                    && final(self)@[old(self).store().entries()[j].0] == *final(r@[j].1),
            forall|j: int|
                0 <= j < r@.len() ==> call_ensures(
                    K::from,
                    (old(self).store().entries()[j].0,),
                    (#[trigger] r@[j]).0,
                ),
            K::obeys_from_spec() ==> forall|j: int|
                0 <= j < r@.len() ==> (#[trigger] r@[j]).0 == K::from_spec(
                    old(self).store().entries()[j].0,
                ),
    {
        let mut raw = self.store.iter_mut();
        let ghost raw0 = raw@;
        let ghost n = raw0.len() as int;
        let mut turned: Vec<(K, &mut V)> = Vec::new();
        while raw.len() > 0
            invariant
                n == raw0.len(),
                raw@.len() + turned@.len() == n,
                forall|j: int| 0 <= j < raw@.len() ==> raw@[j] == raw0[j],
                forall|j: int|
                    0 <= j < turned@.len() ==> *(#[trigger] turned@[j]).1 == *raw0[n - 1 - j].1,
                forall|j: int|
                    0 <= j < turned@.len() ==> *final((#[trigger] turned@[j]).1)
                        == *final(raw0[n - 1 - j].1),
                forall|j: int|
                    0 <= j < turned@.len() ==> call_ensures(
                        K::from,
                        (raw0[n - 1 - j].0,),
                        (#[trigger] turned@[j]).0,
                    ),
                K::obeys_from_spec() ==> forall|j: int|
                    0 <= j < turned@.len() ==> (#[trigger] turned@[j]).0 == K::from_spec(
                        raw0[n - 1 - j].0,
                    ),
            decreases raw@.len(),
        {
            let (idx, v) = raw.pop().unwrap();
            turned.push((K::from(idx), v));
        }
        let ghost turned0 = turned@;
        let mut out: Vec<(K, &mut V)> = Vec::new();
        while turned.len() > 0
            invariant
                n == turned0.len(),
                turned@.len() + out@.len() == n,
                forall|j: int| 0 <= j < turned@.len() ==> turned@[j] == turned0[j],
                forall|j: int| 0 <= j < out@.len() ==> (#[trigger] out@[j]) == turned0[n - 1 - j],
            decreases turned@.len(),
        {
            let pair = turned.pop().unwrap();
            out.push(pair);
        }
        out
    }

    /// One step of a drain from the front: remove the first stored value at
    /// or after raw index `from` and return it with its raw index. A drain
    /// that is stopped early has removed the values it produced and no
    /// others; one that is carried on until nothing is left leaves the slab
    /// as a new one.
    pub fn drain_next(&mut self, from: usize) -> (r: Option<(usize, V)>)
        requires
            old(self).wf(),
        ensures
            final(self).wf(),
            match r {
                Some((i, v)) => from <= i && old(self)@.contains_key(i) && v == old(self)@[i]
                    && (forall|k: usize| from <= k < i ==> !old(self)@.contains_key(k))
                    && old(self).store().removed(final(self).store(), i)
                    && final(self)@.len() == old(self)@.len() - 1,
                None => (forall|k: usize| from <= k ==> !old(self)@.contains_key(k))
                    && final(self)@ == old(self)@
                    && (old(self)@.len() == 0 ==> final(self).store().slot_count() == 0
                        && final(self).store().free_chain() == Seq::<usize>::empty()),
            },
    {
        self.store.drain_next(from)
    }

    /// One step of a drain from the back: remove the last stored value below
    /// raw index `before` and return it with its raw index.
    pub fn drain_next_back(&mut self, before: usize) -> (r: Option<(usize, V)>)
        requires
            old(self).wf(),
        ensures
            final(self).wf(),
            match r {
                Some((i, v)) => i < before && old(self)@.contains_key(i) && v == old(self)@[i]
                    && (forall|k: usize| i < k < before ==> !old(self)@.contains_key(k))
                    && old(self).store().removed(final(self).store(), i)
                    && final(self)@.len() == old(self)@.len() - 1,
                None => (forall|k: usize| k < before ==> !old(self)@.contains_key(k))
                    && final(self)@ == old(self)@
                    && (old(self)@.len() == 0 ==> final(self).store().slot_count() == 0
                        && final(self).store().free_chain() == Seq::<usize>::empty()),
            },
    {
        self.store.drain_next_back(before)
    }

    /// Return a reference to every stored value, in ascending order of raw
    /// index.
    pub fn values(&self) -> (r: Vec<&V>)
        ensures
            r@.len() == self.store().entries().len(),
            forall|j: int| 0 <= j < r@.len() ==> *(#[trigger] r@[j]) == self.store().entries()[j].1,
    {
        self.store.values()
    }

    /// Remove all values from the slab and return them, in ascending order
    /// of raw index: a drain carried on to the end. The slab is then as
    /// empty as a new one. A drain that may stop early goes step by step,
    /// with `drain_next` and `drain_next_back`.
    pub fn drain(&mut self) -> (r: Vec<V>)
        ensures
            final(self).wf(),
            final(self)@ == Map::<usize, V>::empty(),
            final(self).store().slot_count() == 0,
            final(self).store().free_chain() == Seq::<usize>::empty(),
            r@.len() == old(self).store().entries().len(),
            forall|j: int|
                0 <= j < r@.len() ==> (#[trigger] r@[j]) == old(self).store().entries()[j].1,
    {
        self.store.drain()
    }

    /// Return a number of stored values.
    pub fn len(&self) -> (n: usize)
        requires
            self.wf(),
        ensures
            n == self@.len(),
    {
        self.store.len()
    }
}

} // verus!
