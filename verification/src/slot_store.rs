//! The slot store: values in a dense sequence of slots, addressed by raw
//! index, with the vacant slots on a singly linked free list.

use vstd::prelude::*;

verus! {

/// One cell of the store.
pub enum Slot<V> {
    /// Holds a stored value.
    Occupied(V),
    /// A hole; the field is the next hole on the free list, if there is one.
    Vacant(Option<usize>),
}

/// A dense store of values of one type, addressed by raw index.
///
/// Removing a value leaves a hole; holes are filled again, last freed first,
/// before a new slot is appended.
pub struct SlotStore<V> {
    slots: Vec<Slot<V>>,
    len: usize,
    free_head: Option<usize>,
    chain: Ghost<Seq<usize>>,
}

/// The pairs of raw index and value that `m` holds below index `n`, in
/// ascending order of raw index.
pub open spec fn entries_below<V>(m: Map<usize, V>, n: nat) -> Seq<(usize, V)>
    decreases n,
{
    if n == 0 {
        Seq::empty()
    } else {
        let k = (n - 1) as usize;
        if m.contains_key(k) {
            entries_below(m, (n - 1) as nat).push((k, m[k]))
        } else {
            entries_below(m, (n - 1) as nat)
        }
    }
}

impl<V> View for SlotStore<V> {
    type V = Map<usize, V>;

    /// The occupied slots: raw index to stored value.
    closed spec fn view(&self) -> Map<usize, V> {
        Map::new(
            |k: usize| k < self.slots@.len() && self.slots@[k as int] is Occupied,
            |k: usize| self.slots@[k as int]->Occupied_0,
        )
    }
}

impl<V> SlotStore<V> {
    /// The number of slots, occupied and vacant together.
    pub closed spec fn slot_count(&self) -> nat {
        self.slots@.len()
    }

    /// The vacant slots in the order in which insertions will fill them.
    pub closed spec fn free_chain(&self) -> Seq<usize> {
        self.chain@
    }

    /// The fields agree with the model: `len` counts the occupied slots, and
    /// the links stored in the vacant slots spell out `free_chain`.
    pub closed spec fn linked(&self) -> bool {
        &&& self.len == self@.len()
        &&& self.free_head == (if self.chain@.len() > 0 {
            Some(self.chain@[0])
        } else {
            None
        })
        &&& forall|i: int|
            0 <= i < self.chain@.len() ==> (#[trigger] self.chain@[i]) < self.slots@.len()
                && self.slots@[self.chain@[i] as int] == Slot::<V>::Vacant(
                if i + 1 < self.chain@.len() {
                    Some(self.chain@[i + 1])
                } else {
                    None
                },
            )
    }

    /// The store's invariant: the free list visits every vacant slot exactly
    /// once and no occupied one, and occupied and vacant slots together make
    /// up the whole sequence.
    pub open spec fn wf(&self) -> bool {
        &&& self@.dom().finite()
        &&& self.slot_count() <= usize::MAX
        &&& self.free_chain().no_duplicates()
        &&& forall|i: int|
            0 <= i < self.free_chain().len() ==> (#[trigger] self.free_chain()[i])
                < self.slot_count() && !self@.contains_key(self.free_chain()[i])
        &&& forall|k: usize| #[trigger]
            self@.contains_key(k) ==> k < self.slot_count()
        &&& forall|k: usize|
            k < self.slot_count() ==> #[trigger] self@.contains_key(k)
                || self.free_chain().contains(k)
        &&& self@.len() + self.free_chain().len() == self.slot_count()
        &&& self.linked()
    }

    /// The raw index that the next insertion will use: the head of the free
    /// list, or the end of the sequence where no slot is vacant.
    pub open spec fn next_index(&self) -> usize {
        if self.free_chain().len() > 0 {
            self.free_chain()[0]
        } else {
            self.slot_count() as usize
        }
    }

    /// `post` is this store after a value was inserted and given slot `idx`:
    /// the slot is the head of the free list, which then loses it, or, with
    /// no slot vacant, a new one at the end.
    pub open spec fn inserted(&self, post: Self, idx: usize, value: V) -> bool {
        &&& idx == self.next_index()
        &&& post@ == self@.insert(idx, value)
        &&& post.free_chain() == (if self.free_chain().len() > 0 {
            self.free_chain().drop_first()
        } else {
            self.free_chain()
        })
        &&& post.slot_count() == (if self.free_chain().len() > 0 {
            self.slot_count()
        } else {
            self.slot_count() + 1
        })
    }

    /// `post` is this store after a removal at `idx`: an occupied slot is
    /// emptied and becomes the head of the free list; at a vacant slot or
    /// past the end nothing changes.
    pub open spec fn removed(&self, post: Self, idx: usize) -> bool {
        &&& post.slot_count() == self.slot_count()
        &&& post@ == self@.remove(idx)
        &&& post.free_chain() == (if self@.contains_key(idx) {
            seq![idx] + self.free_chain()
        } else {
            self.free_chain()
        })
    }

    /// What a lookup at `idx` gives: the value of an occupied slot.
    pub open spec fn lookup(&self, idx: usize) -> Option<V> {
        if self@.contains_key(idx) {
            Some(self@[idx])
        } else {
            None
        }
    }

    /// Every stored value with its raw index, in ascending order of raw index.
    pub open spec fn entries(&self) -> Seq<(usize, V)> {
        entries_below(self@, self.slot_count())
    }

    /// Construct an empty store. Nothing is allocated before the first insert.
    pub fn new() -> (s: Self)
        ensures
            s.wf(),
            s@ == Map::<usize, V>::empty(),
            s.slot_count() == 0,
            s.free_chain() == Seq::<usize>::empty(),
    {
        let s = SlotStore { slots: Vec::new(), len: 0, free_head: None, chain: Ghost(Seq::empty()) };
        proof {
            assert(s@ =~= Map::<usize, V>::empty());
        }
        s
    }

    /// Return the number of stored values.
    pub fn len(&self) -> (n: usize)
        requires
            self.wf(),
        ensures
            n == self@.len(),
    {
        self.len
    }

    /// Return true if there are no values stored.
    pub fn is_empty(&self) -> (b: bool)
        requires
            self.wf(),
        ensures
            b == (self@.len() == 0),
            b == (self@ == Map::<usize, V>::empty()),
    {
        proof {
            if self@.len() == 0 {
                assert(self@.dom() =~= Set::<usize>::empty());
                assert(self@ =~= Map::<usize, V>::empty());
            }
        }
        self.len == 0
    }

    /// Return true if a value is stored at the given raw index.
    pub fn contains(&self, idx: usize) -> (b: bool)
        ensures
            b == self@.contains_key(idx),
    {
        if idx < self.slots.len() {
            match &self.slots[idx] {
                Slot::Occupied(_) => true,
                Slot::Vacant(_) => false,
            }
        } else {
            false
        }
    }

    /// Return a reference to the value stored at the given raw index, or
    /// `None` where the index is out of range or the slot is vacant.
    pub fn get(&self, idx: usize) -> (r: Option<&V>)
        ensures
            r == (if self@.contains_key(idx) {
                Some(&self@[idx])
            } else {
                None
            }),
    {
        if idx < self.slots.len() {
            match &self.slots[idx] {
                Slot::Occupied(v) => Some(v),
                Slot::Vacant(_) => None,
            }
        } else {
            None
        }
    }

    /// Store a value and return the raw index of its slot: the head of the
    /// free list where a slot is vacant, else a new slot at the end.
    pub fn insert(&mut self, value: V) -> (idx: usize)
        requires
            old(self).wf(),
        ensures
            final(self).wf(),
            old(self).inserted(*final(self), idx, value),
            !old(self)@.contains_key(idx),
            final(self)@.len() == old(self)@.len() + 1,
    {
        let ghost before = *self;
        match self.free_head {
            Some(idx) => {
                assert(self.chain@[0] == idx);
                let next = match &self.slots[idx] {
                    Slot::Vacant(n) => *n,
                    Slot::Occupied(_) => None,
                };
                self.slots[idx] = Slot::Occupied(value);
                self.free_head = next;
                assert(before.len + before.chain@.len() == before.slots@.len());
                assert(self.slots@.len() == self.slots.len());
                self.len = self.len + 1;
                self.chain = Ghost(before.chain@.drop_first());
                proof {
                    assert(self@ =~= before@.insert(idx, value));
                    assert forall|i: int| 0 <= i < self.chain@.len() implies (
                    #[trigger] self.chain@[i]) != idx by {
                        assert(self.chain@[i] == before.chain@[i + 1]);
                    }
                    assert forall|k: usize| k < self.slot_count() implies #[trigger]
                        self@.contains_key(k) || self.free_chain().contains(k) by {
                        if k != idx && !before@.contains_key(k) {
                            let j = choose|j: int|
                                0 <= j < before.chain@.len() && before.chain@[j] == k;
                            assert(self.chain@[j - 1] == k);
                        }
                    }
                    assert forall|i: int| 0 <= i < self.chain@.len() implies (
                    #[trigger] self.chain@[i]) < self.slots@.len() && self.slots@[self.chain@[i] as int]
                        == Slot::<V>::Vacant(
                        if i + 1 < self.chain@.len() {
                            Some(self.chain@[i + 1])
                        } else {
                            None
                        },
                    ) by {
                        assert(self.chain@[i] == before.chain@[i + 1]);
                    }
                }
                idx
            },
            None => {
                let idx = self.slots.len();
                self.slots.push(Slot::Occupied(value));
                assert(before.len + before.chain@.len() == before.slots@.len());
                assert(self.slots@.len() == self.slots.len());
                self.len = self.len + 1;
                proof {
                    assert(self@ =~= before@.insert(idx, value));
                }
                idx
            },
        }
    }

    /// Take the value out of the slot at the given raw index and put the slot
    /// at the head of the free list. Returns `None`, and changes nothing,
    /// where the index is out of range or the slot is vacant.
    pub fn remove(&mut self, idx: usize) -> (r: Option<V>)
        requires
            old(self).wf(),
        ensures
            final(self).wf(),
            old(self).removed(*final(self), idx),
            r == (if old(self)@.contains_key(idx) {
                Some(old(self)@[idx])
            } else {
                None
            }),
            final(self)@.len() == old(self)@.len() - (if old(self)@.contains_key(idx) {
                1int
            } else {
                0int
            }),
    {
        if !self.contains(idx) {
            proof {
                assert(self@.remove(idx) =~= self@);
            }
            return None;
        }
        let ghost before = *self;
        let mut taken = Slot::Vacant(self.free_head);
        std::mem::swap(&mut self.slots[idx], &mut taken);
        self.free_head = Some(idx);
        self.len = self.len - 1;
        self.chain = Ghost(seq![idx] + before.chain@);
        proof {
            assert(self@ =~= before@.remove(idx));
            assert forall|i: int| 0 <= i < self.chain@.len() implies (#[trigger] self.chain@[i])
                < self.slots@.len() && self.slots@[self.chain@[i] as int] == Slot::<V>::Vacant(
                if i + 1 < self.chain@.len() {
                    Some(self.chain@[i + 1])
                } else {
                    None
                },
            ) by {
                if i > 0 {
                    assert(self.chain@[i] == before.chain@[i - 1]);
                }
            }
            assert forall|k: usize| k < self.slot_count() implies #[trigger] self@.contains_key(k)
                || self.free_chain().contains(k) by {
                if k == idx {
                    assert(self.chain@[0] == k);
                } else if !before@.contains_key(k) {
                    let j = choose|j: int| 0 <= j < before.chain@.len() && before.chain@[j] == k;
                    assert(self.chain@[j + 1] == k);
                }
            }
        }
        match taken {
            Slot::Occupied(v) => Some(v),
            Slot::Vacant(_) => None,
        }
    }

    /// `b` is this store with the values of some occupied slots replaced.
    spec fn same_shape(&self, b: Self) -> bool {
        &&& b.len == self.len
        &&& b.free_head == self.free_head
        &&& b.chain@ == self.chain@
        &&& b.slots@.len() == self.slots@.len()
        &&& forall|k: int|
            0 <= k < self.slots@.len() ==> (#[trigger] b.slots@[k]) == self.slots@[k] || (
            b.slots@[k] is Occupied && self.slots@[k] is Occupied)
    }

    /// Replacing the values of occupied slots keeps the invariant.
    proof fn lemma_same_shape_wf(&self, b: Self)
        requires
            self.wf(),
            self.same_shape(b),
        ensures
            b.wf(),
            b@.dom() == self@.dom(),
            b.slot_count() == self.slot_count(),
            b.free_chain() == self.free_chain(),
    {
        assert(b@.dom() =~= self@.dom());
    }

    /// Return a mutable reference to the value stored at the given raw index,
    /// or `None` where the index is out of range or the slot is vacant. What
    /// the caller writes through the reference becomes the slot's value;
    /// nothing else changes.
    pub fn get_mut(&mut self, idx: usize) -> (r: Option<&mut V>)
        requires
            old(self).wf(),
        ensures
            final(self).wf(),
            final(self).slot_count() == old(self).slot_count(),
            final(self).free_chain() == old(self).free_chain(),
            match r {
                Some(v) => old(self)@.contains_key(idx) && *v == old(self)@[idx] && final(self)@
                    == old(self)@.insert(idx, *final(v)),
                None => !old(self)@.contains_key(idx) && final(self)@ == old(self)@,
            },
    {
        proof {
            assert forall|b: Self| old(self).same_shape(b) implies #[trigger] b.wf() by {
                old(self).lemma_same_shape_wf(b);
            }
        }
        if idx < self.slots.len() {
            match &mut self.slots[idx] {
                Slot::Occupied(v) => {
                    Some(v)
                },
                Slot::Vacant(_) => None,
            }
        } else {
            None
        }
    }

    /// Return every stored value with its raw index, in ascending order of
    /// raw index.
    pub fn iter(&self) -> (r: Vec<(usize, &V)>)
        ensures
            r@.len() == self.entries().len(),
            forall|j: int|
                0 <= j < r@.len() ==> (#[trigger] r@[j]).0 == self.entries()[j].0 && *r@[j].1
                    == self.entries()[j].1,
    {
        let mut out: Vec<(usize, &V)> = Vec::new();
        let mut i: usize = 0;
        while i < self.slots.len()
            invariant
                i <= self.slots@.len(),
                out@.len() == entries_below(self@, i as nat).len(),
                forall|j: int|
                    0 <= j < out@.len() ==> (#[trigger] out@[j]).0 == entries_below(
                        self@,
                        i as nat,
                    )[j].0 && *out@[j].1 == entries_below(self@, i as nat)[j].1,
            decreases self.slots@.len() - i,
        {
            match &self.slots[i] {
                Slot::Occupied(v) => {
                    out.push((i, v));
                },
                Slot::Vacant(_) => {},
            }
            i = i + 1;
        }
        out
    }

    /// Return a reference to every stored value, in ascending order of raw
    /// index.
    pub fn values(&self) -> (r: Vec<&V>)
        ensures
            r@.len() == self.entries().len(),
            forall|j: int| 0 <= j < r@.len() ==> *(#[trigger] r@[j]) == self.entries()[j].1,
    {
        let mut out: Vec<&V> = Vec::new();
        let mut i: usize = 0;
        while i < self.slots.len()
            invariant
                i <= self.slots@.len(),
                out@.len() == entries_below(self@, i as nat).len(),
                forall|j: int|
                    0 <= j < out@.len() ==> *(#[trigger] out@[j]) == entries_below(
                        self@,
                        i as nat,
                    )[j].1,
            decreases self.slots@.len() - i,
        {
            match &self.slots[i] {
                Slot::Occupied(v) => {
                    out.push(v);
                },
                Slot::Vacant(_) => {},
            }
            i = i + 1;
        }
        out
    }

    /// Take every stored value out, in ascending order of raw index, and
    /// leave the store as empty as a new one, with its allocation kept: a
    /// drain carried on to the end. A drain that may stop early goes step
    /// by step, with `drain_next` and `drain_next_back`.
    pub fn drain(&mut self) -> (r: Vec<V>)
        ensures
            final(self).wf(),
            final(self)@ == Map::<usize, V>::empty(),
            final(self).slot_count() == 0,
            final(self).free_chain() == Seq::<usize>::empty(),
            r@.len() == old(self).entries().len(),
            forall|j: int| 0 <= j < r@.len() ==> (#[trigger] r@[j]) == old(self).entries()[j].1,
    {
        let ghost before = *self;
        let mut out: Vec<V> = Vec::new();
        let mut i: usize = 0;
        while i < self.slots.len()
            invariant
                self.slots@.len() == before.slots@.len(),
                i <= self.slots@.len(),
                forall|k: int| i <= k < self.slots@.len() ==> self.slots@[k] == before.slots@[k],
                out@.len() == entries_below(before@, i as nat).len(),
                forall|j: int|
                    0 <= j < out@.len() ==> (#[trigger] out@[j]) == entries_below(
                        before@,
                        i as nat,
                    )[j].1,
            decreases self.slots@.len() - i,
        {
            let mut taken = Slot::Vacant(None);
            std::mem::swap(&mut self.slots[i], &mut taken);
            match taken {
                Slot::Occupied(v) => {
                    out.push(v);
                },
                Slot::Vacant(_) => {},
            }
            i = i + 1;
        }
        self.slots.clear();
        self.len = 0;
        self.free_head = None;
        self.chain = Ghost(Seq::empty());
        proof {
            assert(self@ =~= Map::<usize, V>::empty());
        }
        out
    }

    /// Store a value as `insert` does, and return with the raw index a
    /// mutable reference to the stored value. What the caller writes through
    /// the reference becomes the slot's value.
    pub fn insert_entry(&mut self, value: V) -> (r: (usize, &mut V))
        requires
            old(self).wf(),
        ensures
            final(self).wf(),
            *r.1 == value,
            old(self).inserted(*final(self), r.0, *final(r.1)),
            !old(self)@.contains_key(r.0),
            final(self)@.len() == old(self)@.len() + 1,
    {
        let idx = self.insert(value);
        proof {
            let mid = self@;
            assert forall|x: V| #[trigger] mid.insert(idx, x) == old(self)@.insert(idx, x) by {
                assert(mid.insert(idx, x) =~= old(self)@.insert(idx, x));
            }
            assert forall|x: V| (#[trigger] mid.insert(idx, x)).len() == mid.len() by {
                assert(mid.insert(idx, x).dom() =~= mid.dom());
            }
        }
        match self.get_mut(idx) {
            Some(v) => (idx, v),
            None => unreached(),
        }
    }

    /// Return every stored value with its raw index, in ascending order of
    /// raw index, each value behind a mutable reference. What the caller
    /// writes through a reference becomes that slot's value; nothing else
    /// changes.
    pub fn iter_mut(&mut self) -> (r: Vec<(usize, &mut V)>)
        requires
            old(self).wf(),
        ensures
            final(self).wf(),
            final(self).slot_count() == old(self).slot_count(),
            final(self).free_chain() == old(self).free_chain(),
            final(self)@.dom() == old(self)@.dom(),
            r@.len() == old(self).entries().len(),
            forall|j: int|
                0 <= j < r@.len() ==> (#[trigger] r@[j]).0 == old(self).entries()[j].0
                    && *r@[j].1 == old(self).entries()[j].1
                    && final(self)@[r@[j].0] == *final(r@[j].1),
    {
        let ghost before = *self;
        proof {
            assert forall|b: Self| before.same_shape(b) implies #[trigger] b.wf() && b@.dom()
                == before@.dom() && b.slot_count() == before.slot_count() && b.free_chain()
                == before.free_chain() by {
                before.lemma_same_shape_wf(b);
            }
        }
        let slice: &mut [Slot<V>] = self.slots.as_mut_slice();
        let ghost start: Seq<Slot<V>> = slice@;
        let ghost whole: Seq<Slot<V>> = final(slice)@;
        let mut rest: &mut [Slot<V>] = slice;
        let mut out: Vec<(usize, &mut V)> = Vec::new();
        let mut i: usize = 0;
        while rest.len() > 0
            invariant
                start == before.slots@,
                i + rest@.len() == start.len(),
                rest@ == start.subrange(i as int, start.len() as int),
                before.wf(),
                whole.len() == i + final(rest)@.len(),
                whole.subrange(i as int, whole.len() as int) == final(rest)@,
                forall|k: int|
                    0 <= k < i ==> (#[trigger] whole[k]) == start[k] || (whole[k] is Occupied
                        && start[k] is Occupied),
                out@.len() == entries_below(before@, i as nat).len(),
                forall|j: int|
                    0 <= j < out@.len() ==> (#[trigger] out@[j]).0 == entries_below(
                        before@,
                        i as nat,
                    )[j].0 && *out@[j].1 == entries_below(before@, i as nat)[j].1 && out@[j].0 < i
                        && whole[out@[j].0 as int] == Slot::Occupied(*final(out@[j].1)),
            decreases rest@.len(),
        {
            let ghost rest_final = final(rest)@;
            let ghost rest_now = rest@;
            let ghost out_before = out@;
            let (head, tail) = rest.split_at_mut(1);
            let ghost head_final = final(head)@;
            rest = tail;
            proof {
                assert(head@ =~= seq![rest_now[0]]);
                assert(rest_now[0] == start[i as int]);
                assert(before@.contains_key(i) == (start[i as int] is Occupied));
            }
            match head.first_mut() {
                Some(Slot::Occupied(v)) => {
                    out.push((i, v));
                },
                _ => {},
            }
            proof {
                assert(head_final.len() == 1);
                assert(rest_final == head_final + final(rest)@);
                assert(whole[i as int] == rest_final[0]);
                let tail_final = final(rest)@;
                assert(whole.len() == i + 1 + tail_final.len());
                assert forall|k: int| 0 <= k < tail_final.len() implies whole[i + 1 + k]
                    == tail_final[k] by {
                    assert(whole.subrange(i as int, whole.len() as int)[k + 1] == rest_final[k + 1]);
                    assert(rest_final[k + 1] == tail_final[k]);
                }
                assert(whole.subrange(i + 1, whole.len() as int) =~= tail_final);
                assert forall|j: int| 0 <= j < out_before.len() implies out@[j] == out_before[j] by {}
            }
            i = i + 1;
        }
        out
    }

    /// Forget every slot of a store that holds no value, so that the store
    /// is as a new one, with its allocation kept.
    fn reset_if_empty(&mut self)
        requires
            old(self).wf(),
        ensures
            final(self).wf(),
            final(self)@ == old(self)@,
            old(self)@.len() == 0 ==> final(self).slot_count() == 0 && final(self).free_chain()
                == Seq::<usize>::empty(),
            old(self)@.len() != 0 ==> *final(self) == *old(self),
    {
        if self.len == 0 {
            proof {
                assert(self@.dom() =~= Set::<usize>::empty());
            }
            self.slots.clear();
            self.free_head = None;
            self.chain = Ghost(Seq::empty());
            proof {
                assert(self@ =~= old(self)@);
            }
        }
    }

    /// One step of a drain from the front: take out the first stored value
    /// at or after raw index `from`, as `remove` does, and return it with
    /// its raw index. Where no value is stored there, nothing is taken; a
    /// store that then holds no value at all forgets its slots.
    ///
    /// A drain that is stopped early has removed the values it produced and
    /// no others.
    pub fn drain_next(&mut self, from: usize) -> (r: Option<(usize, V)>)
        requires
            old(self).wf(),
        ensures
            final(self).wf(),
            match r {
                Some((i, v)) => from <= i && old(self)@.contains_key(i) && v == old(self)@[i]
                    && (forall|k: usize| from <= k < i ==> !old(self)@.contains_key(k))
                    && old(self).removed(*final(self), i)
                    && final(self)@.len() == old(self)@.len() - 1,
                None => (forall|k: usize| from <= k ==> !old(self)@.contains_key(k))
                    && final(self)@ == old(self)@
                    && (old(self)@.len() == 0 ==> final(self).slot_count() == 0
                        && final(self).free_chain() == Seq::<usize>::empty()),
            },
    {
        let n = self.slots.len();
        let mut i: usize = from;
        while i < n && !self.contains(i)
            invariant
                from <= i,
                n == self.slots@.len(),
                forall|k: usize| from <= k < i ==> !self@.contains_key(k),
            decreases n - i,
        {
            i = i + 1;
        }
        if i < n {
            let v = self.remove(i).unwrap();
            Some((i, v))
        } else {
            self.reset_if_empty();
            None
        }
    }

    /// One step of a drain from the back: take out the last stored value
    /// below raw index `before`, as `remove` does, and return it with its
    /// raw index. Where no value is stored there, nothing is taken; a store
    /// that then holds no value at all forgets its slots.
    pub fn drain_next_back(&mut self, before: usize) -> (r: Option<(usize, V)>)
        requires
            old(self).wf(),
        ensures
            final(self).wf(),
            match r {
                Some((i, v)) => i < before && old(self)@.contains_key(i) && v == old(self)@[i]
                    && (forall|k: usize| i < k < before ==> !old(self)@.contains_key(k))
                    && old(self).removed(*final(self), i)
                    && final(self)@.len() == old(self)@.len() - 1,
                None => (forall|k: usize| k < before ==> !old(self)@.contains_key(k))
                    && final(self)@ == old(self)@
                    && (old(self)@.len() == 0 ==> final(self).slot_count() == 0
                        && final(self).free_chain() == Seq::<usize>::empty()),
            },
    {
        let n = self.slots.len();
        let mut i: usize = if before < n {
            before
        } else {
            n
        };
        while i > 0 && !self.contains(i - 1)
            invariant
                i <= n,
                i <= before,
                n == self.slots@.len(),
                forall|k: usize| i <= k < before ==> !self@.contains_key(k),
            decreases i,
        {
            i = i - 1;
        }
        if i > 0 {
            let idx: usize = i - 1;
            let v = self.remove(idx).unwrap();
            Some((idx, v))
        } else {
            self.reset_if_empty();
            None
        }
    }
}

} // verus!
