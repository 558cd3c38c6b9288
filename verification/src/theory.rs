//! What holds of the slot store across operations, proved from the
//! relations in which the operations' contracts are stated.

use vstd::prelude::*;
use vstd::std_specs::convert::{FromSpec, IntoSpec};
use crate::slot_store::{entries_below, SlotStore};

verus! {

/// The listing of a map below index `n` holds exactly the pairs of the map
/// with a raw index below `n`, each with the value that the map gives it,
/// in strictly ascending order of raw index.
pub proof fn lemma_entries_below<V>(m: Map<usize, V>, n: nat)
    requires
        n <= usize::MAX + 1,
    ensures
        forall|j: int|
            0 <= j < entries_below(m, n).len() ==> {
                let e = #[trigger] entries_below(m, n)[j];
                e.0 < n && m.contains_key(e.0) && e.1 == m[e.0]
            },
        forall|i: int, j: int|
            0 <= i < j < entries_below(m, n).len() ==> (#[trigger] entries_below(m, n)[i]).0 < (
            #[trigger] entries_below(m, n)[j]).0,
        forall|k: usize|
            k < n && #[trigger] m.contains_key(k) ==> exists|j: int|
                0 <= j < entries_below(m, n).len() && (#[trigger] entries_below(m, n)[j]).0 == k,
    decreases n,
{
    if n > 0 {
        lemma_entries_below(m, (n - 1) as nat);
        let prev = entries_below(m, (n - 1) as nat);
        let cur = entries_below(m, n);
        let last = (n - 1) as usize;
        assert forall|k: usize| k < n && #[trigger] m.contains_key(k) implies exists|j: int|
            0 <= j < cur.len() && (#[trigger] cur[j]).0 == k by {
            if k == last {
                assert(cur[cur.len() - 1].0 == k);
            } else {
                let j = choose|j: int| 0 <= j < prev.len() && (#[trigger] prev[j]).0 == k;
                assert(cur[j].0 == k);
            }
        }
    }
}

/// The listing of a finite map below index `n` is as long as the map has
/// raw indices below `n`.
pub proof fn lemma_entries_below_len<V>(m: Map<usize, V>, n: nat)
    requires
        m.dom().finite(),
        n <= usize::MAX + 1,
    ensures
        m.dom().filter(|k: usize| k < n).finite(),
        entries_below(m, n).len() == m.dom().filter(|k: usize| k < n).len(),
    decreases n,
{
    let cur = m.dom().filter(|k: usize| k < n);
    m.dom().lemma_len_filter(|k: usize| k < n);
    if n == 0 {
        assert(cur =~= Set::<usize>::empty());
    } else {
        lemma_entries_below_len(m, (n - 1) as nat);
        let prev = m.dom().filter(|k: usize| k < (n - 1) as nat);
        let last = (n - 1) as usize;
        if m.contains_key(last) {
            assert(cur =~= prev.insert(last));
        } else {
            assert(cur =~= prev);
        }
    }
}

/// Iteration is complete and ordered: the entries of a store are exactly
/// its pairs of raw index and value, each once, in strictly ascending order
/// of raw index, and there are as many of them as the store holds values.
pub proof fn lemma_entries<V>(s: SlotStore<V>)
    requires
        s.wf(),
    ensures
        s.entries().len() == s@.len(),
        forall|j: int|
            0 <= j < s.entries().len() ==> {
                let e = #[trigger] s.entries()[j];
                s@.contains_key(e.0) && e.1 == s@[e.0]
            },
        forall|i: int, j: int|
            0 <= i < j < s.entries().len() ==> (#[trigger] s.entries()[i]).0 < (
            #[trigger] s.entries()[j]).0,
        forall|k: usize| #[trigger]
            s@.contains_key(k) ==> exists|j: int|
                0 <= j < s.entries().len() && (#[trigger] s.entries()[j]).0 == k,
{
    lemma_entries_below(s@, s.slot_count());
    lemma_entries_below_len(s@, s.slot_count());
    assert(s@.dom().filter(|k: usize| k < s.slot_count()) =~= s@.dom());
}

/// The slot that the next insertion takes is vacant.
pub proof fn lemma_next_index_vacant<V>(s: SlotStore<V>)
    requires
        s.wf(),
    ensures
        !s@.contains_key(s.next_index()),
{
    if s.free_chain().len() > 0 {
        assert(!s@.contains_key(s.free_chain()[0]));
    }
}

/// Round trip: a lookup at the raw index that an insertion returned gives
/// the inserted value.
pub proof fn lemma_insert_then_lookup<V>(pre: SlotStore<V>, post: SlotStore<V>, idx: usize, v: V)
    requires
        pre.inserted(post, idx, v),
    ensures
        post.lookup(idx) == Some(v),
{
}

/// Round trip through a key: where the key type gives back the raw index
/// that a key was made from, a lookup with the key that an insertion
/// returned gives the inserted value.
pub proof fn lemma_insert_then_lookup_by_key<K: From<usize> + Into<usize>, V>(
    pre: SlotStore<V>,
    post: SlotStore<V>,
    idx: usize,
    v: V,
)
    requires
        pre.inserted(post, idx, v),
        K::from_spec(idx).into_spec() == idx,
    ensures
        post.lookup(K::from_spec(idx).into_spec()) == Some(v),
{
}

/// Reuse: the insertion that follows a removal takes the slot that the
/// removal freed, and the store has its slots and its free list as before
/// the removal.
pub proof fn lemma_freed_slot_is_reused<V>(
    pre: SlotStore<V>,
    mid: SlotStore<V>,
    post: SlotStore<V>,
    freed: usize,
    idx: usize,
    v: V,
)
    requires
        pre@.contains_key(freed),
        pre.removed(mid, freed),
        mid.inserted(post, idx, v),
    ensures
        idx == freed,
        post.slot_count() == pre.slot_count(),
        post.free_chain() == pre.free_chain(),
        post@ == pre@.insert(freed, v),
{
    assert(mid.free_chain()[0] == freed);
    assert(mid.free_chain().drop_first() =~= pre.free_chain());
    assert(pre@.remove(freed).insert(freed, v) =~= pre@.insert(freed, v));
}

/// Absence: right after a removal a lookup at the same raw index gives
/// nothing, whether or not the removal found a value.
pub proof fn lemma_removed_is_absent<V>(pre: SlotStore<V>, post: SlotStore<V>, idx: usize)
    requires
        pre.removed(post, idx),
    ensures
        post.lookup(idx).is_none(),
        forall|k: usize| k != idx ==> #[trigger] post.lookup(k) == pre.lookup(k),
{
}

/// One operation took the store from `a` to `b` and changed the number of
/// stored values by `delta`: an insertion by 1, a removal that found a
/// value by -1, anything else by 0.
pub open spec fn step<V>(a: SlotStore<V>, b: SlotStore<V>, delta: int) -> bool {
    ||| delta == 1 && exists|idx: usize, v: V| a.inserted(b, idx, v)
    ||| delta == -1 && exists|idx: usize| a@.contains_key(idx) && #[trigger] a.removed(b, idx)
    ||| delta == 0 && b@ == a@
}

/// The sum of a sequence of integers.
pub open spec fn total(deltas: Seq<int>) -> int
    decreases deltas.len(),
{
    if deltas.len() == 0 {
        0
    } else {
        total(deltas.drop_last()) + deltas.last()
    }
}

/// Length: over any run of operations the number of stored values changes
/// by the number of insertions less the number of removals that found a
/// value.
pub proof fn lemma_len_counts_steps<V>(states: Seq<SlotStore<V>>, deltas: Seq<int>)
    requires
        states.len() == deltas.len() + 1,
        forall|i: int| 0 <= i < states.len() ==> (#[trigger] states[i]).wf(),
        forall|i: int|
            0 <= i < deltas.len() ==> step(states[i], states[i + 1], #[trigger] deltas[i]),
    ensures
        states.last()@.len() == states[0]@.len() + total(deltas),
    decreases deltas.len(),
{
    if deltas.len() > 0 {
        let n = deltas.len() - 1;
        lemma_len_counts_steps(states.drop_last(), deltas.drop_last());
        let a = states[n];
        let b = states[n + 1];
        assert(a == states.drop_last().last());
        assert(a.wf());
        assert(step(a, b, deltas[n]));
        if deltas[n] == 1 {
            let (idx, v) = choose|idx: usize, v: V| a.inserted(b, idx, v);
            lemma_next_index_vacant(a);
            assert(b@.dom() =~= a@.dom().insert(idx));
        } else if deltas[n] == -1 {
            let idx = choose|idx: usize| a@.contains_key(idx) && #[trigger] a.removed(b, idx);
            assert(b@.dom() =~= a@.dom().remove(idx));
        }
    }
}

/// A store without slots takes raw index 0 at the next insertion and has no
/// entries: after a drain a store behaves as a new one does.
pub proof fn lemma_store_without_slots<V>(s: SlotStore<V>)
    requires
        s.slot_count() == 0,
        s.free_chain().len() == 0,
    ensures
        s.next_index() == 0,
        s.entries() == Seq::<(usize, V)>::empty(),
{
}

/// Plain keys: for a slab keyed by `usize` itself both conversions are the
/// identity, so every key is the raw index of its slot.
pub proof fn lemma_plain_keys(idx: usize, key: usize)
    ensures
        call_ensures(<usize as From<usize>>::from, (idx,), key) ==> key == idx,
        call_ensures(<usize as Into<usize>>::into, (key,), idx) ==> idx == key,
{
}

} // verus!
