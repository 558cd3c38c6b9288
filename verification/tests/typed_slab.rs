use typed_slab::TypedSlab;

#[derive(Clone, Copy, Debug, PartialEq, Eq)]
struct NodeId(usize);

impl From<usize> for NodeId {
    fn from(idx: usize) -> Self {
        NodeId(idx)
    }
}

impl From<NodeId> for usize {
    fn from(id: NodeId) -> usize {
        id.0
    }
}

#[test]
fn test_rev() {
    let slab: TypedSlab<usize, ()> = TypedSlab::new();
    let _iter = slab.iter().into_iter().rev();
}

#[test]
fn empty_store_yields_nothing() {
    let mut slab: TypedSlab<usize, u32> = TypedSlab::new();
    assert_eq!(slab.drain(), Vec::<u32>::new());
    assert_eq!(slab.iter().into_iter().rev().count(), 0);
    assert_eq!(slab.values().len(), 0);
    assert!(slab.is_empty());
    assert_eq!(slab.len(), 0);
}

#[test]
fn default_is_empty() {
    let mut slab: TypedSlab<NodeId, u32> = TypedSlab::default();
    assert!(slab.is_empty());
    assert_eq!(slab.insert(5), NodeId(0));
}

#[test]
fn insert_then_get_round_trips() {
    let mut slab: TypedSlab<NodeId, String> = TypedSlab::new();
    let a = slab.insert("a".to_string());
    assert_eq!(slab.get(a), Some(&"a".to_string()));
    let b = slab.insert("b".to_string());
    assert_eq!(slab.get(b), Some(&"b".to_string()));
    assert_eq!(slab.get(a), Some(&"a".to_string()));
    assert_eq!(a, NodeId(0));
    assert_eq!(b, NodeId(1));
}

#[test]
fn remove_reuse_and_order() {
    let mut slab: TypedSlab<NodeId, u32> = TypedSlab::new();
    let k0 = slab.insert(10);
    let k1 = slab.insert(20);
    let k2 = slab.insert(30);
    assert_eq!((k0, k1, k2), (NodeId(0), NodeId(1), NodeId(2)));
    assert_eq!(slab.remove(k1), Some(20));
    assert_eq!(slab.get(k1), None);
    assert_eq!(slab.len(), 2);
    let k = slab.insert(40);
    assert_eq!(k, NodeId(1));
    assert_eq!(slab.iter(), vec![(k0, &10), (k, &40), (k2, &30)]);
    assert_eq!(slab.values(), vec![&10, &40, &30]);
}

#[test]
fn freed_slots_are_taken_last_freed_first() {
    let mut slab: TypedSlab<usize, u32> = TypedSlab::new();
    for v in 0..5 {
        assert_eq!(slab.insert(v), v as usize);
    }
    assert_eq!(slab.remove(1), Some(1));
    assert_eq!(slab.remove(3), Some(3));
    assert_eq!(slab.insert(100), 3);
    assert_eq!(slab.insert(101), 1);
    assert_eq!(slab.insert(102), 5);
    assert_eq!(slab.len(), 6);
}

#[test]
fn len_counts_inserts_minus_removes() {
    let mut slab: TypedSlab<usize, u32> = TypedSlab::new();
    assert_eq!(slab.len(), 0);
    let a = slab.insert(1);
    assert_eq!(slab.len(), 1);
    let b = slab.insert(2);
    assert_eq!(slab.len(), 2);
    assert_eq!(slab.remove(a), Some(1));
    assert_eq!(slab.len(), 1);
    assert_eq!(slab.remove(a), None);
    assert_eq!(slab.len(), 1);
    assert_eq!(slab.remove(b), Some(2));
    assert_eq!(slab.len(), 0);
    assert!(slab.is_empty());
}

#[test]
fn absent_keys_give_none() {
    let mut slab: TypedSlab<usize, u32> = TypedSlab::new();
    assert_eq!(slab.get(0), None);
    assert_eq!(slab.get(usize::MAX), None);
    assert!(slab.get_mut(7).is_none());
    assert_eq!(slab.remove(7), None);
    let k = slab.insert(9);
    assert_eq!(slab.remove(k), Some(9));
    assert_eq!(slab.get(k), None);
    assert!(slab.get_mut(k).is_none());
    assert_eq!(slab.remove(k), None);
    assert_eq!(slab.len(), 0);
}

#[test]
fn get_mut_writes_through() {
    let mut slab: TypedSlab<NodeId, u32> = TypedSlab::new();
    let a = slab.insert(1);
    let b = slab.insert(2);
    *slab.get_mut(a).unwrap() = 11;
    assert_eq!(slab.get(a), Some(&11));
    assert_eq!(slab.get(b), Some(&2));
    assert_eq!(slab.len(), 2);
}

#[test]
fn insert_entry_gives_key_and_slot() {
    let mut slab: TypedSlab<NodeId, (usize, u32)> = TypedSlab::new();
    let _ = slab.insert((0, 0));
    let (key, slot) = slab.insert_entry((usize::MAX, 5));
    assert_eq!(*slot, (usize::MAX, 5));
    slot.0 = key.0;
    assert_eq!(key, NodeId(1));
    assert_eq!(slab.get(key), Some(&(1, 5)));
    assert_eq!(slab.len(), 2);
    assert_eq!(slab.remove(NodeId(0)), Some((0, 0)));
    let (key, _) = slab.insert_entry((7, 7));
    assert_eq!(key, NodeId(0));
}

#[test]
fn iteration_is_ascending_and_reverses() {
    let mut slab: TypedSlab<usize, char> = TypedSlab::new();
    for c in ['a', 'b', 'c', 'd', 'e'] {
        slab.insert(c);
    }
    slab.remove(0);
    slab.remove(3);
    let forward = slab.iter();
    assert_eq!(forward, vec![(1, &'b'), (2, &'c'), (4, &'e')]);
    let backward: Vec<(usize, &char)> = slab.iter().into_iter().rev().collect();
    assert_eq!(backward, vec![(4, &'e'), (2, &'c'), (1, &'b')]);
    assert_eq!(forward.len(), slab.len());
}

#[test]
fn drain_empties_and_store_starts_over() {
    let mut slab: TypedSlab<usize, u32> = TypedSlab::new();
    for v in [10, 20, 30, 40] {
        slab.insert(v);
    }
    slab.remove(2);
    assert_eq!(slab.drain(), vec![10, 20, 40]);
    assert_eq!(slab.len(), 0);
    assert!(slab.is_empty());
    assert_eq!(slab.iter(), Vec::<(usize, &u32)>::new());
    assert_eq!(slab.insert(1), 0);
    assert_eq!(slab.insert(2), 1);
    assert_eq!(slab.iter(), vec![(0, &1), (1, &2)]);
}

#[test]
fn iter_mut_writes_every_value_in_order() {
    let mut slab: TypedSlab<NodeId, u32> = TypedSlab::new();
    for v in [1, 2, 3, 4] {
        slab.insert(v);
    }
    slab.remove(NodeId(1));
    let mut keys = Vec::new();
    for (key, value) in slab.iter_mut() {
        keys.push(key);
        *value *= 10;
    }
    assert_eq!(keys, vec![NodeId(0), NodeId(2), NodeId(3)]);
    assert_eq!(slab.iter(), vec![(NodeId(0), &10), (NodeId(2), &30), (NodeId(3), &40)]);
    assert_eq!(slab.len(), 3);
    assert_eq!(slab.insert(5), NodeId(1));
    let back: Vec<NodeId> = slab.iter_mut().into_iter().rev().map(|(k, _)| k).collect();
    assert_eq!(back, vec![NodeId(3), NodeId(2), NodeId(1), NodeId(0)]);
}

#[test]
fn drain_stopped_early_removes_only_what_it_produced() {
    let mut slab: TypedSlab<usize, i32> = TypedSlab::new();
    slab.insert(10);
    slab.insert(20);
    slab.insert(30);
    assert_eq!(slab.drain_next(0), Some((0, 10)));
    assert_eq!(slab.len(), 2);
    assert_eq!(slab.get(0), None);
    assert_eq!(slab.get(1), Some(&20));
    assert_eq!(slab.get(2), Some(&30));
    assert_eq!(slab.insert(40), 0);
    assert_eq!(slab.iter(), vec![(0, &40), (1, &20), (2, &30)]);
}

#[test]
fn drain_steps_from_the_back() {
    let mut slab: TypedSlab<NodeId, i32> = TypedSlab::new();
    slab.insert(10);
    slab.insert(20);
    slab.insert(30);
    assert_eq!(slab.drain_next_back(usize::MAX), Some((2, 30)));
    assert_eq!(slab.drain_next_back(2), Some((1, 20)));
    assert_eq!(slab.len(), 1);
    assert_eq!(slab.get(NodeId(0)), Some(&10));
    assert_eq!(slab.drain_next_back(0), None);
    assert_eq!(slab.len(), 1);
    assert_eq!(slab.insert(50), NodeId(1));
}

#[test]
fn drain_steps_to_the_end_leave_a_new_store() {
    let mut slab: TypedSlab<usize, i32> = TypedSlab::new();
    for v in [1, 2, 3] {
        slab.insert(v);
    }
    assert_eq!(slab.remove(1), Some(2));
    assert_eq!(slab.drain_next(0), Some((0, 1)));
    assert_eq!(slab.drain_next(1), Some((2, 3)));
    assert_eq!(slab.drain_next(3), None);
    assert_eq!(slab.len(), 0);
    assert!(slab.is_empty());
    assert_eq!(slab.insert(7), 0);
    assert_eq!(slab.insert(8), 1);
    assert_eq!(slab.drain_next(0), Some((0, 7)));
}
