use slab::Slab;
use typed_slab::SlotStore;

#[test]
fn raw_store_basic_operations() {
    let mut store: SlotStore<&str> = SlotStore::new();
    assert!(store.is_empty());
    assert!(!store.contains(0));
    let a = store.insert("a");
    let b = store.insert("b");
    assert_eq!((a, b), (0, 1));
    assert!(store.contains(a));
    assert_eq!(store.get(b), Some(&"b"));
    assert_eq!(store.get(2), None);
    assert_eq!(store.remove(a), Some("a"));
    assert!(!store.contains(a));
    assert_eq!(store.remove(a), None);
    assert_eq!(store.len(), 1);
    assert_eq!(store.iter(), vec![(1, &"b")]);
    assert_eq!(store.values(), vec![&"b"]);
}

#[test]
fn raw_store_insert_entry_and_get_mut() {
    let mut store: SlotStore<u32> = SlotStore::new();
    let (idx, slot) = store.insert_entry(3);
    *slot += 1;
    assert_eq!(idx, 0);
    assert_eq!(store.get(0), Some(&4));
    *store.get_mut(0).unwrap() = 9;
    assert_eq!(store.get(0), Some(&9));
    assert!(store.get_mut(1).is_none());
}

#[test]
fn raw_store_drain_then_reuse() {
    let mut store: SlotStore<u32> = SlotStore::new();
    for v in 0..6 {
        store.insert(v);
    }
    store.remove(4);
    store.remove(0);
    assert_eq!(store.drain(), vec![1, 2, 3, 5]);
    assert!(store.is_empty());
    assert_eq!(store.insert(7), 0);
    assert_eq!(store.drain(), vec![7]);
    assert_eq!(store.drain(), Vec::<u32>::new());
}

#[test]
fn raw_store_agrees_with_slab() {
    let mut store: SlotStore<u64> = SlotStore::new();
    let mut slab: Slab<u64> = Slab::new();
    let mut state: u64 = 0x2545f4914f6cdd1d;
    for step in 0..2000u64 {
        state ^= state << 13;
        state ^= state >> 7;
        state ^= state << 17;
        let idx = ((state >> 8) % 48) as usize;
        match state % 5 {
            0 | 1 => {
                assert_eq!(store.insert(step), slab.insert(step));
            }
            2 | 3 => {
                assert_eq!(store.remove(idx), slab.try_remove(idx));
            }
            _ => {
                assert_eq!(store.get(idx), slab.get(idx));
                assert_eq!(store.contains(idx), slab.contains(idx));
            }
        }
        assert_eq!(store.len(), slab.len());
        assert_eq!(store.is_empty(), slab.is_empty());
    }
    let expected: Vec<(usize, &u64)> = slab.iter().collect();
    assert_eq!(store.iter(), expected);
    let drained: Vec<u64> = slab.drain().collect();
    assert_eq!(store.drain(), drained);
    assert_eq!(store.insert(1), slab.insert(1));
}

#[test]
fn raw_store_iter_mut() {
    let mut store: SlotStore<u32> = SlotStore::new();
    assert_eq!(store.iter_mut().len(), 0);
    for v in [5, 6, 7] {
        store.insert(v);
    }
    store.remove(0);
    for (idx, value) in store.iter_mut() {
        *value += idx as u32;
    }
    assert_eq!(store.iter(), vec![(1, &7), (2, &9)]);
    assert_eq!(store.insert(1), 0);
}

#[test]
fn raw_store_drain_steps_from_both_ends() {
    let mut store: SlotStore<u32> = SlotStore::new();
    for v in [10, 20, 30, 40, 50] {
        store.insert(v);
    }
    store.remove(1);
    assert_eq!(store.drain_next(0), Some((0, 10)));
    assert_eq!(store.drain_next(1), Some((2, 30)));
    assert_eq!(store.drain_next_back(usize::MAX), Some((4, 50)));
    assert_eq!(store.len(), 1);
    assert_eq!(store.iter(), vec![(3, &40)]);
    assert_eq!(store.drain_next_back(3), None);
    assert_eq!(store.drain_next(4), None);
    assert_eq!(store.len(), 1);
    assert_eq!(store.insert(60), 4);
    assert_eq!(store.drain_next_back(4), Some((3, 40)));
    assert_eq!(store.drain_next_back(3), None);
    assert_eq!(store.drain_next(0), Some((4, 60)));
    assert_eq!(store.drain_next(5), None);
    assert!(store.is_empty());
    assert_eq!(store.insert(1), 0);
    assert_eq!(store.insert(2), 1);
}

#[test]
fn raw_store_drain_steps_agree_with_slab_drain() {
    let mut store: SlotStore<u32> = SlotStore::new();
    let mut slab: Slab<u32> = Slab::new();
    for v in 0..20 {
        store.insert(v);
        slab.insert(v);
    }
    for idx in [3, 4, 11, 19, 0] {
        assert_eq!(store.remove(idx), slab.try_remove(idx));
    }
    let expected: Vec<u32> = slab.drain().collect();
    let mut got = Vec::new();
    let mut from = 0;
    while let Some((idx, v)) = store.drain_next(from) {
        got.push(v);
        from = idx + 1;
    }
    assert_eq!(got, expected);
    assert_eq!(store.len(), slab.len());
    assert_eq!(store.insert(7), slab.insert(7));
}
