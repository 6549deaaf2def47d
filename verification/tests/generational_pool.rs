use plinth::generational_pool::{GenerationalPool, Handle};
use std::cell::Cell;
use std::rc::Rc;

#[test]
fn init() {
    let gen = GenerationalPool::<u32>::new();

    assert_eq!(gen.slot_count(), 1);
    assert_eq!(gen.generation(0), 1);
    assert!(!gen.free_list().is_empty());
    assert_eq!(gen.free_list().head(), Some(0));
}

#[test]
fn insert_get_remove_one() {
    let mut gen = GenerationalPool::<u32>::new();

    let handle = gen.insert(42);

    assert_eq!(handle.index(), 0);
    assert_eq!(handle.generation(), 1);

    assert_eq!(gen.get(handle), Some(&42));
    assert_eq!(gen.get_mut(handle), Some(&mut 42));
    assert!(gen.free_list().is_empty());

    assert_eq!(gen.remove(handle), Some(42));
    assert_eq!(gen.validate(handle), None);
    assert!(!gen.free_list().is_empty());
    assert_eq!(gen.free_list().head(), Some(0));
    assert_eq!(gen.generation(0), 2);
}

#[test]
fn insert_get_remove_many() {
    const COUNT: usize = 10;

    let mut gen = GenerationalPool::<u32>::new();
    let mut keys: Vec<Handle<u32>> = vec![];

    for i in 0..COUNT {
        let handle = gen.insert(i as u32);
        keys.push(handle);
    }

    for (i, k) in keys.iter().enumerate() {
        assert_eq!(gen.get(*k), Some(&(i as u32)));
        assert_eq!(gen.get_mut(*k), Some(&mut (i as u32)));
    }

    assert_eq!(gen.slot_count(), COUNT);

    for (i, k) in keys.iter().enumerate() {
        assert_eq!(gen.remove(*k), Some(i as u32));
        assert_eq!(gen.validate(*k), None);
    }

    assert_eq!(gen.slot_count(), COUNT);

    for index in 0..COUNT as u32 {
        if index == 0 {
            assert_eq!(gen.generation(index), 2);
        } else {
            assert_eq!(gen.generation(index), 1);
        }
        assert!(gen.free_list().is_free(index));
    }
}

#[test]
fn remove_twice() {
    let mut gen = GenerationalPool::<u32>::new();
    let handle = gen.insert(42);

    assert_eq!(gen.remove(handle), Some(42));
    assert_eq!(gen.remove(handle), None);

    let _ = gen.insert(43);
    assert_eq!(gen.remove(handle), None);
}

#[test]
fn insert_remove_insert_get() {
    let mut gen = GenerationalPool::<u32>::new();

    let a = gen.insert(42);
    assert_eq!(gen.remove(a), Some(42));

    let b = gen.insert(43);
    assert_eq!(gen.get(a), None);
    assert_eq!(gen.get(b), Some(&43));

    assert_eq!(a.raw(), b.raw());
}

#[test]
fn freed_slots_are_reused_oldest_first() {
    let mut gen = GenerationalPool::<u32>::new();
    let a = gen.insert(1);
    let b = gen.insert(2);
    let c = gen.insert(3);
    assert_eq!((a.index(), b.index(), c.index()), (0, 1, 2));

    assert_eq!(gen.remove(b), Some(2));
    assert_eq!(gen.remove(a), Some(1));
    assert_eq!(gen.free_list().head(), Some(1));

    let d = gen.insert(4);
    let e = gen.insert(5);
    assert_eq!((d.index(), d.generation()), (1, 1));
    assert_eq!((e.index(), e.generation()), (0, 2));
    // with no slot free the pool grows by one slot in generation zero
    let f = gen.insert(6);
    assert_eq!((f.index(), f.generation()), (3, 0));
    assert_eq!(gen.slot_count(), 4);
    assert_eq!(gen.get(c), Some(&3));
    assert_eq!(gen.get(b), None);
    assert_eq!(gen.get(a), None);
}

#[test]
fn raw_handles_reach_the_slot() {
    let mut gen = GenerationalPool::<u32>::new();
    let a = gen.insert(7);
    let raw = gen.validate(a).unwrap();
    assert_eq!(raw.index(), 0);
    assert_eq!(*gen.get_raw(raw), 7);
    *gen.get_raw_mut(raw) = 8;
    assert_eq!(gen.get(a), Some(&8));
    let key = gen.recover_key(raw).unwrap();
    assert_eq!(key, a);
    assert_eq!(gen.remove_raw(raw), 8);
    assert!(gen.recover_key(raw).is_none());
    assert_eq!(gen.get(a), None);
}

#[test]
fn handles() {
    let mut gen = GenerationalPool::<u32>::new();

    let handle = gen.insert(42);
    let handle2 = handle.clone();

    assert_eq!(handle, handle2);

    assert_eq!(handle.describe(), "Handle { index: 0, generation: 1 }");

    assert_eq!(handle.raw().describe(), "RawHandle { index: 0 }");
}

#[test]
fn handles_of_large_numbers_are_described_in_decimal() {
    let mut gen = GenerationalPool::<u8>::new();
    let mut last = gen.insert(0);
    for _ in 0..12 {
        last = gen.insert(0);
    }
    assert_eq!(last.describe(), "Handle { index: 12, generation: 0 }");
    assert_eq!(last.raw().describe(), "RawHandle { index: 12 }");
    assert!(gen.remove(last).is_some());
    let again = gen.insert(1);
    assert_eq!(again.describe(), "Handle { index: 12, generation: 1 }");
    assert!(last < again);
}

struct CountsDrops {
    #[allow(dead_code)]
    data: u32,
    drops: Rc<Cell<usize>>,
}

impl Drop for CountsDrops {
    fn drop(&mut self) {
        self.drops.set(self.drops.get() + 1);
    }
}

#[test]
fn non_copy_drop_once() {
    let drops = Rc::new(Cell::new(0));

    let mut gen = GenerationalPool::<CountsDrops>::new();

    {
        let a = gen.insert(CountsDrops {
            data: 42,
            drops: drops.clone(),
        });
        gen.remove(a);

        assert_eq!(drops.get(), 1);
    }

    {
        let a = gen.insert(CountsDrops {
            data: 42,
            drops: drops.clone(),
        });
        let a = gen.validate(a).unwrap();

        gen.remove_raw(a);
        assert_eq!(drops.get(), 2);
    }
}
