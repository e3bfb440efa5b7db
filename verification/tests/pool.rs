use slot_pool::cell_pool::CellPool;
use slot_pool::clear::Clear;
use slot_pool::error::PoolError;
use slot_pool::game::Player;
use slot_pool::ptr::Ptr;

fn live_handles<T>(pool: &CellPool<T>) -> Vec<Ptr> {
    let mut it = pool.iter();
    let mut out = Vec::new();
    while let Some((p, _)) = it.next() {
        out.push(p);
    }
    assert_eq!(out, pool.handles());
    out
}

fn full_pool(capacity: usize) -> CellPool<String> {
    let mut pool: CellPool<String> = CellPool::new(capacity);
    for i in 0..capacity {
        assert_eq!(pool.allocate(), Ok(Ptr::new(i)));
    }
    pool
}

#[test]
fn new_pool_has_no_live_slot() {
    let pool: CellPool<String> = CellPool::new(4);
    assert_eq!(pool.capacity(), 4);
    assert_eq!(pool.len(), 0);
    assert_eq!(live_handles(&pool), Vec::<Ptr>::new());
    for i in 0..4 {
        assert!(!pool.is_live(Ptr::new(i)));
        assert!(pool.get(Ptr::new(i)).is_none());
    }
}

#[test]
fn new_pool_hands_out_slots_in_index_order() {
    let mut pool: CellPool<u8> = CellPool::new(4);
    assert_eq!(pool.allocate(), Ok(Ptr::new(0)));
    assert_eq!(pool.allocate(), Ok(Ptr::new(1)));
    assert_eq!(pool.allocate(), Ok(Ptr::new(2)));
    assert_eq!(pool.allocate(), Ok(Ptr::new(3)));
}

#[test]
fn new_slots_hold_default_values() {
    let mut pool: CellPool<Player> = CellPool::new(2);
    let a = pool.allocate().unwrap();
    let player = pool.get(a).unwrap();
    assert_eq!(player.name, "");
    assert_eq!(player.health, 0);
    assert_eq!(player.friends.capacity(), 10);
    assert_eq!(player.friends.iter(), Vec::<Ptr>::new());
}

#[test]
fn capacity_bound_three_slots() {
    let mut pool: CellPool<String> = CellPool::new(3);
    assert_eq!(pool.capacity(), 3);
    assert_eq!(pool.allocate(), Ok(Ptr::new(0)));
    assert_eq!(pool.allocate(), Ok(Ptr::new(1)));
    assert_eq!(pool.allocate(), Ok(Ptr::new(2)));
    assert_eq!(pool.len(), 3);
    assert_eq!(pool.allocate(), Err(PoolError::PoolExhausted));
    assert_eq!(pool.allocate(), Err(PoolError::PoolExhausted));
    assert_eq!(pool.len(), 3);
    assert_eq!(live_handles(&pool), vec![Ptr::new(0), Ptr::new(1), Ptr::new(2)]);
}

#[test]
fn capacity_bound_one_slot() {
    let mut pool: CellPool<String> = CellPool::new(1);
    assert_eq!(pool.allocate(), Ok(Ptr::new(0)));
    assert_eq!(pool.allocate(), Err(PoolError::PoolExhausted));
}

#[test]
fn pool_without_slots_is_exhausted() {
    let mut pool: CellPool<String> = CellPool::new(0);
    assert_eq!(pool.capacity(), 0);
    assert_eq!(pool.allocate(), Err(PoolError::PoolExhausted));
    assert_eq!(pool.free(Ptr::new(0)), Err(PoolError::InvalidReference));
    assert_eq!(live_handles(&pool), Vec::<Ptr>::new());
    pool.clear();
    assert_eq!(pool.allocate(), Err(PoolError::PoolExhausted));
    assert_eq!(pool.len(), 0);
}

#[test]
fn live_handles_are_distinct() {
    let mut pool: CellPool<String> = CellPool::new(16);
    let mut seen: Vec<Ptr> = Vec::new();
    for _ in 0..16 {
        let p = pool.allocate().unwrap();
        assert!(!seen.contains(&p));
        seen.push(p);
    }
    assert_eq!(pool.free(seen[5]), Ok(()));
    assert_eq!(pool.free(seen[9]), Ok(()));
    let p = pool.allocate().unwrap();
    let q = pool.allocate().unwrap();
    assert_ne!(p, q);
    let live = live_handles(&pool);
    assert_eq!(live.len(), 16);
    for i in 0..live.len() {
        for j in 0..i {
            assert_ne!(live[i], live[j]);
        }
    }
}

#[test]
fn every_slot_is_live_or_free() {
    let mut pool: CellPool<String> = CellPool::new(5);
    let a = pool.allocate().unwrap();
    let b = pool.allocate().unwrap();
    let c = pool.allocate().unwrap();
    assert_eq!(pool.free(b), Ok(()));
    let live = live_handles(&pool);
    assert_eq!(live, vec![a, c]);
    assert_eq!(pool.len(), 2);
    let mut free_count = 0;
    for i in 0..pool.capacity() {
        let p = Ptr::new(i);
        assert_eq!(pool.is_live(p), live.contains(&p));
        if !pool.is_live(p) {
            free_count += 1;
        }
    }
    assert_eq!(pool.len() + free_count, pool.capacity());
    for _ in 0..free_count {
        assert!(pool.allocate().is_ok());
    }
    assert_eq!(pool.allocate(), Err(PoolError::PoolExhausted));
    assert_eq!(pool.len(), pool.capacity());
}

#[test]
fn iteration_follows_allocation_order() {
    let mut pool: CellPool<String> = CellPool::new(8);
    let a = pool.allocate().unwrap();
    let b = pool.allocate().unwrap();
    let c = pool.allocate().unwrap();
    assert_eq!(live_handles(&pool), vec![a, b, c]);
    assert_eq!(pool.free(b), Ok(()));
    assert_eq!(live_handles(&pool), vec![a, c]);
}

#[test]
fn iteration_yields_content() {
    let mut pool: CellPool<String> = CellPool::new(3);
    let a = pool.allocate().unwrap();
    let b = pool.allocate().unwrap();
    pool.get_mut(a).unwrap().push_str("first");
    pool.get_mut(b).unwrap().push_str("second");
    let mut it = pool.iter();
    assert_eq!(it.next(), Some((a, &String::from("first"))));
    assert_eq!(it.next(), Some((b, &String::from("second"))));
    assert_eq!(it.next(), None);
    assert_eq!(it.next(), None);
}

#[test]
fn iteration_starts_over_with_each_call() {
    let mut pool: CellPool<String> = CellPool::new(3);
    let a = pool.allocate().unwrap();
    let b = pool.allocate().unwrap();
    let mut first = pool.iter();
    assert_eq!(first.next().map(|(p, _)| p), Some(a));
    let mut second = pool.iter();
    assert_eq!(second.next().map(|(p, _)| p), Some(a));
    assert_eq!(first.next().map(|(p, _)| p), Some(b));
    assert_eq!(second.next().map(|(p, _)| p), Some(b));
}

#[test]
fn release_of_oldest_slot() {
    let mut pool = full_pool(4);
    assert_eq!(pool.free(Ptr::new(0)), Ok(()));
    assert_eq!(live_handles(&pool), vec![Ptr::new(1), Ptr::new(2), Ptr::new(3)]);
    assert_eq!(pool.allocate(), Ok(Ptr::new(0)));
    assert_eq!(live_handles(&pool), vec![Ptr::new(1), Ptr::new(2), Ptr::new(3), Ptr::new(0)]);
}

#[test]
fn release_of_newest_slot() {
    let mut pool = full_pool(4);
    assert_eq!(pool.free(Ptr::new(3)), Ok(()));
    assert_eq!(live_handles(&pool), vec![Ptr::new(0), Ptr::new(1), Ptr::new(2)]);
    assert_eq!(pool.allocate(), Ok(Ptr::new(3)));
    assert_eq!(live_handles(&pool), vec![Ptr::new(0), Ptr::new(1), Ptr::new(2), Ptr::new(3)]);
}

#[test]
fn release_of_only_slot() {
    let mut pool: CellPool<String> = CellPool::new(2);
    let a = pool.allocate().unwrap();
    assert_eq!(pool.free(a), Ok(()));
    assert_eq!(pool.len(), 0);
    assert_eq!(live_handles(&pool), Vec::<Ptr>::new());
    assert_eq!(pool.allocate(), Ok(a));
    assert_eq!(live_handles(&pool), vec![a]);
}

#[test]
fn release_of_every_slot_in_mixed_order() {
    let mut pool = full_pool(5);
    for i in [2usize, 0, 4, 1, 3] {
        assert_eq!(pool.free(Ptr::new(i)), Ok(()));
    }
    assert_eq!(pool.len(), 0);
    assert_eq!(live_handles(&pool), Vec::<Ptr>::new());
    let expected = [3usize, 1, 4, 0, 2];
    for i in expected {
        assert_eq!(pool.allocate(), Ok(Ptr::new(i)));
    }
    assert_eq!(pool.allocate(), Err(PoolError::PoolExhausted));
    assert_eq!(
        live_handles(&pool),
        vec![Ptr::new(3), Ptr::new(1), Ptr::new(4), Ptr::new(0), Ptr::new(2)]
    );
}

#[test]
fn released_slots_are_handed_out_newest_first() {
    let mut pool = full_pool(3);
    assert_eq!(pool.free(Ptr::new(0)), Ok(()));
    assert_eq!(pool.free(Ptr::new(2)), Ok(()));
    assert_eq!(pool.allocate(), Ok(Ptr::new(2)));
    assert_eq!(pool.allocate(), Ok(Ptr::new(0)));
}

#[test]
fn reuse_after_release_resets_content() {
    let mut pool: CellPool<Player> = CellPool::new(2);
    let a = pool.allocate().unwrap();
    let b = pool.allocate().unwrap();
    pool.get_mut(a).unwrap().init("Eric", 10);
    pool.get_mut(b).unwrap().init("Tom", 15);
    assert_eq!(pool.allocate(), Err(PoolError::PoolExhausted));
    assert_eq!(pool.get(b).unwrap().name, "Tom");
    assert_eq!(pool.free(b), Ok(()));
    assert!(pool.get(b).is_none());
    let c = pool.allocate().unwrap();
    assert_eq!(c, b);
    assert_eq!(pool.get(c).unwrap().name, "");
    assert_eq!(pool.get(c).unwrap().health, 15);
    assert_eq!(pool.get(a).unwrap().name, "Eric");
    assert_eq!(pool.get(a).unwrap().health, 10);
}

#[test]
fn double_release_is_refused() {
    let mut pool = full_pool(3);
    let b = Ptr::new(1);
    assert_eq!(pool.free(b), Ok(()));
    assert_eq!(pool.free(b), Err(PoolError::DoubleRelease));
    assert_eq!(pool.len(), 2);
    assert_eq!(live_handles(&pool), vec![Ptr::new(0), Ptr::new(2)]);
    assert_eq!(pool.allocate(), Ok(b));
    assert_eq!(pool.allocate(), Err(PoolError::PoolExhausted));
    assert_eq!(live_handles(&pool), vec![Ptr::new(0), Ptr::new(2), b]);
    assert_eq!(pool.free(Ptr::new(0)), Ok(()));
    assert_eq!(pool.free(Ptr::new(2)), Ok(()));
    assert_eq!(pool.free(b), Ok(()));
    assert_eq!(pool.free(b), Err(PoolError::DoubleRelease));
    for _ in 0..3 {
        assert!(pool.allocate().is_ok());
    }
    assert_eq!(pool.allocate(), Err(PoolError::PoolExhausted));
}

#[test]
fn release_of_never_allocated_slot_is_refused() {
    let mut pool: CellPool<String> = CellPool::new(3);
    assert_eq!(pool.allocate(), Ok(Ptr::new(0)));
    assert_eq!(pool.free(Ptr::new(2)), Err(PoolError::DoubleRelease));
    assert_eq!(pool.allocate(), Ok(Ptr::new(1)));
    assert_eq!(pool.allocate(), Ok(Ptr::new(2)));
}

#[test]
fn release_outside_the_pool_is_refused() {
    let mut pool = full_pool(3);
    assert_eq!(pool.free(Ptr::new(3)), Err(PoolError::InvalidReference));
    assert_eq!(pool.free(Ptr::new(usize::MAX)), Err(PoolError::InvalidReference));
    assert_eq!(pool.len(), 3);
    assert_eq!(live_handles(&pool), vec![Ptr::new(0), Ptr::new(1), Ptr::new(2)]);
}

#[test]
fn clear_of_pool_without_live_slots_shows_nothing() {
    let mut pool: CellPool<String> = CellPool::new(3);
    pool.clear();
    assert_eq!(pool.len(), 0);
    assert_eq!(pool.capacity(), 3);
    assert_eq!(live_handles(&pool), Vec::<Ptr>::new());
    assert_eq!(pool.allocate(), Ok(Ptr::new(0)));
    assert_eq!(pool.allocate(), Ok(Ptr::new(1)));
    assert_eq!(pool.allocate(), Ok(Ptr::new(2)));
    assert_eq!(pool.allocate(), Err(PoolError::PoolExhausted));
}

#[test]
fn clear_twice_is_clear_once() {
    let mut pool = full_pool(3);
    pool.clear();
    pool.clear();
    assert_eq!(pool.len(), 0);
    assert_eq!(live_handles(&pool), Vec::<Ptr>::new());
    assert_eq!(pool.allocate(), Ok(Ptr::new(0)));
}

#[test]
fn clear_of_full_pool_frees_every_slot() {
    let mut pool = full_pool(3);
    pool.get_mut(Ptr::new(1)).unwrap().push_str("Tom");
    assert_eq!(pool.free(Ptr::new(0)), Ok(()));
    assert_eq!(pool.allocate(), Ok(Ptr::new(0)));
    pool.clear();
    assert_eq!(live_handles(&pool), Vec::<Ptr>::new());
    assert_eq!(pool.len(), 0);
    assert_eq!(pool.capacity(), 3);
    assert_eq!(pool.allocate(), Ok(Ptr::new(0)));
    assert_eq!(pool.allocate(), Ok(Ptr::new(1)));
    assert_eq!(pool.get(Ptr::new(1)).unwrap(), "");
    assert_eq!(pool.allocate(), Ok(Ptr::new(2)));
    assert_eq!(pool.allocate(), Err(PoolError::PoolExhausted));
    assert_eq!(live_handles(&pool), vec![Ptr::new(0), Ptr::new(1), Ptr::new(2)]);
}

#[test]
fn get_reaches_live_slots_only() {
    let mut pool: CellPool<String> = CellPool::new(2);
    let a = pool.allocate().unwrap();
    assert!(pool.get(a).is_some());
    assert!(pool.get(Ptr::new(1)).is_none());
    assert!(pool.get(Ptr::new(2)).is_none());
    assert!(pool.get_mut(Ptr::new(1)).is_none());
    assert!(pool.get_mut(Ptr::new(7)).is_none());
    pool.get_mut(a).unwrap().push_str("kept");
    assert_eq!(pool.get(a).unwrap(), "kept");
    assert!(pool.is_live(a));
    assert_eq!(pool.free(a), Ok(()));
    assert!(!pool.is_live(a));
    assert!(pool.get(a).is_none());
    assert!(pool.get_mut(a).is_none());
}

#[test]
fn error_messages() {
    assert_eq!(PoolError::PoolExhausted.message(), "Pool empty!");
    assert_eq!(PoolError::InvalidReference.message(), "Invalid item!");
    assert_eq!(PoolError::DoubleRelease.message(), "Item already freed!");
}

#[test]
fn clear_empties_a_string() {
    let mut s = String::from("Tom");
    Clear::clear(&mut s);
    assert_eq!(s, "");
}

#[test]
fn clear_empties_a_vector_and_an_option() {
    let mut v = vec![1, 2, 3];
    Clear::clear(&mut v);
    assert_eq!(v, Vec::<i32>::new());
    let mut o = Some(4);
    Clear::clear(&mut o);
    assert_eq!(o, None);
}

#[test]
fn pool_is_cleared_through_the_trait() {
    let mut inner: CellPool<String> = CellPool::new(2);
    let a = inner.allocate().unwrap();
    inner.get_mut(a).unwrap().push_str("x");
    Clear::clear(&mut inner);
    assert_eq!(inner.len(), 0);
    assert_eq!(inner.allocate(), Ok(a));
    assert_eq!(inner.get(a).unwrap(), "");
}
