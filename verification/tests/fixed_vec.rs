use slot_pool::fixed_vec::FixedVec;
use slot_pool::ptr::Ptr;

fn names() -> Vec<String> {
    vec![String::from("a"), String::from("b"), String::from("c")]
}

#[test]
fn new_store_is_unoccupied() {
    let store = FixedVec::new(names());
    assert_eq!(store.capacity(), 3);
    assert_eq!(store.len(), 0);
    assert!(store.get(Ptr::new(0)).is_none());
    assert!(store.get(Ptr::new(3)).is_none());
}

#[test]
fn allocate_takes_the_first_unoccupied_slot() {
    let mut store = FixedVec::new(names());
    assert_eq!(store.allocate(), Ptr::new(0));
    assert_eq!(store.allocate(), Ptr::new(1));
    assert_eq!(store.len(), 2);
    assert_eq!(store.get(Ptr::new(0)).unwrap(), "a");
    assert_eq!(store.get(Ptr::new(1)).unwrap(), "b");
    assert!(store.get(Ptr::new(2)).is_none());
    store.free(Ptr::new(0));
    assert_eq!(store.len(), 1);
    assert_eq!(store.allocate(), Ptr::new(0));
    assert_eq!(store.allocate(), Ptr::new(2));
    assert_eq!(store.len(), 3);
}

#[test]
fn free_resets_the_slot() {
    let mut store = FixedVec::new(names());
    let a = store.allocate();
    let b = store.allocate();
    store.get_mut(b).unwrap().push_str("Tom");
    assert_eq!(store.get(b).unwrap(), "bTom");
    store.free(b);
    assert!(store.get(b).is_none());
    assert!(store.get_mut(b).is_none());
    assert_eq!(store.get(a).unwrap(), "a");
    assert_eq!(store.allocate(), b);
    assert_eq!(store.get(b).unwrap(), "");
}

#[test]
fn free_of_unoccupied_slot_resets_it() {
    let mut store = FixedVec::new(names());
    let a = store.allocate();
    store.free(Ptr::new(2));
    assert_eq!(store.len(), 1);
    assert_eq!(store.get(a).unwrap(), "a");
    assert_eq!(store.allocate(), Ptr::new(1));
    assert_eq!(store.allocate(), Ptr::new(2));
    assert_eq!(store.get(Ptr::new(2)).unwrap(), "");
    assert_eq!(store.len(), 3);
}

#[test]
fn store_without_slots() {
    let store: FixedVec<String> = FixedVec::new(Vec::new());
    assert_eq!(store.capacity(), 0);
    assert_eq!(store.len(), 0);
    assert!(store.get(Ptr::new(0)).is_none());
}
