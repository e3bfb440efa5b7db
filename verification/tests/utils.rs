use slot_pool::utils::decr;
use slot_pool::utils::incr;

#[test]
fn incr_adds_one() {
    let mut n: usize = 4;
    assert_eq!(incr(&mut n), 5);
    assert_eq!(n, 5);
    let mut m: u8 = 254;
    assert_eq!(incr(&mut m), 255);
    assert_eq!(m, 255);
    let mut k: i64 = -1;
    assert_eq!(incr(&mut k), 0);
    assert_eq!(k, 0);
}

#[test]
fn decr_subtracts_one() {
    let mut n: usize = 4;
    assert_eq!(decr(&mut n), 3);
    assert_eq!(n, 3);
    let mut m: u8 = 1;
    assert_eq!(decr(&mut m), 0);
    assert_eq!(m, 0);
    let mut k: i32 = 0;
    assert_eq!(decr(&mut k), -1);
    assert_eq!(k, -1);
}

#[test]
fn incr_then_decr_is_the_start() {
    let mut n: u32 = 17;
    incr(&mut n);
    decr(&mut n);
    assert_eq!(n, 17);
}
