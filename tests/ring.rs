use roguelike::ring::Ring;

#[test]
fn new_holds_lower_bound() {
    assert_eq!(Ring::new(3, 8).get(), 3);
}

#[test]
fn set_wraps_both_ways() {
    let r = Ring::new(3, 8);
    assert_eq!(r.set(5).get(), 5);
    assert_eq!(r.set(8).get(), 3);
    assert_eq!(r.set(10).get(), 5);
    assert_eq!(r.set(2).get(), 7);
    assert_eq!(r.set(-7).get(), 3);
    assert_eq!(r.set(i32::MAX).get(), 3 + ((i32::MAX as i64 - 3) % 5) as i32);
    assert_eq!(r.set(i32::MIN).get(), 3 + ((i32::MIN as i64 - 3).rem_euclid(5)) as i32);
}

#[test]
fn add_and_sub_wrap() {
    let r = Ring::new(0, 4).set(3);
    let one = Ring::new(0, 4).set(1);
    assert_eq!((r + one).get(), 0);
    assert_eq!((Ring::new(0, 4) - one).get(), 3);
    let mut acc = Ring::new(0, 4);
    acc += one;
    acc += r;
    assert_eq!(acc.get(), 0);
    acc -= one;
    assert_eq!(acc.get(), 3);
}

#[test]
fn conversions_with_i32() {
    let r = Ring::from(42);
    assert_eq!(i32::from(r), 42);
    assert_eq!(r.get(), 42);
    assert_eq!((r + Ring::from(8)).get(), 50);
    assert_eq!((Ring::from(-5) - Ring::from(5)).get(), -10);
}

#[test]
fn reversed_bounds_wrap_above_the_lower_bound() {
    let r = Ring::new(5, 2);
    assert_eq!(r.get(), 5);
    assert_eq!(r.set(7).get(), 7);
    assert_eq!(r.set(8).get(), 5);
    assert_eq!(r.set(4).get(), 7);
}

#[test]
fn equal_bounds_never_wrap() {
    let mut r = Ring::new(3, 3);
    assert_eq!(r.get(), 3);
    assert!(!r.wraps());
    r += Ring::from(4);
    r -= Ring::from(1);
    assert_eq!(r.get(), 3);
    assert!(Ring::new(0, 1).wraps());
}
