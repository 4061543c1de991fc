#![allow(non_snake_case)]

use algae::algaeset::AlgaeSet;

#[derive(PartialEq, Clone, Copy, Debug)]
enum Real {
    UInt(u32),
    SInt(i32),
    Float(f32),
}

fn is_float(x: Real) -> bool {
    match x {
        Real::UInt(_) => false,
        Real::SInt(_) => false,
        Real::Float(_) => true,
    }
}

fn is_uint(x: Real) -> bool {
    match x {
        Real::UInt(_) => true,
        Real::SInt(_) => false,
        Real::Float(_) => false,
    }
}

#[test]
fn algaeset_has_element() {
    let REALS = AlgaeSet::<Real>::all();
    assert!(REALS.has(Real::UInt(12)));
    assert!(REALS.has(Real::SInt(-42)));
    assert!(REALS.has(Real::Float(-34.2)));
}

#[test]
fn algaeset_remove_element() {
    let mut REALS = AlgaeSet::<Real>::all();
    REALS.remove(Real::Float(23.1));
    assert!(REALS.has(Real::Float(23.2)));
    assert!(!REALS.has(Real::Float(23.1)));
}

#[test]
fn add_after_remove() {
    let mut REALS = AlgaeSet::<Real>::all();
    REALS.remove(Real::Float(32.1));
    assert!(!REALS.has(Real::Float(32.1)));
    REALS.add(Real::Float(32.1));
    assert!(REALS.has(Real::Float(32.1)));
}

#[test]
fn remove_after_add_after_remove() {
    let mut REALS = AlgaeSet::<Real>::all();
    assert!(REALS.has(Real::Float(32.1)));
    REALS.remove(Real::Float(32.1));
    assert!(!REALS.has(Real::Float(32.1)));
    REALS.add(Real::Float(32.1));
    assert!(REALS.has(Real::Float(32.1)));
    REALS.remove(Real::Float(32.1));
    assert!(!REALS.has(Real::Float(32.1)));
}

#[test]
fn algaeset_overlapping_union() {
    let REALS = AlgaeSet::<Real>::all();
    let mut FLOATS = AlgaeSet::<Real>::mono(Box::new(|x: Real| match x {
        Real::UInt(_) => false,
        Real::SInt(_) => false,
        Real::Float(_) => true,
    }));
    assert!(!FLOATS.has(Real::UInt(12)));
    FLOATS.or(REALS);
    assert!(FLOATS.has(Real::UInt(12)));
}

#[test]
fn algaeset_encompassing_union() {
    let mut REALS = AlgaeSet::<Real>::all();
    let FLOATS = AlgaeSet::<Real>::mono(Box::new(|x: Real| match x {
        Real::UInt(_) => false,
        Real::SInt(_) => false,
        Real::Float(_) => true,
    }));
    REALS.or(FLOATS);
    assert!(REALS.has(Real::Float(12.0)));
    assert!(REALS.has(Real::UInt(12)));
    assert!(REALS.has(Real::SInt(-12)));
}

#[test]
fn algaeset_disjoint_union() {
    let UINTS = AlgaeSet::<Real>::mono(Box::new(|x: Real| match x {
        Real::UInt(_) => true,
        Real::SInt(_) => false,
        Real::Float(_) => false,
    }));
    let mut FLOATS = AlgaeSet::<Real>::mono(Box::new(|x: Real| match x {
        Real::UInt(_) => false,
        Real::SInt(_) => false,
        Real::Float(_) => true,
    }));
    assert!(FLOATS.has(Real::Float(12.0)));
    assert!(!FLOATS.has(Real::UInt(12)));
    FLOATS.or(UINTS);
    assert!(FLOATS.has(Real::Float(12.0)));
    assert!(FLOATS.has(Real::UInt(12)));
}

#[test]
fn algaeset_overlapping_intersection() {
    let REALS = AlgaeSet::<Real>::all();
    let mut FLOATS = AlgaeSet::<Real>::mono(Box::new(|x: Real| match x {
        Real::UInt(_) => false,
        Real::SInt(_) => false,
        Real::Float(_) => true,
    }));
    assert!(!FLOATS.has(Real::UInt(12)));
    FLOATS.and(REALS);
    assert!(!FLOATS.has(Real::UInt(12)));
}

#[test]
fn algaeset_encompassing_intersection() {
    let mut REALS = AlgaeSet::<Real>::all();
    let FLOATS = AlgaeSet::<Real>::mono(Box::new(|x: Real| match x {
        Real::UInt(_) => false,
        Real::SInt(_) => false,
        Real::Float(_) => true,
    }));
    assert!(REALS.has(Real::UInt(12)));
    assert!(REALS.has(Real::SInt(-12)));
    assert!(REALS.has(Real::Float(12.0)));
    REALS.and(FLOATS);
    assert!(REALS.has(Real::Float(12.0)));
    assert!(!REALS.has(Real::UInt(12)));
    assert!(!REALS.has(Real::SInt(-12)));
}

#[test]
fn algaeset_disjoint_intersection() {
    let UINTS = AlgaeSet::<Real>::mono(Box::new(|x: Real| match x {
        Real::UInt(_) => true,
        Real::SInt(_) => false,
        Real::Float(_) => false,
    }));
    let mut FLOATS = AlgaeSet::<Real>::mono(Box::new(|x: Real| match x {
        Real::UInt(_) => false,
        Real::SInt(_) => false,
        Real::Float(_) => true,
    }));
    assert!(FLOATS.has(Real::Float(12.0)));
    assert!(!FLOATS.has(Real::UInt(12)));
    FLOATS.and(UINTS);
    assert!(!FLOATS.has(Real::Float(12.0)));
    assert!(!FLOATS.has(Real::UInt(12)));
}

#[test]
fn has_element() {
    let Z2 = AlgaeSet::<i32>::mono(Box::new(|x: i32| x % 2 == x));
    assert!(Z2.has(1));
    assert!(Z2.has(0));
    assert!(!Z2.has(2));
    assert!(!Z2.has(-2));
}

#[test]
fn add_element() {
    let mut Z2 = AlgaeSet::<i32>::mono(Box::new(|x: i32| x % 2 == x));
    assert!(!Z2.has(2));
    Z2.add(2);
    assert!(Z2.has(2));
}

#[test]
fn remove_element() {
    let mut Z2 = AlgaeSet::<i32>::mono(Box::new(|x: i32| x % 2 == x));
    assert!(Z2.has(1));
    Z2.remove(1);
    assert!(!Z2.has(1));
}

#[test]
fn overlapping_union() {
    let mut Z2 = AlgaeSet::<i32>::mono(Box::new(|x: i32| x % 2 == x));
    let Z3 = AlgaeSet::<i32>::mono(Box::new(|x: i32| x % 3 == x));
    Z2.or(Z3);
    assert!(Z2.has(0));
    assert!(Z2.has(1));
    assert!(Z2.has(2));
}

#[test]
fn encompassing_union() {
    let Z2 = AlgaeSet::<i32>::mono(Box::new(|x: i32| x % 2 == x));
    let mut Z3 = AlgaeSet::<i32>::mono(Box::new(|x: i32| x % 3 == x));
    Z3.or(Z2);
    assert!(Z3.has(0));
    assert!(Z3.has(1));
    assert!(Z3.has(2));
}

#[test]
fn disjoint_union() {
    let mut one = AlgaeSet::<i32>::mono(Box::new(|x: i32| x == 1));
    let two = AlgaeSet::<i32>::mono(Box::new(|x: i32| x == 2));
    one.or(two);
    assert!(one.has(1));
    assert!(one.has(2));
}

#[test]
fn overlapping_intersection() {
    let mut Z2 = AlgaeSet::<i32>::mono(Box::new(|x: i32| x % 2 == x));
    let one = AlgaeSet::<i32>::mono(Box::new(|x: i32| x == 1));
    Z2.and(one);
    assert!(Z2.has(1));
    assert!(!Z2.has(0));
}

#[test]
fn encompassing_intersection() {
    let Z2 = AlgaeSet::<i32>::mono(Box::new(|x: i32| x % 2 == x));
    let mut one = AlgaeSet::<i32>::mono(Box::new(|x: i32| x == 1));
    one.and(Z2);
    assert!(one.has(1));
    assert!(!one.has(0));
}

#[test]
fn disjoint_intersection() {
    let mut one = AlgaeSet::<i32>::mono(Box::new(|x: i32| x == 1));
    let two = AlgaeSet::<i32>::mono(Box::new(|x: i32| x == 2));
    one.and(two);
    assert!(!one.has(1));
    assert!(!one.has(2));
}

#[test]
fn exclusion_wins_over_inclusion() {
    let mut s = AlgaeSet::<i32>::all();
    s.remove(5);
    s.or(AlgaeSet::<i32>::all());
    assert!(!s.has(5));
    assert!(s.has(6));
}

#[test]
fn new_with_several_conditions() {
    let conditions: Vec<Box<dyn Fn(i32) -> bool>> =
        vec![Box::new(|x: i32| x < 0), Box::new(|x: i32| x > 10)];
    let s = AlgaeSet::<i32>::new(conditions);
    assert!(s.has(-3));
    assert!(s.has(11));
    assert!(!s.has(5));
}

#[test]
fn empty_set_has_nothing() {
    let s = AlgaeSet::<i32>::new(vec![]);
    assert!(!s.has(0));
    assert!(!s.has(-7));
}

#[test]
fn remove_keeps_only_inclusions_that_held() {
    let conditions: Vec<Box<dyn Fn(i32) -> bool>> =
        vec![Box::new(|x: i32| x == 1), Box::new(|x: i32| x == 2)];
    let mut s = AlgaeSet::<i32>::new(conditions);
    assert!(s.has(2));
    s.remove(1);
    assert!(!s.has(1));
    assert!(!s.has(2));
}

#[test]
fn remove_twice_keeps_element_out() {
    let mut s = AlgaeSet::<i32>::all();
    s.remove(4);
    s.remove(4);
    assert!(!s.has(4));
    assert!(s.has(3));
}

#[test]
fn add_undoes_earlier_exclusions() {
    let mut s = AlgaeSet::<Real>::all();
    s.and(AlgaeSet::<Real>::mono(Box::new(is_float)));
    assert!(!s.has(Real::UInt(3)));
    s.add(Real::UInt(3));
    assert!(s.has(Real::UInt(3)));
    // the whole exclusion that held of 3 is gone, so it no longer holds 4 out
    assert!(s.has(Real::UInt(4)));
}

#[test]
fn union_is_inclusive() {
    let mut a = AlgaeSet::<Real>::mono(Box::new(is_float));
    let b = AlgaeSet::<Real>::mono(Box::new(is_uint));
    assert!(!a.has(Real::UInt(9)));
    a.or(b);
    assert!(a.has(Real::UInt(9)));
    assert!(a.has(Real::Float(1.5)));
    assert!(!a.has(Real::SInt(-9)));
}

#[test]
fn intersection_is_restrictive() {
    let mut a = AlgaeSet::<i32>::all();
    let b = AlgaeSet::<i32>::mono(Box::new(|x: i32| x > 0));
    a.and(b);
    assert!(!a.has(0));
    assert!(!a.has(-4));
    assert!(a.has(4));
}
