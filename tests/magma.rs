use algae::algaeset::AlgaeSet;
use algae::group;
use algae::magma::{Group, Groupoid, Loop, Magma, Magmoid, Monoid, Quasigroup, UnitalMagma};
use algae::mapping::{
    AbelianOperation, AssociativeOperation, BinaryOperation, CancellativeOperation,
    GroupOperation, IdentityOperation, LoopOperation, MonoidOperation,
};

#[test]
fn magma_adds() {
    let f = |a: i32, b: i32| a + b;
    let mut add = AbelianOperation::new(&f);
    let mut magma = Magma::new(AlgaeSet::<i32>::all(), &mut add);
    assert!(matches!(magma.with(1, 2), Ok(3)));
    assert_eq!(add.input_history(), &vec![1, 2]);
}

#[test]
fn unital_magma_checks_identity() {
    let f = |a: i32, b: i32| a + b;
    let mut add = IdentityOperation::new(&f, 0);
    let mut magma = UnitalMagma::new(AlgaeSet::<i32>::all(), &mut add, 0);
    assert!(matches!(magma.with(1, 2), Ok(3)));
    let mut bad_add = IdentityOperation::new(&f, 3);
    let mut bad_magma = UnitalMagma::new(AlgaeSet::<i32>::all(), &mut bad_add, 3);
    assert!(bad_magma.with(2, 3).is_err());
}

#[test]
fn groupoid_checks_associativity() {
    let f = |a: i32, b: i32| a + b;
    let mut add = AssociativeOperation::new(&f);
    let mut groupoid = Groupoid::new(AlgaeSet::<i32>::all(), &mut add);
    assert!(matches!(groupoid.with(1, 2), Ok(3)));
    let d = |a: f32, b: f32| a / b;
    let mut div = AssociativeOperation::new(&d);
    let mut bad_groupoid = Groupoid::new(AlgaeSet::<f32>::all(), &mut div);
    assert!(matches!(bad_groupoid.with(1.0, 2.0), Ok(x) if x == 0.5));
    assert!(bad_groupoid.with(3.0, 6.0).is_err());
}

#[test]
fn quasigroup_and_loop_add() {
    let f = |a: i32, b: i32| a + b;
    let mut add = CancellativeOperation::new(&f);
    let mut quasigroup = Quasigroup::new(AlgaeSet::<i32>::all(), &mut add);
    assert!(matches!(quasigroup.with(1, 2), Ok(3)));
    let mut loop_add = LoopOperation::new(&f, 0);
    let mut lp = Loop::new(AlgaeSet::<i32>::all(), &mut loop_add, 0);
    assert!(matches!(lp.with(1, 2), Ok(3)));
}

#[test]
fn monoid_checks_identity() {
    let f = |a: i32, b: i32| a + b;
    let mut add = MonoidOperation::new(&f, 0);
    let mut monoid = Monoid::new(AlgaeSet::<i32>::all(), &mut add, 0);
    assert!(matches!(monoid.with(1, 2), Ok(3)));
    let mut bad_add = MonoidOperation::new(&f, 1);
    let mut bad_monoid = Monoid::new(AlgaeSet::<i32>::all(), &mut bad_add, 1);
    assert!(bad_monoid.with(1, 2).is_err());
}

#[test]
fn group_checks_inverses() {
    let f = |a: i32, b: i32| a + b;
    let g = |a: i32, b: i32| a - b;
    let h = |a: i32, b: i32| a * b;
    let mut add = GroupOperation::new(&f, &g, 0);
    let mut grp = Group::new(AlgaeSet::<i32>::all(), &mut add, 0);
    assert!(matches!(grp.with(1, 2), Ok(3)));
    assert!(matches!(grp.with(1, -1), Ok(0)));
    let mut bad_add = GroupOperation::new(&f, &h, 0);
    let mut bad_group = group::Group::new(AlgaeSet::<i32>::all(), &mut bad_add, 0);
    assert!(bad_group.with(3, 2).is_err());
    assert!(bad_group.with(1, -1).is_err());
}
