use algae::mapping::{
    binop_has_invertible_identity, binop_is_invertible, cayley_product, permutations,
    AbelianOperation, AssociativeOperation, BinaryOperation, CancellativeOperation,
    GroupOperation, IdentityOperation, InvertibleOperation, LoopOperation, MonoidOperation,
    PropertyError, PropertyType,
};

type Law<'a> = PropertyType<'a, i32, fn(i32, i32) -> i32>;

#[test]
fn pair_permutations() {
    let v = &[1, 2, 3];
    let pairs = permutations(v, 2);
    assert!(pairs.contains(&vec![1, 2]));
    assert!(pairs.contains(&vec![3, 2]));
}

#[test]
fn cayley_product_works() {
    let v = vec![1, 2, 3];
    let product = cayley_product(&v);
    assert!(
        product
            == vec![
                vec![1, 1],
                vec![1, 2],
                vec![1, 3],
                vec![2, 1],
                vec![2, 2],
                vec![2, 3],
                vec![3, 1],
                vec![3, 2],
                vec![3, 3]
            ]
    );
}

#[test]
fn permutations_chunks_forward_then_reversed() {
    let v = [1, 2, 3, 4, 5];
    assert_eq!(
        permutations(&v, 2),
        vec![vec![1, 2], vec![3, 4], vec![5, 4], vec![3, 2]]
    );
    assert_eq!(permutations(&v, 3), vec![vec![1, 2, 3], vec![5, 4, 3]]);
    assert_eq!(permutations(&v, 6), Vec::<Vec<i32>>::new());
    assert_eq!(permutations(&[7], 1), vec![vec![7], vec![7]]);
}

#[test]
fn cayley_product_of_nothing_is_empty() {
    let v: Vec<i32> = vec![];
    assert!(cayley_product(&v).is_empty());
}

#[test]
fn commutative_addition_succeeds() {
    let add = |a: i32, b: i32| a + b;
    let mut op = AbelianOperation::new(&add);
    assert!(matches!(op.with(1, 2), Ok(3)));
    assert!(matches!(op.with(3, 4), Ok(7)));
    assert_eq!(op.input_history(), &vec![1, 2, 3, 4]);
}

#[test]
fn subtraction_is_not_commutative() {
    let sub = |a: i32, b: i32| a - b;
    let mut op = AbelianOperation::new(&sub);
    assert!(matches!(op.with(1, 2), Err(PropertyError::CommutativityError)));
    let mut other = AbelianOperation::new(&sub);
    assert!(matches!(other.with(4, 3), Err(PropertyError::CommutativityError)));
}

#[test]
fn equal_arguments_give_no_evidence_against_commutativity() {
    let sub = |a: i32, b: i32| a - b;
    let mut op = AbelianOperation::new(&sub);
    assert!(matches!(op.with(5, 5), Ok(0)));
}

#[test]
fn multiplication_is_associative() {
    let mul = |a: i32, b: i32| a * b;
    let mut op = AssociativeOperation::new(&mul);
    assert!(matches!(op.with(2, 3), Ok(6)));
    assert!(matches!(op.with(4, 5), Ok(20)));
    assert!(matches!(op.with(7, 1), Ok(7)));
}

#[test]
fn float_division_is_not_associative() {
    let div = |a: f32, b: f32| a / b;
    let mut op = AssociativeOperation::new(&div);
    let whole = op.with(4.0, 2.0);
    assert!(matches!(whole, Ok(x) if x == 2.0));
    assert!(matches!(op.with(3.0, 1.0), Err(PropertyError::AssociativityError)));
}

#[test]
fn failed_call_still_counts_as_evidence() {
    let sub = |a: i32, b: i32| a - b;
    let mut op = AssociativeOperation::new(&sub);
    assert!(matches!(op.with(1, 2), Ok(-1)));
    assert!(op.with(3, 4).is_err());
    assert_eq!(op.input_history(), &vec![1, 2, 3, 4]);
    assert!(op.with(0, 0).is_err());
}

#[test]
fn cancellative_multiplication() {
    let mul = |a: i32, b: i32| a * b;
    let mut op = CancellativeOperation::new(&mul);
    assert!(matches!(op.with(2, 3), Ok(6)));
}

#[test]
fn zero_multiplication_is_not_cancellative() {
    let mul = |a: i32, b: i32| a * b;
    let mut op = CancellativeOperation::new(&mul);
    assert!(matches!(op.with(0, 1), Ok(0)));
    assert!(matches!(op.with(2, 5), Err(PropertyError::CancellativityError)));
}

#[test]
fn identity_check() {
    let add = |a: i32, b: i32| a + b;
    let mut good = IdentityOperation::new(&add, 0);
    assert!(matches!(good.with(1, 2), Ok(3)));
    let mut bad = IdentityOperation::new(&add, 3);
    assert!(matches!(bad.with(4, 2), Err(PropertyError::IdentityError)));
    assert!(matches!(bad.with(0, 0), Err(PropertyError::IdentityError)));
}

#[test]
fn monoid_and_loop_operations() {
    let mul = |a: i32, b: i32| a * b;
    let add = |a: i32, b: i32| a + b;
    let mut monoid = MonoidOperation::new(&mul, 1);
    assert!(matches!(monoid.with(2, 3), Ok(6)));
    let mut bad_monoid = MonoidOperation::new(&add, 3);
    assert!(matches!(bad_monoid.with(4, 2), Err(PropertyError::IdentityError)));
    let mut lp = LoopOperation::new(&mul, 1);
    assert!(matches!(lp.with(2, 3), Ok(6)));
    let mut bad_loop = LoopOperation::new(&add, 3);
    assert!(matches!(bad_loop.with(4, 2), Err(PropertyError::IdentityError)));
}

#[test]
fn invertibility_check() {
    let add = |a: i32, b: i32| a + b;
    let sub = |a: i32, b: i32| a - b;
    let mul = |a: i32, b: i32| a * b;
    let mut good = InvertibleOperation::new(&add, &sub, 0);
    assert!(matches!(good.with(4, 3), Ok(7)));
    let mut bad = InvertibleOperation::new(&add, &mul, 0);
    assert!(matches!(bad.with(4, 2), Err(PropertyError::InvertibilityError)));
}

#[test]
fn group_operation_checks_every_law() {
    let add = |a: i32, b: i32| a + b;
    let sub = |a: i32, b: i32| a - b;
    let mul = |a: i32, b: i32| a * b;
    let mut group = GroupOperation::new(&add, &sub, 0);
    assert!(matches!(group.with(1, 2), Ok(3)));
    assert!(matches!(group.with(1, -1), Ok(0)));
    let mut bad = GroupOperation::new(&add, &mul, 0);
    assert!(matches!(bad.with(3, 2), Err(PropertyError::InvertibilityError)));
}

#[test]
fn first_failing_law_is_reported() {
    let sub = |a: i32, b: i32| a - b;
    let mut group = GroupOperation::new(&sub, &sub, 0);
    assert!(matches!(group.with(5, 6), Err(PropertyError::IdentityError)));
}

#[test]
fn invertibility_capabilities() {
    let add = |a: i32, b: i32| a + b;
    let sub = |a: i32, b: i32| a - b;
    let mul = |a: i32, b: i32| a * b;
    let inv = InvertibleOperation::new(&add, &sub, 0);
    assert!(binop_is_invertible(&inv));
    assert!(binop_has_invertible_identity(&inv, 0));
    let other = InvertibleOperation::new(&add, &sub, 123);
    assert!(!binop_has_invertible_identity(&other, 0));
    let assoc = AssociativeOperation::new(&mul);
    assert!(!binop_is_invertible(&assoc));
}

#[test]
fn declared_laws_match_by_kind() {
    let add = |a: i32, b: i32| a + b;
    let abelian = AbelianOperation::new(&add);
    assert!(abelian.is(PropertyType::Commutative));
    assert!(abelian.is(PropertyType::Abelian));
    assert!(!abelian.is(PropertyType::Associative));
    let monoid = MonoidOperation::new(&add, 0);
    assert!(monoid.is(PropertyType::WithIdentity(5)));
    assert!(!monoid.is(PropertyType::Cancellative));
    assert_eq!(monoid.properties().len(), 2);
}

#[test]
fn law_equality_ignores_payload() {
    let a: Law = PropertyType::WithIdentity(1);
    let b: Law = PropertyType::WithIdentity(2);
    assert!(a == b);
    let c: Law = PropertyType::Commutative;
    let d: Law = PropertyType::Abelian;
    assert!(c == d);
    assert!(!(a == c));
    let inv: fn(i32, i32) -> i32 = |x, y| x - y;
    let e: Law = PropertyType::Invertible(0, &inv);
    let f: Law = PropertyType::Invertible(9, &inv);
    assert!(e == f);
    assert!(!(e == a));
}

#[test]
fn holds_over_single_laws() {
    let sub = |a: i32, b: i32| a - b;
    let comm: Law = PropertyType::Commutative;
    assert!(!comm.holds_over(&sub, &vec![1, 2]));
    assert!(comm.holds_over(&sub, &vec![1]));
    let ident: Law = PropertyType::WithIdentity(0);
    assert!(ident.holds_over(&sub, &vec![]));
    assert!(!ident.holds_over(&sub, &vec![3]));
    assert!(ident.holds_over(&sub, &vec![0]));
}

#[test]
fn error_messages() {
    assert_eq!(
        PropertyError::CommutativityError.message(),
        "Operation is not commutative!"
    );
    assert_eq!(
        PropertyError::AssociativityError.message(),
        "Operation is not associative!"
    );
    assert_eq!(
        PropertyError::CancellativityError.message(),
        "Operation is not cancellative!"
    );
    assert_eq!(
        PropertyError::IdentityError.message(),
        "Operation has no valid identity!"
    );
    assert_eq!(
        PropertyError::InvertibilityError.message(),
        "Operation is not invertible!"
    );
    assert_eq!(
        PropertyError::Other(String::from("custom")).message(),
        "custom"
    );
}
