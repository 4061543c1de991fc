//! Groups, commutative or not.

use crate::algaeset::AlgaeSet;
use crate::magma::Magmoid;
use crate::mapping::{declares, invertible_identity, BinaryOperation, PropertyType};
use vstd::prelude::*;

pub use crate::magma::Group;

verus! {

/// A commutative group
pub struct AbelianGroup<'a, T, B, F = Box<dyn Fn(T) -> bool>> {
    aset: AlgaeSet<T, F>,
    binop: &'a mut B,
    identity: T,
}

impl<'a, 'b, T: Copy + PartialEq + 'b, B: BinaryOperation<'b, T>, F> AbelianGroup<'a, T, B, F> {
    /// The set the structure is built on.
    pub closed spec fn set(&self) -> AlgaeSet<T, F> {
        self.aset
    }

    /// The identity element the structure was built with.
    pub closed spec fn identity(&self) -> T {
        self.identity
    }

    /// Builds the structure; the operation must claim the laws it needs.
    pub fn new(aset: AlgaeSet<T, F>, binop: &'a mut B, identity: T) -> (r: Self)
        requires
            declares(old(binop).laws(), PropertyType::<'b, T, B::Inverse>::Associative),
            declares(old(binop).laws(), PropertyType::<'b, T, B::Inverse>::Commutative),
            declares(old(binop).laws(), PropertyType::<'b, T, B::Inverse>::WithIdentity(identity)),
            exists|i: int| 0 <= i < old(binop).laws().len() && (#[trigger] old(binop).laws()[i]) is Invertible,
            invertible_identity(old(binop).laws()) == Some(identity),
        ensures
            r.set() == aset,
            r.operation_of() == *old(binop),
            r.identity() == identity,
    {
        Self { aset, binop, identity }
    }
}

impl<
    'a,
    'b,
    T: Copy + PartialEq + 'b,
    B: BinaryOperation<'b, T>,
    F,
> Magmoid<'b, T> for AbelianGroup<'a, T, B, F> {
    type Operation = B;

    closed spec fn operation_of(&self) -> B {
        *self.binop
    }

    fn binop(&mut self) -> (r: &mut B) {
        self.binop
    }
}

} // verus!
