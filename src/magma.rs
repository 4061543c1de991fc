//! Algebraic structures: a set together with an operation that claims the
//! laws the structure needs.

use crate::algaeset::AlgaeSet;
use crate::mapping::{
    declares, invertible_identity, laws_wf, verdict, BinaryOperation, PropertyError, PropertyType,
};
use vstd::prelude::*;

verus! {

/// A structure built on a set and a binary operation; its `with` hands the
/// call to the operation.
pub trait Magmoid<'b, T: Copy + PartialEq + 'b> {
    type Operation: BinaryOperation<'b, T>;

    /// The operation as it stands.
    spec fn operation_of(&self) -> Self::Operation;

    /// Lends out the operation; what is done to it through the loan is
    /// done to the structure's operation.
    fn binop(&mut self) -> (r: &mut Self::Operation)
        ensures
            *r == old(self).operation_of(),
            final(self).operation_of() == *final(r),
    ;

    /// Applies the operation, checking its laws as [`BinaryOperation::with`] does.
    fn with(&mut self, left: T, right: T) -> (r: Result<T, PropertyError>)
        requires
            laws_wf(old(self).operation_of().function(), old(self).operation_of().laws()),
            vstd::laws_eq::obeys_concrete_eq::<T>(),
        ensures
            final(self).operation_of().history() == old(self).operation_of().history().push(left).push(
                right,
            ),
            final(self).operation_of().function() == old(self).operation_of().function(),
            final(self).operation_of().laws() == old(self).operation_of().laws(),
            r == verdict(
                final(self).operation_of().function(),
                final(self).operation_of().laws(),
                final(self).operation_of().history(),
                left,
                right,
            ),
            r matches Ok(v) ==> call_ensures(final(self).operation_of().function(), (left, right), v),
    {
        self.binop().with(left, right)
    }
}

/// A set with an associated binary operation.
pub struct Magma<'a, T, B, F = Box<dyn Fn(T) -> bool>> {
    aset: AlgaeSet<T, F>,
    binop: &'a mut B,
}

impl<'a, 'b, T: Copy + PartialEq + 'b, B: BinaryOperation<'b, T>, F> Magma<'a, T, B, F> {
    /// The set the structure is built on.
    pub closed spec fn set(&self) -> AlgaeSet<T, F> {
        self.aset
    }

    /// Builds the structure from a set and an operation.
    pub fn new(aset: AlgaeSet<T, F>, binop: &'a mut B) -> (r: Self)
        ensures
            r.set() == aset,
            r.operation_of() == *old(binop),
    {
        Self { aset, binop }
    }
}

impl<
    'a,
    'b,
    T: Copy + PartialEq + 'b,
    B: BinaryOperation<'b, T>,
    F,
> Magmoid<'b, T> for Magma<'a, T, B, F> {
    type Operation = B;

    closed spec fn operation_of(&self) -> B {
        *self.binop
    }

    fn binop(&mut self) -> (r: &mut B) {
        self.binop
    }
}

/// A set equipped with a binary operation and a specified identity element.
pub struct UnitalMagma<'a, T, B, F = Box<dyn Fn(T) -> bool>> {
    aset: AlgaeSet<T, F>,
    binop: &'a mut B,
    identity: T,
}

impl<'a, 'b, T: Copy + PartialEq + 'b, B: BinaryOperation<'b, T>, F> UnitalMagma<'a, T, B, F> {
    /// The set the structure is built on.
    pub closed spec fn set(&self) -> AlgaeSet<T, F> {
        self.aset
    }

    /// The identity element the structure was built with.
    pub closed spec fn identity(&self) -> T {
        self.identity
    }

    /// Builds the structure; the operation must claim the laws it needs.
    pub fn new(aset: AlgaeSet<T, F>, binop: &'a mut B, identity: T) -> (r: Self)
        requires
            declares(old(binop).laws(), PropertyType::<'b, T, B::Inverse>::WithIdentity(identity)),
        ensures
            r.set() == aset,
            r.operation_of() == *old(binop),
            r.identity() == identity,
    {
        Self { aset, binop, identity }
    }
}

impl<
    'a,
    'b,
    T: Copy + PartialEq + 'b,
    B: BinaryOperation<'b, T>,
    F,
> Magmoid<'b, T> for UnitalMagma<'a, T, B, F> {
    type Operation = B;

    closed spec fn operation_of(&self) -> B {
        *self.binop
    }

    fn binop(&mut self) -> (r: &mut B) {
        self.binop
    }
}

/// A set equipped with an associative binary operation.
pub struct Groupoid<'a, T, B, F = Box<dyn Fn(T) -> bool>> {
    aset: AlgaeSet<T, F>,
    binop: &'a mut B,
}

impl<'a, 'b, T: Copy + PartialEq + 'b, B: BinaryOperation<'b, T>, F> Groupoid<'a, T, B, F> {
    /// The set the structure is built on.
    pub closed spec fn set(&self) -> AlgaeSet<T, F> {
        self.aset
    }

    /// Builds the structure; the operation must claim the laws it needs.
    pub fn new(aset: AlgaeSet<T, F>, binop: &'a mut B) -> (r: Self)
        requires
            declares(old(binop).laws(), PropertyType::<'b, T, B::Inverse>::Associative),
        ensures
            r.set() == aset,
            r.operation_of() == *old(binop),
    {
        Self { aset, binop }
    }
}

impl<
    'a,
    'b,
    T: Copy + PartialEq + 'b,
    B: BinaryOperation<'b, T>,
    F,
> Magmoid<'b, T> for Groupoid<'a, T, B, F> {
    type Operation = B;

    closed spec fn operation_of(&self) -> B {
        *self.binop
    }

    fn binop(&mut self) -> (r: &mut B) {
        self.binop
    }
}

/// A set equipped with a cancellative binary operation.
pub struct Quasigroup<'a, T, B, F = Box<dyn Fn(T) -> bool>> {
    aset: AlgaeSet<T, F>,
    binop: &'a mut B,
}

impl<'a, 'b, T: Copy + PartialEq + 'b, B: BinaryOperation<'b, T>, F> Quasigroup<'a, T, B, F> {
    /// The set the structure is built on.
    pub closed spec fn set(&self) -> AlgaeSet<T, F> {
        self.aset
    }

    /// Builds the structure; the operation must claim the laws it needs.
    pub fn new(aset: AlgaeSet<T, F>, binop: &'a mut B) -> (r: Self)
        requires
            declares(old(binop).laws(), PropertyType::<'b, T, B::Inverse>::Cancellative),
        ensures
            r.set() == aset,
            r.operation_of() == *old(binop),
    {
        Self { aset, binop }
    }
}

impl<
    'a,
    'b,
    T: Copy + PartialEq + 'b,
    B: BinaryOperation<'b, T>,
    F,
> Magmoid<'b, T> for Quasigroup<'a, T, B, F> {
    type Operation = B;

    closed spec fn operation_of(&self) -> B {
        *self.binop
    }

    fn binop(&mut self) -> (r: &mut B) {
        self.binop
    }
}

/// A set equipped with an associative binary operation with identity.
pub struct Monoid<'a, T, B, F = Box<dyn Fn(T) -> bool>> {
    aset: AlgaeSet<T, F>,
    binop: &'a mut B,
    identity: T,
}

impl<'a, 'b, T: Copy + PartialEq + 'b, B: BinaryOperation<'b, T>, F> Monoid<'a, T, B, F> {
    /// The set the structure is built on.
    pub closed spec fn set(&self) -> AlgaeSet<T, F> {
        self.aset
    }

    /// The identity element the structure was built with.
    pub closed spec fn identity(&self) -> T {
        self.identity
    }

    /// Builds the structure; the operation must claim the laws it needs.
    pub fn new(aset: AlgaeSet<T, F>, binop: &'a mut B, identity: T) -> (r: Self)
        requires
            declares(old(binop).laws(), PropertyType::<'b, T, B::Inverse>::Associative),
            declares(old(binop).laws(), PropertyType::<'b, T, B::Inverse>::WithIdentity(identity)),
        ensures
            r.set() == aset,
            r.operation_of() == *old(binop),
            r.identity() == identity,
    {
        Self { aset, binop, identity }
    }
}

impl<
    'a,
    'b,
    T: Copy + PartialEq + 'b,
    B: BinaryOperation<'b, T>,
    F,
> Magmoid<'b, T> for Monoid<'a, T, B, F> {
    type Operation = B;

    closed spec fn operation_of(&self) -> B {
        *self.binop
    }

    fn binop(&mut self) -> (r: &mut B) {
        self.binop
    }
}

/// A quasigroup with identity.
pub struct Loop<'a, T, B, F = Box<dyn Fn(T) -> bool>> {
    aset: AlgaeSet<T, F>,
    binop: &'a mut B,
    identity: T,
}

impl<'a, 'b, T: Copy + PartialEq + 'b, B: BinaryOperation<'b, T>, F> Loop<'a, T, B, F> {
    /// The set the structure is built on.
    pub closed spec fn set(&self) -> AlgaeSet<T, F> {
        self.aset
    }

    /// The identity element the structure was built with.
    pub closed spec fn identity(&self) -> T {
        self.identity
    }

    /// Builds the structure; the operation must claim the laws it needs.
    pub fn new(aset: AlgaeSet<T, F>, binop: &'a mut B, identity: T) -> (r: Self)
        requires
            declares(old(binop).laws(), PropertyType::<'b, T, B::Inverse>::Cancellative),
            declares(old(binop).laws(), PropertyType::<'b, T, B::Inverse>::WithIdentity(identity)),
        ensures
            r.set() == aset,
            r.operation_of() == *old(binop),
            r.identity() == identity,
    {
        Self { aset, binop, identity }
    }
}

impl<
    'a,
    'b,
    T: Copy + PartialEq + 'b,
    B: BinaryOperation<'b, T>,
    F,
> Magmoid<'b, T> for Loop<'a, T, B, F> {
    type Operation = B;

    closed spec fn operation_of(&self) -> B {
        *self.binop
    }

    fn binop(&mut self) -> (r: &mut B) {
        self.binop
    }
}

/// A monoid with inverses.
pub struct Group<'a, T, B, F = Box<dyn Fn(T) -> bool>> {
    aset: AlgaeSet<T, F>,
    binop: &'a mut B,
    identity: T,
}

impl<'a, 'b, T: Copy + PartialEq + 'b, B: BinaryOperation<'b, T>, F> Group<'a, T, B, F> {
    /// The set the structure is built on.
    pub closed spec fn set(&self) -> AlgaeSet<T, F> {
        self.aset
    }

    /// The identity element the structure was built with.
    pub closed spec fn identity(&self) -> T {
        self.identity
    }

    /// Builds the structure; the operation must claim the laws it needs.
    pub fn new(aset: AlgaeSet<T, F>, binop: &'a mut B, identity: T) -> (r: Self)
        requires
            declares(old(binop).laws(), PropertyType::<'b, T, B::Inverse>::Associative),
            declares(old(binop).laws(), PropertyType::<'b, T, B::Inverse>::WithIdentity(identity)),
            exists|i: int| 0 <= i < old(binop).laws().len() && (#[trigger] old(binop).laws()[i]) is Invertible,
            invertible_identity(old(binop).laws()) == Some(identity),
        ensures
            r.set() == aset,
            r.operation_of() == *old(binop),
            r.identity() == identity,
    {
        Self { aset, binop, identity }
    }
}

impl<
    'a,
    'b,
    T: Copy + PartialEq + 'b,
    B: BinaryOperation<'b, T>,
    F,
> Magmoid<'b, T> for Group<'a, T, B, F> {
    type Operation = B;

    closed spec fn operation_of(&self) -> B {
        *self.binop
    }

    fn binop(&mut self) -> (r: &mut B) {
        self.binop
    }
}

} // verus!
