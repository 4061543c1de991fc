//! Sets described by inclusion and exclusion conditions.

use vstd::prelude::*;

verus! {

/// Whether `f` behaves as a total, deterministic predicate on `E`.
pub open spec fn is_predicate<E, F: Fn(E) -> bool>(f: F) -> bool {
    &&& forall|e: E| #[trigger] call_requires(f, (e,))
    &&& forall|e: E|
        #![trigger call_ensures(f, (e,), true)]
        #![trigger call_ensures(f, (e,), false)]
        !(call_ensures(f, (e,), true) && call_ensures(f, (e,), false))
}

/// One condition of an [`AlgaeSet`].
pub enum Condition<E, F> {
    /// Holds where the caller's predicate returns `true`.
    Satisfies(F),
    /// Holds everywhere.
    Anything,
    /// Holds at exactly one value.
    Equals(E),
    /// Holds on the members of another set.
    Within(Box<AlgaeSet<E, F>>),
    /// Holds outside another set.
    Outside(Box<AlgaeSet<E, F>>),
}

/// A set described by inclusion and exclusion conditions.
///
/// An element is a member when no exclusion condition holds of it and at
/// least one inclusion condition does.
pub struct AlgaeSet<E, F = Box<dyn Fn(E) -> bool>> {
    pos_conditions: Vec<Condition<E, F>>,
    neg_conditions: Vec<Condition<E, F>>,
}

/// The mathematical content of an [`AlgaeSet`]: its two lists of conditions.
pub struct SetView<E, F> {
    pub inclusion: Seq<Condition<E, F>>,
    pub exclusion: Seq<Condition<E, F>>,
}

/// The conditions of `conds` whose verdict on `e` is `keep`, in their order.
pub open spec fn kept<E, F: Fn(E) -> bool>(
    conds: Seq<Condition<E, F>>,
    e: E,
    keep: bool,
) -> Seq<Condition<E, F>> {
    conds.filter(|c: Condition<E, F>| c.matches(e) == keep)
}

impl<E, F: Fn(E) -> bool> SetView<E, F> {
    /// Membership: exclusion wins over inclusion.
    pub open spec fn member(self, e: E) -> bool {
        &&& forall|i: int| 0 <= i < self.exclusion.len() ==> !(#[trigger] self.exclusion[i]).matches(e)
        &&& exists|i: int| 0 <= i < self.inclusion.len() && (#[trigger] self.inclusion[i]).matches(e)
    }

    /// Exclusion conditions that hold of `e` are dropped and `x == e` is included.
    pub open spec fn with_element(self, e: E) -> Self {
        SetView {
            inclusion: self.inclusion.push(Condition::Equals(e)),
            exclusion: kept(self.exclusion, e, false),
        }
    }

    /// Inclusion conditions that fail on `e` are dropped and `x == e` is excluded.
    pub open spec fn without_element(self, e: E) -> Self {
        SetView {
            inclusion: kept(self.inclusion, e, true),
            exclusion: self.exclusion.push(Condition::Equals(e)),
        }
    }

    /// Membership of `other` becomes one more inclusion condition.
    pub open spec fn united(self, other: AlgaeSet<E, F>) -> Self {
        SetView { inclusion: self.inclusion.push(Condition::Within(Box::new(other))), ..self }
    }

    /// Non-membership of `other` becomes one more exclusion condition.
    pub open spec fn intersected(self, other: AlgaeSet<E, F>) -> Self {
        SetView { exclusion: self.exclusion.push(Condition::Outside(Box::new(other))), ..self }
    }

    /// Every condition is well formed.
    pub open spec fn wf(self) -> bool {
        &&& forall|i: int| 0 <= i < self.exclusion.len() ==> (#[trigger] self.exclusion[i]).wf()
        &&& forall|i: int| 0 <= i < self.inclusion.len() ==> (#[trigger] self.inclusion[i]).wf()
    }
}

impl<E, F: Fn(E) -> bool> View for AlgaeSet<E, F> {
    type V = SetView<E, F>;

    closed spec fn view(&self) -> SetView<E, F> {
        SetView { inclusion: self.pos_conditions@, exclusion: self.neg_conditions@ }
    }
}

impl<E, F: Fn(E) -> bool> Condition<E, F> {
    /// Every predicate reachable from this condition is total and deterministic.
    pub open spec fn wf(&self) -> bool
        decreases self,
    {
        match self {
            Condition::Satisfies(f) => is_predicate(*f),
            Condition::Within(s) => s.wf(),
            Condition::Outside(s) => s.wf(),
            _ => true,
        }
    }

    /// Whether the condition holds of `e`.
    pub open spec fn matches(&self, e: E) -> bool
        decreases self,
    {
        match self {
            Condition::Satisfies(f) => call_ensures(*f, (e,), true),
            Condition::Anything => true,
            Condition::Equals(v) => e == *v,
            Condition::Within(s) => s.contains(e),
            Condition::Outside(s) => !s.contains(e),
        }
    }
}

impl<E, F: Fn(E) -> bool> AlgaeSet<E, F> {
    /// Every condition is well formed.
    pub closed spec fn wf(&self) -> bool
        decreases self,
    {
        &&& forall|i: int|
            0 <= i < self.neg_conditions@.len() ==> (#[trigger] self.neg_conditions@[i]).wf()
        &&& forall|i: int|
            0 <= i < self.pos_conditions@.len() ==> (#[trigger] self.pos_conditions@[i]).wf()
    }

    /// Membership, read off the conditions themselves.
    pub closed spec fn contains(&self, e: E) -> bool
        decreases self,
    {
        &&& forall|i: int|
            0 <= i < self.neg_conditions@.len() ==> !(#[trigger] self.neg_conditions@[i]).matches(e)
        &&& exists|i: int|
            0 <= i < self.pos_conditions@.len() && (#[trigger] self.pos_conditions@[i]).matches(e)
    }

    /// The view holds the set's conditions, and its membership and
    /// well-formedness are the set's own.
    proof fn lemma_view(&self)
        ensures
            self@.inclusion == self.pos_conditions@,
            self@.exclusion == self.neg_conditions@,
            self.wf() == self@.wf(),
            forall|e: E| self.contains(e) == #[trigger] self@.member(e),
    {
    }
}

impl<E: Copy + PartialEq, F: Fn(E) -> bool> Condition<E, F> {
    /// Tests the condition on `element`.
    pub fn test(&self, element: E) -> (r: bool)
        requires
            self.wf(),
            vstd::laws_eq::obeys_concrete_eq::<E>(),
        ensures
            r == self.matches(element),
        decreases self,
    {
        match self {
            Condition::Satisfies(f) => f(element),
            Condition::Anything => true,
            Condition::Equals(v) => {
                proof {
                    reveal(vstd::laws_eq::obeys_concrete_eq);
                }
                element == *v
            },
            Condition::Within(s) => {
                proof {
                    s.lemma_view();
                }
                s.has(element)
            },
            Condition::Outside(s) => {
                proof {
                    s.lemma_view();
                }
                !s.has(element)
            },
        }
    }
}

impl<E, F: Fn(E) -> bool> AlgaeSet<E, F> {
    /// Returns an AlgaeSet defined by a `Vec` of conditions
    pub fn new(pos_conditions: Vec<F>) -> (r: Self)
        requires
            forall|i: int| 0 <= i < pos_conditions.len() ==> is_predicate(#[trigger] pos_conditions[i]),
        ensures
            r@.inclusion == pos_conditions@.map_values(|f: F| Condition::<E, F>::Satisfies(f)),
            r@.exclusion == Seq::<Condition<E, F>>::empty(),
            r@.wf(),
    {
        let ghost given = pos_conditions@;
        let mut rest = pos_conditions;
        let mut conds: Vec<Condition<E, F>> = Vec::new();
        while rest.len() > 0
            invariant
                rest.len() <= given.len(),
                rest@ == given.subrange(given.len() - rest.len(), given.len() as int),
                conds@ == given.subrange(0, given.len() - rest.len()).map_values(
                    |f: F| Condition::<E, F>::Satisfies(f),
                ),
                forall|i: int| 0 <= i < given.len() ==> is_predicate(#[trigger] given[i]),
            decreases rest.len(),
        {
            let ghost done = given.len() - rest.len();
            let f = rest.remove(0);
            conds.push(Condition::Satisfies(f));
            assert(given.subrange(0, done + 1) =~= given.subrange(0, done).push(given[done]));
            assert(rest@ =~= given.subrange(done + 1, given.len() as int));
        }
        assert(given.subrange(0, given.len() as int) =~= given);
        let r = Self { pos_conditions: conds, neg_conditions: Vec::new() };
        proof {
            r.lemma_view();
        }
        r
    }

    /// Returns an AlgaeSet defined by a single condition
    pub fn mono(condition: F) -> (r: Self)
        requires
            is_predicate(condition),
        ensures
            r@.inclusion == seq![Condition::<E, F>::Satisfies(condition)],
            r@.exclusion == Seq::<Condition<E, F>>::empty(),
            r@.wf(),
    {
        let v = vec![condition];
        assert(v@.map_values(|f: F| Condition::<E, F>::Satisfies(f)) =~= seq![
            Condition::<E, F>::Satisfies(condition),
        ]);
        Self::new(v)
    }

    /// Returns an AlgaeSet containing all members of the type `E`
    pub fn all() -> (r: Self)
        ensures
            r@.inclusion == seq![Condition::<E, F>::Anything],
            r@.exclusion == Seq::<Condition<E, F>>::empty(),
            r@.wf(),
    {
        let r = Self { pos_conditions: vec![Condition::Anything], neg_conditions: Vec::new() };
        proof {
            r.lemma_view();
            assert(r.pos_conditions@ =~= seq![Condition::<E, F>::Anything]);
        }
        r
    }
}

/// The conditions of `conds` whose verdict on `element` is `keep`, in their order.
fn filtered<E: Copy + PartialEq, F: Fn(E) -> bool>(
    conds: Vec<Condition<E, F>>,
    element: E,
    keep: bool,
) -> (r: Vec<Condition<E, F>>)
    requires
        forall|i: int| 0 <= i < conds.len() ==> (#[trigger] conds@[i]).wf(),
        vstd::laws_eq::obeys_concrete_eq::<E>(),
    ensures
        r@ == kept(conds@, element, keep),
        forall|i: int| 0 <= i < r.len() ==> (#[trigger] r@[i]).wf(),
{
    let ghost given = conds@;
    let mut rest = conds;
    let mut out: Vec<Condition<E, F>> = Vec::new();
    while rest.len() > 0
        invariant
            rest.len() <= given.len(),
            rest@ == given.subrange(given.len() - rest.len(), given.len() as int),
            out@ == kept(given.subrange(0, given.len() - rest.len()), element, keep),
            forall|i: int| 0 <= i < out.len() ==> (#[trigger] out@[i]).wf(),
            forall|i: int| 0 <= i < given.len() ==> (#[trigger] given[i]).wf(),
            vstd::laws_eq::obeys_concrete_eq::<E>(),
        decreases rest.len(),
    {
        let ghost done = given.len() - rest.len();
        assert(rest@[0] == given[done]);
        let c = rest.remove(0);
        let verdict = c.test(element);
        if verdict == keep {
            out.push(c);
        }
        proof {
            let prefix = given.subrange(0, done + 1);
            assert(prefix.drop_last() =~= given.subrange(0, done));
            assert(prefix.last() == given[done]);
            reveal(Seq::filter);
            assert(rest@ =~= given.subrange(done + 1, given.len() as int));
        }
    }
    assert(given.subrange(0, given.len() as int) =~= given);
    out
}

impl<E: Copy + PartialEq, F: Fn(E) -> bool> AlgaeSet<E, F> {
    /// Returns whether or not `element` is in the given set
    pub fn has(&self, element: E) -> (r: bool)
        requires
            self@.wf(),
            vstd::laws_eq::obeys_concrete_eq::<E>(),
        ensures
            r == self@.member(element),
        decreases self,
    {
        proof {
            self.lemma_view();
        }
        let mut i: usize = 0;
        while i < self.neg_conditions.len()
            invariant
                self.wf(),
                vstd::laws_eq::obeys_concrete_eq::<E>(),
                0 <= i <= self.neg_conditions.len(),
                forall|j: int| 0 <= j < i ==> !(#[trigger] self.neg_conditions@[j]).matches(element),
            decreases self.neg_conditions.len() - i,
        {
            proof {
                assert(self.neg_conditions@[i as int].wf());
            }
            if self.neg_conditions[i].test(element) {
                assert(self@.exclusion[i as int].matches(element));
                return false;
            }
            i += 1;
        }
        let mut k: usize = 0;
        while k < self.pos_conditions.len()
            invariant
                self.wf(),
                vstd::laws_eq::obeys_concrete_eq::<E>(),
                0 <= k <= self.pos_conditions.len(),
                forall|j: int| 0 <= j < self.neg_conditions.len() ==> !(#[trigger] self.neg_conditions@[j]).matches(element),
                forall|j: int| 0 <= j < k ==> !(#[trigger] self.pos_conditions@[j]).matches(element),
            decreases self.pos_conditions.len() - k,
        {
            proof {
                assert(self.pos_conditions@[k as int].wf());
            }
            if self.pos_conditions[k].test(element) {
                assert(self@.inclusion[k as int].matches(element));
                return true;
            }
            k += 1;
        }
        false
    }

    /// Adds `element` to the given set
    pub fn add(&mut self, element: E)
        requires
            old(self)@.wf(),
            vstd::laws_eq::obeys_concrete_eq::<E>(),
        ensures
            final(self)@ == old(self)@.with_element(element),
            final(self)@.wf(),
    {
        proof {
            self.lemma_view();
        }
        let mut neg: Vec<Condition<E, F>> = Vec::new();
        std::mem::swap(&mut neg, &mut self.neg_conditions);
        self.neg_conditions = filtered(neg, element, false);
        self.pos_conditions.push(Condition::Equals(element));
        proof {
            self.lemma_view();
        }
    }

    /// Removes `element` from the given set
    ///
    /// Inclusion conditions that do not hold of `element` are dropped as well.
    pub fn remove(&mut self, element: E)
        requires
            old(self)@.wf(),
            vstd::laws_eq::obeys_concrete_eq::<E>(),
        ensures
            final(self)@ == old(self)@.without_element(element),
            final(self)@.wf(),
    {
        proof {
            self.lemma_view();
        }
        let mut pos: Vec<Condition<E, F>> = Vec::new();
        std::mem::swap(&mut pos, &mut self.pos_conditions);
        self.pos_conditions = filtered(pos, element, true);
        self.neg_conditions.push(Condition::Equals(element));
        proof {
            self.lemma_view();
        }
    }

    /// Adds all elements from `other` to `self`
    pub fn or(&mut self, other: Self)
        requires
            old(self)@.wf(),
            other@.wf(),
        ensures
            final(self)@ == old(self)@.united(other),
            final(self)@.wf(),
    {
        proof {
            self.lemma_view();
            other.lemma_view();
        }
        self.pos_conditions.push(Condition::Within(Box::new(other)));
        proof {
            self.lemma_view();
        }
    }

    /// Removes all elements from `self` that aren't in `other`
    pub fn and(&mut self, other: Self)
        requires
            old(self)@.wf(),
            other@.wf(),
        ensures
            final(self)@ == old(self)@.intersected(other),
            final(self)@.wf(),
    {
        proof {
            self.lemma_view();
            other.lemma_view();
        }
        self.neg_conditions.push(Condition::Outside(Box::new(other)));
        proof {
            self.lemma_view();
        }
    }
}

/// An exclusion condition that holds of `e` keeps `e` out, whatever the
/// inclusion conditions say.
pub proof fn lemma_exclusion_wins<E, F: Fn(E) -> bool>(s: SetView<E, F>, e: E, i: int)
    requires
        0 <= i < s.exclusion.len(),
        s.exclusion[i].matches(e),
    ensures
        !s.member(e),
{
}

/// Right after `add(e)`, `e` is a member.
pub proof fn lemma_add_then_has<E, F: Fn(E) -> bool>(s: SetView<E, F>, e: E)
    ensures
        s.with_element(e).member(e),
{
    let t = s.with_element(e);
    assert(t.inclusion[t.inclusion.len() - 1].matches(e));
    assert forall|i: int| 0 <= i < t.exclusion.len() implies !(#[trigger] t.exclusion[i]).matches(
        e,
    ) by {
        s.exclusion.lemma_filter_pred(|c: Condition<E, F>| c.matches(e) == false, i);
    }
}

/// Right after `remove(e)`, `e` is not a member.
pub proof fn lemma_remove_then_has<E, F: Fn(E) -> bool>(s: SetView<E, F>, e: E)
    ensures
        !s.without_element(e).member(e),
{
    let t = s.without_element(e);
    lemma_exclusion_wins(t, e, t.exclusion.len() - 1);
}

/// An element that was removed comes back when it is added again.
pub proof fn lemma_remove_then_add<E, F: Fn(E) -> bool>(s: SetView<E, F>, e: E)
    ensures
        s.without_element(e).with_element(e).member(e),
{
    lemma_add_then_has(s.without_element(e), e);
}

/// Removing an element twice leaves it out.
pub proof fn lemma_remove_twice<E, F: Fn(E) -> bool>(s: SetView<E, F>, e: E)
    ensures
        !s.without_element(e).without_element(e).member(e),
{
    lemma_remove_then_has(s.without_element(e), e);
}

/// After a union, the members of `other` that `s` does not exclude are members.
pub proof fn lemma_union_inclusive<E, F: Fn(E) -> bool>(
    s: SetView<E, F>,
    other: AlgaeSet<E, F>,
    x: E,
)
    requires
        other@.member(x),
        forall|i: int| 0 <= i < s.exclusion.len() ==> !(#[trigger] s.exclusion[i]).matches(x),
    ensures
        s.united(other).member(x),
{
    other.lemma_view();
    let t = s.united(other);
    assert(t.inclusion[t.inclusion.len() - 1].matches(x));
}

/// After an intersection, what `other` lacks is not a member.
pub proof fn lemma_intersection_restrictive<E, F: Fn(E) -> bool>(
    s: SetView<E, F>,
    other: AlgaeSet<E, F>,
    x: E,
)
    requires
        !other@.member(x),
    ensures
        !s.intersected(other).member(x),
{
    other.lemma_view();
    let t = s.intersected(other);
    lemma_exclusion_wins(t, x, t.exclusion.len() - 1);
}

} // verus!
