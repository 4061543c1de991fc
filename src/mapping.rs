//! Binary operations that check the laws they claim against every input
//! they have been given.

use vstd::prelude::*;

verus! {

/// Whether `f` behaves as a total, deterministic binary operation on `T`.
pub open spec fn is_operation<T, F: Fn(T, T) -> T>(f: F) -> bool {
    &&& forall|a: T, b: T| #[trigger] call_requires(f, (a, b))
    &&& forall|a: T, b: T, x: T, y: T|
        #![trigger call_ensures(f, (a, b), x), call_ensures(f, (a, b), y)]
        call_ensures(f, (a, b), x) && call_ensures(f, (a, b), y) ==> x == y
}

/// The value of `f` at `(a, b)`.
pub open spec fn app<T, F: Fn(T, T) -> T>(f: F, a: T, b: T) -> T {
    choose|r: T| call_ensures(f, (a, b), r)
}

/// Compares two values with `==`, which for `T` is equality.
fn same<T: PartialEq>(a: T, b: T) -> (r: bool)
    requires
        vstd::laws_eq::obeys_concrete_eq::<T>(),
    ensures
        r == (a == b),
{
    proof {
        reveal(vstd::laws_eq::obeys_concrete_eq);
    }
    a == b
}

/// Calls `f` on `(a, b)`.
fn apply<T, F: Fn(T, T) -> T>(f: &F, a: T, b: T) -> (r: T)
    requires
        is_operation(*f),
    ensures
        r == app(*f, a, b),
        call_ensures(*f, (a, b), r),
{
    let r = f(a, b);
    assert(call_ensures(*f, (a, b), r));
    r
}

/// The consecutive, non-overlapping blocks of exactly `k` elements of `s`;
/// a shorter block at the end is left out.
pub open spec fn blocks<T>(s: Seq<T>, k: nat) -> Seq<Seq<T>>
    recommends
        k > 0,
{
    Seq::new(s.len() / k, |i: int| s.subrange(i * k, i * k + k))
}

/// The tuples that the laws are tested on: the blocks of `s`, then the
/// blocks of `s` reversed.
pub open spec fn groupings<T>(s: Seq<T>, k: nat) -> Seq<Seq<T>>
    recommends
        k > 0,
{
    blocks(s, k) + blocks(s.reverse(), k)
}

/// Each sampled tuple holds exactly `k` elements.
pub proof fn lemma_grouping_len<T>(s: Seq<T>, k: nat, i: int)
    requires
        k > 0,
        0 <= i < groupings(s, k).len(),
    ensures
        groupings(s, k)[i].len() == k,
{
    let n = s.len() as int;
    let q = n / (k as int);
    assert(q * k <= n) by (nonlinear_arith)
        requires
            q == n / (k as int),
            k > 0,
            n >= 0,
    ;
    if i < q {
        assert(i * k + k <= q * k) by (nonlinear_arith)
            requires
                i < q,
                k > 0,
        ;
        assert(0 <= i * k) by (nonlinear_arith)
            requires
                0 <= i,
                k > 0,
        ;
    } else {
        let j = i - q;
        assert(j < q);
        assert(j * k + k <= q * k) by (nonlinear_arith)
            requires
                j < q,
                k > 0,
        ;
        assert(0 <= j * k) by (nonlinear_arith)
            requires
                0 <= j,
                k > 0,
        ;
    }
}

/// Every ordered pair of elements of `s`, the first element varying slowest.
pub open spec fn pairs<T>(s: Seq<T>) -> Seq<Seq<T>> {
    Seq::new(s.len() * s.len(), |i: int| seq![s[i / s.len() as int], s[i % s.len() as int]])
}

/// The blocks of exactly `k` elements of `s`, copied out in order.
fn blocks_of<T: Copy>(s: &[T], k: usize) -> (r: Vec<Vec<T>>)
    requires
        k > 0,
    ensures
        r@.map_values(|v: Vec<T>| v@) == blocks(s@, k as nat),
{
    let n = s.len();
    let mut r: Vec<Vec<T>> = Vec::new();
    let mut start: usize = 0;
    assert(start == r.len() * k) by (nonlinear_arith)
        requires
            start == 0,
            r.len() == 0,
    ;
    while k <= n - start
        invariant
            k > 0,
            n == s@.len(),
            start <= n,
            start == r.len() * k,
            forall|b: int|
                0 <= b < r.len() ==> (#[trigger] r@[b])@ == s@.subrange(b * k, b * k + k),
        decreases n - start,
    {
        let mut block: Vec<T> = Vec::new();
        let mut j: usize = 0;
        while j < k
            invariant
                k > 0,
                n == s@.len(),
                start + k <= n,
                j <= k,
                block@ == s@.subrange(start as int, start + j),
            decreases k - j,
        {
            block.push(s[start + j]);
            j += 1;
            assert(block@ =~= s@.subrange(start as int, start + j));
        }
        proof {
            assert(start + k == (r.len() + 1) * k) by (nonlinear_arith)
                requires
                    start == r.len() * k,
            ;
        }
        r.push(block);
        start = start + k;
    }
    proof {
        let b = r.len() as int;
        assert((n as int) / (k as int) == b) by (nonlinear_arith)
            requires
                start == b * k,
                start <= n,
                n - start < k,
                k > 0,
        ;
        assert(r@.map_values(|v: Vec<T>| v@) =~= blocks(s@, k as nat));
    }
    r
}

/// Splits `collection` into blocks of `group_size` elements, then its
/// reverse the same way, and returns both lists of blocks in turn.
pub fn permutations<T: Copy>(collection: &[T], group_size: usize) -> (r: Vec<Vec<T>>)
    requires
        group_size > 0,
    ensures
        r@.map_values(|v: Vec<T>| v@) == groupings(collection@, group_size as nat),
{
    let mut groupings = blocks_of(collection, group_size);
    let mut reversed_collection: Vec<T> = Vec::new();
    let mut i: usize = collection.len();
    while i > 0
        invariant
            i <= collection@.len(),
            reversed_collection@ == collection@.subrange(i as int, collection@.len() as int).reverse(),
        decreases i,
    {
        i -= 1;
        reversed_collection.push(collection[i]);
        assert(reversed_collection@ =~= collection@.subrange(i as int, collection@.len() as int).reverse());
    }
    assert(collection@.subrange(0, collection@.len() as int) =~= collection@);
    let mut second = blocks_of(reversed_collection.as_slice(), group_size);
    let ghost first_view = groupings@.map_values(|v: Vec<T>| v@);
    let ghost second_view = second@.map_values(|v: Vec<T>| v@);
    groupings.append(&mut second);
    assert(groupings@.map_values(|v: Vec<T>| v@) =~= first_view + second_view);
    groupings
}

/// Every ordered pair of elements of `collection`.
pub fn cayley_product<T: Copy>(collection: &Vec<T>) -> (r: Vec<Vec<T>>)
    requires
        collection.len() * collection.len() <= usize::MAX,
    ensures
        r@.map_values(|v: Vec<T>| v@) == pairs(collection@),
{
    let n = collection.len();
    let mut out: Vec<Vec<T>> = Vec::new();
    let mut x: usize = 0;
    while x < n
        invariant
            n == collection@.len(),
            n * n <= usize::MAX,
            x <= n,
            out.len() == x * n,
            forall|i: int|
                0 <= i < out.len() ==> (#[trigger] out@[i])@ == seq![
                    collection@[i / n as int],
                    collection@[i % n as int],
                ],
        decreases n - x,
    {
        let mut y: usize = 0;
        while y < n
            invariant
                n == collection@.len(),
                n * n <= usize::MAX,
                x < n,
                y <= n,
                out.len() == x * n + y,
                forall|i: int|
                    0 <= i < out.len() ==> (#[trigger] out@[i])@ == seq![
                        collection@[i / n as int],
                        collection@[i % n as int],
                    ],
            decreases n - y,
        {
            proof {
                assert(x * n + y < n * n) by (nonlinear_arith)
                    requires
                        x < n,
                        y < n,
                ;
                let i = x * n + y;
                assert(i / n as int == x && i % n as int == y) by (nonlinear_arith)
                    requires
                        i == x * n + y,
                        y < n,
                        0 <= x,
                        0 <= y,
                ;
            }
            out.push(vec![collection[x], collection[y]]);
            y += 1;
        }
        proof {
            assert(x * n + n == (x + 1) * n) by (nonlinear_arith);
        }
        x += 1;
    }
    proof {
        assert(out@.map_values(|v: Vec<T>| v@) =~= pairs(collection@));
    }
    out
}

/// `f(a, b) == f(b, a)` on every sampled pair `(a, b)` of `s`.
pub open spec fn commutative_on<T, F: Fn(T, T) -> T>(f: F, s: Seq<T>) -> bool {
    forall|i: int|
        0 <= i < groupings(s, 2).len() ==> {
            let t = #[trigger] groupings(s, 2)[i];
            app(f, t[0], t[1]) == app(f, t[1], t[0])
        }
}

/// `f(f(a, b), c) == f(a, f(b, c))` on every sampled triple `(a, b, c)` of `s`.
pub open spec fn associative_on<T, F: Fn(T, T) -> T>(f: F, s: Seq<T>) -> bool {
    forall|i: int|
        0 <= i < groupings(s, 3).len() ==> {
            let t = #[trigger] groupings(s, 3)[i];
            app(f, app(f, t[0], t[1]), t[2]) == app(f, t[0], app(f, t[1], t[2]))
        }
}

/// On every sampled triple `(a, b, c)` of `s`, `b == c` follows from
/// `f(a, b) == f(a, c)` and from `f(b, a) == f(c, a)`.
pub open spec fn cancellative_on<T, F: Fn(T, T) -> T>(f: F, s: Seq<T>) -> bool {
    forall|i: int|
        0 <= i < groupings(s, 3).len() ==> {
            let t = #[trigger] groupings(s, 3)[i];
            &&& app(f, t[0], t[1]) == app(f, t[0], t[2]) ==> t[1] == t[2]
            &&& app(f, t[1], t[0]) == app(f, t[2], t[0]) ==> t[1] == t[2]
        }
}

/// `e` is a two-sided identity of `f` on every element of `s`.
pub open spec fn identity_on<T, F: Fn(T, T) -> T>(f: F, s: Seq<T>, e: T) -> bool {
    forall|i: int| 0 <= i < s.len() ==> app(f, e, #[trigger] s[i]) == s[i] && app(f, s[i], e) == s[i]
}

/// On every sampled pair `(a, b)` of `s`: `g(a, a) == e`, `g(f(a, b), b) == a`
/// and `g(f(b, a), b) == a`.
pub open spec fn invertible_on<T, F: Fn(T, T) -> T, G: Fn(T, T) -> T>(
    f: F,
    g: G,
    s: Seq<T>,
    e: T,
) -> bool {
    forall|i: int|
        0 <= i < groupings(s, 2).len() ==> {
            let t = #[trigger] groupings(s, 2)[i];
            &&& app(g, t[0], t[0]) == e
            &&& app(g, app(f, t[0], t[1]), t[1]) == t[0]
            &&& app(g, app(f, t[1], t[0]), t[1]) == t[0]
        }
}

/// The ways in which an operation can break one of its laws.
#[derive(Debug)]
pub enum PropertyError {
    CommutativityError,
    AssociativityError,
    CancellativityError,
    IdentityError,
    InvertibilityError,
    Other(String),
}

impl PropertyError {
    /// The text that describes the error.
    pub open spec fn text(&self) -> Seq<char> {
        match self {
            PropertyError::CommutativityError => "Operation is not commutative!"@,
            PropertyError::AssociativityError => "Operation is not associative!"@,
            PropertyError::CancellativityError => "Operation is not cancellative!"@,
            PropertyError::IdentityError => "Operation has no valid identity!"@,
            PropertyError::InvertibilityError => "Operation is not invertible!"@,
            PropertyError::Other(error) => error@,
        }
    }

    /// Returns the text that describes the error.
    pub fn message(&self) -> (r: String)
        ensures
            r@ == self.text(),
    {
        match self {
            PropertyError::CommutativityError => "Operation is not commutative!".to_owned(),
            PropertyError::AssociativityError => "Operation is not associative!".to_owned(),
            PropertyError::CancellativityError => "Operation is not cancellative!".to_owned(),
            PropertyError::IdentityError => "Operation has no valid identity!".to_owned(),
            PropertyError::InvertibilityError => "Operation is not invertible!".to_owned(),
            PropertyError::Other(error) => error.clone(),
        }
    }
}

/// A law that an operation claims; `Invertible` carries the identity and
/// the inverse operation.
pub enum PropertyType<'a, T, G> {
    Commutative,
    Abelian,
    Associative,
    Cancellative,
    WithIdentity(T),
    Invertible(T, &'a G),
}

impl<'a, T, G: Fn(T, T) -> T> PropertyType<'a, T, G> {
    /// The inverse, if any, is a total deterministic operation.
    pub open spec fn wf(&self) -> bool {
        match self {
            PropertyType::Invertible(_, g) => is_operation(**g),
            _ => true,
        }
    }

    /// Whether the law holds of `f` on the evidence `s`.
    pub open spec fn holds<F: Fn(T, T) -> T>(&self, f: F, s: Seq<T>) -> bool {
        match self {
            PropertyType::Commutative | PropertyType::Abelian => commutative_on(f, s),
            PropertyType::Associative => associative_on(f, s),
            PropertyType::Cancellative => cancellative_on(f, s),
            PropertyType::WithIdentity(e) => identity_on(f, s, *e),
            PropertyType::Invertible(e, g) => invertible_on(f, **g, s, *e),
        }
    }

    /// The error that reports a breach of this law.
    pub open spec fn violation(&self) -> PropertyError {
        match self {
            PropertyType::Commutative | PropertyType::Abelian => PropertyError::CommutativityError,
            PropertyType::Associative => PropertyError::AssociativityError,
            PropertyType::Cancellative => PropertyError::CancellativityError,
            PropertyType::WithIdentity(_) => PropertyError::IdentityError,
            PropertyType::Invertible(_, _) => PropertyError::InvertibilityError,
        }
    }
}

impl<'a, T, G> PropertyType<'a, T, G> {
    /// The kind of law, as a number; `Commutative` and `Abelian` share one.
    pub open spec fn kind(&self) -> u8 {
        match self {
            PropertyType::Commutative => 0,
            PropertyType::Abelian => 0,
            PropertyType::Associative => 1,
            PropertyType::Cancellative => 2,
            PropertyType::WithIdentity(_) => 3,
            PropertyType::Invertible(_, _) => 4,
        }
    }

    /// Two laws are the same law when their kinds agree, whatever they carry.
    pub open spec fn same_kind(&self, other: &Self) -> bool {
        self.kind() == other.kind()
    }

    fn kind_of(&self) -> (r: u8)
        ensures
            r == self.kind(),
    {
        match self {
            PropertyType::Commutative => 0,
            PropertyType::Abelian => 0,
            PropertyType::Associative => 1,
            PropertyType::Cancellative => 2,
            PropertyType::WithIdentity(_) => 3,
            PropertyType::Invertible(_, _) => 4,
        }
    }
}

impl<'a, T, G> PartialEq for PropertyType<'a, T, G> {
    fn eq(&self, other: &PropertyType<'a, T, G>) -> (r: bool) {
        self.kind_of() == other.kind_of()
    }
}

impl<'a, T, G> vstd::std_specs::cmp::PartialEqSpecImpl for PropertyType<'a, T, G> {
    open spec fn obeys_eq_spec() -> bool {
        true
    }

    open spec fn eq_spec(&self, other: &PropertyType<'a, T, G>) -> bool {
        self.kind() == other.kind()
    }
}

impl<'a, T: Copy + PartialEq, G: Fn(T, T) -> T> PropertyType<'a, T, G> {
    /// Returns whether the law holds of `op` on `domain_sample`.
    pub fn holds_over<F: Fn(T, T) -> T>(&self, op: &F, domain_sample: &Vec<T>) -> (r: bool)
        requires
            is_operation(*op),
            self.wf(),
            vstd::laws_eq::obeys_concrete_eq::<T>(),
        ensures
            r == self.holds(*op, domain_sample@),
    {
        match self {
            PropertyType::Commutative | PropertyType::Abelian => {
                Self::commutativity_holds_over(op, domain_sample)
            },
            PropertyType::Associative => Self::associativity_holds_over(op, domain_sample),
            PropertyType::Cancellative => Self::cancellative_holds_over(op, domain_sample),
            PropertyType::WithIdentity(identity) => {
                Self::identity_holds_over(op, domain_sample.as_slice(), *identity)
            },
            PropertyType::Invertible(identity, inv) => {
                Self::invertibility_holds_over(op, *inv, domain_sample, *identity)
            },
        }
    }

    fn commutativity_holds_over<F: Fn(T, T) -> T>(op: &F, domain_sample: &Vec<T>) -> (r: bool)
        requires
            is_operation(*op),
            vstd::laws_eq::obeys_concrete_eq::<T>(),
        ensures
            r == commutative_on(*op, domain_sample@),
    {
        if domain_sample.len() < 2 {
            return true;
        }
        let pairs = permutations(domain_sample.as_slice(), 2);
        let ghost g = groupings(domain_sample@, 2);
        assert(pairs@.map_values(|v: Vec<T>| v@).len() == pairs.len());
        let mut i: usize = 0;
        while i < pairs.len()
            invariant
                is_operation(*op),
                vstd::laws_eq::obeys_concrete_eq::<T>(),
                pairs@.map_values(|v: Vec<T>| v@) == g,
                g == groupings(domain_sample@, 2),
                i <= pairs.len(),
                forall|j: int| 0 <= j < i ==> {
                    let t = #[trigger] g[j];
                    app(*op, t[0], t[1]) == app(*op, t[1], t[0])
                },
            decreases pairs.len() - i,
        {
            let pair = &pairs[i];
            assert(pair@ == g[i as int]);
            proof {
                lemma_grouping_len(domain_sample@, 2, i as int);
            }
            let left = apply(op, pair[0], pair[1]);
            let right = apply(op, pair[1], pair[0]);
            if !same(left, right) {
                return false;
            }
            i += 1;
        }
        true
    }

    fn associativity_holds_over<F: Fn(T, T) -> T>(op: &F, domain_sample: &Vec<T>) -> (r: bool)
        requires
            is_operation(*op),
            vstd::laws_eq::obeys_concrete_eq::<T>(),
        ensures
            r == associative_on(*op, domain_sample@),
    {
        if domain_sample.len() < 3 {
            return true;
        }
        let triples = permutations(domain_sample.as_slice(), 3);
        let ghost g = groupings(domain_sample@, 3);
        assert(triples@.map_values(|v: Vec<T>| v@).len() == triples.len());
        let mut i: usize = 0;
        while i < triples.len()
            invariant
                is_operation(*op),
                vstd::laws_eq::obeys_concrete_eq::<T>(),
                triples@.map_values(|v: Vec<T>| v@) == g,
                g == groupings(domain_sample@, 3),
                i <= triples.len(),
                forall|j: int| 0 <= j < i ==> {
                    let t = #[trigger] g[j];
                    app(*op, app(*op, t[0], t[1]), t[2]) == app(*op, t[0], app(*op, t[1], t[2]))
                },
            decreases triples.len() - i,
        {
            let triple = &triples[i];
            assert(triple@ == g[i as int]);
            proof {
                lemma_grouping_len(domain_sample@, 3, i as int);
            }
            let ab = apply(op, triple[0], triple[1]);
            let left_first = apply(op, ab, triple[2]);
            let bc = apply(op, triple[1], triple[2]);
            let right_first = apply(op, triple[0], bc);
            if !same(left_first, right_first) {
                return false;
            }
            i += 1;
        }
        true
    }

    fn identity_holds_over<F: Fn(T, T) -> T>(op: &F, domain_sample: &[T], identity: T) -> (r: bool)
        requires
            is_operation(*op),
            vstd::laws_eq::obeys_concrete_eq::<T>(),
        ensures
            r == identity_on(*op, domain_sample@, identity),
    {
        let mut i: usize = 0;
        while i < domain_sample.len()
            invariant
                is_operation(*op),
                vstd::laws_eq::obeys_concrete_eq::<T>(),
                i <= domain_sample@.len(),
                forall|j: int| 0 <= j < i ==> app(*op, identity, #[trigger] domain_sample@[j]) == domain_sample@[j]
                    && app(*op, domain_sample@[j], identity) == domain_sample@[j],
            decreases domain_sample@.len() - i,
        {
            let e = domain_sample[i];
            let from_left = apply(op, identity, e);
            let from_right = apply(op, e, identity);
            if !(same(e, from_left) && same(e, from_right)) {
                return false;
            }
            i += 1;
        }
        true
    }

    fn cancellative_holds_over<F: Fn(T, T) -> T>(op: &F, domain_sample: &Vec<T>) -> (r: bool)
        requires
            is_operation(*op),
            vstd::laws_eq::obeys_concrete_eq::<T>(),
        ensures
            r == cancellative_on(*op, domain_sample@),
    {
        if domain_sample.len() < 3 {
            return true;
        }
        let triples = permutations(domain_sample.as_slice(), 3);
        let ghost g = groupings(domain_sample@, 3);
        assert(triples@.map_values(|v: Vec<T>| v@).len() == triples.len());
        let mut left_cancellative = true;
        let mut right_cancellative = true;
        let mut i: usize = 0;
        while i < triples.len()
            invariant
                is_operation(*op),
                vstd::laws_eq::obeys_concrete_eq::<T>(),
                triples@.map_values(|v: Vec<T>| v@) == g,
                g == groupings(domain_sample@, 3),
                i <= triples.len(),
                left_cancellative == forall|j: int| 0 <= j < i ==> {
                    let t = #[trigger] g[j];
                    app(*op, t[0], t[1]) == app(*op, t[0], t[2]) ==> t[1] == t[2]
                },
                right_cancellative == forall|j: int| 0 <= j < i ==> {
                    let t = #[trigger] g[j];
                    app(*op, t[1], t[0]) == app(*op, t[2], t[0]) ==> t[1] == t[2]
                },
            decreases triples.len() - i,
        {
            let triple = &triples[i];
            assert(triple@ == g[i as int]);
            proof {
                lemma_grouping_len(domain_sample@, 3, i as int);
            }
            let ab = apply(op, triple[0], triple[1]);
            let ac = apply(op, triple[0], triple[2]);
            if same(ab, ac) && !same(triple[1], triple[2]) {
                left_cancellative = false;
            }
            let ba = apply(op, triple[1], triple[0]);
            let ca = apply(op, triple[2], triple[0]);
            if same(ba, ca) && !same(triple[1], triple[2]) {
                right_cancellative = false;
            }
            i += 1;
        }
        left_cancellative && right_cancellative
    }

    fn invertibility_holds_over<F: Fn(T, T) -> T>(
        op: &F,
        inv: &G,
        domain_sample: &Vec<T>,
        identity: T,
    ) -> (r: bool)
        requires
            is_operation(*op),
            is_operation(*inv),
            vstd::laws_eq::obeys_concrete_eq::<T>(),
        ensures
            r == invertible_on(*op, *inv, domain_sample@, identity),
    {
        if domain_sample.len() < 2 {
            return true;
        }
        let pairs = permutations(domain_sample.as_slice(), 2);
        let ghost g = groupings(domain_sample@, 2);
        assert(pairs@.map_values(|v: Vec<T>| v@).len() == pairs.len());
        let mut i: usize = 0;
        while i < pairs.len()
            invariant
                is_operation(*op),
                is_operation(*inv),
                vstd::laws_eq::obeys_concrete_eq::<T>(),
                pairs@.map_values(|v: Vec<T>| v@) == g,
                g == groupings(domain_sample@, 2),
                i <= pairs.len(),
                forall|j: int| 0 <= j < i ==> {
                    let t = #[trigger] g[j];
                    &&& app(*inv, t[0], t[0]) == identity
                    &&& app(*inv, app(*op, t[0], t[1]), t[1]) == t[0]
                    &&& app(*inv, app(*op, t[1], t[0]), t[1]) == t[0]
                },
            decreases pairs.len() - i,
        {
            let pair = &pairs[i];
            assert(pair@ == g[i as int]);
            proof {
                lemma_grouping_len(domain_sample@, 2, i as int);
            }
            let a = pair[0];
            let b = pair[1];
            let inverse_works = same(apply(inv, a, a), identity);
            let ab = apply(op, a, b);
            let left_composition_works = same(apply(inv, ab, b), a);
            let ba = apply(op, b, a);
            let right_composition_works = same(apply(inv, ba, b), a);
            if !(inverse_works && left_composition_works && right_composition_works) {
                return false;
            }
            i += 1;
        }
        true
    }
}

/// What a call with `left` and `right` answers once the history is `history`:
/// the error of the first law in `laws` that fails on it, else `f(left, right)`.
pub open spec fn verdict<'a, T, F: Fn(T, T) -> T, G: Fn(T, T) -> T>(
    f: F,
    laws: Seq<PropertyType<'a, T, G>>,
    history: Seq<T>,
    left: T,
    right: T,
) -> Result<T, PropertyError>
    decreases laws.len(),
{
    if laws.len() == 0 {
        Ok(app(f, left, right))
    } else if !laws[0].holds(f, history) {
        Err(laws[0].violation())
    } else {
        verdict(f, laws.drop_first(), history, left, right)
    }
}

/// `f` is an operation and every inverse that a law of `laws` carries is one too.
pub open spec fn laws_wf<'a, T, F: Fn(T, T) -> T, G: Fn(T, T) -> T>(
    f: F,
    laws: Seq<PropertyType<'a, T, G>>,
) -> bool {
    &&& is_operation(f)
    &&& forall|i: int| 0 <= i < laws.len() ==> (#[trigger] laws[i]).wf()
}

/// Whether `laws` holds a law of the same kind as `law`.
pub open spec fn declares<'a, T, G>(laws: Seq<PropertyType<'a, T, G>>, law: PropertyType<'a, T, G>) -> bool {
    exists|i: int| 0 <= i < laws.len() && (#[trigger] laws[i]).same_kind(&law)
}

/// Common interface for all Algae operations.
///
/// Each operation keeps every input it was given; every call of `with` checks
/// the laws that the operation claims against that whole history before it
/// returns a result.
pub trait BinaryOperation<'a, T: Copy + PartialEq + 'a> {
    /// The type of the function underlying the operation.
    type Function: Fn(T, T) -> T;

    /// The type of the inverse that an `Invertible` law carries.
    type Inverse: Fn(T, T) -> T + 'a;

    /// The function underlying the operation.
    spec fn function(&self) -> Self::Function;

    /// The laws that the operation claims, in the order they are checked.
    spec fn laws(&self) -> Seq<PropertyType<'a, T, Self::Inverse>>;

    /// Every input the operation was given, in order.
    spec fn history(&self) -> Seq<T>;

    /// Returns a reference to the function underlying the operation
    fn operation(&self) -> (r: &Self::Function)
        ensures
            *r == self.function(),
    ;

    /// Vec of all enforced properties
    fn properties(&self) -> (r: Vec<PropertyType<'a, T, Self::Inverse>>)
        ensures
            r@ == self.laws(),
    ;

    /// Returns whether or not `property` is enforced by the given operation
    fn is(&self, property: PropertyType<'a, T, Self::Inverse>) -> (r: bool)
        ensures
            r == declares(self.laws(), property),
    {
        let properties = self.properties();
        let mut i: usize = 0;
        while i < properties.len()
            invariant
                properties@ == self.laws(),
                i <= properties.len(),
                forall|j: int| 0 <= j < i ==> !(#[trigger] self.laws()[j]).same_kind(&property),
            decreases properties.len() - i,
        {
            if properties[i].kind_of() == property.kind_of() {
                return true;
            }
            i += 1;
        }
        false
    }

    /// Returns a reference to a Vec of all previous inputs to the operation
    fn input_history(&self) -> (r: &Vec<T>)
        ensures
            r@ == self.history(),
    ;

    /// Caches the given `input` to the operation's input history
    fn cache(&mut self, input: T)
        ensures
            final(self).history() == old(self).history().push(input),
            final(self).function() == old(self).function(),
            final(self).laws() == old(self).laws(),
    ;

    /// Returns the result of performing the given operation.
    ///
    /// Both arguments join the history first, even when the call fails. If
    /// a claimed law fails on the history, the error of the first such law is
    /// returned; else the function's value at `(left, right)`.
    fn with(&mut self, left: T, right: T) -> (r: Result<T, PropertyError>)
        requires
            laws_wf(old(self).function(), old(self).laws()),
            vstd::laws_eq::obeys_concrete_eq::<T>(),
        ensures
            final(self).history() == old(self).history().push(left).push(right),
            final(self).function() == old(self).function(),
            final(self).laws() == old(self).laws(),
            r == verdict(final(self).function(), final(self).laws(), final(self).history(), left, right),
            r matches Ok(v) ==> call_ensures(final(self).function(), (left, right), v),
    {
        let ghost before = self.history();
        self.cache(left);
        self.cache(right);
        let properties = self.properties();
        let ghost laws = self.laws();
        let ghost f = self.function();
        let ghost h = self.history();
        let mut i: usize = 0;
        assert(laws.subrange(0, laws.len() as int) =~= laws);
        while i < properties.len()
            invariant
                properties@ == laws,
                laws == self.laws(),
                f == self.function(),
                h == self.history(),
                laws == old(self).laws(),
                f == old(self).function(),
                h == before.push(left).push(right),
                before == old(self).history(),
                laws_wf(f, laws),
                vstd::laws_eq::obeys_concrete_eq::<T>(),
                i <= properties.len(),
                verdict(f, laws, h, left, right) == verdict(
                    f,
                    laws.subrange(i as int, laws.len() as int),
                    h,
                    left,
                    right,
                ),
            decreases properties.len() - i,
        {
            let ghost rest = laws.subrange(i as int, laws.len() as int);
            assert(rest[0] == laws[i as int]);
            assert(rest.drop_first() =~= laws.subrange(i + 1, laws.len() as int));
            assert(laws[i as int].wf());
            if !properties[i].holds_over(self.operation(), self.input_history()) {
                return match properties[i] {
                    PropertyType::Commutative | PropertyType::Abelian => {
                        Err(PropertyError::CommutativityError)
                    },
                    PropertyType::Associative => Err(PropertyError::AssociativityError),
                    PropertyType::Cancellative => Err(PropertyError::CancellativityError),
                    PropertyType::WithIdentity(_) => Err(PropertyError::IdentityError),
                    PropertyType::Invertible(_, _) => Err(PropertyError::InvertibilityError),
                };
            }
            i += 1;
        }
        apply_ok(self.operation(), left, right)
    }
}

/// A function wrapper enforcing commutativity.
pub struct AbelianOperation<'a, T, F> {
    op: &'a F,
    history: Vec<T>,
}

impl<'a, T: Copy + PartialEq + 'a, F: Fn(T, T) -> T + 'a> AbelianOperation<'a, T, F> {
    /// Wraps `op`, with an empty history.
    pub fn new(op: &'a F) -> (r: Self)
        ensures
            r.function() == *op,
            r.laws() == seq![PropertyType::<'a, T, F>::Commutative, PropertyType::Abelian],
            r.history() == Seq::<T>::empty(),
    {
        let r = Self { op, history: Vec::new() };
        proof {
            assert(r.laws() =~= seq![PropertyType::<'a, T, F>::Commutative, PropertyType::Abelian]);
        }
        r
    }
}

impl<
    'a,
    T: Copy + PartialEq + 'a,
    F: Fn(T, T) -> T + 'a,
> BinaryOperation<'a, T> for AbelianOperation<'a, T, F> {
    type Function = F;

    type Inverse = F;

    closed spec fn function(&self) -> F {
        *self.op
    }

    closed spec fn laws(&self) -> Seq<PropertyType<'a, T, F>> {
        seq![PropertyType::Commutative, PropertyType::Abelian]
    }

    closed spec fn history(&self) -> Seq<T> {
        self.history@
    }

    fn operation(&self) -> (r: &F) {
        self.op
    }

    fn properties(&self) -> (r: Vec<PropertyType<'a, T, F>>) {
        let r = vec![PropertyType::Commutative, PropertyType::Abelian];
        assert(r@ =~= self.laws());
        r
    }

    fn input_history(&self) -> (r: &Vec<T>) {
        &self.history
    }

    fn cache(&mut self, input: T) {
        self.history.push(input);
    }
}

/// A function wrapper enforcing associativity.
pub struct AssociativeOperation<'a, T, F> {
    op: &'a F,
    history: Vec<T>,
}

impl<'a, T: Copy + PartialEq + 'a, F: Fn(T, T) -> T + 'a> AssociativeOperation<'a, T, F> {
    /// Wraps `op`, with an empty history.
    pub fn new(op: &'a F) -> (r: Self)
        ensures
            r.function() == *op,
            r.laws() == seq![PropertyType::<'a, T, F>::Associative],
            r.history() == Seq::<T>::empty(),
    {
        let r = Self { op, history: Vec::new() };
        proof {
            assert(r.laws() =~= seq![PropertyType::<'a, T, F>::Associative]);
        }
        r
    }
}

impl<
    'a,
    T: Copy + PartialEq + 'a,
    F: Fn(T, T) -> T + 'a,
> BinaryOperation<'a, T> for AssociativeOperation<'a, T, F> {
    type Function = F;

    type Inverse = F;

    closed spec fn function(&self) -> F {
        *self.op
    }

    closed spec fn laws(&self) -> Seq<PropertyType<'a, T, F>> {
        seq![PropertyType::Associative]
    }

    closed spec fn history(&self) -> Seq<T> {
        self.history@
    }

    fn operation(&self) -> (r: &F) {
        self.op
    }

    fn properties(&self) -> (r: Vec<PropertyType<'a, T, F>>) {
        let r = vec![PropertyType::Associative];
        assert(r@ =~= self.laws());
        r
    }

    fn input_history(&self) -> (r: &Vec<T>) {
        &self.history
    }

    fn cache(&mut self, input: T) {
        self.history.push(input);
    }
}

/// A function wrapper enforcing cancellativity.
pub struct CancellativeOperation<'a, T, F> {
    op: &'a F,
    history: Vec<T>,
}

impl<'a, T: Copy + PartialEq + 'a, F: Fn(T, T) -> T + 'a> CancellativeOperation<'a, T, F> {
    /// Wraps `op`, with an empty history.
    pub fn new(op: &'a F) -> (r: Self)
        ensures
            r.function() == *op,
            r.laws() == seq![PropertyType::<'a, T, F>::Cancellative],
            r.history() == Seq::<T>::empty(),
    {
        let r = Self { op, history: Vec::new() };
        proof {
            assert(r.laws() =~= seq![PropertyType::<'a, T, F>::Cancellative]);
        }
        r
    }
}

impl<
    'a,
    T: Copy + PartialEq + 'a,
    F: Fn(T, T) -> T + 'a,
> BinaryOperation<'a, T> for CancellativeOperation<'a, T, F> {
    type Function = F;

    type Inverse = F;

    closed spec fn function(&self) -> F {
        *self.op
    }

    closed spec fn laws(&self) -> Seq<PropertyType<'a, T, F>> {
        seq![PropertyType::Cancellative]
    }

    closed spec fn history(&self) -> Seq<T> {
        self.history@
    }

    fn operation(&self) -> (r: &F) {
        self.op
    }

    fn properties(&self) -> (r: Vec<PropertyType<'a, T, F>>) {
        let r = vec![PropertyType::Cancellative];
        assert(r@ =~= self.laws());
        r
    }

    fn input_history(&self) -> (r: &Vec<T>) {
        &self.history
    }

    fn cache(&mut self, input: T) {
        self.history.push(input);
    }
}

/// A function wrapper enforcing identity existence.
pub struct IdentityOperation<'a, T, F> {
    op: &'a F,
    identity: T,
    history: Vec<T>,
}

impl<'a, T: Copy + PartialEq + 'a, F: Fn(T, T) -> T + 'a> IdentityOperation<'a, T, F> {
    /// Wraps `op`, with an empty history.
    pub fn new(op: &'a F, identity: T) -> (r: Self)
        ensures
            r.function() == *op,
            r.laws() == seq![PropertyType::<'a, T, F>::WithIdentity(identity)],
            r.history() == Seq::<T>::empty(),
    {
        let r = Self { op, identity, history: Vec::new() };
        proof {
            assert(r.laws() =~= seq![PropertyType::<'a, T, F>::WithIdentity(identity)]);
        }
        r
    }
}

impl<
    'a,
    T: Copy + PartialEq + 'a,
    F: Fn(T, T) -> T + 'a,
> BinaryOperation<'a, T> for IdentityOperation<'a, T, F> {
    type Function = F;

    type Inverse = F;

    closed spec fn function(&self) -> F {
        *self.op
    }

    closed spec fn laws(&self) -> Seq<PropertyType<'a, T, F>> {
        seq![PropertyType::WithIdentity(self.identity)]
    }

    closed spec fn history(&self) -> Seq<T> {
        self.history@
    }

    fn operation(&self) -> (r: &F) {
        self.op
    }

    fn properties(&self) -> (r: Vec<PropertyType<'a, T, F>>) {
        let r = vec![PropertyType::WithIdentity(self.identity)];
        assert(r@ =~= self.laws());
        r
    }

    fn input_history(&self) -> (r: &Vec<T>) {
        &self.history
    }

    fn cache(&mut self, input: T) {
        self.history.push(input);
    }
}

/// A function wrapper enforcing identity existence and associativity.
pub struct MonoidOperation<'a, T, F> {
    op: &'a F,
    identity: T,
    history: Vec<T>,
}

impl<'a, T: Copy + PartialEq + 'a, F: Fn(T, T) -> T + 'a> MonoidOperation<'a, T, F> {
    /// Wraps `op`, with an empty history.
    pub fn new(op: &'a F, identity: T) -> (r: Self)
        ensures
            r.function() == *op,
            r.laws() == seq![
                PropertyType::<'a, T, F>::Associative,
                PropertyType::WithIdentity(identity),
            ],
            r.history() == Seq::<T>::empty(),
    {
        let r = Self { op, identity, history: Vec::new() };
        proof {
            assert(r.laws() =~= seq![
                PropertyType::<'a, T, F>::Associative,
                PropertyType::WithIdentity(identity),
            ]);
        }
        r
    }
}

impl<
    'a,
    T: Copy + PartialEq + 'a,
    F: Fn(T, T) -> T + 'a,
> BinaryOperation<'a, T> for MonoidOperation<'a, T, F> {
    type Function = F;

    type Inverse = F;

    closed spec fn function(&self) -> F {
        *self.op
    }

    closed spec fn laws(&self) -> Seq<PropertyType<'a, T, F>> {
        seq![PropertyType::Associative, PropertyType::WithIdentity(self.identity)]
    }

    closed spec fn history(&self) -> Seq<T> {
        self.history@
    }

    fn operation(&self) -> (r: &F) {
        self.op
    }

    fn properties(&self) -> (r: Vec<PropertyType<'a, T, F>>) {
        let r = vec![PropertyType::Associative, PropertyType::WithIdentity(self.identity)];
        assert(r@ =~= self.laws());
        r
    }

    fn input_history(&self) -> (r: &Vec<T>) {
        &self.history
    }

    fn cache(&mut self, input: T) {
        self.history.push(input);
    }
}

/// A function wrapper enforcing identity existence and cancellativity.
pub struct LoopOperation<'a, T, F> {
    op: &'a F,
    identity: T,
    history: Vec<T>,
}

impl<'a, T: Copy + PartialEq + 'a, F: Fn(T, T) -> T + 'a> LoopOperation<'a, T, F> {
    /// Wraps `op`, with an empty history.
    pub fn new(op: &'a F, identity: T) -> (r: Self)
        ensures
            r.function() == *op,
            r.laws() == seq![
                PropertyType::<'a, T, F>::Cancellative,
                PropertyType::WithIdentity(identity),
            ],
            r.history() == Seq::<T>::empty(),
    {
        let r = Self { op, identity, history: Vec::new() };
        proof {
            assert(r.laws() =~= seq![
                PropertyType::<'a, T, F>::Cancellative,
                PropertyType::WithIdentity(identity),
            ]);
        }
        r
    }
}

impl<
    'a,
    T: Copy + PartialEq + 'a,
    F: Fn(T, T) -> T + 'a,
> BinaryOperation<'a, T> for LoopOperation<'a, T, F> {
    type Function = F;

    type Inverse = F;

    closed spec fn function(&self) -> F {
        *self.op
    }

    closed spec fn laws(&self) -> Seq<PropertyType<'a, T, F>> {
        seq![PropertyType::Cancellative, PropertyType::WithIdentity(self.identity)]
    }

    closed spec fn history(&self) -> Seq<T> {
        self.history@
    }

    fn operation(&self) -> (r: &F) {
        self.op
    }

    fn properties(&self) -> (r: Vec<PropertyType<'a, T, F>>) {
        let r = vec![PropertyType::Cancellative, PropertyType::WithIdentity(self.identity)];
        assert(r@ =~= self.laws());
        r
    }

    fn input_history(&self) -> (r: &Vec<T>) {
        &self.history
    }

    fn cache(&mut self, input: T) {
        self.history.push(input);
    }
}

/// A function wrapper enforcing identity existence and invertibility.
pub struct InvertibleOperation<'a, T, F, G> {
    op: &'a F,
    inv: &'a G,
    identity: T,
    history: Vec<T>,
}

impl<
    'a,
    T: Copy + PartialEq + 'a,
    F: Fn(T, T) -> T + 'a,
    G: Fn(T, T) -> T + 'a,
> InvertibleOperation<'a, T, F, G> {
    /// Wraps `op`, with an empty history.
    pub fn new(op: &'a F, inv: &'a G, identity: T) -> (r: Self)
        ensures
            r.function() == *op,
            r.laws() == seq![
                PropertyType::<'a, T, G>::WithIdentity(identity),
                PropertyType::Invertible(identity, inv),
            ],
            r.history() == Seq::<T>::empty(),
    {
        let r = Self { op, inv, identity, history: Vec::new() };
        proof {
            assert(r.laws() =~= seq![
                PropertyType::<'a, T, G>::WithIdentity(identity),
                PropertyType::Invertible(identity, inv),
            ]);
        }
        r
    }
}

impl<
    'a,
    T: Copy + PartialEq + 'a,
    F: Fn(T, T) -> T + 'a,
    G: Fn(T, T) -> T + 'a,
> BinaryOperation<'a, T> for InvertibleOperation<'a, T, F, G> {
    type Function = F;

    type Inverse = G;

    closed spec fn function(&self) -> F {
        *self.op
    }

    closed spec fn laws(&self) -> Seq<PropertyType<'a, T, G>> {
        seq![
            PropertyType::WithIdentity(self.identity),
            PropertyType::Invertible(self.identity, self.inv),
        ]
    }

    closed spec fn history(&self) -> Seq<T> {
        self.history@
    }

    fn operation(&self) -> (r: &F) {
        self.op
    }

    fn properties(&self) -> (r: Vec<PropertyType<'a, T, G>>) {
        let r = vec![
            PropertyType::WithIdentity(self.identity),
            PropertyType::Invertible(self.identity, self.inv),
        ];
        assert(r@ =~= self.laws());
        r
    }

    fn input_history(&self) -> (r: &Vec<T>) {
        &self.history
    }

    fn cache(&mut self, input: T) {
        self.history.push(input);
    }
}

/// A function wrapper enforcing identity existence, invertibility, and associativity.
pub struct GroupOperation<'a, T, F, G> {
    op: &'a F,
    inv: &'a G,
    identity: T,
    history: Vec<T>,
}

impl<
    'a,
    T: Copy + PartialEq + 'a,
    F: Fn(T, T) -> T + 'a,
    G: Fn(T, T) -> T + 'a,
> GroupOperation<'a, T, F, G> {
    /// Wraps `op`, with an empty history.
    pub fn new(op: &'a F, inv: &'a G, identity: T) -> (r: Self)
        ensures
            r.function() == *op,
            r.laws() == seq![
                PropertyType::<'a, T, G>::Associative,
                PropertyType::WithIdentity(identity),
                PropertyType::Invertible(identity, inv),
            ],
            r.history() == Seq::<T>::empty(),
    {
        let r = Self { op, inv, identity, history: Vec::new() };
        proof {
            assert(r.laws() =~= seq![
                PropertyType::<'a, T, G>::Associative,
                PropertyType::WithIdentity(identity),
                PropertyType::Invertible(identity, inv),
            ]);
        }
        r
    }
}

impl<
    'a,
    T: Copy + PartialEq + 'a,
    F: Fn(T, T) -> T + 'a,
    G: Fn(T, T) -> T + 'a,
> BinaryOperation<'a, T> for GroupOperation<'a, T, F, G> {
    type Function = F;

    type Inverse = G;

    closed spec fn function(&self) -> F {
        *self.op
    }

    closed spec fn laws(&self) -> Seq<PropertyType<'a, T, G>> {
        seq![
            PropertyType::Associative,
            PropertyType::WithIdentity(self.identity),
            PropertyType::Invertible(self.identity, self.inv),
        ]
    }

    closed spec fn history(&self) -> Seq<T> {
        self.history@
    }

    fn operation(&self) -> (r: &F) {
        self.op
    }

    fn properties(&self) -> (r: Vec<PropertyType<'a, T, G>>) {
        let r = vec![
            PropertyType::Associative,
            PropertyType::WithIdentity(self.identity),
            PropertyType::Invertible(self.identity, self.inv),
        ];
        assert(r@ =~= self.laws());
        r
    }

    fn input_history(&self) -> (r: &Vec<T>) {
        &self.history
    }

    fn cache(&mut self, input: T) {
        self.history.push(input);
    }
}

/// The identity carried by the first `Invertible` law of `laws`, if any.
pub open spec fn invertible_identity<'a, T, G>(laws: Seq<PropertyType<'a, T, G>>) -> Option<T>
    decreases laws.len(),
{
    if laws.len() == 0 {
        None
    } else if let PropertyType::Invertible(e, _) = laws[0] {
        Some(e)
    } else {
        invertible_identity(laws.drop_first())
    }
}

/// Returns whether or not the given [`BinaryOperation`] has the [`PropertyType::Invertible`] property.
pub fn binop_is_invertible<'a, T: Copy + PartialEq + 'a, B: BinaryOperation<'a, T>>(binop: &B) -> (r: bool)
    ensures
        r == exists|i: int| 0 <= i < binop.laws().len() && (#[trigger] binop.laws()[i]) is Invertible,
{
    let properties = binop.properties();
    let mut i: usize = 0;
    while i < properties.len()
        invariant
            properties@ == binop.laws(),
            i <= properties.len(),
            forall|j: int| 0 <= j < i ==> !((#[trigger] binop.laws()[j]) is Invertible),
        decreases properties.len() - i,
    {
        if let PropertyType::Invertible(_, _) = properties[i] {
            return true;
        }
        i += 1;
    }
    false
}

/// Returns whether or not the given invertible [`BinaryOperation`] has the given `identity`.
///
/// The first `Invertible` law decides.
pub fn binop_has_invertible_identity<'a, T: Copy + PartialEq + 'a, B: BinaryOperation<'a, T>>(
    binop: &B,
    identity: T,
) -> (r: bool)
    requires
        exists|i: int| 0 <= i < binop.laws().len() && (#[trigger] binop.laws()[i]) is Invertible,
        vstd::laws_eq::obeys_concrete_eq::<T>(),
    ensures
        r == (invertible_identity(binop.laws()) == Some(identity)),
{
    let properties = binop.properties();
    let ghost laws = binop.laws();
    let mut i: usize = 0;
    assert(laws.subrange(0, laws.len() as int) =~= laws);
    while i < properties.len()
        invariant
            properties@ == laws,
            laws == binop.laws(),
            i <= properties.len(),
            invertible_identity(laws) == invertible_identity(laws.subrange(i as int, laws.len() as int)),
            vstd::laws_eq::obeys_concrete_eq::<T>(),
        decreases properties.len() - i,
    {
        let ghost rest = laws.subrange(i as int, laws.len() as int);
        assert(rest[0] == laws[i as int]);
        assert(rest.drop_first() =~= laws.subrange(i + 1, laws.len() as int));
        if let PropertyType::Invertible(binop_identity, _) = properties[i] {
            return same(binop_identity, identity);
        }
        i += 1;
    }
    proof {
        let k = choose|k: int| 0 <= k < laws.len() && (#[trigger] laws[k]) is Invertible;
        lemma_invertible_identity_found(laws, k);
    }
    false
}

proof fn lemma_invertible_identity_found<'a, T, G>(laws: Seq<PropertyType<'a, T, G>>, k: int)
    requires
        0 <= k < laws.len(),
        laws[k] is Invertible,
    ensures
        invertible_identity(laws) is Some,
    decreases laws.len(),
{
    if !(laws[0] is Invertible) {
        lemma_invertible_identity_found(laws.drop_first(), k - 1);
    }
}

/// An operation that commutes everywhere is never reported as breaking
/// commutativity, whatever its history.
pub proof fn lemma_commutative_never_fails<'a, T: 'a, F: Fn(T, T) -> T + 'a>(
    f: F,
    history: Seq<T>,
    left: T,
    right: T,
)
    requires
        forall|a: T, b: T| app(f, a, b) == app(f, b, a),
    ensures
        verdict(
            f,
            seq![PropertyType::<'a, T, F>::Commutative, PropertyType::<'a, T, F>::Abelian],
            history,
            left,
            right,
        ) == Ok::<T, PropertyError>(app(f, left, right)),
{
    let laws = seq![PropertyType::<'a, T, F>::Commutative, PropertyType::<'a, T, F>::Abelian];
    assert(laws.drop_first().drop_first() =~= Seq::<PropertyType<'a, T, F>>::empty());
    assert(laws.drop_first()[0] == PropertyType::<'a, T, F>::Abelian);
    assert(commutative_on(f, history));
    reveal_with_fuel(verdict, 3);
}

/// An operation that associates everywhere is never reported as breaking
/// associativity, whatever its history.
pub proof fn lemma_associative_never_fails<'a, T: 'a, F: Fn(T, T) -> T + 'a>(
    f: F,
    history: Seq<T>,
    left: T,
    right: T,
)
    requires
        forall|a: T, b: T, c: T| app(f, app(f, a, b), c) == app(f, a, app(f, b, c)),
    ensures
        verdict(f, seq![PropertyType::<'a, T, F>::Associative], history, left, right) == Ok::<
            T,
            PropertyError,
        >(app(f, left, right)),
{
    let laws = seq![PropertyType::<'a, T, F>::Associative];
    assert(laws.drop_first() =~= Seq::<PropertyType<'a, T, F>>::empty());
    assert(associative_on(f, history));
    reveal_with_fuel(verdict, 2);
}

/// A claimed identity that leaves no value unchanged makes every call fail
/// with an identity error.
pub proof fn lemma_wrong_identity_always_fails<'a, T: 'a, F: Fn(T, T) -> T + 'a>(
    f: F,
    e: T,
    history: Seq<T>,
    left: T,
    right: T,
)
    requires
        forall|x: T| app(f, e, x) != x,
    ensures
        verdict(
            f,
            seq![PropertyType::<'a, T, F>::WithIdentity(e)],
            history.push(left).push(right),
            left,
            right,
        ) == Err::<T, PropertyError>(PropertyError::IdentityError),
{
    let h = history.push(left).push(right);
    assert(h[h.len() - 1] == right);
    assert(app(f, e, h[h.len() - 1]) != h[h.len() - 1]);
}

fn apply_ok<T, F: Fn(T, T) -> T>(f: &F, a: T, b: T) -> (r: Result<T, PropertyError>)
    requires
        is_operation(*f),
    ensures
        r == Ok::<T, PropertyError>(app(*f, a, b)),
        call_ensures(*f, (a, b), app(*f, a, b)),
{
    Ok(apply(f, a, b))
}

} // verus!
