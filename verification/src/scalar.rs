//! The numbers a network computes with, and the relations that the
//! contracts of this crate are written in.

use vstd::prelude::*;

verus! {

/// A number type the network can compute with, such as the double precision
/// numbers of the machine, which a caller wraps in a type of its own.
///
/// Nothing is promised of what an operation returns: it may round, and it
/// need not give the same outcome twice. The library's contracts therefore
/// speak of outcomes: `is_sum(a, b, r)` reads "`r` came out of `a.plus(b)`",
/// and so on for the other operations. What the library is answerable for is
/// which operations it applies to which operands, and that is what its
/// contracts state.
pub trait Scalar: Copy {
    /// The scalar that stands for the whole number `n`.
    fn from_int(n: i32) -> Self;

    /// `self + rhs`.
    fn plus(self, rhs: Self) -> Self;

    /// `self - rhs`.
    fn minus(self, rhs: Self) -> Self;

    /// `self * rhs`.
    fn times(self, rhs: Self) -> Self;

    /// `self / rhs`.
    fn over(self, rhs: Self) -> Self;

    /// `-self`.
    fn negated(self) -> Self;

    /// `e` raised to the power `self`.
    fn exp(self) -> Self;

    /// The hyperbolic tangent of `self`.
    fn tanh(self) -> Self;

    /// The larger of `self` and `rhs`.
    fn larger(self, rhs: Self) -> Self;

    /// Whether `self > rhs`.
    fn exceeds(self, rhs: Self) -> bool;
}

/// A supply of initial values for weights and biases: each draw is meant to
/// be uniform over the half-open interval from -1 to 1.
pub trait Sampler<S> {
    /// The next value of the supply.
    fn draw(&self) -> S;
}

/// `r` came out of `S::from_int(n)`.
pub open spec fn is_int<S: Scalar>(n: i32, r: S) -> bool {
    call_ensures(S::from_int, (n,), r)
}

/// `r` came out of `a.plus(b)`.
pub open spec fn is_sum<S: Scalar>(a: S, b: S, r: S) -> bool {
    call_ensures(S::plus, (a, b), r)
}

/// `r` came out of `a.minus(b)`.
pub open spec fn is_difference<S: Scalar>(a: S, b: S, r: S) -> bool {
    call_ensures(S::minus, (a, b), r)
}

/// `r` came out of `a.times(b)`.
pub open spec fn is_product<S: Scalar>(a: S, b: S, r: S) -> bool {
    call_ensures(S::times, (a, b), r)
}

/// `r` came out of `a.over(b)`.
pub open spec fn is_quotient<S: Scalar>(a: S, b: S, r: S) -> bool {
    call_ensures(S::over, (a, b), r)
}

/// `r` came out of `a.negated()`.
pub open spec fn is_negation<S: Scalar>(a: S, r: S) -> bool {
    call_ensures(S::negated, (a,), r)
}

/// `r` came out of `a.exp()`.
pub open spec fn is_exp<S: Scalar>(a: S, r: S) -> bool {
    call_ensures(S::exp, (a,), r)
}

/// `r` came out of `a.tanh()`.
pub open spec fn is_tanh<S: Scalar>(a: S, r: S) -> bool {
    call_ensures(S::tanh, (a,), r)
}

/// `r` came out of `a.larger(b)`.
pub open spec fn is_larger<S: Scalar>(a: S, b: S, r: S) -> bool {
    call_ensures(S::larger, (a, b), r)
}

/// `r` came out of `a.exceeds(b)`.
pub open spec fn is_exceeds<S: Scalar>(a: S, b: S, r: bool) -> bool {
    call_ensures(S::exceeds, (a, b), r)
}

/// `r` came out of `source.draw()`.
pub open spec fn is_draw<S, G: Sampler<S>>(source: &G, r: S) -> bool {
    call_ensures(G::draw, (source,), r)
}

/// `acc` came out of adding up the first `n` products `a[k] * b[k]`, from a
/// zero and in the order of `k`.
pub open spec fn is_inner_product<S: Scalar>(a: Seq<S>, b: Seq<S>, n: nat, acc: S) -> bool
    decreases n,
{
    if n == 0 {
        is_int(0, acc)
    } else {
        exists|prev: S, term: S|
            is_inner_product(a, b, (n - 1) as nat, prev) && is_product(a[n - 1], b[n - 1], term)
                && #[trigger] is_sum(prev, term, acc)
    }
}

/// One more product joins an inner product.
pub proof fn lemma_inner_product_step<S: Scalar>(
    a: Seq<S>,
    b: Seq<S>,
    n: nat,
    prev: S,
    term: S,
    acc: S,
)
    requires
        is_inner_product(a, b, n, prev),
        is_product(a[n as int], b[n as int], term),
        is_sum(prev, term, acc),
    ensures
        is_inner_product(a, b, n + 1, acc),
{
    let m = n + 1;
    assert((m - 1) as nat == n);
    assert(is_product(a[m - 1], b[m - 1], term));
}

/// The inner product of two slices of one length.
pub fn inner_product<S: Scalar>(a: &[S], b: &[S]) -> (acc: S)
    requires
        a@.len() == b@.len(),
    ensures
        is_inner_product(a@, b@, a@.len(), acc),
{
    let mut acc = S::from_int(0);
    let mut k: usize = 0;
    while k < a.len()
        invariant
            k <= a@.len(),
            a@.len() == b@.len(),
            is_inner_product(a@, b@, k as nat, acc),
        decreases a@.len() - k,
    {
        let term = a[k].times(b[k]);
        let next = acc.plus(term);
        proof {
            lemma_inner_product_step(a@, b@, k as nat, acc, term, next);
        }
        acc = next;
        k = k + 1;
    }
    acc
}

} // verus!
