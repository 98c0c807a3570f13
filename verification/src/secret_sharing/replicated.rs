//! The pair of additive shares that one helper holds.

use vstd::prelude::*;
use crate::ff::modular::{congruent, lemma_reduced, lemma_sum};
use crate::ff::Field;

verus! {

/// The share of one helper: helper `i` holds `(s_i, s_{i+1})` of a secret
/// `s_1 + s_2 + s_3`.
#[derive(Debug, Clone, Copy, PartialEq, Eq)]
pub struct Replicated<V> {
    left: V,
    right: V,
}

impl<V: Copy> Replicated<V> {
    pub closed spec fn spec_left(self) -> V {
        self.left
    }

    pub closed spec fn spec_right(self) -> V {
        self.right
    }

    pub fn new(left: V, right: V) -> (s: Self)
        ensures
            s.spec_left() == left,
            s.spec_right() == right,
    {
        Replicated { left, right }
    }

    pub fn left(&self) -> (v: V)
        ensures
            v == self.spec_left(),
    {
        self.left
    }

    pub fn right(&self) -> (v: V)
        ensures
            v == self.spec_right(),
    {
        self.right
    }

    pub fn as_tuple(&self) -> (pair: (V, V))
        ensures
            pair == (self.spec_left(), self.spec_right()),
    {
        (self.left, self.right)
    }
}

impl<F: Field> Replicated<F> {
    /// The two coordinates, as integers below the prime.
    pub open spec fn ints(self) -> (int, int) {
        (self.spec_left().as_int(), self.spec_right().as_int())
    }

    /// The share of zero that every helper may take.
    pub fn zero() -> (s: Self)
        ensures
            s.ints() == (0int, 0int),
    {
        Replicated::new(F::zero(), F::zero())
    }

    /// Coordinate-wise sum.
    pub fn add(self, rhs: Self) -> (s: Self)
        ensures
            s.ints().0 == (self.ints().0 + rhs.ints().0) % F::prime(),
            s.ints().1 == (self.ints().1 + rhs.ints().1) % F::prime(),
    {
        Replicated::new(self.left.add(rhs.left), self.right.add(rhs.right))
    }

    /// Coordinate-wise difference.
    pub fn sub(self, rhs: Self) -> (s: Self)
        ensures
            s.ints().0 == (self.ints().0 - rhs.ints().0) % F::prime(),
            s.ints().1 == (self.ints().1 - rhs.ints().1) % F::prime(),
    {
        Replicated::new(self.left.sub(rhs.left), self.right.sub(rhs.right))
    }

    /// Coordinate-wise negation.
    pub fn neg(self) -> (s: Self)
        ensures
            s.ints().0 == (-self.ints().0) % F::prime(),
            s.ints().1 == (-self.ints().1) % F::prime(),
    {
        Replicated::new(self.left.neg(), self.right.neg())
    }

    /// Multiplication by a constant that every helper knows.
    pub fn mul_scalar(self, c: F) -> (s: Self)
        ensures
            s.ints().0 == (self.ints().0 * c.as_int()) % F::prime(),
            s.ints().1 == (self.ints().1 * c.as_int()) % F::prime(),
    {
        Replicated::new(self.left.mul(c), self.right.mul(c))
    }
}

/// The coordinates of three shares, in ring order.
pub open spec fn ints_of<F: Field>(shares: [Replicated<F>; 3]) -> Seq<(int, int)> {
    seq![shares[0].ints(), shares[1].ints(), shares[2].ints()]
}

/// Whether three shares, in ring order, fit together: each helper's right
/// coordinate is its right-hand neighbour's left one.
pub open spec fn consistent(shares: Seq<(int, int)>) -> bool {
    &&& shares.len() == 3
    &&& shares[0].1 == shares[1].0
    &&& shares[1].1 == shares[2].0
    &&& shares[2].1 == shares[0].0
}

/// The secret that three shares stand for: the sum of the three distinct
/// coordinates, modulo `p`.
pub open spec fn opened(shares: Seq<(int, int)>, p: int) -> int {
    (shares[0].0 + shares[1].0 + shares[2].0) % p
}

/// The secret of the sum of two sharings is the sum of their secrets.
pub proof fn lemma_add_is_linear(x: Seq<(int, int)>, y: Seq<(int, int)>, p: int)
    requires
        p > 0,
        x.len() == 3,
        y.len() == 3,
    ensures
        ({
            let z = Seq::new(3, |i: int| ((x[i].0 + y[i].0) % p, (x[i].1 + y[i].1) % p));
            &&& (consistent(x) && consistent(y) ==> consistent(z))
            &&& opened(z, p) == (opened(x, p) + opened(y, p)) % p
        }),
{
    let z = Seq::new(3, |i: int| ((x[i].0 + y[i].0) % p, (x[i].1 + y[i].1) % p));
    lemma_reduced(x[0].0 + y[0].0, p);
    lemma_reduced(x[1].0 + y[1].0, p);
    lemma_reduced(x[2].0 + y[2].0, p);
    lemma_sum(z[0].0, z[1].0, x[0].0 + y[0].0, x[1].0 + y[1].0, p);
    lemma_sum(z[0].0 + z[1].0, z[2].0, x[0].0 + y[0].0 + x[1].0 + y[1].0, x[2].0 + y[2].0, p);
    lemma_reduced(x[0].0 + x[1].0 + x[2].0, p);
    lemma_reduced(y[0].0 + y[1].0 + y[2].0, p);
    lemma_sum(
        opened(x, p),
        opened(y, p),
        x[0].0 + x[1].0 + x[2].0,
        y[0].0 + y[1].0 + y[2].0,
        p,
    );
}

} // verus!
