//! Sharing a secret among the three helpers, and putting it together again.

use vstd::prelude::*;
use crate::entropy::random_u128;
use crate::ff::modular::{congruent, lemma_difference, lemma_reduced, lemma_small, lemma_sum};
use crate::ff::Field;
use crate::secret_sharing::replicated::{consistent, ints_of, opened, Replicated};

verus! {

/// Shares `input` from two given values: the three additive shares are
/// `x1`, `x2` and `input - x1 - x2`, and helper `i` holds the `i`-th and the
/// one after it.
pub fn share_with<F: Field>(input: F, x1: F, x2: F) -> (shares: [Replicated<F>; 3])
    ensures
        consistent(ints_of(shares)),
        opened(ints_of(shares), F::prime()) == input.as_int(),
        shares[0].ints() == (x1.as_int(), x2.as_int()),
        shares[1].ints().0 == x2.as_int(),
        shares[2].ints().1 == x1.as_int(),
{
    let x3 = input.sub(x1).sub(x2);
    let shares = [Replicated::new(x1, x2), Replicated::new(x2, x3), Replicated::new(x3, x1)];
    proof {
        let p = F::prime();
        let (a, b, c) = (x1.as_int(), x2.as_int(), x3.as_int());
        F::lemma_modulus();
        F::lemma_canonical(input);
        lemma_reduced(input.as_int() - a, p);
        lemma_difference((input.as_int() - a) % p, b, input.as_int() - a, b, p);
        F::lemma_canonical(x3);
        lemma_small(c, p);
        lemma_sum(a + b, c, a + b, input.as_int() - a - b, p);
        lemma_small(input.as_int(), p);
    }
    shares
}

/// Shares `input` with fresh randomness.
pub fn share<F: Field>(input: F) -> (shares: [Replicated<F>; 3])
    ensures
        consistent(ints_of(shares)),
        opened(ints_of(shares), F::prime()) == input.as_int(),
{
    let x1 = F::truncate_from(random_u128());
    let x2 = F::truncate_from(random_u128());
    share_with(input, x1, x2)
}

/// The sum of the three distinct coordinates of three shares.
pub fn reconstruct<F: Field>(shares: &[Replicated<F>; 3]) -> (secret: F)
    ensures
        secret.as_int() == opened(ints_of(*shares), F::prime()),
{
    let s = shares[0].left().add(shares[1].left());
    let v = s.add(shares[2].left());
    proof {
        let p = F::prime();
        let z = ints_of(*shares);
        F::lemma_modulus();
        lemma_reduced(z[0].0 + z[1].0, p);
        lemma_sum(s.as_int(), z[2].0, z[0].0 + z[1].0, z[2].0, p);
        F::lemma_canonical(v);
        lemma_small(v.as_int(), p);
    }
    v
}

/// The secret of three shares, if they fit together.
pub fn validate_and_reconstruct<F: Field>(shares: &[Replicated<F>; 3]) -> (secret: Option<F>)
    ensures
        secret is Some <==> consistent(ints_of(*shares)),
        secret matches Some(v) ==> v.as_int() == opened(ints_of(*shares), F::prime()),
{
    let fits = shares[0].right().as_u128() == shares[1].left().as_u128()
        && shares[1].right().as_u128() == shares[2].left().as_u128()
        && shares[2].right().as_u128() == shares[0].left().as_u128();
    if fits {
        Some(reconstruct(shares))
    } else {
        None
    }
}

} // verus!
