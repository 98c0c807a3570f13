//! Congruences: the few facts about `%` that the protocol laws rest on.

use vstd::arithmetic::div_mod::{
    lemma_add_mod_noop, lemma_mod_twice, lemma_mul_mod_noop, lemma_sub_mod_noop,
};
use vstd::prelude::*;

verus! {

/// Whether `a` and `b` leave the same remainder modulo `p`.
pub open spec fn congruent(a: int, b: int, p: int) -> bool {
    a % p == b % p
}

/// A remainder is congruent to what it is the remainder of.
pub proof fn lemma_reduced(a: int, p: int)
    requires
        p > 0,
    ensures
        congruent(a % p, a, p),
        0 <= a % p < p,
{
    lemma_mod_twice(a, p);
}

/// A number in `[0, p)` is its own remainder.
pub proof fn lemma_small(a: int, p: int)
    requires
        0 <= a < p,
    ensures
        a % p == a,
{
    vstd::arithmetic::div_mod::lemma_small_mod(a as nat, p as nat);
}

/// The reduced sum of two numbers is congruent to the sum of anything
/// congruent to them.
pub proof fn lemma_sum(a: int, b: int, ea: int, eb: int, p: int)
    requires
        p > 0,
        congruent(a, ea, p),
        congruent(b, eb, p),
    ensures
        congruent((a + b) % p, ea + eb, p),
        congruent(a + b, ea + eb, p),
{
    lemma_add_mod_noop(a, b, p);
    lemma_add_mod_noop(ea, eb, p);
    lemma_mod_twice(a + b, p);
}

/// The reduced difference of two numbers is congruent to the difference of
/// anything congruent to them.
pub proof fn lemma_difference(a: int, b: int, ea: int, eb: int, p: int)
    requires
        p > 0,
        congruent(a, ea, p),
        congruent(b, eb, p),
    ensures
        congruent((a - b) % p, ea - eb, p),
        congruent(a - b, ea - eb, p),
{
    lemma_sub_mod_noop(a, b, p);
    lemma_sub_mod_noop(ea, eb, p);
    lemma_mod_twice(a - b, p);
}

/// The reduced product of two numbers is congruent to the product of
/// anything congruent to them.
pub proof fn lemma_product(a: int, b: int, ea: int, eb: int, p: int)
    requires
        p > 0,
        congruent(a, ea, p),
        congruent(b, eb, p),
    ensures
        congruent((a * b) % p, ea * eb, p),
        congruent(a * b, ea * eb, p),
{
    lemma_mul_mod_noop(a, b, p);
    lemma_mul_mod_noop(ea, eb, p);
    lemma_mod_twice(a * b, p);
}

} // verus!
