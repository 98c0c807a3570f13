//! Inverses modulo a number, by the extended algorithm of Euclid.

use vstd::arithmetic::div_mod::{
    lemma_fundamental_div_mod, lemma_mod_multiples_basic, lemma_mod_self_0, lemma_small_mod,
};
use vstd::prelude::*;
use crate::ff::modular::{congruent, lemma_difference, lemma_product, lemma_reduced, lemma_small};

verus! {

/// Whether `d` divides `a`.
pub open spec fn divides(d: int, a: int) -> bool {
    d != 0 && a % d == 0
}

/// Whether `a` and `b` have a divisor above one in common.
pub open spec fn has_common_divisor(a: int, b: int) -> bool {
    exists|d: int| d > 1 && #[trigger] divides(d, a) && divides(d, b)
}

/// Whether `p` is a prime.
pub open spec fn is_prime(p: int) -> bool {
    &&& p >= 2
    &&& forall|d: int| 1 < d < p ==> !#[trigger] divides(d, p)
}

/// A divisor of two numbers divides every combination `a - q * b` of them,
/// and a divisor of `b` and of `a - q * b` divides `a`.
proof fn lemma_divides_combination(d: int, a: int, b: int, q: int)
    requires
        d > 0,
        divides(d, b),
    ensures
        divides(d, a) <==> divides(d, a - q * b),
{
    lemma_fundamental_div_mod(b, d);
    let k = b / d;
    assert(b == d * k);
    assert(q * b == (q * k) * d) by (nonlinear_arith)
        requires
            b == d * k,
    ;
    vstd::arithmetic::div_mod::lemma_mod_multiples_vanish(-(q * k), a, d);
    assert(a + (-(q * k)) * d == a - (q * k) * d) by (nonlinear_arith);
}

/// The inverse of `x` modulo `p`, if there is one: a `y` below `p` with
/// `x * y = 1` modulo `p`. There is none exactly if `x` and `p` have a
/// divisor above one in common.
pub fn invert_mod(x: u64, p: u64) -> (r: Option<u64>)
    requires
        2 <= p <= 0xffff_ffff,
        x < p,
    ensures
        r matches Some(y) ==> y < p && (x * y) % (p as int) == 1,
        r is None ==> has_common_divisor(x as int, p as int),
{
    let mut r0: u64 = p;
    let mut r1: u64 = x;
    let mut t0: u64 = 0;
    let mut t1: u64 = 1;
    proof {
        lemma_mod_self_0(p as int);
        lemma_small(x as int, p as int);
        lemma_small(0, p as int);
        assert(0 * x == 0);
        assert(1 * x == x);
    }
    while r1 != 0
        invariant
            2 <= p <= 0xffff_ffff,
            x < p,
            r0 <= p,
            r1 < p,
            r1 < r0 || r1 == 0 || r0 == p,
            r0 > 0,
            t0 < p,
            t1 < p,
            congruent(t0 * x, r0 as int, p as int),
            congruent(t1 * x, r1 as int, p as int),
            forall|d: int|
                d > 0 && #[trigger] divides(d, r0 as int) && divides(d, r1 as int) ==> divides(
                    d,
                    p as int,
                ) && divides(d, x as int),
        decreases r1,
    {
        let q: u64 = r0 / r1;
        let r2: u64 = r0 % r1;
        let qm: u64 = q % p;
        assert(qm * t1 <= 0xffff_ffff * 0xffff_ffff) by (nonlinear_arith)
            requires
                qm <= 0xffff_ffff,
                t1 <= 0xffff_ffff,
        ;
        let qt: u64 = (qm * t1) % p;
        let t2: u64 = (t0 + p - qt) % p;
        proof {
            let pi = p as int;
            lemma_fundamental_div_mod(r0 as int, r1 as int);
            assert(r2 == r0 - q * r1) by (nonlinear_arith)
                requires
                    r0 == r1 * q + r2,
            ;
            // t2 * x = (t0 - q * t1) * x = t0 * x - q * (t1 * x) = r0 - q * r1
            lemma_reduced(q as int, pi);
            lemma_reduced(qm * t1, pi);
            lemma_product(qm as int, t1 as int, q as int, t1 as int, pi);
            vstd::arithmetic::div_mod::lemma_mod_add_multiples_vanish(t0 - qt, pi);
            lemma_difference(t0 as int, qt as int, t0 as int, q * t1, pi);
            lemma_reduced(t0 - qt, pi);
            assert(congruent(t2 as int, t0 - q * t1, pi));
            lemma_small(x as int, pi);
            lemma_product(t2 as int, x as int, t0 - q * t1, x as int, pi);
            assert((t0 - q * t1) * x == t0 * x - q * (t1 * x)) by (nonlinear_arith);
            lemma_product(q as int, t1 * x, q as int, r1 as int, pi);
            lemma_difference(t0 * x, q * (t1 * x), r0 as int, q * r1, pi);
            assert forall|d: int|
                d > 0 && #[trigger] divides(d, r1 as int) && divides(d, r2 as int) implies divides(
                d,
                p as int,
            ) && divides(d, x as int) by {
                lemma_divides_combination(d, r0 as int, r1 as int, q as int);
            }
        }
        r0 = r1;
        r1 = r2;
        t0 = t1;
        t1 = t2;
    }
    if r0 == 1 {
        proof {
            lemma_small(1, p as int);
            assert(t0 * x == x * t0) by (nonlinear_arith);
        }
        Some(t0)
    } else {
        proof {
            lemma_mod_self_0(r0 as int);
            assert(divides(r0 as int, r0 as int));
            assert(0int % (r0 as int) == 0) by {
                lemma_small_mod(0, r0 as nat);
            }
            assert(divides(r0 as int, r1 as int));
            assert(divides(r0 as int, x as int) && divides(r0 as int, p as int));
        }
        None
    }
}

/// A prime has no divisor in common with a positive number below it.
pub proof fn lemma_prime_has_inverses(x: int, p: int)
    requires
        is_prime(p),
        0 < x < p,
    ensures
        !has_common_divisor(x, p),
{
    if has_common_divisor(x, p) {
        let d = choose|d: int| d > 1 && #[trigger] divides(d, x) && divides(d, p);
        if d >= p {
            // a divisor of x is at most x
            lemma_fundamental_div_mod(x, d);
            let k = x / d;
            assert(x == d * k);
            assert(k >= 1) by (nonlinear_arith)
                requires
                    x == d * k,
                    x > 0,
                    d > 1,
            ;
            assert(d * k >= d) by (nonlinear_arith)
                requires
                    k >= 1,
                    d > 1,
            ;
        }
    }
}

/// What has an inverse has no divisor in common with the modulus.
pub proof fn lemma_inverse_excludes_divisor(x: int, y: int, p: int)
    requires
        p >= 2,
        (x * y) % p == 1,
    ensures
        !has_common_divisor(x, p),
{
    if has_common_divisor(x, p) {
        let d = choose|d: int| d > 1 && #[trigger] divides(d, x) && divides(d, p);
        lemma_fundamental_div_mod(x * y, p);
        let k = (x * y) / p;
        lemma_fundamental_div_mod(x, d);
        lemma_fundamental_div_mod(p, d);
        let a = x / d;
        let b = p / d;
        assert(1 == d * (a * y - b * k)) by (nonlinear_arith)
            requires
                x * y == p * k + 1,
                x == d * a,
                p == d * b,
        ;
        assert(false) by (nonlinear_arith)
            requires
                1 == d * (a * y - b * k),
                d > 1,
        ;
    }
}

/// Thirty-one is a prime.
pub proof fn lemma_31_is_prime()
    ensures
        is_prime(31),
{
    assert forall|d: int| 1 < d < 31 implies !#[trigger] divides(d, 31) by {
        if d == 2 {
        } else if d == 3 {
        } else if d == 4 {
        } else if d == 5 {
        } else if d == 6 {
        } else if d == 7 {
        } else if d == 8 {
        } else if d == 9 {
        } else if d == 10 {
        } else if d == 11 {
        } else if d == 12 {
        } else if d == 13 {
        } else if d == 14 {
        } else if d == 15 {
        } else {
            // twice a number above 15 is above 31
            lemma_fundamental_div_mod(31, d);
            let k = 31int / d;
            if 31int % d == 0 {
                assert(31 == d * k);
                assert(false) by (nonlinear_arith)
                    requires
                        31 == d * k,
                        15 < d < 31,
                ;
            }
        }
    }
}

} // verus!
