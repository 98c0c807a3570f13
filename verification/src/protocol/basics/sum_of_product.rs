//! The sum of the products of two vectors of shared values, in one exchange.

use vstd::prelude::*;
use crate::ff::modular::{congruent, lemma_difference, lemma_product, lemma_reduced, lemma_sum};
use crate::ff::Field;
use crate::protocol::basics::mul::{cross_terms, masks, MulRound};
use crate::error::Error;
use crate::helpers::role::Role;
use crate::protocol::context::Context;
use crate::protocol::prss::PrssLedger;
use crate::protocol::step::RecordId;
use crate::secret_sharing::replicated::{consistent, opened, Replicated};

verus! {

/// The cross terms of the first `n` pairs, summed.
pub open spec fn cross_sum(xs: Seq<(int, int)>, ys: Seq<(int, int)>, n: int) -> int
    decreases n,
{
    if n <= 0 {
        0
    } else {
        cross_sum(xs, ys, n - 1) + cross_terms(xs[n - 1], ys[n - 1])
    }
}

/// What a helper contributes to a sum of products: all its cross terms,
/// masked once.
pub open spec fn sop_message(
    xs: Seq<(int, int)>,
    ys: Seq<(int, int)>,
    r: (int, int),
    p: int,
) -> int {
    (cross_sum(xs, ys, xs.len() as int) + r.0 - r.1) % p
}

/// The coordinates of a vector of shares.
pub open spec fn ints_of_all<F: Field>(shares: Seq<Replicated<F>>) -> Seq<(int, int)> {
    Seq::new(shares.len(), |i: int| shares[i].ints())
}

/// Starts the sum of products of `a` and `b` at this helper, for one record.
/// The round is finished like a multiplication.
pub fn sum_of_products<F: Field>(
    a: &[Replicated<F>],
    b: &[Replicated<F>],
    ctx: &Context,
    record_id: RecordId,
) -> (round: MulRound<F>)
    requires
        a@.len() == b@.len(),
    ensures
        round.spec_role() == ctx.spec_role(),
        round.spec_own().as_int() == sop_message(
            ints_of_all(a@),
            ints_of_all(b@),
            masks(ctx.keys(), record_id@, F::prime()),
            F::prime(),
        ),
{
    let pair = ctx.generate_fields::<F>(record_id);
    sum_of_products_with_pair(a, b, ctx.role(), pair)
}

/// Starts the sum of products like `sum_of_products`, with the draw of the
/// correlated pair noted in the ledger of the helper. A record whose pair
/// was drawn before on this step is refused.
pub fn sum_of_products_once<F: Field>(
    a: &[Replicated<F>],
    b: &[Replicated<F>],
    ctx: &Context,
    ledger: &mut PrssLedger,
    record_id: RecordId,
) -> (r: Result<MulRound<F>, Error>)
    requires
        a@.len() == b@.len(),
    ensures
        PrssLedger::noted(*old(ledger), *final(ledger), ctx.path(), record_id@, r is Ok),
        match r {
            Ok(round) => round.spec_role() == ctx.spec_role() && round.spec_own().as_int()
                == sop_message(
                ints_of_all(a@),
                ints_of_all(b@),
                masks(ctx.keys(), record_id@, F::prime()),
                F::prime(),
            ),
            Err(e) => e == Error::PrssReuse,
        },
{
    match ctx.generate_fields_once::<F>(ledger, record_id) {
        Ok(pair) => Ok(sum_of_products_with_pair(a, b, ctx.role(), pair)),
        Err(e) => Err(e),
    }
}

/// Starts the sum of products of `a` and `b` at the helper `role`, from the
/// correlated pair of that helper.
pub fn sum_of_products_with_pair<F: Field>(
    a: &[Replicated<F>],
    b: &[Replicated<F>],
    role: Role,
    pair: (F, F),
) -> (round: MulRound<F>)
    requires
        a@.len() == b@.len(),
    ensures
        round.spec_role() == role,
        round.spec_own().as_int() == sop_message(
            ints_of_all(a@),
            ints_of_all(b@),
            (pair.0.as_int(), pair.1.as_int()),
            F::prime(),
        ),
{
    let ghost p = F::prime();
    let ghost xs = ints_of_all(a@);
    let ghost ys = ints_of_all(b@);
    let mut acc = F::zero();
    let mut i: usize = 0;
    proof {
        F::lemma_modulus();
        lemma_reduced(0, p);
    }
    while i < a.len()
        invariant
            i <= a@.len(),
            a@.len() == b@.len(),
            p == F::prime(),
            p > 0,
            xs == ints_of_all(a@),
            ys == ints_of_all(b@),
            congruent(acc.as_int(), cross_sum(xs, ys, i as int), p),
        decreases a@.len() - i,
    {
        let x = &a[i];
        let y = &b[i];
        let t0 = x.left().mul(y.left());
        let t1 = x.left().mul(y.right());
        let t2 = x.right().mul(y.left());
        let s1 = t0.add(t1);
        let s2 = s1.add(t2);
        let next = acc.add(s2);
        proof {
            let (xl, xr) = x.ints();
            let (yl, yr) = y.ints();
            assert(xs[i as int] == x.ints());
            assert(ys[i as int] == y.ints());
            lemma_reduced(xl * yl, p);
            lemma_reduced(xl * yr, p);
            lemma_reduced(xr * yl, p);
            lemma_sum(t0.as_int(), t1.as_int(), xl * yl, xl * yr, p);
            lemma_sum(s1.as_int(), t2.as_int(), xl * yl + xl * yr, xr * yl, p);
            lemma_sum(
                acc.as_int(),
                s2.as_int(),
                cross_sum(xs, ys, i as int),
                cross_terms(x.ints(), y.ints()),
                p,
            );
        }
        acc = next;
        i = i + 1;
    }
    let s3 = acc.add(pair.0);
    let d = s3.sub(pair.1);
    proof {
        let total = cross_sum(xs, ys, xs.len() as int);
        lemma_sum(acc.as_int(), pair.0.as_int(), total, pair.0.as_int(), p);
        lemma_difference(s3.as_int(), pair.1.as_int(), total + pair.0.as_int(), pair.1.as_int(), p);
        F::lemma_canonical(d);
        crate::ff::modular::lemma_small(d.as_int(), p);
    }
    MulRound::new(role, d)
}

/// The inner product of the secrets behind two vectors of sharings, where
/// `xs[h][k]` is what helper `h` holds of the `k`-th value.
pub open spec fn inner_product(xs: Seq<Seq<(int, int)>>, ys: Seq<Seq<(int, int)>>, n: int) -> int
    decreases n,
{
    if n <= 0 {
        0
    } else {
        inner_product(xs, ys, n - 1) + (xs[0][n - 1].0 + xs[1][n - 1].0 + xs[2][n - 1].0) * (
        ys[0][n - 1].0 + ys[1][n - 1].0 + ys[2][n - 1].0)
    }
}

/// Whether the `k`-th shares of the three helpers fit together, for every
/// `k` below `n`.
pub open spec fn all_consistent(xs: Seq<Seq<(int, int)>>, n: int) -> bool {
    &&& xs.len() == 3
    &&& forall|h: int| 0 <= h < 3 ==> (#[trigger] xs[h]).len() == n
    &&& forall|k: int| 0 <= k < n ==> consistent(#[trigger] column(xs, k))
}

/// What the three helpers hold of the `k`-th value.
pub open spec fn column(xs: Seq<Seq<(int, int)>>, k: int) -> Seq<(int, int)> {
    seq![xs[0][k], xs[1][k], xs[2][k]]
}

/// The cross terms of the three helpers, summed over the first `m` pairs,
/// are the inner product of what the sharings open to, before reduction.
pub proof fn lemma_cross_sums_cover(xs: Seq<Seq<(int, int)>>, ys: Seq<Seq<(int, int)>>, n: int, m: int)
    requires
        all_consistent(xs, n),
        all_consistent(ys, n),
        0 <= m <= n,
    ensures
        cross_sum(xs[0], ys[0], m) + cross_sum(xs[1], ys[1], m) + cross_sum(xs[2], ys[2], m)
            == inner_product(xs, ys, m),
    decreases m,
{
    if m > 0 {
        lemma_cross_sums_cover(xs, ys, n, m - 1);
        let x = column(xs, m - 1);
        let y = column(ys, m - 1);
        assert(consistent(x));
        assert(consistent(y));
        let (a, b, c) = (x[0].0, x[1].0, x[2].0);
        let (d, e, f) = (y[0].0, y[1].0, y[2].0);
        assert((a + b + c) * (d + e + f) == a * d + a * e + b * d + b * e + b * f + c * e + c * f
            + c * d + a * f) by (nonlinear_arith);
    }
}

/// The sum of products is correct: from consistent sharings of `x_k` and
/// `y_k` and correlated pairs, the three helpers end with consistent shares
/// that open to the sum of the `x_k * y_k`.
pub proof fn lemma_sum_of_products_opens_to_inner_product(
    xs: Seq<Seq<(int, int)>>,
    ys: Seq<Seq<(int, int)>>,
    r: Seq<(int, int)>,
    n: int,
    p: int,
)
    requires
        p > 0,
        0 <= n,
        all_consistent(xs, n),
        all_consistent(ys, n),
        consistent(r),
    ensures
        ({
            let d0 = sop_message(xs[0], ys[0], r[0], p);
            let d1 = sop_message(xs[1], ys[1], r[1], p);
            let d2 = sop_message(xs[2], ys[2], r[2], p);
            let z = seq![(d2, d0), (d0, d1), (d1, d2)];
            &&& consistent(z)
            &&& opened(z, p) == inner_product(xs, ys, n) % p
        }),
{
    let e0 = cross_sum(xs[0], ys[0], n) + r[0].0 - r[0].1;
    let e1 = cross_sum(xs[1], ys[1], n) + r[1].0 - r[1].1;
    let e2 = cross_sum(xs[2], ys[2], n) + r[2].0 - r[2].1;
    lemma_reduced(e0, p);
    lemma_reduced(e1, p);
    lemma_reduced(e2, p);
    lemma_sum(e2 % p, e0 % p, e2, e0, p);
    lemma_sum(e2 % p + e0 % p, e1 % p, e2 + e0, e1, p);
    lemma_cross_sums_cover(xs, ys, n, n);
}

/// What `n` separate multiplications open to, added up: the sum of the
/// products of the secrets, each product reduced by itself.
pub open spec fn separate_products(
    xs: Seq<Seq<(int, int)>>,
    ys: Seq<Seq<(int, int)>>,
    n: int,
    p: int,
) -> int
    decreases n,
{
    if n <= 0 {
        0
    } else {
        separate_products(xs, ys, n - 1, p) + (opened(column(xs, n - 1), p) * opened(
            column(ys, n - 1),
            p,
        )) % p
    }
}

/// One sum of products and `n` separate multiplications agree: what the
/// separate products add up to is, modulo the prime, the inner product that
/// the sum of products opens to.
pub proof fn lemma_separate_products_agree(
    xs: Seq<Seq<(int, int)>>,
    ys: Seq<Seq<(int, int)>>,
    n: int,
    p: int,
)
    requires
        p > 0,
    ensures
        separate_products(xs, ys, n, p) % p == inner_product(xs, ys, n) % p,
    decreases n,
{
    if n > 0 {
        lemma_separate_products_agree(xs, ys, n - 1, p);
        let px = xs[0][n - 1].0 + xs[1][n - 1].0 + xs[2][n - 1].0;
        let py = ys[0][n - 1].0 + ys[1][n - 1].0 + ys[2][n - 1].0;
        let ox = opened(column(xs, n - 1), p);
        let oy = opened(column(ys, n - 1), p);
        lemma_reduced(px, p);
        lemma_reduced(py, p);
        lemma_product(ox, oy, px, py, p);
        lemma_sum(
            separate_products(xs, ys, n - 1, p),
            (ox * oy) % p,
            inner_product(xs, ys, n - 1),
            px * py,
            p,
        );
    }
}

} // verus!
