//! Multiplication of two shared values, one exchange per helper.

use vstd::prelude::*;
use crate::ff::modular::{congruent, lemma_difference, lemma_product, lemma_reduced, lemma_sum};
use crate::ff::Field;
use crate::helpers::role::{spec_peer, Direction, Role};
use crate::protocol::context::Context;
use crate::error::Error;
use crate::protocol::prss::{record_values, PrssEndpoint, PrssLedger};
use crate::protocol::step::RecordId;
use crate::secret_sharing::replicated::{consistent, opened, Replicated};

verus! {

/// The correlated pair of a helper for a record, reduced modulo `p`.
pub open spec fn masks(keys: PrssEndpoint, record: int, p: int) -> (int, int) {
    (record_values(keys, record).0 as int % p, record_values(keys, record).1 as int % p)
}

/// The products a helper can form alone from its shares of `x` and `y`.
pub open spec fn cross_terms(x: (int, int), y: (int, int)) -> int {
    x.0 * y.0 + x.0 * y.1 + x.1 * y.0
}

/// What helper `i` contributes to a product: its cross terms, masked by its
/// correlated pair.
pub open spec fn mul_message(x: (int, int), y: (int, int), r: (int, int), p: int) -> int {
    (cross_terms(x, y) + r.0 - r.1) % p
}

/// A multiplication under way at one helper: its own contribution is
/// computed and waits for the one of the left-hand neighbour.
#[derive(Debug, Clone, Copy)]
pub struct MulRound<F> {
    role: Role,
    own: F,
}

impl<F: Field> MulRound<F> {
    pub closed spec fn spec_role(&self) -> Role {
        self.role
    }

    /// The contribution of this helper.
    pub closed spec fn spec_own(&self) -> F {
        self.own
    }

    pub(crate) fn new(role: Role, own: F) -> (round: Self)
        ensures
            round.spec_role() == role,
            round.spec_own() == own,
    {
        MulRound { role, own }
    }

    /// The neighbour that this helper's contribution goes to: the right one.
    pub fn send_to(&self) -> (peer: Role)
        ensures
            peer == spec_peer(self.spec_role(), Direction::Right),
    {
        self.role.peer(Direction::Right)
    }

    /// The neighbour whose contribution this helper waits for: the left one.
    pub fn receive_from(&self) -> (peer: Role)
        ensures
            peer == spec_peer(self.spec_role(), Direction::Left),
    {
        self.role.peer(Direction::Left)
    }

    /// The value to send.
    pub fn message(&self) -> (value: F)
        ensures
            value == self.spec_own(),
    {
        self.own
    }

    /// The share of the product: what the left neighbour sent, and the own
    /// contribution.
    pub fn finish(self, received: F) -> (share: Replicated<F>)
        ensures
            share.spec_left() == received,
            share.spec_right() == self.spec_own(),
    {
        Replicated::new(received, self.own)
    }
}

/// The masked sum of cross terms that a helper sends, from its shares and
/// its correlated pair.
pub fn masked_cross_terms<F: Field>(a: &Replicated<F>, b: &Replicated<F>, masks: (F, F)) -> (d: F)
    ensures
        d.as_int() == mul_message(
            a.ints(),
            b.ints(),
            (masks.0.as_int(), masks.1.as_int()),
            F::prime(),
        ),
{
    let t0 = a.left().mul(b.left());
    let t1 = a.left().mul(b.right());
    let t2 = a.right().mul(b.left());
    let s1 = t0.add(t1);
    let s2 = s1.add(t2);
    let s3 = s2.add(masks.0);
    let d = s3.sub(masks.1);
    proof {
        let p = F::prime();
        let (xl, xr) = a.ints();
        let (yl, yr) = b.ints();
        F::lemma_modulus();
        lemma_reduced(xl * yl, p);
        lemma_reduced(xl * yr, p);
        lemma_reduced(xr * yl, p);
        lemma_sum(t0.as_int(), t1.as_int(), xl * yl, xl * yr, p);
        lemma_sum(s1.as_int(), t2.as_int(), xl * yl + xl * yr, xr * yl, p);
        lemma_sum(s2.as_int(), masks.0.as_int(), cross_terms(a.ints(), b.ints()), masks.0.as_int(), p);
        lemma_difference(
            s3.as_int(),
            masks.1.as_int(),
            cross_terms(a.ints(), b.ints()) + masks.0.as_int(),
            masks.1.as_int(),
            p,
        );
        F::lemma_canonical(d);
        crate::ff::modular::lemma_small(d.as_int(), p);
    }
    d
}

/// Starts the multiplication of `a` and `b` at this helper, for one record.
/// The round holds this helper's contribution, to be sent to the right.
pub fn multiply<F: Field>(
    a: &Replicated<F>,
    b: &Replicated<F>,
    ctx: &Context,
    record_id: RecordId,
) -> (round: MulRound<F>)
    ensures
        round.spec_role() == ctx.spec_role(),
        round.spec_own().as_int() == mul_message(
            a.ints(),
            b.ints(),
            masks(ctx.keys(), record_id@, F::prime()),
            F::prime(),
        ),
{
    let pair = ctx.generate_fields::<F>(record_id);
    multiply_with_pair(a, b, ctx.role(), pair)
}

/// Starts the multiplication of `a` and `b` at the helper `role`, from the
/// correlated pair of that helper.
pub fn multiply_with_pair<F: Field>(
    a: &Replicated<F>,
    b: &Replicated<F>,
    role: Role,
    pair: (F, F),
) -> (round: MulRound<F>)
    ensures
        round.spec_role() == role,
        round.spec_own().as_int() == mul_message(
            a.ints(),
            b.ints(),
            (pair.0.as_int(), pair.1.as_int()),
            F::prime(),
        ),
{
    MulRound::new(role, masked_cross_terms(a, b, pair))
}

/// Starts the multiplication of `a` and `b` like `multiply`, with the draw
/// of the correlated pair noted in the ledger of the helper. A record whose
/// pair was drawn before on this step is refused.
pub fn multiply_once<F: Field>(
    a: &Replicated<F>,
    b: &Replicated<F>,
    ctx: &Context,
    ledger: &mut PrssLedger,
    record_id: RecordId,
) -> (r: Result<MulRound<F>, Error>)
    ensures
        PrssLedger::noted(*old(ledger), *final(ledger), ctx.path(), record_id@, r is Ok),
        match r {
            Ok(round) => round.spec_role() == ctx.spec_role() && round.spec_own().as_int()
                == mul_message(
                a.ints(),
                b.ints(),
                masks(ctx.keys(), record_id@, F::prime()),
                F::prime(),
            ),
            Err(e) => e == Error::PrssReuse,
        },
{
    match ctx.generate_fields_once::<F>(ledger, record_id) {
        Ok(pair) => Ok(multiply_with_pair(a, b, ctx.role(), pair)),
        Err(e) => Err(e),
    }
}

/// The nine products of the coordinates of two sharings are the cross terms
/// of the three helpers.
proof fn lemma_cross_terms_cover(x: Seq<(int, int)>, y: Seq<(int, int)>)
    requires
        consistent(x),
        consistent(y),
    ensures
        cross_terms(x[0], y[0]) + cross_terms(x[1], y[1]) + cross_terms(x[2], y[2]) == (x[0].0
            + x[1].0 + x[2].0) * (y[0].0 + y[1].0 + y[2].0),
{
    let (a, b, c) = (x[0].0, x[1].0, x[2].0);
    let (d, e, f) = (y[0].0, y[1].0, y[2].0);
    assert((a + b + c) * (d + e + f) == a * d + a * e + b * d + b * e + b * f + c * e + c * f + c
        * d + a * f) by (nonlinear_arith);
}

/// Multiplication is correct: when the three helpers start from consistent
/// sharings of `x` and `y` and from correlated pairs, the shares they end
/// with are consistent and open to `x * y`.
pub proof fn lemma_multiply_opens_to_product(
    x: Seq<(int, int)>,
    y: Seq<(int, int)>,
    r: Seq<(int, int)>,
    p: int,
)
    requires
        p > 0,
        consistent(x),
        consistent(y),
        consistent(r),
    ensures
        ({
            let d0 = mul_message(x[0], y[0], r[0], p);
            let d1 = mul_message(x[1], y[1], r[1], p);
            let d2 = mul_message(x[2], y[2], r[2], p);
            let z = seq![(d2, d0), (d0, d1), (d1, d2)];
            &&& consistent(z)
            &&& opened(z, p) == (opened(x, p) * opened(y, p)) % p
        }),
{
    let e0 = cross_terms(x[0], y[0]) + r[0].0 - r[0].1;
    let e1 = cross_terms(x[1], y[1]) + r[1].0 - r[1].1;
    let e2 = cross_terms(x[2], y[2]) + r[2].0 - r[2].1;
    let d0 = e0 % p;
    let d1 = e1 % p;
    let d2 = e2 % p;
    lemma_reduced(e0, p);
    lemma_reduced(e1, p);
    lemma_reduced(e2, p);
    lemma_sum(d2, d0, e2, e0, p);
    lemma_sum(d2 + d0, d1, e2 + e0, e1, p);
    lemma_cross_terms_cover(x, y);
    let sx = x[0].0 + x[1].0 + x[2].0;
    let sy = y[0].0 + y[1].0 + y[2].0;
    assert(e2 + e0 + e1 == sx * sy);
    lemma_reduced(sx, p);
    lemma_reduced(sy, p);
    lemma_product(opened(x, p), opened(y, p), sx, sy, p);
}

} // verus!
