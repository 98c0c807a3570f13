//! Shares that carry a MAC, and the validator that checks the MACs at the
//! end of a computation.
//!
//! Every value `x` travels with a sharing of `r * x`, where `r` is a random
//! value that no helper knows until the end. For every value it sees, the
//! validator adds `alpha * (r * x)` to one running sum and `alpha * x` to
//! another, with a fresh random `alpha`. At the end `r` is opened, and the
//! first sum must be `r` times the second.

use vstd::prelude::*;
use vstd::string::StringSliceAdditionalSpecFns;
use crate::error::Error;
use crate::ff::modular::{
    congruent, lemma_difference, lemma_product, lemma_reduced, lemma_small, lemma_sum,
};
use crate::ff::Field;
use crate::helpers::role::Role;
use crate::protocol::basics::mul::{cross_terms, masks, mul_message, multiply, MulRound};
use crate::protocol::basics::reveal_share::{reveal_share, RevealRound};
use crate::protocol::basics::share_known_value::{known_value_share, share_known_value};
use crate::protocol::basics::sum_of_product::{
    all_consistent, column, cross_sum, inner_product, ints_of_all, sop_message, sum_of_products,
};
use crate::protocol::basics::BasicProtocols;
use crate::protocol::sort::reshare::{Reshare, ReshareRound};
use crate::protocol::context::Context;
use crate::protocol::prss::{PrssEndpoint, PrssLedger};
use crate::protocol::step::{label_bytes, RecordId, Substep};
use crate::secret_sharing::replicated::{consistent, opened, Replicated};

verus! {

/// The levels below the step of a validator.
#[derive(Debug, Clone, Copy, PartialEq, Eq, Structural)]
pub enum ValidateStep {
    /// Where the sharing of `r` is drawn.
    RShare,
    /// Where values are multiplied by `r`.
    UpgradeMultiply,
    /// Where the random factors of the running sums are drawn.
    RandomnessForValidation,
}

impl Substep for ValidateStep {
    open spec fn label(&self) -> Seq<u8> {
        match self {
            ValidateStep::RShare => "r-share".spec_bytes(),
            ValidateStep::UpgradeMultiply => "upgrade-multiply".spec_bytes(),
            ValidateStep::RandomnessForValidation => "randomness-for-validation".spec_bytes(),
        }
    }

    fn to_bytes(&self) -> (out: Vec<u8>) {
        match self {
            ValidateStep::RShare => label_bytes("r-share"),
            ValidateStep::UpgradeMultiply => label_bytes("upgrade-multiply"),
            ValidateStep::RandomnessForValidation => label_bytes("randomness-for-validation"),
        }
    }
}

/// A share of a value together with a share of its MAC.
#[derive(Debug, Clone, Copy)]
pub struct MaliciousReplicated<F> {
    x: Replicated<F>,
    rx: Replicated<F>,
}

impl<F: Field> MaliciousReplicated<F> {
    /// The share of the value.
    pub closed spec fn spec_x(&self) -> Replicated<F> {
        self.x
    }

    /// The share of the MAC.
    pub closed spec fn spec_rx(&self) -> Replicated<F> {
        self.rx
    }

    pub fn new(x: Replicated<F>, rx: Replicated<F>) -> (s: Self)
        ensures
            s.spec_x() == x,
            s.spec_rx() == rx,
    {
        MaliciousReplicated { x, rx }
    }

    /// The share of the value.
    pub fn x(&self) -> (x: Replicated<F>)
        ensures
            x == self.spec_x(),
    {
        self.x
    }

    /// The share of the MAC.
    pub fn rx(&self) -> (rx: Replicated<F>)
        ensures
            rx == self.spec_rx(),
    {
        self.rx
    }
}

/// The running sum of one helper after one more value: the cross terms of
/// the random factor and the value are added.
pub open spec fn accumulated_once(sum: int, alpha: (int, int), y: (int, int), p: int) -> int {
    (sum + cross_terms(alpha, y)) % p
}

/// The running sum of one helper after the first `n` values.
pub open spec fn accumulated(alphas: Seq<(int, int)>, ys: Seq<(int, int)>, n: int, p: int) -> int
    decreases n,
{
    if n <= 0 {
        0
    } else {
        accumulated_once(accumulated(alphas, ys, n - 1, p), alphas[n - 1], ys[n - 1], p)
    }
}

/// What a helper contributes to the final test, once `r` is open: its sum of
/// MACs less `r` times its sum of values.
pub open spec fn check_share(u: int, w: int, r: int, p: int) -> int {
    (u - r * w) % p
}

/// Checks the MACs of the values of one computation, at one helper.
#[derive(Debug)]
pub struct MaliciousValidator<F> {
    r_share: Replicated<F>,
    u: F,
    w: F,
    ctx: Context,
}

impl<F: Field> MaliciousValidator<F> {
    /// This helper's share of `r`.
    pub closed spec fn spec_r_share(&self) -> Replicated<F> {
        self.r_share
    }

    /// This helper's sum of MACs, each times its random factor.
    pub closed spec fn spec_u(&self) -> int {
        self.u.as_int()
    }

    /// This helper's sum of values, each times its random factor.
    pub closed spec fn spec_w(&self) -> int {
        self.w.as_int()
    }

    /// The handle the validator runs under.
    pub closed spec fn context(&self) -> Context {
        self.ctx
    }

    /// A validator at the step of `ctx`: its share of `r` is the correlated
    /// pair of record zero of the step `r-share`, and it has seen nothing.
    pub fn new(ctx: Context) -> (v: Self)
        requires
            ctx.wf(),
        ensures
            v.context() == ctx,
            v.spec_r_share().ints() == masks(
                ctx.child_keys(ValidateStep::RShare.label()),
                0,
                F::prime(),
            ),
            v.spec_u() == 0,
            v.spec_w() == 0,
    {
        let pair = ctx.narrow(&ValidateStep::RShare).generate_fields::<F>(RecordId::from(0));
        MaliciousValidator {
            r_share: Replicated::new(pair.0, pair.1),
            u: F::zero(),
            w: F::zero(),
            ctx,
        }
    }

    /// The handle the validator runs under.
    pub fn handle(&self) -> (ctx: &Context)
        ensures
            *ctx == self.context(),
    {
        &self.ctx
    }

    /// This helper's share of `r`.
    pub fn r_share(&self) -> (r: Replicated<F>)
        ensures
            r == self.spec_r_share(),
    {
        self.r_share
    }

    /// Starts the multiplication of a value by `r`, which gives the share of
    /// its MAC.
    pub fn upgrade(&self, record_id: RecordId, x: &Replicated<F>) -> (round: MulRound<F>)
        requires
            self.context().wf(),
        ensures
            round.spec_role() == self.context().spec_role(),
            round.spec_own().as_int() == mul_message(
                x.ints(),
                self.spec_r_share().ints(),
                masks(
                    self.context().child_keys(ValidateStep::UpgradeMultiply.label()),
                    record_id@,
                    F::prime(),
                ),
                F::prime(),
            ),
    {
        let child = self.ctx.narrow(&ValidateStep::UpgradeMultiply);
        multiply(x, &self.r_share, &child, record_id)
    }

    /// Takes a value and its MAC into the running sums, with the random
    /// factor of the record. No message is sent.
    pub fn accumulate_macs(&mut self, record_id: RecordId, input: &MaliciousReplicated<F>)
        requires
            old(self).context().wf(),
        ensures
            final(self).context() == old(self).context(),
            final(self).spec_r_share() == old(self).spec_r_share(),
            final(self).spec_u() == accumulated_once(
                old(self).spec_u(),
                masks(
                    old(self).context().child_keys(ValidateStep::RandomnessForValidation.label()),
                    record_id@,
                    F::prime(),
                ),
                input.spec_rx().ints(),
                F::prime(),
            ),
            final(self).spec_w() == accumulated_once(
                old(self).spec_w(),
                masks(
                    old(self).context().child_keys(ValidateStep::RandomnessForValidation.label()),
                    record_id@,
                    F::prime(),
                ),
                input.spec_x().ints(),
                F::prime(),
            ),
    {
        let child = self.ctx.narrow(&ValidateStep::RandomnessForValidation);
        let pair = child.generate_fields::<F>(record_id);
        let alpha = Replicated::new(pair.0, pair.1);
        self.u = add_cross_terms(self.u, &alpha, &input.rx);
        self.w = add_cross_terms(self.w, &alpha, &input.x);
    }

    /// Starts the multiplication of a value by `r` like `upgrade`, with the
    /// draw of the mask noted in the ledger of the helper. A record that was
    /// drawn before on the step `upgrade-multiply` is refused.
    pub fn upgrade_once(
        &self,
        ledger: &mut PrssLedger,
        record_id: RecordId,
        x: &Replicated<F>,
    ) -> (r: Result<MulRound<F>, Error>)
        requires
            self.context().wf(),
        ensures
            PrssLedger::noted(
                *old(ledger),
                *final(ledger),
                self.context().child_path(ValidateStep::UpgradeMultiply.label()),
                record_id@,
                r is Ok,
            ),
            match r {
                Ok(round) => round.spec_role() == self.context().spec_role()
                    && round.spec_own().as_int() == mul_message(
                    x.ints(),
                    self.spec_r_share().ints(),
                    masks(
                        self.context().child_keys(ValidateStep::UpgradeMultiply.label()),
                        record_id@,
                        F::prime(),
                    ),
                    F::prime(),
                ),
                Err(e) => e == Error::PrssReuse,
            },
    {
        let step = self.ctx.step().narrow(&ValidateStep::UpgradeMultiply);
        match ledger.note(&step, record_id) {
            Ok(()) => Ok(self.upgrade(record_id, x)),
            Err(e) => Err(e),
        }
    }

    /// Takes a value and its MAC into the running sums like
    /// `accumulate_macs`, with the draw of the random factor noted in the
    /// ledger of the helper. A record that was drawn before on the step
    /// `randomness-for-validation` is refused, and the sums stay as they
    /// were.
    pub fn accumulate_macs_once(
        &mut self,
        ledger: &mut PrssLedger,
        record_id: RecordId,
        input: &MaliciousReplicated<F>,
    ) -> (r: Result<(), Error>)
        requires
            old(self).context().wf(),
        ensures
            final(self).context() == old(self).context(),
            final(self).spec_r_share() == old(self).spec_r_share(),
            PrssLedger::noted(
                *old(ledger),
                *final(ledger),
                old(self).context().child_path(ValidateStep::RandomnessForValidation.label()),
                record_id@,
                r is Ok,
            ),
            match r {
                Ok(()) => {
                    &&& final(self).spec_u() == accumulated_once(
                        old(self).spec_u(),
                        masks(
                            old(self).context().child_keys(
                                ValidateStep::RandomnessForValidation.label(),
                            ),
                            record_id@,
                            F::prime(),
                        ),
                        input.spec_rx().ints(),
                        F::prime(),
                    )
                    &&& final(self).spec_w() == accumulated_once(
                        old(self).spec_w(),
                        masks(
                            old(self).context().child_keys(
                                ValidateStep::RandomnessForValidation.label(),
                            ),
                            record_id@,
                            F::prime(),
                        ),
                        input.spec_x().ints(),
                        F::prime(),
                    )
                },
                Err(e) => e == Error::PrssReuse && final(self).spec_u() == old(self).spec_u()
                    && final(self).spec_w() == old(self).spec_w(),
            },
    {
        let step = self.ctx.step().narrow(&ValidateStep::RandomnessForValidation);
        match ledger.note(&step, record_id) {
            Ok(()) => {
                self.accumulate_macs(record_id, input);
                Ok(())
            },
            Err(e) => Err(e),
        }
    }

    /// Starts the opening of `r`.
    pub fn reveal_r(&self) -> (round: RevealRound<F>)
        ensures
            round.spec_role() == self.context().spec_role(),
            round.spec_share() == self.spec_r_share(),
    {
        reveal_share(&self.ctx, &self.r_share)
    }

    /// What this helper contributes to the final test, once `r` is open.
    pub fn check_share(&self, r: F) -> (t: F)
        ensures
            t.as_int() == check_share(self.spec_u(), self.spec_w(), r.as_int(), F::prime()),
    {
        let rw = r.mul(self.w);
        let t = self.u.sub(rw);
        proof {
            let p = F::prime();
            F::lemma_modulus();
            lemma_reduced(r.as_int() * self.w.as_int(), p);
            lemma_difference(
                self.u.as_int(),
                rw.as_int(),
                self.u.as_int(),
                r.as_int() * self.w.as_int(),
                p,
            );
            F::lemma_canonical(t);
            lemma_small(t.as_int(), p);
        }
        t
    }

    /// The final test: the contributions of the three helpers must add up
    /// to zero.
    pub fn validate(own: F, from_left: F, from_right: F) -> (r: Result<(), Error>)
        ensures
            r is Ok <==> (own.as_int() + from_left.as_int() + from_right.as_int()) % F::prime()
                == 0,
            r matches Err(e) ==> e == Error::MaliciousSecurityCheckFailed,
    {
        let s = own.add(from_left);
        let total = s.add(from_right);
        proof {
            let p = F::prime();
            F::lemma_modulus();
            lemma_reduced(own.as_int() + from_left.as_int(), p);
            lemma_sum(
                s.as_int(),
                from_right.as_int(),
                own.as_int() + from_left.as_int(),
                from_right.as_int(),
                p,
            );
            F::lemma_canonical(total);
            lemma_small(total.as_int(), p);
        }
        if total.as_u128() == 0 {
            Ok(())
        } else {
            Err(Error::MaliciousSecurityCheckFailed)
        }
    }
}

/// Adds the cross terms of two shares to a running sum.
fn add_cross_terms<F: Field>(sum: F, a: &Replicated<F>, b: &Replicated<F>) -> (next: F)
    ensures
        next.as_int() == accumulated_once(sum.as_int(), a.ints(), b.ints(), F::prime()),
{
    let t0 = a.left().mul(b.left());
    let t1 = a.left().mul(b.right());
    let t2 = a.right().mul(b.left());
    let s1 = t0.add(t1);
    let s2 = s1.add(t2);
    let next = sum.add(s2);
    proof {
        let p = F::prime();
        let (al, ar) = a.ints();
        let (bl, br) = b.ints();
        F::lemma_modulus();
        lemma_reduced(al * bl, p);
        lemma_reduced(al * br, p);
        lemma_reduced(ar * bl, p);
        lemma_sum(t0.as_int(), t1.as_int(), al * bl, al * br, p);
        lemma_sum(s1.as_int(), t2.as_int(), al * bl + al * br, ar * bl, p);
        lemma_sum(sum.as_int(), s2.as_int(), sum.as_int(), cross_terms(a.ints(), b.ints()), p);
        F::lemma_canonical(next);
        lemma_small(next.as_int(), p);
    }
    next
}

/// A running sum is congruent to the plain sum of the cross terms.
proof fn lemma_accumulated(alphas: Seq<(int, int)>, ys: Seq<(int, int)>, n: int, p: int)
    requires
        p > 0,
    ensures
        congruent(accumulated(alphas, ys, n, p), cross_sum(alphas, ys, n), p),
    decreases n,
{
    if n > 0 {
        lemma_accumulated(alphas, ys, n - 1, p);
        let c = cross_terms(alphas[n - 1], ys[n - 1]);
        lemma_sum(accumulated(alphas, ys, n - 1, p), c, cross_sum(alphas, ys, n - 1), c, p);
    }
}

/// What the final test tests. Let the three helpers have taken `n` values
/// into their sums, where `alphas[h][k]`, `values[h][k]` and `macs[h][k]`
/// are what helper `h` holds of the `k`-th random factor, value and MAC.
/// Then their contributions add up to the sum of the `alpha * mac` less `r`
/// times the sum of the `alpha * value`, over what these shares open to.
/// The test passes exactly if that is zero modulo the prime.
pub proof fn lemma_validation_tests_the_macs(
    alphas: Seq<Seq<(int, int)>>,
    values: Seq<Seq<(int, int)>>,
    macs: Seq<Seq<(int, int)>>,
    r: int,
    n: int,
    p: int,
)
    requires
        p > 0,
        0 <= n,
        all_consistent(alphas, n),
        all_consistent(values, n),
        all_consistent(macs, n),
    ensures
        ({
            let t = |h: int|
                check_share(
                    accumulated(alphas[h], macs[h], n, p),
                    accumulated(alphas[h], values[h], n, p),
                    r,
                    p,
                );
            congruent(
                t(0) + t(1) + t(2),
                inner_product(alphas, macs, n) - r * inner_product(alphas, values, n),
                p,
            )
        }),
{
    let u = |h: int| accumulated(alphas[h], macs[h], n, p);
    let w = |h: int| accumulated(alphas[h], values[h], n, p);
    let cu = |h: int| cross_sum(alphas[h], macs[h], n);
    let cw = |h: int| cross_sum(alphas[h], values[h], n);
    lemma_accumulated(alphas[0], macs[0], n, p);
    lemma_accumulated(alphas[1], macs[1], n, p);
    lemma_accumulated(alphas[2], macs[2], n, p);
    lemma_accumulated(alphas[0], values[0], n, p);
    lemma_accumulated(alphas[1], values[1], n, p);
    lemma_accumulated(alphas[2], values[2], n, p);
    crate::protocol::basics::sum_of_product::lemma_cross_sums_cover(alphas, macs, n, n);
    crate::protocol::basics::sum_of_product::lemma_cross_sums_cover(alphas, values, n, n);
    lemma_reduced(r, p);
    lemma_product(r, w(0), r, cw(0), p);
    lemma_product(r, w(1), r, cw(1), p);
    lemma_product(r, w(2), r, cw(2), p);
    lemma_difference(u(0), r * w(0), cu(0), r * cw(0), p);
    lemma_difference(u(1), r * w(1), cu(1), r * cw(1), p);
    lemma_difference(u(2), r * w(2), cu(2), r * cw(2), p);
    let t0 = (u(0) - r * w(0)) % p;
    let t1 = (u(1) - r * w(1)) % p;
    let t2 = (u(2) - r * w(2)) % p;
    lemma_sum(t0, t1, cu(0) - r * cw(0), cu(1) - r * cw(1), p);
    lemma_sum(t0 + t1, t2, cu(0) - r * cw(0) + cu(1) - r * cw(1), cu(2) - r * cw(2), p);
    assert(r * (cw(0) + cw(1) + cw(2)) == r * cw(0) + r * cw(1) + r * cw(2)) by (nonlinear_arith);
}

/// Honest shares pass: if every MAC opens to `r` times its value, the sums
/// that the test compares agree modulo the prime.
pub proof fn lemma_honest_macs_pass(
    alphas: Seq<Seq<(int, int)>>,
    values: Seq<Seq<(int, int)>>,
    macs: Seq<Seq<(int, int)>>,
    r: int,
    n: int,
    p: int,
)
    requires
        p > 0,
        0 <= n,
        forall|k: int|
            0 <= k < n ==> congruent(
                #[trigger] plain(macs, k),
                r * plain(values, k),
                p,
            ),
    ensures
        congruent(inner_product(alphas, macs, n), r * inner_product(alphas, values, n), p),
    decreases n,
{
    if n > 0 {
        lemma_honest_macs_pass(alphas, values, macs, r, n - 1, p);
        let a = plain(alphas, n - 1);
        let m = plain(macs, n - 1);
        let x = plain(values, n - 1);
        lemma_product(a, m, a, r * x, p);
        lemma_sum(
            inner_product(alphas, macs, n - 1),
            a * m,
            r * inner_product(alphas, values, n - 1),
            a * (r * x),
            p,
        );
        assert(r * inner_product(alphas, values, n - 1) + a * (r * x) == r * (inner_product(
            alphas,
            values,
            n - 1,
        ) + a * x)) by (nonlinear_arith);
    } else {
        assert(r * 0 == 0);
    }
}

/// The sum of the three distinct coordinates of the `k`-th sharing.
pub open spec fn plain(xs: Seq<Seq<(int, int)>>, k: int) -> int {
    xs[0][k].0 + xs[1][k].0 + xs[2][k].0
}

/// The levels below a step at which the MACs are worked on, beside the
/// values.
#[derive(Debug, Clone, Copy, PartialEq, Eq, Structural)]
pub enum MacStep {
    /// Where the MAC of a product is multiplied.
    Multiply,
    /// Where the MAC of a share is reshared.
    Reshare,
}

impl Substep for MacStep {
    open spec fn label(&self) -> Seq<u8> {
        match self {
            MacStep::Multiply => "mac-multiply".spec_bytes(),
            MacStep::Reshare => "mac-reshare".spec_bytes(),
        }
    }

    fn to_bytes(&self) -> (out: Vec<u8>) {
        match self {
            MacStep::Multiply => label_bytes("mac-multiply"),
            MacStep::Reshare => label_bytes("mac-reshare"),
        }
    }
}

/// The context of a computation whose shares all carry MACs. A validator
/// hands it out; it holds the validator's share of `r`, so that every share
/// made under it gets its MAC.
#[derive(Debug)]
pub struct UpgradedMaliciousContext<F> {
    ctx: Context,
    r_share: Replicated<F>,
}

impl<F: Field> UpgradedMaliciousContext<F> {
    /// The handle that the context goes by.
    pub closed spec fn context(&self) -> Context {
        self.ctx
    }

    /// The share of `r` that MACs are made with.
    pub closed spec fn spec_r_share(&self) -> Replicated<F> {
        self.r_share
    }

    /// The context of the child step that `substep` names.
    pub fn narrow<S: Substep>(&self, substep: &S) -> (child: Self)
        requires
            self.context().wf(),
        ensures
            child.context().wf(),
            child.context().spec_role() == self.context().spec_role(),
            child.context().path() == crate::protocol::step::narrowed(
                self.context().path(),
                substep.label(),
            ),
            child.context().root_keys() == self.context().root_keys(),
            child.context().keys() == self.context().child_keys(substep.label()),
            child.spec_r_share() == self.spec_r_share(),
    {
        UpgradedMaliciousContext { ctx: self.ctx.narrow(substep), r_share: self.r_share }
    }

    /// The handle that the context goes by.
    pub fn handle(&self) -> (ctx: &Context)
        ensures
            *ctx == self.context(),
    {
        &self.ctx
    }
}

impl<F: Field> MaliciousValidator<F> {
    /// The context under which every share carries a MAC made with the `r`
    /// of this validator.
    pub fn upgraded_context(&self) -> (upgraded: UpgradedMaliciousContext<F>)
        ensures
            upgraded.context().wf() == self.context().wf(),
            upgraded.context().spec_role() == self.context().spec_role(),
            upgraded.context().path() == self.context().path(),
            upgraded.context().root_keys() == self.context().root_keys(),
            upgraded.context().keys() == self.context().keys(),
            upgraded.spec_r_share() == self.spec_r_share(),
    {
        UpgradedMaliciousContext { ctx: self.ctx.duplicate(), r_share: self.r_share }
    }
}

/// A multiplication of shares with MACs under way: one multiplication for
/// the value and one for the MAC.
#[derive(Debug, Clone, Copy)]
pub struct MaliciousMulRound<F> {
    x: MulRound<F>,
    rx: MulRound<F>,
}

impl<F: Field> MaliciousMulRound<F> {
    /// The multiplication of the values.
    pub closed spec fn spec_x(&self) -> MulRound<F> {
        self.x
    }

    /// The multiplication of the MAC.
    pub closed spec fn spec_rx(&self) -> MulRound<F> {
        self.rx
    }

    /// The multiplication of the values.
    pub fn x(&self) -> (round: MulRound<F>)
        ensures
            round == self.spec_x(),
    {
        self.x
    }

    /// The multiplication of the MAC.
    pub fn rx(&self) -> (round: MulRound<F>)
        ensures
            round == self.spec_rx(),
    {
        self.rx
    }

    /// The share of the product with its MAC, from what the left-hand
    /// neighbour sent for either.
    pub fn finish(self, received_x: F, received_rx: F) -> (share: MaliciousReplicated<F>)
        ensures
            share.spec_x().spec_left() == received_x,
            share.spec_x().spec_right() == self.spec_x().spec_own(),
            share.spec_rx().spec_left() == received_rx,
            share.spec_rx().spec_right() == self.spec_rx().spec_own(),
    {
        MaliciousReplicated::new(self.x.finish(received_x), self.rx.finish(received_rx))
    }
}

/// A reshare of a share with its MAC under way: one reshare for either.
#[derive(Debug, Clone, Copy)]
pub struct MaliciousReshareRound<F> {
    x: ReshareRound<F>,
    rx: ReshareRound<F>,
}

impl<F: Field> MaliciousReshareRound<F> {
    /// The reshare of the value.
    pub closed spec fn spec_x(&self) -> ReshareRound<F> {
        self.x
    }

    /// The reshare of the MAC.
    pub closed spec fn spec_rx(&self) -> ReshareRound<F> {
        self.rx
    }

    /// The reshare of the value.
    pub fn x(&self) -> (round: ReshareRound<F>)
        ensures
            round == self.spec_x(),
    {
        self.x
    }

    /// The reshare of the MAC.
    pub fn rx(&self) -> (round: ReshareRound<F>)
        ensures
            round == self.spec_rx(),
    {
        self.rx
    }

    /// The new share with its MAC, from the parts that arrived for either.
    pub fn finish(self, received_x: F, received_rx: F) -> (share: MaliciousReplicated<F>)
        ensures
            share.spec_x().ints() == self.spec_x().completed(received_x.as_int()),
            share.spec_rx().ints() == self.spec_rx().completed(received_rx.as_int()),
    {
        MaliciousReplicated::new(self.x.finish(received_x), self.rx.finish(received_rx))
    }
}

/// The shares of the values of a list of shares with MACs.
fn values_of<F: Field>(shares: &[MaliciousReplicated<F>]) -> (out: Vec<Replicated<F>>)
    ensures
        out@.len() == shares@.len(),
        forall|i: int| 0 <= i < shares@.len() ==> (#[trigger] out@[i]) == shares@[i].spec_x(),
{
    let mut out: Vec<Replicated<F>> = Vec::new();
    let mut i: usize = 0;
    while i < shares.len()
        invariant
            i <= shares@.len(),
            out@.len() == i,
            forall|k: int| 0 <= k < i ==> (#[trigger] out@[k]) == shares@[k].spec_x(),
        decreases shares@.len() - i,
    {
        out.push(shares[i].x());
        i = i + 1;
    }
    out
}

/// The shares of the MACs of a list of shares with MACs.
fn macs_of<F: Field>(shares: &[MaliciousReplicated<F>]) -> (out: Vec<Replicated<F>>)
    ensures
        out@.len() == shares@.len(),
        forall|i: int| 0 <= i < shares@.len() ==> (#[trigger] out@[i]) == shares@[i].spec_rx(),
{
    let mut out: Vec<Replicated<F>> = Vec::new();
    let mut i: usize = 0;
    while i < shares.len()
        invariant
            i <= shares@.len(),
            out@.len() == i,
            forall|k: int| 0 <= k < i ==> (#[trigger] out@[k]) == shares@[k].spec_rx(),
        decreases shares@.len() - i,
    {
        out.push(shares[i].rx());
        i = i + 1;
    }
    out
}

impl<F: Field> BasicProtocols<UpgradedMaliciousContext<F>, F> for MaliciousReplicated<F> {
    type Multiplication = MaliciousMulRound<F>;

    type Resharing = MaliciousReshareRound<F>;

    open spec fn coordinates(&self) -> (int, int) {
        self.spec_x().ints()
    }

    open spec fn usable(ctx: &UpgradedMaliciousContext<F>) -> bool {
        ctx.context().wf()
    }

    open spec fn role_of(ctx: &UpgradedMaliciousContext<F>) -> Role {
        ctx.context().spec_role()
    }

    open spec fn keys_of(ctx: &UpgradedMaliciousContext<F>) -> PrssEndpoint {
        ctx.context().keys()
    }

    open spec fn product_role(round: &MaliciousMulRound<F>) -> Role {
        round.spec_x().spec_role()
    }

    open spec fn product_message(round: &MaliciousMulRound<F>) -> int {
        round.spec_x().spec_own().as_int()
    }

    open spec fn value_resharing(round: &MaliciousReshareRound<F>) -> ReshareRound<F> {
        round.spec_x()
    }

    /// The MAC of a constant is the share of `r` times the constant.
    fn share_known_value(ctx: &UpgradedMaliciousContext<F>, value: F) -> (share: Self)
        ensures
            share.spec_rx().ints().0 == (ctx.spec_r_share().ints().0 * value.as_int())
                % F::prime(),
            share.spec_rx().ints().1 == (ctx.spec_r_share().ints().1 * value.as_int())
                % F::prime(),
    {
        MaliciousReplicated::new(share_known_value(&ctx.ctx, value), ctx.r_share.mul_scalar(value))
    }

    /// The MAC of a product is the product of the MAC of the one and the
    /// value of the other, multiplied under the step `mac-multiply`.
    fn multiply(
        &self,
        rhs: &Self,
        ctx: &UpgradedMaliciousContext<F>,
        record_id: RecordId,
    ) -> (round: MaliciousMulRound<F>)
        ensures
            round.spec_rx().spec_role() == ctx.context().spec_role(),
            round.spec_rx().spec_own().as_int() == mul_message(
                self.spec_rx().ints(),
                rhs.spec_x().ints(),
                masks(
                    ctx.context().child_keys(MacStep::Multiply.label()),
                    record_id@,
                    F::prime(),
                ),
                F::prime(),
            ),
    {
        let x = multiply(&self.x, &rhs.x, &ctx.ctx, record_id);
        let rx = multiply(&self.rx, &rhs.x, &ctx.ctx.narrow(&MacStep::Multiply), record_id);
        MaliciousMulRound { x, rx }
    }

    /// The MAC of a sum of products is the sum of the products of the MACs
    /// of the one vector and the values of the other.
    fn sum_of_products(
        a: &[Self],
        b: &[Self],
        ctx: &UpgradedMaliciousContext<F>,
        record_id: RecordId,
    ) -> (round: MaliciousMulRound<F>)
        ensures
            round.spec_rx().spec_role() == ctx.context().spec_role(),
            round.spec_rx().spec_own().as_int() == sop_message(
                Seq::new(a@.len(), |i: int| a@[i].spec_rx().ints()),
                Seq::new(b@.len(), |i: int| b@[i].spec_x().ints()),
                masks(
                    ctx.context().child_keys(MacStep::Multiply.label()),
                    record_id@,
                    F::prime(),
                ),
                F::prime(),
            ),
    {
        let xs = values_of(a);
        let ys = values_of(b);
        let macs = macs_of(a);
        proof {
            assert(ints_of_all(xs@) =~= Seq::new(a@.len(), |i: int| a@[i].coordinates()));
            assert(ints_of_all(ys@) =~= Seq::new(b@.len(), |i: int| b@[i].coordinates()));
            assert(ints_of_all(macs@) =~= Seq::new(a@.len(), |i: int| a@[i].spec_rx().ints()));
            assert(ints_of_all(ys@) =~= Seq::new(b@.len(), |i: int| b@[i].spec_x().ints()));
        }
        let x = sum_of_products(xs.as_slice(), ys.as_slice(), &ctx.ctx, record_id);
        let rx = sum_of_products(
            macs.as_slice(),
            ys.as_slice(),
            &ctx.ctx.narrow(&MacStep::Multiply),
            record_id,
        );
        MaliciousMulRound { x, rx }
    }

    /// The MAC is reshared like the value, under the step `mac-reshare`.
    fn reshare(
        &self,
        ctx: &UpgradedMaliciousContext<F>,
        record_id: RecordId,
        to_helper: Role,
    ) -> (round: MaliciousReshareRound<F>)
        ensures
            round.spec_rx().begun(
                ctx.context().spec_role(),
                to_helper,
                self.spec_rx().ints(),
                masks(
                    ctx.context().child_keys(MacStep::Reshare.label()),
                    record_id@,
                    F::prime(),
                ),
            ),
    {
        let x = Reshare::new(self.x).execute(&ctx.ctx, record_id, to_helper);
        let rx = Reshare::new(self.rx).execute(
            &ctx.ctx.narrow(&MacStep::Reshare),
            record_id,
            to_helper,
        );
        MaliciousReshareRound { x, rx }
    }

    /// The value is opened; the MAC stays shared.
    fn open(&self, ctx: &UpgradedMaliciousContext<F>) -> (round: RevealRound<F>) {
        reveal_share(&ctx.ctx, &self.x)
    }
}

/// A product keeps its MAC: where the helpers multiply, under an upgraded
/// context, a sharing of `x` whose MAC opens to `r * x` by a sharing of
/// `y`, the MAC of the product opens to `r` times what the product opens
/// to.
pub proof fn lemma_product_keeps_mac(x: int, mac: int, y: int, r: int, p: int)
    requires
        p > 0,
        congruent(mac, r * x, p),
    ensures
        congruent((mac * y) % p, r * ((x * y) % p), p),
{
    lemma_reduced(y, p);
    lemma_product(mac, y, r * x, y, p);
    lemma_reduced(x * y, p);
    lemma_reduced(r, p);
    lemma_product(r, (x * y) % p, r, x * y, p);
    assert((r * x) * y == r * (x * y)) by (nonlinear_arith);
}

} // verus!
