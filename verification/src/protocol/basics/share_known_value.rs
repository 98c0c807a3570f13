//! A sharing of a constant that every helper knows.

use vstd::prelude::*;
use crate::ff::Field;
use crate::helpers::role::Role;
use crate::protocol::context::Context;
use crate::secret_sharing::replicated::{consistent, opened, Replicated};

verus! {

/// What a helper holds of a public constant `c`: the first helper holds it
/// on the left, the third on the right, and everything else is zero.
pub open spec fn known_value_share(role: Role, c: int) -> (int, int) {
    match role {
        Role::H1 => (c, 0),
        Role::H2 => (0, 0),
        Role::H3 => (0, c),
    }
}

/// This helper's share of the public constant `value`. No message is sent.
pub fn share_known_value<F: Field>(ctx: &Context, value: F) -> (share: Replicated<F>)
    ensures
        share.ints() == known_value_share(ctx.spec_role(), value.as_int()),
{
    match ctx.role() {
        Role::H1 => Replicated::new(value, F::zero()),
        Role::H2 => Replicated::new(F::zero(), F::zero()),
        Role::H3 => Replicated::new(F::zero(), value),
    }
}

/// The three shares of a public constant fit together and open to it.
pub proof fn lemma_known_value_opens(c: int, p: int)
    requires
        0 <= c < p,
    ensures
        ({
            let z = seq![
                known_value_share(Role::H1, c),
                known_value_share(Role::H2, c),
                known_value_share(Role::H3, c),
            ];
            consistent(z) && opened(z, p) == c
        }),
{
    crate::ff::modular::lemma_small(c, p);
}

} // verus!
