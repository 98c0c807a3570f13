//! Scenarios that run on three helpers in one process.

use vstd::prelude::*;
use crate::ff::Field;
use crate::protocol::step::RecordId;
use crate::test_fixture::world::TestWorld;

verus! {

/// The products that a world is expected to compute for a list of pairs.
pub open spec fn products<F: Field>(inputs: Seq<(F, F)>) -> Seq<int> {
    Seq::new(inputs.len(), |i: int| (inputs[i].0.as_int() * inputs[i].1.as_int()) % F::prime())
}

/// The canonical representatives of a list of elements.
pub open spec fn representatives<F: Field>(values: Seq<F>) -> Seq<int> {
    Seq::new(values.len(), |i: int| values[i].as_int())
}

/// Multiplies every pair of `inputs` on the three helpers of `world`: the
/// pair at index `i` is shared, multiplied under record `i` and opened.
pub fn secure_mul<F: Field>(world: &TestWorld, inputs: &[(F, F)]) -> (outputs: Vec<F>)
    requires
        world.wf(),
        inputs@.len() <= u32::MAX,
    ensures
        representatives(outputs@) == products(inputs@),
{
    let mut outputs: Vec<F> = Vec::new();
    let mut i: usize = 0;
    while i < inputs.len()
        invariant
            i <= inputs@.len(),
            inputs@.len() <= u32::MAX,
            world.wf(),
            outputs@.len() == i,
            forall|k: int|
                0 <= k < i ==> (#[trigger] outputs@[k]).as_int() == products(inputs@)[k],
        decreases inputs@.len() - i,
    {
        let (x, y) = inputs[i];
        outputs.push(world.multiply_in_field(RecordId::from(i as u32), x, y));
        i = i + 1;
    }
    assert(representatives(outputs@) =~= products(inputs@));
    outputs
}

} // verus!
