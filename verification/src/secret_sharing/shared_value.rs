//! What can be shared among the helpers.

use vstd::prelude::*;

verus! {

/// A value that can be cut into shares and sent between helpers: it has a
/// canonical encoding of a fixed size.
pub trait SharedValue: Copy + Sized {
    /// The number of bytes of the canonical encoding.
    spec fn size() -> nat;

    /// The length of the canonical encoding, in bytes.
    fn size_in_bytes() -> (n: usize)
        ensures
            n as nat == Self::size(),
    ;
}

} // verus!
