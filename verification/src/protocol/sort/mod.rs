//! Resharing, shuffling and the application of a sort permutation.

pub mod apply;
pub mod apply_sort;
pub mod resharable;
pub mod reshare;
pub mod shuffle;

pub use reshare::{Reshare, ReshareExchange, ReshareRound};
pub use apply_sort::apply_sort_permutation;
pub use shuffle::shuffle_shares;
pub use resharable::Resharable;
