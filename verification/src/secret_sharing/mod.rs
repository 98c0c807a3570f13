//! Two-of-three replicated secret sharing.

pub mod replicated;
pub mod shared_value;

pub use replicated::Replicated;
pub use shared_value::SharedValue;
