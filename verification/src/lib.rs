//! Three-party replicated secret sharing and the protocols built on it.
//!
//! Three helpers hold two-of-three additive shares of every secret and run
//! the same program. A protocol is written as rounds: a helper computes
//! what it has to send, and finishes the round with what its neighbour
//! sent. Every such computation carries a contract over the integers that
//! the shares stand for.
//!
//! What the three helpers compute together is stated twice: as laws, proof
//! functions next to the protocols they speak of, and in `test_fixture`,
//! where the three helpers run in one process and the result of a protocol
//! is said of what its shares open to.

pub mod bits;
pub mod cli;
pub mod entropy;
pub mod error;
pub mod ff;
pub mod helpers;
pub mod protocol;
pub mod secret_sharing;
pub mod test_fixture;
