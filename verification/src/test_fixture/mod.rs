//! What it takes to run three helpers in one process.

pub mod random_bits;
pub mod sharing;
pub mod shuffle;
pub mod solved_bits;
pub mod transport;
pub mod world;

pub use sharing::{reconstruct, share, share_with, validate_and_reconstruct};
pub use transport::network::{InMemoryNetwork, InMemoryTransport, TransportHandle};
pub use world::TestWorld;
