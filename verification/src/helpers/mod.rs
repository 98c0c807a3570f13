//! Who the helpers are and how they stand to each other.

pub mod buffer;
pub mod gateway;
pub mod mesh;
pub mod role;

pub use role::{Direction, HelperIdentity, Role};
pub use buffer::{ReceiveBuffer, SendBuffer, SendBufferConfig};
pub use gateway::{Frame, Gateway, GatewayConfig};
