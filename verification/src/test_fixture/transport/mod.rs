//! Transports that stay within the process.

pub mod network;
