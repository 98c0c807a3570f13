//! Steps, records and the protocols that run on them.

pub mod basics;
pub mod boolean;
pub mod context;
pub mod malicious;
pub mod prss;
pub mod sort;
pub mod step;

pub use step::{Named, RecordId, Step, Substep, TotalRecords};
