//! What a command-line driver needs besides the protocols: running a
//! scenario on three helpers in one process and holding its outcome against
//! what was expected.

pub mod event_time;
pub mod playbook;
pub mod validate;

pub use playbook::secure_mul;
pub use validate::{validate, Row, Validation};
