//! Configuration changes.
pub mod changer;
