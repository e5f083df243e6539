//! Verified core of a deterministic virtual-machine monitor.

pub mod bringup;
pub mod control;
pub mod control_state;
pub mod controlled_guest;
pub mod corpus;
pub mod devices;
pub mod digest;
pub mod engine_state;
pub mod exec;
pub mod harness;
pub mod hostassert;
pub mod numparse;
pub mod retained;
pub mod snapshot;
pub mod text;
pub mod vmm;
pub mod wire;
