//! Regulatory audit and compliance engine: volumetric reconciliation of
//! executed against settled volume, point-in-time balance reconstruction,
//! the single-producer/single-consumer audit ring buffer protocol and the
//! CSV record format of the regulator export.

pub mod types;
pub mod reconciliation;
pub mod time_travel;
pub mod ipc;
pub mod cat_exporter;
