//! The monitor's error type.

use vstd::prelude::*;
use crate::snapshot::SnapshotError;

verus! {

/// A monitor failure.
#[derive(Debug)]
pub enum VmmError {
    /// The live host is outside the determinism domain; the failed assertions.
    HostAssert(String),
    /// The guest or a caller broke the CPU/MSR contract.
    ContractViolation(String),
    /// A snapshot codec or layering error.
    Snapshot(SnapshotError),
    /// A virtual-time failure.
    Vtime(String),
    /// The hypervisor backend failed.
    Backend(String),
}

} // verus!
