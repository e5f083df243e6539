//! Snapshot-codec errors.

use vstd::prelude::*;

verus! {

/// Why an engine lifecycle record was refused.
#[derive(Clone, Copy, Debug, PartialEq, Eq)]
pub enum EngineStateFault {
    /// An SDK stop cannot be latched as a terminal.
    SdkStopTerminal,
    /// The record has the wrong length or header.
    InvalidHeader,
    /// The terminal tag or code is not a latchable terminal.
    InvalidTerminal,
    /// The SDK-reentry flag is neither 0 nor 1.
    InvalidReentryFlag,
    /// The default lifecycle is only ever the empty record.
    DefaultNotEmpty,
}

/// The human-readable reason for each fault.
pub open spec fn fault_message(f: EngineStateFault) -> Seq<char> {
    match f {
        EngineStateFault::SdkStopTerminal => "SDK stop cannot latch a terminal"@,
        EngineStateFault::InvalidHeader => "invalid lifecycle header or length"@,
        EngineStateFault::InvalidTerminal => "invalid terminal record"@,
        EngineStateFault::InvalidReentryFlag => "invalid SDK reentry flag"@,
        EngineStateFault::DefaultNotEmpty => "default lifecycle must use the empty record"@,
    }
}

impl EngineStateFault {
    /// The human-readable reason.
    pub fn message(&self) -> (r: &'static str)
        ensures
            r@ == fault_message(*self),
    {
        match self {
            EngineStateFault::SdkStopTerminal => "SDK stop cannot latch a terminal",
            EngineStateFault::InvalidHeader => "invalid lifecycle header or length",
            EngineStateFault::InvalidTerminal => "invalid terminal record",
            EngineStateFault::InvalidReentryFlag => "invalid SDK reentry flag",
            EngineStateFault::DefaultNotEmpty => "default lifecycle must use the empty record",
        }
    }
}

/// A snapshot codec or layering error.
#[derive(Clone, Copy, Debug, PartialEq, Eq)]
pub enum SnapshotError {
    /// The engine lifecycle record is invalid.
    EngineState(EngineStateFault),
    /// Sparse pages arrived in descending order.
    SparsePagesNotSorted { previous: u64, current: u64 },
    /// A sparse page arrived twice.
    SparsePageDuplicate { gfn: u64 },
}

} // verus!
