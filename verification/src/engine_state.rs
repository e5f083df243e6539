//! Replay-relevant engine lifecycle state and its canonical snapshot record.
//!
//! The record is empty for the default (runnable) lifecycle, and otherwise the
//! seven bytes `V M E 1 terminal code reentry`.

use vstd::prelude::*;
use crate::snapshot::{EngineStateFault, SnapshotError};

verus! {

/// Why a run reached a terminal state.
#[derive(Clone, Copy, Debug, PartialEq, Eq)]
pub enum TerminalReason {
    /// The guest wrote `code` to the isa-debug-exit port.
    DebugExit { code: u8 },
    /// The guest idled with nothing left to run.
    Idle,
    /// The guest shut down.
    Shutdown,
    /// A cooperating guest SDK stopped the run.
    SdkStop,
}

/// The engine lifecycle carried by a snapshot.
#[derive(Clone, Copy, Debug, PartialEq, Eq)]
pub struct EngineState {
    pub terminal: Option<TerminalReason>,
    pub sdk_snapshot_reentry_required: bool,
}

/// The default lifecycle: runnable, no SDK reentry owed.
pub open spec fn default_state() -> EngineState {
    EngineState { terminal: None, sdk_snapshot_reentry_required: false }
}

/// The record header `V M E 1`.
pub open spec fn header() -> Seq<u8> {
    seq![86u8, 77u8, 69u8, 1u8]
}

/// The terminal tag and code bytes of a latchable terminal.
pub open spec fn terminal_bytes(t: Option<TerminalReason>) -> (u8, u8) {
    match t {
        None => (0, 0),
        Some(TerminalReason::DebugExit { code }) => (1, code),
        Some(TerminalReason::Idle) => (2, 0),
        Some(TerminalReason::Shutdown) => (3, 0),
        Some(TerminalReason::SdkStop) => (0, 0),
    }
}

/// The canonical record of `s`.
pub open spec fn encode_spec(s: EngineState) -> Result<Seq<u8>, EngineStateFault> {
    if s == default_state() {
        Ok(Seq::empty())
    } else if s.terminal == Some(TerminalReason::SdkStop) {
        Err(EngineStateFault::SdkStopTerminal)
    } else {
        let (t, c) = terminal_bytes(s.terminal);
        Ok(header() + seq![t, c, if s.sdk_snapshot_reentry_required {
            1u8
        } else {
            0u8
        }])
    }
}

/// The terminal a tag and code byte denote, if any.
pub open spec fn terminal_of(t: u8, c: u8) -> Option<Option<TerminalReason>> {
    if t == 0 && c == 0 {
        Some(None)
    } else if t == 1 {
        Some(Some(TerminalReason::DebugExit { code: c }))
    } else if t == 2 && c == 0 {
        Some(Some(TerminalReason::Idle))
    } else if t == 3 && c == 0 {
        Some(Some(TerminalReason::Shutdown))
    } else {
        None
    }
}

/// What a record decodes to: the empty record is the default lifecycle, and
/// otherwise only a seven-byte record with a valid header, terminal, and
/// reentry flag that is not the default lifecycle is accepted.
pub open spec fn decode_spec(b: Seq<u8>) -> Result<EngineState, EngineStateFault> {
    if b.len() == 0 {
        Ok(default_state())
    } else if b.len() != 7 || b.subrange(0, 4) != header() {
        Err(EngineStateFault::InvalidHeader)
    } else if terminal_of(b[4], b[5]) is None {
        Err(EngineStateFault::InvalidTerminal)
    } else if b[6] > 1 {
        Err(EngineStateFault::InvalidReentryFlag)
    } else {
        let s = EngineState {
            terminal: terminal_of(b[4], b[5]).unwrap(),
            sdk_snapshot_reentry_required: b[6] == 1,
        };
        if s == default_state() {
            Err(EngineStateFault::DefaultNotEmpty)
        } else {
            Ok(s)
        }
    }
}

impl Default for EngineState {
    fn default() -> (s: Self)
        ensures
            s == default_state(),
    {
        EngineState { terminal: None, sdk_snapshot_reentry_required: false }
    }
}

impl EngineState {
    /// The canonical record: empty for the default lifecycle, else the
    /// seven-byte record. An SDK stop cannot be latched as a terminal.
    pub fn encode(self) -> (r: Result<Vec<u8>, SnapshotError>)
        ensures
            match encode_spec(self) {
                Ok(b) => r matches Ok(v) && v@ == b,
                Err(f) => r == Err::<Vec<u8>, SnapshotError>(SnapshotError::EngineState(f)),
            },
    {
        let reentry: u8 = if self.sdk_snapshot_reentry_required {
            1
        } else {
            0
        };
        let (terminal, code): (u8, u8) = match self.terminal {
            None => {
                if !self.sdk_snapshot_reentry_required {
                    return Ok(Vec::new());
                }
                (0, 0)
            },
            Some(TerminalReason::DebugExit { code }) => (1, code),
            Some(TerminalReason::Idle) => (2, 0),
            Some(TerminalReason::Shutdown) => (3, 0),
            Some(TerminalReason::SdkStop) => {
                return Err(SnapshotError::EngineState(EngineStateFault::SdkStopTerminal));
            },
        };
        let mut out: Vec<u8> = Vec::new();
        out.push(86u8);
        out.push(77u8);
        out.push(69u8);
        out.push(1u8);
        out.push(terminal);
        out.push(code);
        out.push(reentry);
        assert(out@ =~= header() + seq![terminal, code, reentry]);
        Ok(out)
    }

    /// Strictly decodes a record (see [`decode_spec`]).
    pub fn decode(bytes: &[u8]) -> (r: Result<Self, SnapshotError>)
        ensures
            match decode_spec(bytes@) {
                Ok(s) => r == Ok::<EngineState, SnapshotError>(s),
                Err(f) => r == Err::<EngineState, SnapshotError>(SnapshotError::EngineState(f)),
            },
    {
        let n = bytes.len();
        if n == 0 {
            return Ok(EngineState { terminal: None, sdk_snapshot_reentry_required: false });
        }
        if n != 7 || bytes[0] != 86u8 || bytes[1] != 77u8 || bytes[2] != 69u8 || bytes[3] != 1u8 {
            proof {
                if n == 7 && bytes@.subrange(0, 4) == header() {
                    assert(bytes@[0] == bytes@.subrange(0, 4)[0]);
                    assert(bytes@[1] == bytes@.subrange(0, 4)[1]);
                    assert(bytes@[2] == bytes@.subrange(0, 4)[2]);
                    assert(bytes@[3] == bytes@.subrange(0, 4)[3]);
                }
            }
            return Err(SnapshotError::EngineState(EngineStateFault::InvalidHeader));
        }
        assert(bytes@.subrange(0, 4) =~= header());
        let t = bytes[4];
        let c = bytes[5];
        let terminal = if t == 0 && c == 0 {
            None
        } else if t == 1 {
            Some(TerminalReason::DebugExit { code: c })
        } else if t == 2 && c == 0 {
            Some(TerminalReason::Idle)
        } else if t == 3 && c == 0 {
            Some(TerminalReason::Shutdown)
        } else {
            return Err(SnapshotError::EngineState(EngineStateFault::InvalidTerminal));
        };
        let flag = bytes[6];
        let sdk_snapshot_reentry_required = if flag == 0 {
            false
        } else if flag == 1 {
            true
        } else {
            return Err(SnapshotError::EngineState(EngineStateFault::InvalidReentryFlag));
        };
        if terminal.is_none() && !sdk_snapshot_reentry_required {
            return Err(SnapshotError::EngineState(EngineStateFault::DefaultNotEmpty));
        }
        Ok(EngineState { terminal, sdk_snapshot_reentry_required })
    }
}

/// Every state an SDK stop is not latched in survives its record: decoding
/// the encoding gives the state back.
pub proof fn lemma_round_trip(s: EngineState)
    requires
        s.terminal != Some(TerminalReason::SdkStop),
    ensures
        encode_spec(s) is Ok,
        decode_spec(encode_spec(s)->Ok_0) == Ok::<EngineState, EngineStateFault>(s),
{
    let b = encode_spec(s)->Ok_0;
    if s != default_state() {
        assert(b.subrange(0, 4) =~= header());
        let (t, c) = terminal_bytes(s.terminal);
        assert(b[4] == t && b[5] == c);
        match s.terminal {
            Some(TerminalReason::DebugExit { code }) => {},
            _ => {},
        }
    }
}

/// Records are canonical: every accepted record is exactly the encoding of
/// what it decodes to.
pub proof fn lemma_canonical(b: Seq<u8>)
    requires
        decode_spec(b) is Ok,
    ensures
        encode_spec(decode_spec(b)->Ok_0) == Ok::<Seq<u8>, EngineStateFault>(b),
{
    let s = decode_spec(b)->Ok_0;
    if b.len() != 0 {
        let (t, c) = terminal_bytes(s.terminal);
        assert(t == b[4] && c == b[5]);
        assert(b.subrange(0, 4) == header());
        assert((if s.sdk_snapshot_reentry_required {
            1u8
        } else {
            0u8
        }) == b[6]);
        assert(b =~= header() + seq![b[4], b[5], b[6]]);
    } else {
        assert(b =~= Seq::<u8>::empty());
    }
}

} // verus!
