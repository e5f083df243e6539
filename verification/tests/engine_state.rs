use vmm_core::engine_state::{EngineState, TerminalReason};
use vmm_core::snapshot::{EngineStateFault, SnapshotError};

#[test]
fn lifecycle_round_trips_and_legacy_is_runnable() {
    assert_eq!(EngineState::decode(&[]).unwrap(), EngineState::default());
    let terminals = [
        None,
        Some(TerminalReason::Idle),
        Some(TerminalReason::Shutdown),
    ]
    .into_iter()
    .chain((0..=255).map(|code| Some(TerminalReason::DebugExit { code })));
    for terminal in terminals {
        for sdk_snapshot_reentry_required in [false, true] {
            let state = EngineState {
                terminal,
                sdk_snapshot_reentry_required,
            };
            assert_eq!(
                EngineState::decode(&state.encode().unwrap()).unwrap(),
                state
            );
        }
    }
    assert!(EngineState {
        terminal: Some(TerminalReason::SdkStop),
        sdk_snapshot_reentry_required: false
    }
    .encode()
    .is_err());
}

#[test]
fn malformed_lifecycle_is_rejected() {
    let valid = EngineState {
        terminal: Some(TerminalReason::Idle),
        sdk_snapshot_reentry_required: true,
    }
    .encode()
    .unwrap();
    for len in 1..valid.len() {
        assert!(EngineState::decode(&valid[..len]).is_err());
    }
    let mut trailing = valid.clone();
    trailing.push(0);
    assert!(EngineState::decode(&trailing).is_err());
    for (offset, value) in [(0, 0), (3, 2), (4, 4), (5, 1), (6, 2)] {
        let mut bad = valid.clone();
        bad[offset] = value;
        assert!(EngineState::decode(&bad).is_err());
    }
    assert!(EngineState::decode(&[b'V', b'M', b'E', 1, 0, 0, 0]).is_err());
}

#[test]
fn default_lifecycle_encodes_to_the_empty_record() {
    assert_eq!(EngineState::default().encode().unwrap(), Vec::<u8>::new());
}

#[test]
fn lifecycle_record_bytes_are_exact() {
    let s = EngineState {
        terminal: Some(TerminalReason::DebugExit { code: 7 }),
        sdk_snapshot_reentry_required: false,
    };
    assert_eq!(s.encode().unwrap(), vec![b'V', b'M', b'E', 1, 1, 7, 0]);
    let s = EngineState {
        terminal: None,
        sdk_snapshot_reentry_required: true,
    };
    assert_eq!(s.encode().unwrap(), vec![b'V', b'M', b'E', 1, 0, 0, 1]);
    let s = EngineState {
        terminal: Some(TerminalReason::Shutdown),
        sdk_snapshot_reentry_required: true,
    };
    assert_eq!(s.encode().unwrap(), vec![b'V', b'M', b'E', 1, 3, 0, 1]);
}

#[test]
fn each_lifecycle_fault_has_its_input() {
    let fault = |bytes: &[u8]| match EngineState::decode(bytes) {
        Err(SnapshotError::EngineState(f)) => f,
        other => panic!("expected an engine fault, got {other:?}"),
    };
    assert_eq!(
        fault(&[b'V', b'M', b'E', 2, 2, 0, 0]),
        EngineStateFault::InvalidHeader
    );
    assert_eq!(fault(&[1, 2, 3]), EngineStateFault::InvalidHeader);
    assert_eq!(
        fault(&[b'V', b'M', b'E', 1, 2, 5, 0]),
        EngineStateFault::InvalidTerminal
    );
    assert_eq!(
        fault(&[b'V', b'M', b'E', 1, 4, 0, 0]),
        EngineStateFault::InvalidTerminal
    );
    assert_eq!(
        fault(&[b'V', b'M', b'E', 1, 2, 0, 2]),
        EngineStateFault::InvalidReentryFlag
    );
    assert_eq!(
        fault(&[b'V', b'M', b'E', 1, 0, 0, 0]),
        EngineStateFault::DefaultNotEmpty
    );
    let sdk = EngineState {
        terminal: Some(TerminalReason::SdkStop),
        sdk_snapshot_reentry_required: true,
    };
    assert_eq!(
        sdk.encode(),
        Err(SnapshotError::EngineState(EngineStateFault::SdkStopTerminal))
    );
    assert_eq!(
        EngineStateFault::InvalidTerminal.message(),
        "invalid terminal record"
    );
    assert_eq!(
        EngineStateFault::SdkStopTerminal.message(),
        "SDK stop cannot latch a terminal"
    );
}
