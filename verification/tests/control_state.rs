use vmm_core::control_state::{
    decode_frame, finish_decode, ControlFrame, ControlState, PlanSummary, ScheduleFailure,
};

fn plan(seed: u64, effects: &[u64], reseeds: &[u64]) -> PlanSummary {
    PlanSummary {
        seed,
        default_config: true,
        has_payloads: false,
        has_answers: false,
        effect_moments: effects.to_vec(),
        reseed_moments: reseeds.to_vec(),
    }
}

/// The recorded plan seeded 9 with an effect at 1; the pending plan with an
/// effect at 20 and a reseed at 21.
fn plans() -> (PlanSummary, PlanSummary) {
    (plan(9, &[1], &[]), plan(0, &[20], &[21]))
}

fn state() -> ControlState {
    ControlState {
        recorded: b"recorded plan bytes".to_vec(),
        pending: b"pending".to_vec(),
        poisoned: Some(ScheduleFailure {
            moment: 20,
            vtime: 25,
        }),
        exec_nonce: 17,
    }
}

fn decode(
    bytes: &[u8],
    recorded: &PlanSummary,
    pending: &PlanSummary,
) -> Result<Option<ControlState>, &'static str> {
    match decode_frame(bytes)? {
        None => Ok(None),
        Some(frame) => finish_decode(frame, Some(recorded), Some(pending)).map(Some),
    }
}

#[test]
fn control_round_trip_and_legacy_absence() {
    let (rec, pen) = plans();
    let state = state();
    assert_eq!(decode(&state.encode(), &rec, &pen).unwrap(), Some(state.clone()));
    assert_eq!(decode(&[], &rec, &pen).unwrap(), None);
    let mut runnable = state;
    runnable.poisoned = None;
    assert_eq!(
        decode(&runnable.encode(), &rec, &pen).unwrap(),
        Some(runnable)
    );
}

#[test]
fn control_decode_rejects_malformed_and_noncanonical_plans() {
    let (rec, pen) = plans();
    let bytes = state().encode();
    for length in 1..bytes.len() {
        assert!(decode(&bytes[..length], &rec, &pen).is_err());
    }
    for (offset, value) in [(0, 0), (8, 255), (32, 2)] {
        let mut bad = bytes.clone();
        bad[offset] = value;
        assert!(decode(&bad, &rec, &pen).is_err());
    }
    let mut trailing = bytes.clone();
    trailing.push(0);
    assert!(decode(&trailing, &rec, &pen).is_err());
    let mut bad = state();
    bad.poisoned.as_mut().unwrap().moment = 19;
    assert!(decode(&bad.encode(), &rec, &pen).is_err());
    let overlap = plan(9, &[1], &[21]);
    assert!(decode(&bytes, &overlap, &pen).is_err());
    let overlap = plan(9, &[1, 20], &[]);
    assert!(decode(&bytes, &overlap, &pen).is_err());
    bad.poisoned = None;
    let mut payloads = pen.clone();
    payloads.has_payloads = true;
    assert!(decode(&bad.encode(), &rec, &payloads).is_err());
}

#[test]
fn pending_plan_rejects_each_sdk_input_independently() {
    let (rec, pen) = plans();
    let mut seeded = pen.clone();
    seeded.seed = 1;
    let mut configured = pen.clone();
    configured.default_config = false;
    let mut payload = pen.clone();
    payload.has_payloads = true;
    let mut answered = pen.clone();
    answered.has_answers = true;
    let invalid = ControlState {
        poisoned: None,
        ..state()
    };
    for pending in [seeded, configured, payload, answered] {
        assert_eq!(
            decode(&invalid.encode(), &rec, &pending),
            Err("pending control plan contains SDK inputs")
        );
    }
}

#[test]
fn hash_observes_pending_work_and_consumed_history() {
    let baseline = state();
    let mut suffix = Vec::new();
    baseline.append_hash(&mut suffix);
    for altered in [
        ControlState {
            exec_nonce: 18,
            ..baseline.clone()
        },
        ControlState {
            poisoned: None,
            ..baseline.clone()
        },
        ControlState {
            pending: b"other".to_vec(),
            poisoned: None,
            ..baseline.clone()
        },
    ] {
        let mut other = Vec::new();
        altered.append_hash(&mut other);
        assert_ne!(other, suffix);
    }
    let mut history = baseline;
    history.recorded = b"recorded plan bytes, longer".to_vec();
    let mut same = Vec::new();
    history.append_hash(&mut same);
    assert_ne!(same, suffix);
    let empty = ControlState {
        recorded: history.recorded,
        pending: Vec::new(),
        poisoned: None,
        exec_nonce: 0,
    };
    let mut unchanged = b"existing-state".to_vec();
    empty.append_hash(&mut unchanged);
    assert!(unchanged.starts_with(b"existing-stateCPLN"));
    let record = empty.encode();
    assert_eq!(&unchanged[18..26], &(record.len() as u64).to_le_bytes());
    assert_eq!(&unchanged[26..], &record[..]);
}

#[test]
fn control_record_bytes_are_exact() {
    let s = ControlState {
        recorded: vec![0xAA],
        pending: vec![0xBB, 0xCC],
        poisoned: Some(ScheduleFailure { moment: 2, vtime: 3 }),
        exec_nonce: 5,
    };
    let mut want = b"HCSTATE1".to_vec();
    want.extend_from_slice(&1u64.to_le_bytes());
    want.extend_from_slice(&2u64.to_le_bytes());
    want.extend_from_slice(&5u64.to_le_bytes());
    want.push(1);
    want.extend_from_slice(&2u64.to_le_bytes());
    want.extend_from_slice(&3u64.to_le_bytes());
    want.extend_from_slice(&[0xAA, 0xBB, 0xCC]);
    assert_eq!(s.encode(), want);
    assert_eq!(
        decode_frame(&want),
        Ok(Some(ControlFrame {
            state: s,
            trailing: false
        }))
    );
}

#[test]
fn control_frame_reports_each_error() {
    let bytes = state().encode();
    assert_eq!(decode_frame(&bytes[..7]), Err("truncated control state"));
    assert_eq!(decode_frame(b"HCSTATE2xxxxxxxxxxxxxxxxxxxxxxxxxx"), Err("control state magic"));
    let mut bad_tag = bytes.clone();
    bad_tag[32] = 7;
    assert_eq!(decode_frame(&bad_tag), Err("control failure tag"));
    let mut long_plan = bytes.clone();
    long_plan[8..16].copy_from_slice(&1000u64.to_le_bytes());
    assert_eq!(decode_frame(&long_plan), Err("truncated control state"));
    let mut trailing = bytes.clone();
    trailing.push(1);
    assert_eq!(decode_frame(&trailing).unwrap().unwrap().trailing, true);
}

#[test]
fn finish_decode_reports_each_rule() {
    let (rec, pen) = plans();
    let frame = decode_frame(&state().encode()).unwrap().unwrap();
    assert_eq!(
        finish_decode(frame.clone(), None, Some(&pen)),
        Err("recorded control inputs")
    );
    assert_eq!(
        finish_decode(frame.clone(), Some(&rec), None),
        Err("pending control inputs")
    );
    let mut trailing = frame.clone();
    trailing.trailing = true;
    assert_eq!(
        finish_decode(trailing, Some(&rec), Some(&pen)),
        Err("trailing control state")
    );
    assert_eq!(
        finish_decode(frame.clone(), Some(&plan(9, &[], &[21])), Some(&pen)),
        Err("control input is both pending and consumed")
    );
    assert_eq!(
        finish_decode(frame.clone(), Some(&rec), Some(&plan(0, &[], &[21]))),
        Err("failed control moment is absent from the pending plan")
    );
    assert_eq!(
        finish_decode(frame.clone(), Some(&rec), Some(&plan(0, &[], &[20]))),
        Ok(state())
    );
    assert_eq!(finish_decode(frame, Some(&rec), Some(&pen)), Ok(state()));
}
