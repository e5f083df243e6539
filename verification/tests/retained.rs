use vmm_core::exec::MAX_CAPTURE;
use vmm_core::retained::{ExecCompletion, RetainedExec};

const MAGIC: &[u8; 8] = b"HCEXEC01";

fn token(id: u64) -> String {
    format!("HXEC-{id}-")
}

fn keep(id: u64) -> usize {
    2 * token(id).len() + 21
}

struct Fields {
    id: u64,
    cursor: u64,
    capture: Vec<u8>,
    scan: Vec<u8>,
    base: u64,
    truncated: u8,
    completion: Vec<u8>,
}

fn pending() -> Vec<u8> {
    vec![0]
}

fn exited(status: u64, at: u64) -> Vec<u8> {
    let mut v = vec![1];
    v.extend_from_slice(&status.to_le_bytes());
    v.extend_from_slice(&at.to_le_bytes());
    v
}

fn aborted(at: u64) -> Vec<u8> {
    let mut v = vec![2];
    v.extend_from_slice(&at.to_le_bytes());
    v
}

fn record(f: &Fields) -> Vec<u8> {
    let mut out = MAGIC.to_vec();
    out.extend_from_slice(&f.id.to_le_bytes());
    out.extend_from_slice(&f.cursor.to_le_bytes());
    out.extend_from_slice(&(f.capture.len() as u64).to_le_bytes());
    out.extend_from_slice(&f.capture);
    out.extend_from_slice(&(f.scan.len() as u64).to_le_bytes());
    out.extend_from_slice(&f.scan);
    out.extend_from_slice(&f.base.to_le_bytes());
    out.push(f.truncated);
    out.extend_from_slice(&f.completion);
    out
}

/// A command after `n > MAX_CAPTURE` bytes of output with no sentinel: a full
/// capture, a full overlap, and the overlap's start held at the cap.
fn truncated_pending(id: u64, n: usize) -> Fields {
    let k = keep(id);
    Fields {
        id,
        cursor: n as u64,
        capture: vec![b'x'; MAX_CAPTURE],
        scan: vec![b'x'; k],
        base: (n - k).min(MAX_CAPTURE + 1) as u64,
        truncated: 1,
        completion: pending(),
    }
}

fn field_offset_for_pending() -> usize {
    MAGIC.len() + 8 + 8 + 8 + 8 + 8 + 1
}

#[test]
fn strict_decode_rejects_tags_trailing_and_oversized_fields() {
    let valid = RetainedExec::new("x", 4, 0).encode();
    let mut bad_magic = valid.clone();
    bad_magic[0] ^= 1;
    assert!(matches!(
        RetainedExec::decode(&bad_magic),
        Err("exec magic")
    ));

    let mut trailing = valid.clone();
    trailing.push(0);
    assert!(matches!(
        RetainedExec::decode(&trailing),
        Err("trailing exec state")
    ));

    let completion = field_offset_for_pending();
    let mut bad_tag = valid.clone();
    bad_tag[completion] = 9;
    assert!(matches!(
        RetainedExec::decode(&bad_tag),
        Err("exec completion tag")
    ));

    let mut bad_capture_len = valid.clone();
    bad_capture_len[MAGIC.len() + 8 + 8..MAGIC.len() + 8 + 8 + 8]
        .copy_from_slice(&(MAX_CAPTURE as u64 + 1).to_le_bytes());
    assert!(matches!(
        RetainedExec::decode(&bad_capture_len),
        Err("exec field exceeds bound")
    ));

    let mut bad_scan_len = valid.clone();
    bad_scan_len[MAGIC.len() + 8 + 8 + 8..MAGIC.len() + 8 + 8 + 8 + 8]
        .copy_from_slice(&1000u64.to_le_bytes());
    assert!(matches!(
        RetainedExec::decode(&bad_scan_len),
        Err("exec field exceeds bound")
    ));

    let mut bad_base = valid;
    let base = MAGIC.len() + 8 + 8 + 8 + 8;
    bad_base[base..base + 8].copy_from_slice(&(MAX_CAPTURE as u64 + 2).to_le_bytes());
    assert!(matches!(
        RetainedExec::decode(&bad_base),
        Err("exec scan base")
    ));
}

#[test]
fn endpoint_validation_rejects_time_and_cursor_inconsistency() {
    let t = token(5);
    let serial = format!("{t}:17:{t}");
    let exec = RetainedExec::decode(&record(&Fields {
        id: 5,
        cursor: serial.len() as u64,
        capture: serial.clone().into_bytes(),
        scan: vec![],
        base: 0,
        truncated: 0,
        completion: exited(17, 10),
    }))
    .unwrap();
    assert_eq!(
        exec.validate_at(9, serial.len()),
        Err("exec completion is after endpoint")
    );
    assert_eq!(
        exec.validate_at(10, serial.len() - 1),
        Err("exec serial cursor exceeds output length")
    );
    assert_eq!(exec.validate_at(10, serial.len()), Ok(()));
}

#[test]
fn pending_decode_rejects_a_complete_sentinel() {
    let t = token(6);
    let complete = format!("{t}:0:{t}").into_bytes();
    let bad = Fields {
        id: 6,
        cursor: complete.len() as u64,
        capture: complete.clone(),
        scan: complete,
        base: 0,
        truncated: 0,
        completion: pending(),
    };
    assert!(matches!(
        RetainedExec::decode(&record(&bad)),
        Err("pending exec contains a complete sentinel")
    ));
}

#[test]
fn truncated_parser_rejects_impossible_overlap_and_terminal_capture() {
    let mut pending_state = truncated_pending(0, MAX_CAPTURE + 1);
    assert!(RetainedExec::decode(&record(&pending_state)).is_ok());
    pending_state.scan.clear();
    assert!(RetainedExec::decode(&record(&pending_state)).is_err());
    let mut aborted_state = Fields {
        id: 0,
        cursor: MAX_CAPTURE as u64 + 1,
        capture: vec![b'x'; MAX_CAPTURE],
        scan: vec![],
        base: 0,
        truncated: 1,
        completion: aborted(1),
    };
    assert!(RetainedExec::decode(&record(&aborted_state)).is_ok());
    aborted_state.capture.pop();
    assert!(RetainedExec::decode(&record(&aborted_state)).is_err());
}

#[test]
fn pending_scanner_cannot_contain_bytes_beyond_serial_cursor() {
    let mut bad = truncated_pending(0, MAX_CAPTURE + 1);
    bad.cursor = MAX_CAPTURE as u64;
    bad.base = MAX_CAPTURE as u64 + 1;
    assert!(matches!(
        RetainedExec::decode(&record(&bad)),
        Err("exec scanner extends beyond serial cursor")
    ));
}

#[test]
fn restored_pending_overlap_must_match_the_vm_stream() {
    let serial = vec![b'x'; MAX_CAPTURE + 100];
    let mut command = truncated_pending(0, MAX_CAPTURE + 100);
    let decoded = RetainedExec::decode(&record(&command)).unwrap();
    decoded.validate_serial(1, &serial).unwrap();
    command.scan[0] = b'y';
    let decoded = RetainedExec::decode(&record(&command)).unwrap();
    assert_eq!(
        decoded.validate_serial(1, &serial),
        Err("exec scanner differs from VM serial output")
    );
}

#[test]
fn decoded_state_has_no_command_input() {
    let exec = RetainedExec::new("echo should-run-once", 10, 3);
    assert!(!exec.input().is_empty());
    let decoded = RetainedExec::decode(&exec.encode()).unwrap();
    assert!(decoded.input().is_empty());
}

#[test]
fn a_fresh_command_round_trips_and_is_pending() {
    let exec = RetainedExec::new("ls", 42, 7);
    assert_eq!(exec.input(), b"ls\necho HXEC-42-:$?:HXEC-42-\n");
    assert!(exec.is_pending());
    let bytes = exec.encode();
    assert_eq!(bytes.len(), 8 + 8 + 8 + 8 + 8 + 8 + 1 + 1);
    assert_eq!(&bytes[8..16], &42u64.to_le_bytes());
    assert_eq!(&bytes[16..24], &7u64.to_le_bytes());
    let decoded = RetainedExec::decode(&bytes).unwrap();
    assert_eq!(decoded.encode(), bytes);
    assert_eq!(decoded.view(9), exec.view(9));
    let v = decoded.view(9);
    assert_eq!(v.id, 42);
    assert_eq!(v.at, 9);
    assert_eq!(v.completion, ExecCompletion::Pending);
    assert!(v.output.is_empty());
    assert!(!v.truncated);
}

#[test]
fn finished_commands_round_trip_and_report_their_completion() {
    let done = Fields {
        id: 3,
        cursor: 12,
        capture: b"hello world\n".to_vec(),
        scan: vec![],
        base: 0,
        truncated: 0,
        completion: exited(137, 20),
    };
    let bytes = record(&done);
    let exec = RetainedExec::decode(&bytes).unwrap();
    assert!(!exec.is_pending());
    assert_eq!(exec.encode(), bytes);
    let v = exec.view(21);
    assert_eq!(v.completion, ExecCompletion::Exited { status: 137, at: 20 });
    assert_eq!(v.output, b"hello world\n");
    let gone = Fields {
        completion: aborted(4),
        ..done
    };
    let exec = RetainedExec::decode(&record(&gone)).unwrap();
    assert_eq!(exec.view(4).completion, ExecCompletion::Aborted { at: 4 });
    let stale = Fields {
        scan: b"x".to_vec(),
        ..gone
    };
    assert!(matches!(
        RetainedExec::decode(&record(&stale)),
        Err("aborted exec retains scanner state")
    ));
}

#[test]
fn pending_overlap_must_be_the_capture_tail() {
    let capture = b"some partial output".to_vec();
    let good = Fields {
        id: 1,
        cursor: capture.len() as u64 + 5,
        capture: capture.clone(),
        scan: capture.clone(),
        base: 0,
        truncated: 0,
        completion: pending(),
    };
    let exec = RetainedExec::decode(&record(&good)).unwrap();
    assert_eq!(exec.validate_serial(0, b"xxxxxsome partial output"), Ok(()));
    assert_eq!(exec.validate_serial(0, b"some partial outputxxxxx"), Err("exec scanner differs from VM serial output"));
    let bad = Fields {
        scan: capture[1..].to_vec(),
        ..good
    };
    assert!(matches!(
        RetainedExec::decode(&record(&bad)),
        Err("exec scanner overlap does not match capture")
    ));
    let behind = Fields {
        id: 1,
        cursor: 3,
        capture: capture.clone(),
        scan: capture.clone(),
        base: 0,
        truncated: 0,
        completion: pending(),
    };
    assert!(matches!(
        RetainedExec::decode(&record(&behind)),
        Err("exec cursor precedes captured output")
    ));
    let tags = Fields {
        truncated: 2,
        ..behind
    };
    assert!(matches!(
        RetainedExec::decode(&record(&tags)),
        Err("exec truncation tag")
    ));
}

#[test]
fn pending_state_matching_the_stream_validates() {
    let capture = b"abc".to_vec();
    let exec = RetainedExec::decode(&record(&Fields {
        id: 1,
        cursor: 3,
        capture: capture.clone(),
        scan: capture,
        base: 0,
        truncated: 0,
        completion: pending(),
    }))
    .unwrap();
    assert_eq!(exec.validate_serial(0, b"abc"), Ok(()));
    assert_eq!(
        exec.validate_serial(0, b"ab"),
        Err("exec serial cursor exceeds output length")
    );
}
