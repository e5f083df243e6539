use vmm_core::control::{host_minor_faults_from, map_terminal, CrashKind, TerminalStop};
use vmm_core::engine_state::TerminalReason;
use vmm_core::control::{
    page_console, page_sdk_events, reseed_marker_requires_arrival, restore_defers_materialization, restore_error_is_precommit,
    sparse_page_order_error, RestoreMode,
};
use vmm_core::snapshot::{EngineStateFault, SnapshotError};
use vmm_core::vmm::VmmError;

#[test]
fn restore_mode_defers_materialization_only_for_in_place() {
    assert!(restore_defers_materialization(RestoreMode::InPlace));
    assert!(!restore_defers_materialization(RestoreMode::Remap));
    assert!(!restore_defers_materialization(RestoreMode::Memcpy));
}

#[test]
fn post_commit_restore_errors_are_never_recoverable_rejections() {
    assert!(restore_error_is_precommit(&VmmError::ContractViolation(
        "validation".to_owned()
    )));
    assert!(!restore_error_is_precommit(&VmmError::Backend(
        "already mutated".to_owned()
    )));
}

#[test]
fn restore_error_precommit_classes() {
    assert!(restore_error_is_precommit(&VmmError::Snapshot(
        SnapshotError::EngineState(EngineStateFault::InvalidHeader)
    )));
    assert!(restore_error_is_precommit(&VmmError::Vtime("late".to_owned())));
    assert!(!restore_error_is_precommit(&VmmError::HostAssert("x".to_owned())));
}

#[test]
fn sparse_page_order_check_distinguishes_sorted_duplicate_and_descending() {
    assert!(sparse_page_order_error(None, 7).is_none());
    assert!(matches!(
        sparse_page_order_error(Some(3), 3),
        Some(SnapshotError::SparsePageDuplicate { gfn: 3 })
    ));
    assert!(matches!(
        sparse_page_order_error(Some(3), 1),
        Some(SnapshotError::SparsePagesNotSorted {
            previous: 3,
            current: 1,
        })
    ));
    assert!(sparse_page_order_error(Some(1), 3).is_none());
}

#[test]
fn sparse_page_order_over_a_strictly_increasing_run_is_clean() {
    let gfns = [0u64, 1, 5, 9, u64::MAX];
    let mut previous = None;
    for &g in &gfns {
        assert!(sparse_page_order_error(previous, g).is_none());
        previous = Some(g);
    }
    assert_eq!(
        sparse_page_order_error(Some(u64::MAX), 0),
        Some(SnapshotError::SparsePagesNotSorted {
            previous: u64::MAX,
            current: 0
        })
    );
}

#[test]
fn reseed_arrival_requirement_is_strictly_beyond_the_restore_floor() {
    assert!(!reseed_marker_requires_arrival(99, 100));
    assert!(!reseed_marker_requires_arrival(100, 100));
    assert!(reseed_marker_requires_arrival(101, 100));
}

/// A frame limit for paging tests.
const MAX_FRAME_LEN: usize = 1 << 16;

#[test]
fn page_console_paging_math() {
    let serial = b"ORDER_READY\nphase one\nphase two\n";
    let (total, chunk) = page_console(serial, 0, MAX_FRAME_LEN);
    assert_eq!(total as usize, serial.len());
    assert_eq!(chunk, serial);
    let (total2, chunk2) = page_console(serial, 12, MAX_FRAME_LEN);
    assert_eq!(total2 as usize, serial.len());
    assert_eq!(chunk2, &serial[12..]);
    assert!(page_console(serial, serial.len(), MAX_FRAME_LEN).1.is_empty());
    assert!(page_console(serial, serial.len() + 99, MAX_FRAME_LEN).1.is_empty());
    assert_eq!(page_console(&[], 0, MAX_FRAME_LEN), (0u32, Vec::new()));
}

#[test]
fn page_console_bounds_the_chunk_to_the_frame() {
    let serial = vec![b'z'; 100];
    let (total, chunk) = page_console(&serial, 5, 30);
    assert_eq!(total, 100);
    assert_eq!(chunk.len(), 20);
    let (_, tiny) = page_console(&serial, 0, 4);
    assert!(tiny.is_empty());
    let mut fetched = Vec::new();
    loop {
        let (_, chunk) = page_console(&serial, fetched.len(), 37);
        if chunk.is_empty() {
            break;
        }
        fetched.extend(chunk);
    }
    assert_eq!(fetched, serial);
}

#[test]
fn sdk_events_pages_bound_to_the_frame_limit() {
    let per_event = 4_000usize;
    let count = MAX_FRAME_LEN / (16 + per_event) + 5;
    let all: Vec<(u64, u32, Vec<u8>)> = (0..count)
        .map(|i| (i as u64, i as u32, vec![0xAB_u8; per_event]))
        .collect();

    let mut fetched: Vec<(u64, u32, Vec<u8>)> = Vec::new();
    let mut pages = 0;
    loop {
        let page = page_sdk_events(&all, fetched.len(), MAX_FRAME_LEN);
        if page.is_empty() {
            break;
        }
        pages += 1;
        let body: usize = 6 + page.iter().map(|e| 16 + e.2.len()).sum::<usize>();
        assert!(
            body <= MAX_FRAME_LEN,
            "page {pages} body {body} exceeds the frame limit"
        );
        fetched.extend(page);
    }
    assert!(
        pages >= 2,
        "a capture over one frame splits into multiple pages, got {pages}"
    );
    assert_eq!(fetched, all, "paging reassembles the full capture exactly");
}

#[test]
fn an_oversized_event_still_gets_a_page_of_its_own() {
    let all = vec![(1u64, 2u32, vec![0u8; 100]), (3, 4, vec![1u8; 1])];
    let page = page_sdk_events(&all, 0, 50);
    assert_eq!(page, vec![(1u64, 2u32, vec![0u8; 100])]);
    let page = page_sdk_events(&all, 1, 50);
    assert_eq!(page, vec![(3u64, 4u32, vec![1u8; 1])]);
    assert!(page_sdk_events(&all, 2, 50).is_empty());
    assert!(page_sdk_events(&all, 99, 50).is_empty());
    let both = page_sdk_events(&all, 0, 6 + 116 + 17);
    assert_eq!(both, all);
    let one = page_sdk_events(&all, 0, 6 + 116 + 16);
    assert_eq!(one.len(), 1);
}

#[test]
fn host_minor_fault_counter_initializes_through_the_miri_seam() {
    assert_eq!(host_minor_faults_from(0, 77), Some(77));
}

#[test]
fn host_minor_fault_counter_rejects_failures_and_negative_counts() {
    assert_eq!(host_minor_faults_from(-1, 77), None);
    assert_eq!(host_minor_faults_from(0, -5), None);
    assert_eq!(host_minor_faults_from(0, 0), Some(0));
}

#[test]
fn terminal_reasons_map_to_their_reports() {
    assert_eq!(
        map_terminal(TerminalReason::Idle, 5),
        TerminalStop::Quiescent { vtime: 5 }
    );
    assert_eq!(
        map_terminal(TerminalReason::DebugExit { code: 0 }, 6),
        TerminalStop::Quiescent { vtime: 6 }
    );
    assert_eq!(
        map_terminal(TerminalReason::DebugExit { code: 3 }, 7),
        TerminalStop::Crash {
            vtime: 7,
            kind: CrashKind::Panic,
            detail: vec![3]
        }
    );
    assert_eq!(
        map_terminal(TerminalReason::Shutdown, 8),
        TerminalStop::Crash {
            vtime: 8,
            kind: CrashKind::Shutdown,
            detail: b"backend shutdown exit (triple fault or guest-initiated shutdown)".to_vec()
        }
    );
}
