//! Restore-discipline decisions of the control server.

use vstd::prelude::*;
use crate::snapshot::SnapshotError;
use crate::vmm::VmmError;
use crate::text::append;
use crate::engine_state::TerminalReason;
use vstd::string::StringSliceAdditionalSpecFns;

verus! {

/// How `branch` and `replay` restore guest memory.
#[derive(Clone, Copy, PartialEq, Eq, Debug)]
pub enum RestoreMode {
    /// Patch the live VM's RAM to the target snapshot in place.
    InPlace,
    /// Map the snapshot as the memslot backing of a fresh VM.
    Remap,
    /// Materialize, boot a fresh owned-RAM VM, and copy the image in.
    Memcpy,
}

/// Whether restoring in `mode` defers materializing the snapshot: only an
/// in-place restore, which patches changed pages only, does.
pub fn restore_defers_materialization(mode: RestoreMode) -> (r: bool)
    ensures
        r == (mode == RestoreMode::InPlace),
{
    match mode {
        RestoreMode::InPlace => true,
        _ => false,
    }
}

/// Whether a restore error is guaranteed to occur before the target is
/// mutated, and may therefore be answered as a recoverable rejection: contract
/// violations, snapshot errors, and virtual-time errors.
pub fn restore_error_is_precommit(error: &VmmError) -> (r: bool)
    ensures
        r == (error is ContractViolation || error is Snapshot || error is Vtime),
{
    match error {
        VmmError::ContractViolation(_) | VmmError::Snapshot(_) | VmmError::Vtime(_) => true,
        _ => false,
    }
}

/// The ordering error between adjacent sparse-page frame numbers, if any.
pub open spec fn sparse_order_spec(previous: Option<u64>, current: u64) -> Option<SnapshotError> {
    match previous {
        None => None,
        Some(p) => if current < p {
            Some(SnapshotError::SparsePagesNotSorted { previous: p, current })
        } else if current == p {
            Some(SnapshotError::SparsePageDuplicate { gfn: current })
        } else {
            None
        },
    }
}

/// Classifies adjacent sparse-page frame numbers: descending is unsorted, equal
/// is a duplicate, ascending (or a first page) is fine.
pub fn sparse_page_order_error(previous: Option<u64>, current: u64) -> (r: Option<SnapshotError>)
    ensures
        r == sparse_order_spec(previous, current),
{
    let previous = match previous {
        Some(p) => p,
        None => return None,
    };
    if current < previous {
        return Some(SnapshotError::SparsePagesNotSorted { previous, current });
    }
    if current == previous {
        return Some(SnapshotError::SparsePageDuplicate { gfn: current });
    }
    None
}

/// Checking each adjacent pair of a sparse page list finds no error exactly
/// when its frame numbers are strictly increasing: sorted, and no page twice.
pub proof fn lemma_sparse_pages_clean_iff_strictly_increasing(gfns: Seq<u64>)
    ensures
        (forall|i: int| 0 < i < gfns.len() ==> #[trigger] sparse_order_spec(Some(gfns[i - 1]), gfns[i]) is None)
            <==> (forall|i: int, j: int| 0 <= i < j < gfns.len() ==> gfns[i] < gfns[j]),
{
    if forall|i: int| 0 < i < gfns.len() ==> #[trigger] sparse_order_spec(Some(gfns[i - 1]), gfns[i]) is None {
        assert forall|i: int, j: int| 0 <= i < j < gfns.len() implies gfns[i] < gfns[j] by {
            lemma_increasing_from(gfns, i, j);
        }
    }
    if forall|i: int, j: int| 0 <= i < j < gfns.len() ==> gfns[i] < gfns[j] {
        assert forall|i: int| 0 < i < gfns.len() implies #[trigger] sparse_order_spec(Some(gfns[i - 1]), gfns[i]) is None by {
            assert(gfns[i - 1] < gfns[i]);
        }
    }
}

proof fn lemma_increasing_from(gfns: Seq<u64>, i: int, j: int)
    requires
        0 <= i < j < gfns.len(),
        forall|k: int| 0 < k < gfns.len() ==> #[trigger] sparse_order_spec(Some(gfns[k - 1]), gfns[k]) is None,
    ensures
        gfns[i] < gfns[j],
    decreases j - i,
{
    assert(sparse_order_spec(Some(gfns[j - 1]), gfns[j]) is None);
    if j - 1 > i {
        lemma_increasing_from(gfns, i, j - 1);
    }
}

/// Whether a reseed marker must be reached by running: only one strictly
/// beyond the restored floor.
pub fn reseed_marker_requires_arrival(marker: u64, restored_floor: u64) -> (r: bool)
    ensures
        r == (marker > restored_floor),
{
    marker > restored_floor
}

// ---------------------------------------------------------------------------
// Paging observations into frames.
// ---------------------------------------------------------------------------

/// The reply bytes around a console chunk: tag, total, and length.
pub const CONSOLE_REPLY_OVERHEAD: usize = 10;

/// The reply bytes around a page of SDK events.
pub const SDK_EVENTS_REPLY_OVERHEAD: usize = 6;

/// The reply bytes an SDK event adds beyond its payload: moment, kind, and
/// payload length.
pub const SDK_EVENT_HEADER: usize = 16;

/// The console page at `offset`: the full capture length (saturated to 32
/// bits) and the capture from `offset` (clamped to its end), bounded so the
/// reply fits a frame of `max_frame_len` bytes.
pub open spec fn console_page(serial: Seq<u8>, offset: nat, max_frame_len: nat) -> (u32, Seq<u8>) {
    let total = if serial.len() > u32::MAX {
        u32::MAX
    } else {
        serial.len() as u32
    };
    let start = if offset < serial.len() {
        offset
    } else {
        serial.len()
    };
    let cap: nat = if max_frame_len > CONSOLE_REPLY_OVERHEAD {
        (max_frame_len - CONSOLE_REPLY_OVERHEAD) as nat
    } else {
        0
    };
    let end = if start + cap < serial.len() {
        start + cap
    } else {
        serial.len()
    };
    (total, serial.subrange(start as int, end as int))
}

/// A console page is the capture from the requested offset (clamped to the
/// capture's end), as much of it as a frame holds: the total is the capture's
/// length saturated to 32 bits, and the chunk is the bytes of `serial` that
/// start at `min(offset, serial.len())`, as many as remain but at most
/// `max_frame_len - 10` (none when the frame cannot hold the reply overhead).
pub proof fn lemma_console_page_is_the_requested_window(serial: Seq<u8>, offset: nat, max_frame_len: nat)
    ensures
        ({
            let (total, chunk) = console_page(serial, offset, max_frame_len);
            let start: int = if offset < serial.len() {
                offset as int
            } else {
                serial.len() as int
            };
            let room: int = if max_frame_len > 10 {
                max_frame_len - 10
            } else {
                0
            };
            &&& total as int == if serial.len() > u32::MAX {
                u32::MAX as int
            } else {
                serial.len() as int
            }
            &&& chunk.len() == if serial.len() - start < room {
                serial.len() - start
            } else {
                room
            }
            &&& chunk == serial.subrange(start, start + chunk.len())
        }),
{
    let (total, chunk) = console_page(serial, offset, max_frame_len);
    let start: int = if offset < serial.len() {
        offset as int
    } else {
        serial.len() as int
    };
    assert(chunk == serial.subrange(start, start + chunk.len()));
}

/// The console text that paging from `offset` yields, chunk after chunk,
/// each request resuming where the last chunk ended, until a chunk comes back
/// empty.
pub open spec fn console_paged_from(serial: Seq<u8>, offset: nat, max_frame_len: nat) -> Seq<u8>
    decreases serial.len() - offset,
{
    let chunk = console_page(serial, offset, max_frame_len).1;
    if offset >= serial.len() || chunk.len() == 0 {
        Seq::empty()
    } else {
        chunk + console_paged_from(serial, offset + chunk.len(), max_frame_len)
    }
}

proof fn lemma_console_paged_from(serial: Seq<u8>, offset: nat, max_frame_len: nat)
    requires
        offset <= serial.len(),
        max_frame_len > CONSOLE_REPLY_OVERHEAD,
    ensures
        console_paged_from(serial, offset, max_frame_len) == serial.skip(offset as int),
    decreases serial.len() - offset,
{
    let chunk = console_page(serial, offset, max_frame_len).1;
    lemma_console_page_is_the_requested_window(serial, offset, max_frame_len);
    if offset == serial.len() {
        assert(serial.skip(offset as int) =~= Seq::<u8>::empty());
    } else {
        lemma_console_paged_from(serial, offset + chunk.len(), max_frame_len);
        assert(chunk + serial.skip(offset + chunk.len() as int) =~= serial.skip(offset as int));
    }
}

/// Paging the console from the start, each request resuming where the last
/// chunk ended, reassembles exactly the capture, for any frame large enough to
/// hold the reply overhead.
pub proof fn lemma_console_paging_reassembles(serial: Seq<u8>, max_frame_len: nat)
    requires
        max_frame_len > CONSOLE_REPLY_OVERHEAD,
    ensures
        console_paged_from(serial, 0, max_frame_len) == serial,
{
    lemma_console_paged_from(serial, 0, max_frame_len);
    assert(serial.skip(0) =~= serial);
}

/// Pages the guest serial capture for a console request (see
/// [`console_page`]). Reading never touches the capture.
pub fn page_console(serial: &[u8], offset: usize, max_frame_len: usize) -> (r: (u32, Vec<u8>))
    ensures
        (r.0, r.1@) == console_page(serial@, offset as nat, max_frame_len as nat),
{
    let n = serial.len();
    let total: u32 = if n > u32::MAX as usize {
        u32::MAX
    } else {
        n as u32
    };
    let start = if offset < n {
        offset
    } else {
        n
    };
    let cap = max_frame_len.saturating_sub(CONSOLE_REPLY_OVERHEAD);
    let end = if cap < n - start {
        start + cap
    } else {
        n
    };
    let mut chunk: Vec<u8> = Vec::new();
    append(&mut chunk, vstd::slice::slice_subrange(serial, start, end));
    (total, chunk)
}

/// The reply size an event adds.
pub open spec fn event_size(e: (u64, u32, Seq<u8>)) -> int {
    SDK_EVENT_HEADER + e.2.len()
}

/// How many of `evs` a page takes when its body already holds `body` bytes:
/// events are taken in order while the body stays within `max_frame_len`,
/// except that a page always takes its first event.
pub open spec fn page_count(evs: Seq<(u64, u32, Seq<u8>)>, body: int, max_frame_len: int, first: bool) -> nat
    decreases evs.len(),
{
    if evs.len() == 0 {
        0
    } else if !first && body + event_size(evs[0]) > max_frame_len {
        0
    } else {
        1 + page_count(evs.skip(1), body + event_size(evs[0]), max_frame_len, false)
    }
}

/// An event with its payload by value.
pub open spec fn event_view(e: (u64, u32, Vec<u8>)) -> (u64, u32, Seq<u8>) {
    (e.0, e.1, e.2@)
}

/// The events by value.
pub open spec fn events_view(all: Seq<(u64, u32, Vec<u8>)>) -> Seq<(u64, u32, Seq<u8>)> {
    all.map_values(|e: (u64, u32, Vec<u8>)| event_view(e))
}

/// The page of SDK events from `offset`: the longest run of events from there
/// (clamped to the end) whose reply fits a frame of `max_frame_len` bytes, but
/// always at least one event when any remain.
pub open spec fn sdk_events_page(all: Seq<(u64, u32, Seq<u8>)>, offset: nat, max_frame_len: nat) -> Seq<
    (u64, u32, Seq<u8>),
> {
    let start = if offset < all.len() {
        offset as int
    } else {
        all.len() as int
    };
    let rest = all.skip(start);
    rest.take(page_count(rest, SDK_EVENTS_REPLY_OVERHEAD as int, max_frame_len as int, true) as int)
}

/// The events that paging from `offset` yields, page after page, until a page
/// comes back empty.
pub open spec fn paged_from(all: Seq<(u64, u32, Seq<u8>)>, offset: nat, max_frame_len: nat) -> Seq<
    (u64, u32, Seq<u8>),
>
    decreases all.len() - offset,
{
    let page = sdk_events_page(all, offset, max_frame_len);
    if offset >= all.len() || page.len() == 0 {
        Seq::empty()
    } else {
        proof {
            lemma_page_count_bounds(
                all.skip(offset as int),
                SDK_EVENTS_REPLY_OVERHEAD as int,
                max_frame_len as int,
                true,
            );
        }
        page + paged_from(all, offset + page.len(), max_frame_len)
    }
}

/// A page takes no more events than remain, and a first page takes at least
/// one when any remain.
pub proof fn lemma_page_count_bounds(evs: Seq<(u64, u32, Seq<u8>)>, body: int, max: int, first: bool)
    ensures
        page_count(evs, body, max, first) <= evs.len(),
        first && evs.len() > 0 ==> page_count(evs, body, max, first) >= 1,
    decreases evs.len(),
{
    if evs.len() > 0 {
        lemma_page_count_bounds(evs.skip(1), body + event_size(evs[0]), max, false);
    }
}

/// Paging from `offset` yields exactly the events from `offset` on.
proof fn lemma_paged_from(all: Seq<(u64, u32, Seq<u8>)>, offset: nat, max_frame_len: nat)
    requires
        offset <= all.len(),
    ensures
        paged_from(all, offset, max_frame_len) == all.skip(offset as int),
    decreases all.len() - offset,
{
    let rest = all.skip(offset as int);
    let page = sdk_events_page(all, offset, max_frame_len);
    if offset == all.len() {
        assert(rest =~= Seq::<(u64, u32, Seq<u8>)>::empty());
    } else {
        lemma_page_count_bounds(rest, SDK_EVENTS_REPLY_OVERHEAD as int, max_frame_len as int, true);
        let c = page.len();
        assert(c >= 1);
        lemma_paged_from(all, offset + c, max_frame_len);
        assert(page + all.skip(offset + c as int) =~= rest);
    }
}

/// Paging the SDK events from the start, each request resuming where the
/// last page ended, reassembles exactly the captured events, whatever the
/// frame limit.
pub proof fn lemma_sdk_event_paging_reassembles(all: Seq<(u64, u32, Seq<u8>)>, max_frame_len: nat)
    ensures
        paged_from(all, 0, max_frame_len) == all,
{
    lemma_paged_from(all, 0, max_frame_len);
    assert(all.skip(0) =~= all);
}

/// The reply bytes the events of `page` add.
pub open spec fn events_size(page: Seq<(u64, u32, Seq<u8>)>) -> int
    decreases page.len(),
{
    if page.len() == 0 {
        0
    } else {
        events_size(page.drop_last()) + event_size(page.last())
    }
}

proof fn lemma_events_size_append(a: Seq<(u64, u32, Seq<u8>)>, b: Seq<(u64, u32, Seq<u8>)>)
    ensures
        events_size(a + b) == events_size(a) + events_size(b),
    decreases b.len(),
{
    if b.len() > 0 {
        lemma_events_size_append(a, b.drop_last());
        assert((a + b).drop_last() =~= a + b.drop_last());
    } else {
        assert(a + b =~= a);
    }
}

proof fn lemma_page_fits(evs: Seq<(u64, u32, Seq<u8>)>, body: int, max: int, first: bool)
    requires
        page_count(evs, body, max, first) >= 1,
        !first || page_count(evs, body, max, first) >= 2,
    ensures
        body + events_size(evs.take(page_count(evs, body, max, first) as int)) <= max,
    decreases evs.len(),
{
    let c = page_count(evs, body, max, first);
    let tail = evs.skip(1);
    let c2 = page_count(tail, body + event_size(evs[0]), max, false);
    lemma_page_count_bounds(evs, body, max, first);
    assert(evs.len() >= 1);
    assert(c == 1 + c2);
    lemma_events_size_append(seq![evs[0]], tail.take(c2 as int));
    assert(seq![evs[0]] + tail.take(c2 as int) =~= evs.take(c as int));
    assert(events_size(seq![evs[0]]) == event_size(evs[0])) by {
        let one = seq![evs[0]];
        assert(one.drop_last() =~= Seq::<(u64, u32, Seq<u8>)>::empty());
        assert(one.last() == evs[0]);
        assert(events_size(Seq::<(u64, u32, Seq<u8>)>::empty()) == 0);
    }
    if c2 >= 1 {
        lemma_page_fits(tail, body + event_size(evs[0]), max, false);
    } else {
        assert(tail.take(0) =~= Seq::<(u64, u32, Seq<u8>)>::empty());
    }
}

/// A page of two or more events fits the frame: the reply overhead plus the
/// size of each event is within `max_frame_len`. Only a lone event larger than
/// a frame makes a page that does not fit.
pub proof fn lemma_sdk_event_page_fits(all: Seq<(u64, u32, Seq<u8>)>, offset: nat, max_frame_len: nat)
    requires
        sdk_events_page(all, offset, max_frame_len).len() >= 2,
    ensures
        SDK_EVENTS_REPLY_OVERHEAD + events_size(sdk_events_page(all, offset, max_frame_len))
            <= max_frame_len,
{
    let start = if offset < all.len() {
        offset as int
    } else {
        all.len() as int
    };
    let rest = all.skip(start);
    lemma_page_count_bounds(rest, SDK_EVENTS_REPLY_OVERHEAD as int, max_frame_len as int, true);
    lemma_page_fits(rest, SDK_EVENTS_REPLY_OVERHEAD as int, max_frame_len as int, true);
}

/// Pages the captured SDK events for an events request (see
/// [`sdk_events_page`]).
pub fn page_sdk_events(all: &[(u64, u32, Vec<u8>)], offset: usize, max_frame_len: usize) -> (r: Vec<
    (u64, u32, Vec<u8>),
>)
    ensures
        events_view(r@) == sdk_events_page(events_view(all@), offset as nat, max_frame_len as nat),
{
    let n = all.len();
    let start = if offset < n {
        offset
    } else {
        n
    };
    let ghost evs = events_view(all@);
    let ghost rest = evs.skip(start as int);
    let mut page: Vec<(u64, u32, Vec<u8>)> = Vec::new();
    let mut body: u128 = SDK_EVENTS_REPLY_OVERHEAD as u128;
    let mut i: usize = start;
    let ghost mut taken: nat = 0;
    assert(rest.skip(0) =~= rest);
    assert(evs.len() == n);
    while i < n
        invariant_except_break
            n == all@.len(),
            evs == events_view(all@),
            rest == evs.skip(start as int),
            start <= i <= n,
            taken == i - start,
            events_view(page@) == rest.take(taken as int),
            page_count(rest, SDK_EVENTS_REPLY_OVERHEAD as int, max_frame_len as int, true) == taken
                + page_count(rest.skip(taken as int), body as int, max_frame_len as int, taken == 0),
            body <= max_frame_len + usize::MAX + 32,
            taken == 0 ==> body == SDK_EVENTS_REPLY_OVERHEAD,
            page@.len() == taken,
            evs.len() == n,
            rest.len() == n - start,
        ensures
            events_view(page@) == rest.take(
                page_count(rest, SDK_EVENTS_REPLY_OVERHEAD as int, max_frame_len as int, true) as int,
            ),
        decreases n - i,
    {
        let size: u128 = SDK_EVENT_HEADER as u128 + all[i].2.len() as u128;
        assert(rest.skip(taken as int)[0] == evs[i as int]);
        assert(rest.skip(taken as int).skip(1) =~= rest.skip(taken + 1int));
        if page.len() > 0 && body + size > max_frame_len as u128 {
            assert(page_count(rest.skip(taken as int), body as int, max_frame_len as int, false) == 0);
            break;
        }
        let mut payload: Vec<u8> = Vec::new();
        append(&mut payload, all[i].2.as_slice());
        let ghost before = page@;
        page.push((all[i].0, all[i].1, payload));
        body = body + size;
        proof {
            assert(page@ == before.push(page@[taken as int]));
            assert(event_view(page@[taken as int]) == evs[i as int]);
            assert(rest[taken as int] == evs[i as int]);
            assert forall|k: int| 0 <= k < taken + 1 implies events_view(page@)[k] == rest.take(
                taken + 1int,
            )[k] by {
                if k < taken {
                    assert(events_view(page@)[k] == event_view(before[k]));
                    assert(events_view(before)[k] == rest.take(taken as int)[k]);
                }
            }
            assert(events_view(page@) =~= rest.take(taken + 1int));
            taken = taken + 1;
        }
        i = i + 1;
    }
    page
}

// ---------------------------------------------------------------------------
// Terminal states and host counters.
// ---------------------------------------------------------------------------

/// What kind of crash a terminal run reports.
#[derive(Clone, Copy, Debug, PartialEq, Eq)]
pub enum CrashKind {
    /// The guest failed a debug exit with a non-zero code.
    Panic,
    /// The backend reported a shutdown.
    Shutdown,
}

/// How a run that reached a terminal state is reported at virtual time
/// `vtime`.
#[derive(Clone, Debug, PartialEq, Eq)]
pub enum TerminalStop {
    /// The guest finished cleanly.
    Quiescent { vtime: u64 },
    /// The guest crashed; `detail` says how.
    Crash { vtime: u64, kind: CrashKind, detail: Vec<u8> },
}

/// The detail of a shutdown crash.
pub open spec fn shutdown_detail() -> Seq<u8> {
    "backend shutdown exit (triple fault or guest-initiated shutdown)".spec_bytes()
}

/// Maps a terminal reason at `vns` to its report: idling or a zero debug-exit
/// code is a clean finish, a non-zero code is a panic carrying the code, and a
/// shutdown is a shutdown crash. An SDK stop is never a terminal reason here.
pub fn map_terminal(reason: TerminalReason, vns: u64) -> (r: TerminalStop)
    requires
        reason != TerminalReason::SdkStop,
    ensures
        match reason {
            TerminalReason::Idle => r == TerminalStop::Quiescent { vtime: vns },
            TerminalReason::DebugExit { code } => if code == 0 {
                r == TerminalStop::Quiescent { vtime: vns }
            } else {
                r matches TerminalStop::Crash { vtime, kind, detail } && vtime == vns && kind
                    == CrashKind::Panic && detail@ == seq![code]
            },
            TerminalReason::Shutdown => r matches TerminalStop::Crash { vtime, kind, detail }
                && vtime == vns && kind == CrashKind::Shutdown && detail@ == shutdown_detail(),
            TerminalReason::SdkStop => false,
        },
{
    match reason {
        TerminalReason::Idle => TerminalStop::Quiescent { vtime: vns },
        TerminalReason::DebugExit { code } => {
            if code == 0 {
                TerminalStop::Quiescent { vtime: vns }
            } else {
                let mut detail: Vec<u8> = Vec::new();
                detail.push(code);
                assert(detail@ =~= seq![code]);
                TerminalStop::Crash { vtime: vns, kind: CrashKind::Panic, detail }
            }
        },
        TerminalReason::Shutdown => {
            let text = "backend shutdown exit (triple fault or guest-initiated shutdown)";
            let mut detail: Vec<u8> = Vec::new();
            append(&mut detail, text.as_bytes());
            TerminalStop::Crash { vtime: vns, kind: CrashKind::Shutdown, detail }
        },
        TerminalReason::SdkStop => vstd::pervasive::unreached(),
    }
}

/// The process's cumulative minor-fault count from a `getrusage` outcome:
/// nothing when the call failed (a non-zero `status`) or the reported count is
/// negative.
pub fn host_minor_faults_from(status: i32, minor_faults: i64) -> (r: Option<u64>)
    ensures
        r == if status != 0 || minor_faults < 0 {
            None
        } else {
            Some(minor_faults as u64)
        },
{
    if status != 0 || minor_faults < 0 {
        None
    } else {
        Some(minor_faults as u64)
    }
}

} // verus!
