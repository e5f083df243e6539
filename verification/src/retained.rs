//! The durable state of one serial `exec` command: the part that must survive
//! a control-state snapshot.
//!
//! The record carries the command id, the absolute serial cursor, the captured
//! output, the scanner overlap (the stream window that could still begin a
//! sentinel, and where it starts), the truncation flag, and the completion.
//! The command text and its injected input are deliberately absent: a decoded
//! command has no input, so restoring a snapshot can never inject it twice.
//!
//! Decoding is strict: every field is bounded, tags are exact, nothing may
//! trail, and the decoded parser state must be structurally possible (see
//! [`structure_spec`]).

use vstd::prelude::*;
use vstd::bytes::spec_u64_to_le_bytes;
use vstd::string::StringSliceAdditionalSpecFns;
use crate::exec::{
    find_sentinel, first_sentinel, injected_input, lemma_decimal_len_u64, marker_for, window,
    ExecSession, MAX_CAPTURE,
};
use crate::text::{append, push_decimal};
use crate::control_state::u64_at;
use crate::wire::{put_bytes, put_u64, truncated, Reader};

verus! {

/// How a retained command has finished, if it has; moments are virtual-time
/// positions of the run.
#[derive(Clone, Copy, Debug, PartialEq, Eq)]
pub enum ExecCompletion {
    /// Still waiting for its sentinel.
    Pending,
    /// The sentinel with `status` arrived by moment `at`.
    Exited { status: u64, at: u64 },
    /// The run reached a terminal state at `at` before the sentinel.
    Aborted { at: u64 },
}

/// An observation of a retained command.
#[derive(Clone, Debug, PartialEq, Eq)]
pub struct ExecStatus {
    pub id: u64,
    pub at: u64,
    pub completion: ExecCompletion,
    pub output: Vec<u8>,
    pub truncated: bool,
}

/// The retained fields of a command, by value.
pub struct RetainedFields {
    pub id: u64,
    pub cursor: u64,
    pub capture: Seq<u8>,
    pub scan: Seq<u8>,
    pub base: int,
    pub truncated: bool,
    pub completion: ExecCompletion,
}

/// One serial `exec` command's durable parser state.
pub struct RetainedExec {
    id: u64,
    cursor: u64,
    input: Vec<u8>,
    capture: Vec<u8>,
    scan_buffer: Vec<u8>,
    scan_base: usize,
    truncated: bool,
    completion: ExecCompletion,
}

/// `HCEXEC01`.
pub open spec fn exec_magic() -> Seq<u8> {
    seq![72u8, 67u8, 69u8, 88u8, 69u8, 67u8, 48u8, 49u8]
}

/// The longest scanner overlap for command `id`: one byte short of the
/// longest sentinel its marker admits.
pub open spec fn keep(id: u64) -> int {
    window(marker_for(id)) - 1
}

/// The completion tag and its fields.
pub open spec fn completion_bytes(c: ExecCompletion) -> Seq<u8> {
    match c {
        ExecCompletion::Pending => seq![0u8],
        ExecCompletion::Exited { status, at } => seq![1u8] + spec_u64_to_le_bytes(status)
            + spec_u64_to_le_bytes(at),
        ExecCompletion::Aborted { at } => seq![2u8] + spec_u64_to_le_bytes(at),
    }
}

/// The record of the retained fields `f`.
pub open spec fn retained_record(f: RetainedFields) -> Seq<u8> {
    exec_magic() + spec_u64_to_le_bytes(f.id) + spec_u64_to_le_bytes(f.cursor)
        + spec_u64_to_le_bytes(f.capture.len() as u64) + f.capture + spec_u64_to_le_bytes(
        f.scan.len() as u64,
    ) + f.scan + spec_u64_to_le_bytes(f.base as u64) + seq![
        if f.truncated {
            1u8
        } else {
            0u8
        },
    ] + completion_bytes(f.completion)
}

/// Where a capture of `len` bytes keeps its last `k` bytes.
pub open spec fn suffix_start(len: int, k: int) -> int {
    if len > k {
        len - k
    } else {
        0
    }
}

/// Whether the retained fields describe a parser state that can occur, or the
/// first rule they break: bounded fields, a full capture when truncated, a
/// cursor at or past the captured output, and a completion that agrees with
/// the scanner. A pending command's overlap lies within the serial cursor; when
/// the capture is truncated the overlap is full and agrees with the captured
/// bytes it spans, and otherwise it is exactly the capture's tail; and it holds
/// no complete sentinel. A finished command retains no overlap.
pub open spec fn structure_spec(f: RetainedFields) -> Result<(), Seq<char>> {
    let k = keep(f.id);
    if f.capture.len() > MAX_CAPTURE {
        Err("exec capture exceeds cap"@)
    } else if f.base > MAX_CAPTURE + 1 {
        Err("exec scan base"@)
    } else if f.scan.len() > k {
        Err("exec scanner overlap exceeds bound"@)
    } else if f.truncated && f.capture.len() != MAX_CAPTURE {
        Err("truncated exec capture is not full"@)
    } else if f.cursor < f.capture.len() {
        Err("exec cursor precedes captured output"@)
    } else {
        match f.completion {
            ExecCompletion::Pending => if f.base + f.scan.len() > f.cursor {
                Err("exec scanner extends beyond serial cursor"@)
            } else if f.truncated && (f.scan.len() != k || f.base < MAX_CAPTURE + 1 - k) {
                Err("truncated exec scanner overlap is incomplete"@)
            } else if f.truncated && f.base < MAX_CAPTURE && f.scan.subrange(
                0,
                MAX_CAPTURE - f.base,
            ) != f.capture.subrange(f.base, MAX_CAPTURE as int) {
                Err("exec scanner overlap does not match capture"@)
            } else if !f.truncated && (f.base != suffix_start(f.capture.len() as int, k)
                || f.scan != f.capture.subrange(
                suffix_start(f.capture.len() as int, k),
                f.capture.len() as int,
            )) {
                Err("exec scanner overlap does not match capture"@)
            } else if first_sentinel(f.scan, marker_for(f.id), 0) is Some {
                Err("pending exec contains a complete sentinel"@)
            } else {
                Ok(())
            },
            ExecCompletion::Exited { .. } => if f.scan.len() != 0 || f.base != 0 {
                Err("completed exec retains scanner state"@)
            } else {
                Ok(())
            },
            ExecCompletion::Aborted { .. } => if f.scan.len() != 0 || f.base != 0 {
                Err("aborted exec retains scanner state"@)
            } else {
                Ok(())
            },
        }
    }
}

/// A length-prefixed field of at most `max` bytes at `q`, as the strict reader
/// reads it.
pub open spec fn bytes_field(b: Seq<u8>, q: int, max: int) -> Result<Seq<u8>, Seq<char>> {
    if q + 8 > b.len() {
        Err(truncated())
    } else {
        let len = u64_at(b, q);
        if len > usize::MAX {
            Err("exec field length"@)
        } else if len > max {
            Err("exec field exceeds bound"@)
        } else if q + 8 + len > b.len() {
            Err(truncated())
        } else {
            Ok(b.subrange(q + 8, q + 8 + len))
        }
    }
}

/// The completion whose tag is at `q`, and where the record continues.
pub open spec fn completion_field(b: Seq<u8>, q: int) -> Result<(ExecCompletion, int), Seq<char>> {
    if q >= b.len() {
        Err(truncated())
    } else if b[q] == 0 {
        Ok((ExecCompletion::Pending, q + 1))
    } else if b[q] == 1 {
        if q + 17 > b.len() {
            Err(truncated())
        } else {
            Ok((ExecCompletion::Exited { status: u64_at(b, q + 1), at: u64_at(b, q + 9) }, q + 17))
        }
    } else if b[q] == 2 {
        if q + 9 > b.len() {
            Err(truncated())
        } else {
            Ok((ExecCompletion::Aborted { at: u64_at(b, q + 1) }, q + 9))
        }
    } else {
        Err("exec completion tag"@)
    }
}

/// What strictly decoding `b` yields: the retained fields, or the first error
/// a left-to-right read meets, then trailing bytes, then the first structural
/// rule the fields break.
pub open spec fn decode_spec(b: Seq<u8>) -> Result<RetainedFields, Seq<char>> {
    if b.len() < 8 {
        Err(truncated())
    } else if b.subrange(0, 8) != exec_magic() {
        Err("exec magic"@)
    } else if b.len() < 24 {
        Err(truncated())
    } else {
        let id = u64_at(b, 8);
        let cursor = u64_at(b, 16);
        match bytes_field(b, 24, MAX_CAPTURE as int) {
            Err(e) => Err(e),
            Ok(capture) => {
                let q1: int = 32 + capture.len() as int;
                match bytes_field(b, q1, keep(id)) {
                    Err(e) => Err(e),
                    Ok(scan) => {
                        let q2: int = q1 + 8 + scan.len();
                        if q2 + 8 > b.len() {
                            Err(truncated())
                        } else if u64_at(b, q2) > MAX_CAPTURE + 1 {
                            Err("exec scan base"@)
                        } else if q2 + 8 >= b.len() {
                            Err(truncated())
                        } else if b[q2 + 8] > 1 {
                            Err("exec truncation tag"@)
                        } else {
                            match completion_field(b, q2 + 9) {
                                Err(e) => Err(e),
                                Ok((completion, end)) => if end != b.len() {
                                    Err("trailing exec state"@)
                                } else {
                                    let f = RetainedFields {
                                        id,
                                        cursor,
                                        capture,
                                        scan,
                                        base: u64_at(b, q2) as int,
                                        truncated: b[q2 + 8] == 1,
                                        completion,
                                    };
                                    match structure_spec(f) {
                                        Err(e) => Err(e),
                                        Ok(_) => Ok(f),
                                    }
                                },
                            }
                        }
                    },
                }
            },
        }
    }
}

/// Whether the fields agree with the run's endpoint: structurally possible, a
/// serial cursor within the `serial_len` bytes of output, and no completion
/// after the endpoint moment `at`.
pub open spec fn at_spec(f: RetainedFields, at: u64, serial_len: int) -> Result<(), Seq<char>> {
    match structure_spec(f) {
        Err(e) => Err(e),
        Ok(_) => if f.cursor > serial_len {
            Err("exec serial cursor exceeds output length"@)
        } else {
            match f.completion {
                ExecCompletion::Pending => Ok(()),
                ExecCompletion::Exited { at: done, .. } => if done > at {
                    Err("exec completion is after endpoint"@)
                } else {
                    Ok(())
                },
                ExecCompletion::Aborted { at: done } => if done > at {
                    Err("exec completion is after endpoint"@)
                } else {
                    Ok(())
                },
            }
        },
    }
}

/// Whether the fields agree with the VM's serial output `serial` at `at`: as
/// [`at_spec`], and for a pending command the overlap (and, unless truncated,
/// the capture) are exactly the output just before the cursor.
pub open spec fn serial_spec(f: RetainedFields, at: u64, serial: Seq<u8>) -> Result<(), Seq<char>> {
    match at_spec(f, at, serial.len() as int) {
        Err(e) => Err(e),
        Ok(_) => if f.completion == ExecCompletion::Pending {
            let end = f.cursor as int;
            if f.scan.len() > end {
                Err("exec scanner extends before serial output"@)
            } else if serial.subrange(end - f.scan.len(), end) != f.scan {
                Err("exec scanner differs from VM serial output"@)
            } else if !f.truncated && f.capture.len() > end {
                Err("exec capture extends before serial output"@)
            } else if !f.truncated && serial.subrange(end - f.capture.len(), end) != f.capture {
                Err("exec capture differs from VM serial output"@)
            } else {
                Ok(())
            }
        } else {
            Ok(())
        },
    }
}

/// A command accepted against the VM's serial output at `at` is bound to that
/// output: its fields are structurally possible, its cursor lies within the
/// output, and no completion postdates `at`; while it is pending, its scanner
/// overlap is exactly the output just before the cursor, and unless its
/// capture was truncated, so is its whole capture.
pub proof fn lemma_accepted_command_matches_the_stream(f: RetainedFields, at: u64, serial: Seq<u8>)
    requires
        serial_spec(f, at, serial) is Ok,
    ensures
        structure_spec(f) is Ok,
        f.cursor <= serial.len(),
        f.completion matches ExecCompletion::Exited { at: done, .. } ==> done <= at,
        f.completion matches ExecCompletion::Aborted { at: done } ==> done <= at,
        f.completion == ExecCompletion::Pending ==> {
            &&& f.scan.len() <= f.cursor
            &&& serial.subrange(f.cursor - f.scan.len(), f.cursor as int) == f.scan
            &&& !f.truncated ==> f.capture.len() <= f.cursor && serial.subrange(
                f.cursor - f.capture.len(),
                f.cursor as int,
            ) == f.capture
        },
{
}

/// The fields of a freshly issued command whose output starts at `cursor`.
pub open spec fn fresh_fields(id: u64, cursor: u64) -> RetainedFields {
    RetainedFields {
        id,
        cursor,
        capture: Seq::empty(),
        scan: Seq::empty(),
        base: 0,
        truncated: false,
        completion: ExecCompletion::Pending,
    }
}

/// Decoding the record of structurally possible fields yields exactly those
/// fields.
pub proof fn lemma_retained_round_trip(f: RetainedFields)
    requires
        0 <= f.base,
        structure_spec(f) is Ok,
    ensures
        decode_spec(retained_record(f)) == Ok::<RetainedFields, Seq<char>>(f),
{
    vstd::bytes::lemma_auto_spec_u64_to_from_le_bytes();
    let b = retained_record(f);
    let l1 = f.capture.len() as int;
    let l2 = f.scan.len() as int;
    let q1 = 32 + l1;
    let q2 = q1 + 8 + l2;
    let c = q2 + 9;
    assert(b.subrange(0, 8) =~= exec_magic());
    assert(b.len() >= 24);
    assert(u64_at(b, 8) == f.id) by {
        assert(b.subrange(8, 16) =~= spec_u64_to_le_bytes(f.id));
    }
    assert(u64_at(b, 16) == f.cursor) by {
        assert(b.subrange(16, 24) =~= spec_u64_to_le_bytes(f.cursor));
    }
    assert(bytes_field(b, 24, MAX_CAPTURE as int) == Ok::<Seq<u8>, Seq<char>>(f.capture)) by {
        assert(b.subrange(24, 32) =~= spec_u64_to_le_bytes(l1 as u64));
        assert(b.subrange(32, q1) =~= f.capture);
    }
    assert(f.capture.len() <= MAX_CAPTURE && f.scan.len() <= keep(f.id) && f.base <= MAX_CAPTURE
        + 1);
    assert(bytes_field(b, q1, keep(f.id)) == Ok::<Seq<u8>, Seq<char>>(f.scan)) by {
        assert(b.subrange(q1, q1 + 8) =~= spec_u64_to_le_bytes(l2 as u64));
        assert(b.subrange(q1 + 8, q2) =~= f.scan);
        lemma_decimal_len_u64(f.id as nat);
    }
    assert(u64_at(b, q2) == f.base) by {
        assert(b.subrange(q2, q2 + 8) =~= spec_u64_to_le_bytes(f.base as u64));
    }
    assert(b[q2 + 8] == (if f.truncated {
        1u8
    } else {
        0u8
    }));
    assert(completion_field(b, c) == Ok::<(ExecCompletion, int), Seq<char>>(
        (f.completion, b.len() as int),
    )) by {
        match f.completion {
            ExecCompletion::Pending => {
                assert(b[c] == 0);
            },
            ExecCompletion::Exited { status, at } => {
                assert(b[c] == 1);
                assert(b.subrange(c + 1, c + 9) =~= spec_u64_to_le_bytes(status));
                assert(b.subrange(c + 9, c + 17) =~= spec_u64_to_le_bytes(at));
            },
            ExecCompletion::Aborted { at } => {
                assert(b[c] == 2);
                assert(b.subrange(c + 1, c + 9) =~= spec_u64_to_le_bytes(at));
            },
        }
    }
}

/// A record that decodes is exactly the record of the fields it decodes to:
/// the encoding is canonical.
pub proof fn lemma_retained_canonical(b: Seq<u8>)
    requires
        decode_spec(b) is Ok,
    ensures
        retained_record(decode_spec(b)->Ok_0) == b,
{
    vstd::bytes::lemma_auto_spec_u64_to_from_le_bytes();
    let f = decode_spec(b)->Ok_0;
    let r = retained_record(f);
    let q1 = 32 + f.capture.len() as int;
    let q2 = q1 + 8 + f.scan.len() as int;
    assert(spec_u64_to_le_bytes(u64_at(b, 8)) == b.subrange(8, 16));
    assert(spec_u64_to_le_bytes(u64_at(b, 16)) == b.subrange(16, 24));
    assert(spec_u64_to_le_bytes(u64_at(b, 24)) == b.subrange(24, 32));
    assert(spec_u64_to_le_bytes(u64_at(b, q1)) == b.subrange(q1, q1 + 8));
    assert(spec_u64_to_le_bytes(u64_at(b, q2)) == b.subrange(q2, q2 + 8));
    let c = q2 + 9;
    if b[c] == 1 {
        assert(spec_u64_to_le_bytes(u64_at(b, c + 1)) == b.subrange(c + 1, c + 9));
        assert(spec_u64_to_le_bytes(u64_at(b, c + 9)) == b.subrange(c + 9, c + 17));
        assert(completion_bytes(f.completion) =~= b.subrange(c, c + 17));
    } else if b[c] == 2 {
        assert(spec_u64_to_le_bytes(u64_at(b, c + 1)) == b.subrange(c + 1, c + 9));
        assert(completion_bytes(f.completion) =~= b.subrange(c, c + 9));
    } else {
        assert(completion_bytes(f.completion) =~= b.subrange(c, c + 1));
    }
    assert(r =~= b);
}

/// A freshly issued command is structurally possible, so its record decodes
/// to it (with no input left to inject).
pub proof fn lemma_fresh_command_restores(id: u64, cursor: u64)
    ensures
        decode_spec(retained_record(fresh_fields(id, cursor))) == Ok::<RetainedFields, Seq<char>>(
            fresh_fields(id, cursor),
        ),
{
    let f = fresh_fields(id, cursor);
    assert(f.capture.subrange(0, 0) =~= f.scan);
    assert(first_sentinel(f.scan, marker_for(id), 0) is None);
    lemma_retained_round_trip(f);
}

/// The marker bytes of command `id`.
fn marker_bytes(id: u64) -> (m: Vec<u8>)
    ensures
        m@ == marker_for(id),
        m@.len() <= 26,
{
    let mut m: Vec<u8> = Vec::new();
    m.push(72u8);
    m.push(88u8);
    m.push(69u8);
    m.push(67u8);
    m.push(45u8);
    push_decimal(&mut m, id as u128);
    m.push(45u8);
    proof {
        lemma_decimal_len_u64(id as nat);
    }
    assert(m@ =~= marker_for(id));
    m
}

/// The longest scanner overlap for command `id` (see [`keep`]).
fn keep_len(id: u64) -> (k: usize)
    ensures
        k == keep(id),
        k <= 73,
{
    let m = marker_bytes(id);
    2 * m.len() + 21
}

/// Whether `a` and `b` hold the same bytes.
fn same_bytes(a: &[u8], b: &[u8]) -> (r: bool)
    ensures
        r == (a@ == b@),
{
    if a.len() != b.len() {
        return false;
    }
    let n = a.len();
    let mut i: usize = 0;
    while i < n
        invariant
            n == a@.len(),
            n == b@.len(),
            i <= n,
            forall|k: int| 0 <= k < i ==> a@[k] == b@[k],
        decreases n - i,
    {
        if a[i] != b[i] {
            return false;
        }
        i = i + 1;
    }
    assert(a@ =~= b@);
    true
}

impl RetainedExec {
    /// The retained fields.
    pub closed spec fn fields(&self) -> RetainedFields {
        RetainedFields {
            id: self.id,
            cursor: self.cursor,
            capture: self.capture@,
            scan: self.scan_buffer@,
            base: self.scan_base as int,
            truncated: self.truncated,
            completion: self.completion,
        }
    }

    /// The input still to be injected for the command.
    pub closed spec fn input_view(&self) -> Seq<u8> {
        self.input@
    }

    /// A command `cmd` with id `id`, issued when the serial output had reached
    /// `serial_len` bytes: nothing captured or scanned yet, and its input to
    /// be injected once.
    pub fn new(cmd: &str, id: u64, serial_len: usize) -> (r: Self)
        ensures
            r.fields() == fresh_fields(id, serial_len as u64),
            r.input_view() == injected_input(cmd.spec_bytes(), marker_for(id)),
    {
        let session = ExecSession::new(cmd, id);
        let mut input: Vec<u8> = Vec::new();
        append(&mut input, session.input());
        RetainedExec {
            id,
            cursor: serial_len as u64,
            input,
            capture: Vec::new(),
            scan_buffer: Vec::new(),
            scan_base: 0,
            truncated: false,
            completion: ExecCompletion::Pending,
        }
    }

    /// The bytes to inject for the command; empty for a decoded command.
    pub fn input(&self) -> (r: &[u8])
        ensures
            r@ == self.input_view(),
    {
        self.input.as_slice()
    }

    /// Whether the command still waits for its sentinel.
    pub fn is_pending(&self) -> (r: bool)
        ensures
            r == (self.fields().completion == ExecCompletion::Pending),
    {
        match self.completion {
            ExecCompletion::Pending => true,
            _ => false,
        }
    }

    /// Observes the command at `at` without changing it.
    pub fn view(&self, at: u64) -> (r: ExecStatus)
        ensures
            r.id == self.fields().id,
            r.at == at,
            r.completion == self.fields().completion,
            r.output@ == self.fields().capture,
            r.truncated == self.fields().truncated,
    {
        let mut output: Vec<u8> = Vec::new();
        append(&mut output, self.capture.as_slice());
        ExecStatus { id: self.id, at, completion: self.completion, output, truncated: self.truncated }
    }

    /// Encodes the retained fields (the input is not part of the record).
    pub fn encode(&self) -> (r: Vec<u8>)
        ensures
            r@ == retained_record(self.fields()),
    {
        let mut out: Vec<u8> = Vec::new();
        out.push(72u8);
        out.push(67u8);
        out.push(69u8);
        out.push(88u8);
        out.push(69u8);
        out.push(67u8);
        out.push(48u8);
        out.push(49u8);
        put_u64(&mut out, self.id);
        put_u64(&mut out, self.cursor);
        put_bytes(&mut out, self.capture.as_slice());
        put_bytes(&mut out, self.scan_buffer.as_slice());
        put_u64(&mut out, self.scan_base as u64);
        out.push(
            if self.truncated {
                1u8
            } else {
                0u8
            },
        );
        match self.completion {
            ExecCompletion::Pending => out.push(0u8),
            ExecCompletion::Exited { status, at } => {
                out.push(1u8);
                put_u64(&mut out, status);
                put_u64(&mut out, at);
            },
            ExecCompletion::Aborted { at } => {
                out.push(2u8);
                put_u64(&mut out, at);
            },
        }
        assert(out@ =~= retained_record(self.fields()));
        out
    }
    /// Checks that the retained fields are structurally possible (see
    /// [`structure_spec`]).
    pub fn validate_structure(&self) -> (r: Result<(), &'static str>)
        ensures
            match structure_spec(self.fields()) {
                Ok(_) => r is Ok,
                Err(m) => r matches Err(e) && e@ == m,
            },
    {
        let k = keep_len(self.id);
        if self.capture.len() > MAX_CAPTURE {
            return Err("exec capture exceeds cap");
        }
        if self.scan_base > MAX_CAPTURE + 1 {
            return Err("exec scan base");
        }
        if self.scan_buffer.len() > k {
            return Err("exec scanner overlap exceeds bound");
        }
        if self.truncated && self.capture.len() != MAX_CAPTURE {
            return Err("truncated exec capture is not full");
        }
        if self.cursor < self.capture.len() as u64 {
            return Err("exec cursor precedes captured output");
        }
        match self.completion {
            ExecCompletion::Pending => {
                let scanned_end = self.scan_base + self.scan_buffer.len();
                if scanned_end as u64 > self.cursor {
                    return Err("exec scanner extends beyond serial cursor");
                }
                if self.truncated {
                    if self.scan_buffer.len() != k || self.scan_base < MAX_CAPTURE + 1 - k {
                        return Err("truncated exec scanner overlap is incomplete");
                    }
                    let overlap = if self.scan_base < MAX_CAPTURE {
                        MAX_CAPTURE - self.scan_base
                    } else {
                        0
                    };
                    if overlap > 0 && !same_bytes(
                        vstd::slice::slice_subrange(self.scan_buffer.as_slice(), 0, overlap),
                        vstd::slice::slice_subrange(self.capture.as_slice(), self.scan_base, MAX_CAPTURE),
                    ) {
                        return Err("exec scanner overlap does not match capture");
                    }
                } else {
                    let n = self.capture.len();
                    let suffix = if n > k {
                        n - k
                    } else {
                        0
                    };
                    if self.scan_base != suffix || !same_bytes(
                        self.scan_buffer.as_slice(),
                        vstd::slice::slice_subrange(self.capture.as_slice(), suffix, n),
                    ) {
                        return Err("exec scanner overlap does not match capture");
                    }
                }
                let m = marker_bytes(self.id);
                if find_sentinel(self.scan_buffer.as_slice(), m.as_slice(), 0).is_some() {
                    return Err("pending exec contains a complete sentinel");
                }
            },
            ExecCompletion::Exited { .. } => {
                if self.scan_buffer.len() != 0 || self.scan_base != 0 {
                    return Err("completed exec retains scanner state");
                }
            },
            ExecCompletion::Aborted { .. } => {
                if self.scan_buffer.len() != 0 || self.scan_base != 0 {
                    return Err("aborted exec retains scanner state");
                }
            },
        }
        Ok(())
    }

    /// Checks the retained fields against the run's endpoint (see
    /// [`at_spec`]).
    pub fn validate_at(&self, at: u64, serial_len: usize) -> (r: Result<(), &'static str>)
        ensures
            match at_spec(self.fields(), at, serial_len as int) {
                Ok(_) => r is Ok,
                Err(m) => r matches Err(e) && e@ == m,
            },
    {
        self.validate_structure()?;
        if self.cursor > serial_len as u64 {
            return Err("exec serial cursor exceeds output length");
        }
        match self.completion {
            ExecCompletion::Pending => {},
            ExecCompletion::Exited { at: done, .. } | ExecCompletion::Aborted { at: done } => {
                if done > at {
                    return Err("exec completion is after endpoint");
                }
            },
        }
        Ok(())
    }

    /// Binds the retained parser to the VM serial stream that will supply its
    /// future bytes (see [`serial_spec`]).
    pub fn validate_serial(&self, at: u64, serial: &[u8]) -> (r: Result<(), &'static str>)
        ensures
            match serial_spec(self.fields(), at, serial@) {
                Ok(_) => r is Ok,
                Err(m) => r matches Err(e) && e@ == m,
            },
    {
        self.validate_at(at, serial.len())?;
        if self.is_pending() {
            let end = self.cursor as usize;
            if self.scan_buffer.len() > end {
                return Err("exec scanner extends before serial output");
            }
            let start = end - self.scan_buffer.len();
            if !same_bytes(vstd::slice::slice_subrange(serial, start, end), self.scan_buffer.as_slice()) {
                return Err("exec scanner differs from VM serial output");
            }
            if !self.truncated {
                if self.capture.len() > end {
                    return Err("exec capture extends before serial output");
                }
                let start = end - self.capture.len();
                if !same_bytes(vstd::slice::slice_subrange(serial, start, end), self.capture.as_slice()) {
                    return Err("exec capture differs from VM serial output");
                }
            }
        }
        Ok(())
    }

    /// Strictly decodes a retained record (see [`decode_spec`]); the decoded
    /// command has no input to inject.
    pub fn decode(bytes: &[u8]) -> (r: Result<Self, &'static str>)
        ensures
            match decode_spec(bytes@) {
                Ok(f) => r matches Ok(x) && x.fields() == f && x.input_view() == Seq::<u8>::empty(),
                Err(m) => r matches Err(e) && e@ == m,
            },
    {
        let ghost b = bytes@;
        let mut reader = Reader::new(bytes);
        let head = reader.take(8)?;
        if !(head[0] == 72u8 && head[1] == 67u8 && head[2] == 69u8 && head[3] == 88u8 && head[4]
            == 69u8 && head[5] == 67u8 && head[6] == 48u8 && head[7] == 49u8) {
            proof {
                if b.subrange(0, 8) == exec_magic() {
                    assert(head@[0] == b.subrange(0, 8)[0]);
                    assert(head@[1] == b.subrange(0, 8)[1]);
                    assert(head@[2] == b.subrange(0, 8)[2]);
                    assert(head@[3] == b.subrange(0, 8)[3]);
                    assert(head@[4] == b.subrange(0, 8)[4]);
                    assert(head@[5] == b.subrange(0, 8)[5]);
                    assert(head@[6] == b.subrange(0, 8)[6]);
                    assert(head@[7] == b.subrange(0, 8)[7]);
                }
            }
            return Err("exec magic");
        }
        assert(b.subrange(0, 8) =~= exec_magic());
        let id = reader.u64()?;
        let cursor = reader.u64()?;
        let capture = reader.bytes(MAX_CAPTURE)?;
        let k = keep_len(id);
        let scan_buffer = reader.bytes(k)?;
        let base_raw = reader.u64()?;
        if base_raw > (MAX_CAPTURE + 1) as u64 {
            return Err("exec scan base");
        }
        let scan_base = base_raw as usize;
        let t = reader.byte()?;
        let truncated = if t == 0u8 {
            false
        } else if t == 1u8 {
            true
        } else {
            return Err("exec truncation tag");
        };
        let c = reader.byte()?;
        let completion = if c == 0u8 {
            ExecCompletion::Pending
        } else if c == 1u8 {
            let status = reader.u64()?;
            let at = reader.u64()?;
            ExecCompletion::Exited { status, at }
        } else if c == 2u8 {
            let at = reader.u64()?;
            ExecCompletion::Aborted { at }
        } else {
            return Err("exec completion tag");
        };
        if !reader.empty() {
            return Err("trailing exec state");
        }
        let retained = RetainedExec {
            id,
            cursor,
            input: Vec::new(),
            capture,
            scan_buffer,
            scan_base,
            truncated,
            completion,
        };
        retained.validate_structure()?;
        Ok(retained)
    }
}

} // verus!
