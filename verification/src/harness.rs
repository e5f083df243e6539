//! Logic of the live boot, benchmark, and liveness harnesses: serial-marker
//! detection, exit-accounting audits, argument parsing, and renderings.

use vstd::prelude::*;
use vstd::string::{StringExecFns, StringSliceAdditionalSpecFns};
use crate::exec::{find, occurs_at};
use crate::digest::{sha256, sha256_spec};
use crate::wire::put_u64;
use vstd::bytes::{spec_u32_to_le_bytes, spec_u64_to_le_bytes, u32_to_le_bytes};
use crate::hostassert::decimal_chars;
use crate::numparse::{from_str_radix_spec, parse_radix};
use crate::text::{
    all_ascii, append, ascii_chars, ascii_string, chars_of, decimal, hex, lemma_decimal_ascii, lemma_hex_ascii, lit,
    push_decimal, push_hex_padded, zero_pad,
};

verus! {

broadcast use vstd::string::group_string_axioms;

// ---------------------------------------------------------------------------
// Renderings.
// ---------------------------------------------------------------------------

/// Each byte as two lower-case hexadecimal digits, in order.
pub open spec fn hex_bytes(s: Seq<u8>) -> Seq<u8>
    decreases s.len(),
{
    if s.len() == 0 {
        Seq::empty()
    } else {
        hex_bytes(s.drop_last()) + zero_pad(hex(s.last() as nat), 2)
    }
}

/// The hexadecimal rendering of bytes is ASCII.
pub proof fn lemma_hex_bytes_ascii(s: Seq<u8>)
    ensures
        all_ascii(hex_bytes(s)),
    decreases s.len(),
{
    if s.len() > 0 {
        lemma_hex_bytes_ascii(s.drop_last());
        lemma_hex_ascii(s.last() as nat);
        assert(all_ascii(zero_pad(hex(s.last() as nat), 2)));
    }
}

/// Lower-case hexadecimal of `bytes`, two digits per byte.
pub fn hex_string(bytes: &[u8]) -> (s: String)
    ensures
        s@ == ascii_chars(hex_bytes(bytes@)),
{
    let mut out: Vec<u8> = Vec::new();
    let n = bytes.len();
    let mut i: usize = 0;
    while i < n
        invariant
            n == bytes@.len(),
            i <= n,
            out@ == hex_bytes(bytes@.subrange(0, i as int)),
        decreases n - i,
    {
        push_hex_padded(&mut out, bytes[i] as u128, 2);
        i = i + 1;
        assert(bytes@.subrange(0, i as int).drop_last() =~= bytes@.subrange(0, i - 1));
    }
    assert(bytes@.subrange(0, n as int) =~= bytes@);
    proof {
        lemma_hex_bytes_ascii(bytes@);
    }
    ascii_string(out)
}

/// `whole.millis` rendering of a nanosecond count in microseconds.
pub open spec fn micros_bytes(ns: nat) -> Seq<u8> {
    decimal(ns / 1000) + seq![46u8] + zero_pad(decimal(ns % 1000), 3)
}

/// Renders nanoseconds as microseconds with three decimals.
pub fn format_micros(nanoseconds: u128) -> (s: String)
    ensures
        s@ == ascii_chars(micros_bytes(nanoseconds as nat)),
{
    let mut out: Vec<u8> = Vec::new();
    push_decimal(&mut out, nanoseconds / 1000);
    out.push(46u8);
    let frac = nanoseconds % 1000;
    let mut digits: Vec<u8> = Vec::new();
    push_decimal(&mut digits, frac);
    proof {
        reveal_with_fuel(crate::exec::pow10, 4);
        crate::exec::lemma_decimal_len_bound(frac as nat, 3);
    }
    let mut k = digits.len();
    let ghost mid = out@;
    while k < 3
        invariant
            digits@ == decimal(frac as nat),
            digits@.len() <= k <= 3,
            out@ == mid + Seq::new((k - digits@.len()) as nat, |i: int| 48u8),
        decreases 3 - k,
    {
        out.push(48u8);
        k = k + 1;
        assert(out@ =~= mid + Seq::new((k - digits@.len()) as nat, |i: int| 48u8));
    }
    crate::text::append(&mut out, digits.as_slice());
    proof {
        lemma_decimal_ascii((nanoseconds / 1000) as nat);
        lemma_decimal_ascii(frac as nat);
        if digits@.len() >= 3 {
            assert(Seq::new((k - digits@.len()) as nat, |i: int| 48u8) =~= Seq::<u8>::empty());
        }
    }
    assert(out@ =~= micros_bytes(nanoseconds as nat));
    ascii_string(out)
}

// ---------------------------------------------------------------------------
// Serial markers.
// ---------------------------------------------------------------------------

/// Whether `needle` occurs anywhere in `haystack`.
pub open spec fn contains_spec(haystack: Seq<u8>, needle: Seq<u8>) -> bool {
    exists|p: int| occurs_at(haystack, needle, p)
}

/// Whether the non-empty `needle` occurs in `haystack`.
pub fn contains(haystack: &[u8], needle: &[u8]) -> (r: bool)
    requires
        needle@.len() > 0,
    ensures
        r == contains_spec(haystack@, needle@),
{
    find(haystack, needle).is_some()
}

/// Whether `ready` occurs at `p` inside the complete line that ends with the
/// newline at `q`.
pub open spec fn ready_in_line(serial: Seq<u8>, ready: Seq<u8>, p: int, q: int) -> bool {
    &&& occurs_at(serial, ready, p)
    &&& p <= q < serial.len()
    &&& p + ready.len() <= q + 1
    &&& serial[q] == 10u8
    &&& forall|k: int| p <= k < q ==> serial[k] != 10u8
}

/// Whether `ready` occurs within some newline-terminated line of `serial`.
pub open spec fn complete_ready_line(serial: Seq<u8>, ready: Seq<u8>) -> bool {
    exists|p: int, q: int| ready_in_line(serial, ready, p, q)
}

/// Whether `ready` appears inside a complete (newline-terminated) serial line.
pub fn contains_complete_ready_line(serial: &[u8], ready: &[u8]) -> (r: bool)
    requires
        ready@.len() > 0 || !serial@.contains(10u8),
    ensures
        r == complete_ready_line(serial@, ready@),
{
    let n = serial.len();
    let mut line_start: usize = 0;
    let mut i: usize = 0;
    while i < n
        invariant
            n == serial@.len(),
            line_start <= i <= n,
            ready@.len() > 0 || !serial@.contains(10u8),
            line_start == 0 || serial@[line_start - 1] == 10u8,
            forall|k: int| line_start <= k < i ==> serial@[k] != 10u8,
            forall|p: int, q: int| q < i ==> !ready_in_line(serial@, ready@, p, q),
        decreases n - i,
    {
        if serial[i] == 10u8 {
            proof {
                if ready@.len() == 0 {
                    assert(serial@[i as int] == 10u8);
                    assert(serial@.contains(10u8));
                }
            }
            let line = vstd::slice::slice_subrange(serial, line_start, i + 1);
            if let Some(j) = find(line, ready) {
                proof {
                    assert(line@.subrange(j as int, j + ready@.len()) =~= serial@.subrange(
                        line_start + j,
                        line_start + j + ready@.len(),
                    ));
                    assert(ready_in_line(serial@, ready@, line_start + j, i as int));
                }
                return true;
            }
            proof {
                assert forall|p: int, q: int| q < i + 1 implies !ready_in_line(
                    serial@,
                    ready@,
                    p,
                    q,
                ) by {
                    if q == i && ready_in_line(serial@, ready@, p, q) {
                        if p < line_start {
                            assert(serial@[line_start - 1] == 10u8);
                        }
                        assert(line@.subrange(p - line_start, p - line_start + ready@.len())
                            =~= serial@.subrange(p, p + ready@.len()));
                        assert(occurs_at(line@, ready@, p - line_start));
                    }
                }
            }
            line_start = i + 1;
        }
        i = i + 1;
    }
    false
}

// ---------------------------------------------------------------------------
// Exit accounting.
// ---------------------------------------------------------------------------

/// One raw exit of the live trace: its ordinal and, when it is portable, its
/// ordinal among the portable events.
#[derive(Clone, Copy, Debug, PartialEq, Eq)]
pub struct RawEvent {
    pub event_index: u64,
    pub portable_event_index: Option<u64>,
}

/// The partition of raw exits into portable and substrate-private ones.
#[derive(Clone, Copy, Debug, PartialEq, Eq)]
pub struct ExitAccounting {
    pub raw: u64,
    pub portable: u64,
    pub substrate_private: u64,
}

/// Where the per-exit audit of a prefix stopped.
pub enum AuditStop {
    /// The raw exit at `position` carries ordinal `got`.
    Ordinal { position: nat, got: u64 },
    /// The raw exit at `position` claims portable ordinal `got` where
    /// `expected` was next.
    Portable { position: nat, expected: nat, got: u64 },
}

/// The audit of the first `k` raw exits: the portable and private counts, or
/// where it stopped.
pub open spec fn audit_prefix(raw: Seq<RawEvent>, k: int) -> Result<(nat, nat), AuditStop>
    decreases k,
{
    if k <= 0 {
        Ok((0, 0))
    } else {
        match audit_prefix(raw, k - 1) {
            Err(e) => Err(e),
            Ok((p, s)) => {
                let ev = raw[k - 1];
                if ev.event_index != k - 1 {
                    Err(AuditStop::Ordinal { position: (k - 1) as nat, got: ev.event_index })
                } else {
                    match ev.portable_event_index {
                        Some(i) => if i == p {
                            Ok(((p + 1) as nat, s))
                        } else {
                            Err(AuditStop::Portable { position: (k - 1) as nat, expected: p, got: i })
                        },
                        None => Ok((p, (s + 1) as nat)),
                    }
                }
            },
        }
    }
}

/// Exit accounting: the event-loop count must equal the raw trace length,
/// every raw exit must carry its position and (if portable) the next portable
/// ordinal, and the portable count must equal the normalized trace length.
pub open spec fn audit_spec(event_loop: u64, raw: Seq<RawEvent>, normalized: nat) -> Result<
    ExitAccounting,
    Seq<char>,
> {
    let n = raw.len();
    if event_loop != n {
        Err(
            "event loop/raw trace mismatch: event loop "@ + decimal_chars(event_loop as nat)
                + ", raw trace "@ + decimal_chars(n),
        )
    } else {
        match audit_prefix(raw, n as int) {
            Err(AuditStop::Ordinal { position, got }) => Err(
                "raw exit ordinal mismatch at position "@ + decimal_chars(position) + ": got "@
                    + decimal_chars(got as nat),
            ),
            Err(AuditStop::Portable { position, expected, got }) => Err(
                "portable exit ordinal mismatch at raw "@ + decimal_chars(position) + ": expected "@
                    + decimal_chars(expected) + ", got "@ + decimal_chars(got as nat),
            ),
            Ok((p, s)) => if p != normalized {
                Err(
                    "raw disposition/normalized trace mismatch: "@ + decimal_chars(p)
                        + " portable dispositions, "@ + decimal_chars(normalized)
                        + " normalized events"@,
                )
            } else {
                Ok(ExitAccounting { raw: n as u64, portable: p as u64, substrate_private: s as u64 })
            },
        }
    }
}

/// A passing audit of the first `k` exits counts each of them exactly once.
pub proof fn lemma_audit_prefix_counts(raw: Seq<RawEvent>, k: int)
    requires
        0 <= k,
    ensures
        audit_prefix(raw, k) matches Ok((p, s)) ==> p + s == k,
    decreases k,
{
    if k > 0 {
        lemma_audit_prefix_counts(raw, k - 1);
    }
}

proof fn lemma_audit_prefix_ordinals(raw: Seq<RawEvent>, k: int)
    requires
        0 <= k <= raw.len(),
        audit_prefix(raw, k) is Ok,
    ensures
        forall|i: int| 0 <= i < k ==> #[trigger] raw[i].event_index == i,
    decreases k,
{
    if k > 0 {
        assert(audit_prefix(raw, k - 1) is Ok);
        lemma_audit_prefix_ordinals(raw, k - 1);
    }
}

/// A passing audit partitions the raw trace: the raw count is the event
/// loop's and the trace's length, every raw exit carries its own position as
/// its ordinal, each is counted exactly once as portable or substrate-private,
/// and the portable count is the normalized trace's length.
pub proof fn lemma_passing_audit_partitions(event_loop: u64, raw: Seq<RawEvent>, normalized: nat)
    requires
        audit_spec(event_loop, raw, normalized) is Ok,
    ensures
        ({
            let a = audit_spec(event_loop, raw, normalized)->Ok_0;
            &&& a.raw == raw.len()
            &&& a.raw == event_loop
            &&& a.portable == normalized
            &&& a.portable + a.substrate_private == a.raw
            &&& forall|i: int| 0 <= i < raw.len() ==> #[trigger] raw[i].event_index == i
        }),
{
    lemma_audit_prefix_counts(raw, raw.len() as int);
    lemma_audit_prefix_ordinals(raw, raw.len() as int);
}

fn decimal_string(v: u64) -> (s: String)
    ensures
        s@ == decimal_chars(v as nat),
{
    let mut out: Vec<u8> = Vec::new();
    push_decimal(&mut out, v as u128);
    proof {
        lemma_decimal_ascii(v as nat);
    }
    assert(out@ =~= decimal(v as nat));
    ascii_string(out)
}

/// Audits that the raw exit trace is partitioned exactly into portable and
/// substrate-private exits and agrees with the event loop and the normalized
/// trace (see [`audit_spec`]).
pub fn audit_exit_accounting(event_loop: u64, raw: &[RawEvent], normalized_len: usize) -> (r:
    Result<ExitAccounting, String>)
    ensures
        match audit_spec(event_loop, raw@, normalized_len as nat) {
            Ok(a) => r == Ok::<ExitAccounting, String>(a),
            Err(m) => r matches Err(e) && e@ == m,
        },
{
    let raw_count = raw.len() as u64;
    if event_loop != raw_count {
        let mut m = lit("event loop/raw trace mismatch: event loop ");
        let a = decimal_string(event_loop);
        m.append(a.as_str());
        m.append(", raw trace ");
        let b = decimal_string(raw_count);
        m.append(b.as_str());
        return Err(m);
    }
    let mut portable: u64 = 0;
    let mut private: u64 = 0;
    let n = raw.len();
    let mut position: usize = 0;
    while position < n
        invariant
            n == raw@.len(),
            event_loop == n,
            position <= n,
            audit_prefix(raw@, position as int) == Ok::<(nat, nat), AuditStop>(
                (portable as nat, private as nat),
            ),
            portable + private == position,
        decreases n - position,
    {
        let event = raw[position];
        let expected_raw = position as u64;
        if event.event_index != expected_raw {
            let mut m = lit("raw exit ordinal mismatch at position ");
            let a = decimal_string(expected_raw);
            m.append(a.as_str());
            m.append(": got ");
            let b = decimal_string(event.event_index);
            m.append(b.as_str());
            proof {
                lemma_audit_rest_err(raw@, (position + 1) as int);
            }
            return Err(m);
        }
        match event.portable_event_index {
            Some(index) => {
                if index == portable {
                    portable = portable + 1;
                } else {
                    let mut m = lit("portable exit ordinal mismatch at raw ");
                    let a = decimal_string(expected_raw);
                    m.append(a.as_str());
                    m.append(": expected ");
                    let b = decimal_string(portable);
                    m.append(b.as_str());
                    m.append(", got ");
                    let c = decimal_string(index);
                    m.append(c.as_str());
                    proof {
                        lemma_audit_rest_err(raw@, (position + 1) as int);
                    }
                    return Err(m);
                }
            },
            None => {
                private = private + 1;
            },
        }
        position = position + 1;
    }
    if portable + private != raw_count {
        return Err(lit("raw dispositions do not partition the raw trace"));
    }
    let normalized = normalized_len as u64;
    if portable != normalized {
        let mut m = lit("raw disposition/normalized trace mismatch: ");
        let a = decimal_string(portable);
        m.append(a.as_str());
        m.append(" portable dispositions, ");
        let b = decimal_string(normalized);
        m.append(b.as_str());
        m.append(" normalized events");
        return Err(m);
    }
    Ok(ExitAccounting { raw: raw_count, portable, substrate_private: private })
}

/// Once the audit of a prefix stops, every longer prefix stops at the same
/// place.
pub proof fn lemma_audit_rest_err(raw: Seq<RawEvent>, k: int)
    requires
        0 <= k <= raw.len(),
        audit_prefix(raw, k) is Err,
    ensures
        audit_prefix(raw, raw.len() as int) == audit_prefix(raw, k),
    decreases raw.len() - k,
{
    if k < raw.len() {
        assert(audit_prefix(raw, k + 1) == audit_prefix(raw, k));
        lemma_audit_rest_err(raw, k + 1);
    }
}

/// Records the virtual time of a portable event's boundary and returns its
/// portable ordinal; a substrate-private event records nothing.
pub fn record_pvclock_boundary(event: &RawEvent, vns: u64, values: &mut Vec<u64>) -> (r: Option<
    u64,
>)
    ensures
        r == event.portable_event_index,
        final(values)@ == match event.portable_event_index {
            Some(_) => old(values)@.push(vns),
            None => old(values)@,
        },
{
    let portable = match event.portable_event_index {
        Some(p) => p,
        None => return None,
    };
    values.push(vns);
    Some(portable)
}

/// A placement-schedule violation of the live virtual-time trace.
#[derive(Clone, Copy, Debug, PartialEq, Eq)]
pub enum PlacementViolation {
    /// The event at `position` carries the wrong ordinal.
    BadEventIndex { position: u64, event_index: u64 },
    /// Virtual time went backwards at `event_index`.
    VtimeRegressed { event_index: u64, previous_vns: u64, vns: u64 },
    /// An interrupt was delivered at the wrong event.
    WrongDelivery { event_index: u64, interrupt_id: u32 },
    /// A scheduled interrupt was never delivered.
    Undelivered { schedule_index: u64 },
}

/// The event a violation is pinned to, if any.
pub fn placement_event(error: &PlacementViolation) -> (r: Option<u64>)
    ensures
        r == match *error {
            PlacementViolation::BadEventIndex { position, .. } => Some(position),
            PlacementViolation::VtimeRegressed { event_index, .. } => Some(event_index),
            PlacementViolation::WrongDelivery { event_index, .. } => Some(event_index),
            PlacementViolation::Undelivered { .. } => None::<u64>,
        },
{
    match error {
        PlacementViolation::BadEventIndex { position, .. } => Some(*position),
        PlacementViolation::VtimeRegressed { event_index, .. } | PlacementViolation::WrongDelivery {
            event_index,
            ..
        } => Some(*event_index),
        PlacementViolation::Undelivered { .. } => None,
    }
}

// ---------------------------------------------------------------------------
// Arguments.
// ---------------------------------------------------------------------------

/// What `parse_u64` reads `value` as: base 16 after an `0x` prefix, else
/// base 10.
pub open spec fn parse_u64_spec(value: Seq<char>, name: Seq<char>) -> Result<u64, Seq<char>> {
    let hexed = value.len() >= 2 && value[0] == '0' && value[1] == 'x';
    let digits = if hexed {
        value.skip(2)
    } else {
        value
    };
    if digits.len() == 0 {
        Err(name + " must be a non-empty integer"@)
    } else {
        match from_str_radix_spec(digits, if hexed {
            16
        } else {
            10
        }) {
            Some(v) => Ok(v),
            None => Err(name + " must be an integer: "@ + value),
        }
    }
}

/// Parses a decimal or `0x`-prefixed hexadecimal command-line integer named
/// `name`.
pub fn parse_u64(value: &str, name: &str) -> (r: Result<u64, String>)
    ensures
        match parse_u64_spec(value@, name@) {
            Ok(v) => r == Ok::<u64, String>(v),
            Err(m) => r matches Err(e) && e@ == m,
        },
{
    let c = chars_of(value);
    let n = c.len();
    let hexed = n >= 2 && c[0] == '0' && c[1] == 'x';
    let (radix, start): (u64, usize) = if hexed {
        (16, 2)
    } else {
        (10, 0)
    };
    assert(c@.subrange(start as int, n as int) =~= if hexed {
        value@.skip(2)
    } else {
        value@
    });
    if start == n {
        let mut m = lit(name);
        m.append(" must be a non-empty integer");
        return Err(m);
    }
    match parse_radix(c.as_slice(), start, n, radix) {
        Some(v) => Ok(v),
        None => {
            let mut m = lit(name);
            m.append(" must be an integer: ");
            m.append(value);
            Err(m)
        },
    }
}

/// The bytes a source-commit token may hold: ASCII letters and digits and
/// `-`, `_`, `.`, `/`.
pub open spec fn token_byte(b: u8) -> bool {
    ||| 48 <= b <= 57
    ||| 65 <= b <= 90
    ||| 97 <= b <= 122
    ||| b == 45 || b == 95 || b == 46 || b == 47
}

/// The longest accepted source-commit token, in bytes.
pub const MAX_SOURCE_COMMIT_LEN: usize = 128;

/// Whether `b` is an acceptable source-commit token.
pub open spec fn source_commit_ok(b: Seq<u8>) -> bool {
    b.len() > 0 && b.len() <= MAX_SOURCE_COMMIT_LEN && forall|i: int|
        0 <= i < b.len() ==> token_byte(#[trigger] b[i])
}

pub open spec fn source_commit_error() -> Seq<char> {
    "source_commit must be one non-empty safe token (ASCII letters, digits, and -_./)"@
}

/// Accepts a source-commit token: non-empty, at most 128 bytes, made only of
/// ASCII letters, digits, and `-_./`.
pub fn parse_source_commit(value: &str) -> (r: Result<String, String>)
    ensures
        if source_commit_ok(value.spec_bytes()) {
            r matches Ok(s) && s@ == value@
        } else {
            r matches Err(e) && e@ == source_commit_error()
        },
{
    let b = value.as_bytes();
    let n = b.len();
    let mut ok = n > 0 && n <= MAX_SOURCE_COMMIT_LEN;
    let mut i: usize = 0;
    while ok && i < n
        invariant
            n == b@.len(),
            b@ == value.spec_bytes(),
            i <= n,
            ok ==> forall|k: int| 0 <= k < i ==> token_byte(#[trigger] b@[k]),
            ok ==> n > 0 && n <= MAX_SOURCE_COMMIT_LEN,
            !ok ==> !(n > 0 && n <= MAX_SOURCE_COMMIT_LEN && forall|k: int|
                0 <= k < n ==> token_byte(#[trigger] b@[k])),
        decreases n - i,
    {
        let c = b[i];
        if !((48u8 <= c && c <= 57u8) || (65u8 <= c && c <= 90u8) || (97u8 <= c && c <= 122u8)
            || c == 45u8 || c == 95u8 || c == 46u8 || c == 47u8) {
            ok = false;
        }
        i = i + 1;
    }
    if ok {
        Ok(value.to_string())
    } else {
        Err(lit("source_commit must be one non-empty safe token (ASCII letters, digits, and -_./)"))
    }
}

/// The iteration count when none is given.
pub const DEFAULT_ITERATIONS: u64 = 1000;

/// The seed when none is given.
pub const DEFAULT_SEED: u64 = 0;

pub open spec fn bench_usage() -> Seq<char> {
    "usage: kvm_arm64_doorbell_bench [iterations] [seed|0xseed] [source_commit]"@
}

/// What the benchmark's positional arguments `[iterations] [seed]
/// [source_commit]` (after the program name) select, or the first error:
/// iterations default to 1000 and must be positive, the seed defaults to 0,
/// the source commit defaults to `builtin`, and nothing may follow them.
pub open spec fn bench_arguments_spec(args: Seq<&str>) -> Result<(u64, u64, Seq<char>), Seq<char>> {
    let iterations: Result<u64, Seq<char>> = if args.len() >= 1 {
        match parse_u64_spec(args[0]@, "iterations"@) {
            Ok(v) => if v == 0 {
                Err("iterations must be positive"@)
            } else {
                Ok(v)
            },
            Err(e) => Err(e),
        }
    } else {
        Ok(DEFAULT_ITERATIONS)
    };
    match iterations {
        Err(e) => Err(e),
        Ok(iterations) => {
            let seed: Result<u64, Seq<char>> = if args.len() >= 2 {
                parse_u64_spec(args[1]@, "seed"@)
            } else {
                Ok(DEFAULT_SEED)
            };
            match seed {
                Err(e) => Err(e),
                Ok(seed) => if args.len() >= 3 && !source_commit_ok(args[2].spec_bytes()) {
                    Err(source_commit_error())
                } else if args.len() > 3 {
                    Err(bench_usage())
                } else {
                    Ok(
                        (
                            iterations,
                            seed,
                            if args.len() >= 3 {
                                args[2]@
                            } else {
                                "builtin"@
                            },
                        ),
                    )
                },
            }
        },
    }
}

/// Parses the benchmark's positional arguments (see [`bench_arguments_spec`]).
pub fn bench_arguments(args: &[&str]) -> (r: Result<(u64, u64, String), String>)
    ensures
        match bench_arguments_spec(args@) {
            Ok((i, s, c)) => r matches Ok(v) && v.0 == i && v.1 == s && v.2@ == c,
            Err(m) => r matches Err(e) && e@ == m,
        },
{
    let iterations = if args.len() >= 1 {
        let v = parse_u64(args[0], "iterations")?;
        if v == 0 {
            return Err(lit("iterations must be positive"));
        }
        v
    } else {
        DEFAULT_ITERATIONS
    };
    let seed = if args.len() >= 2 {
        parse_u64(args[1], "seed")?
    } else {
        DEFAULT_SEED
    };
    let source_commit = if args.len() >= 3 {
        parse_source_commit(args[2])?
    } else {
        lit("builtin")
    };
    if args.len() > 3 {
        return Err(lit("usage: kvm_arm64_doorbell_bench [iterations] [seed|0xseed] [source_commit]"));
    }
    Ok((iterations, seed, source_commit))
}

// ---------------------------------------------------------------------------
// The doorbell benchmark's guest and result guard.
// ---------------------------------------------------------------------------

/// The value the benchmark guest writes to the doorbell.
pub const DOORBELL_VALUE: u32 = 0;

/// The benchmark guest's code: `movz x0, #0x0a00, lsl #16` (the doorbell
/// address), `mov w1, #0`, `str w1, [x0]`, and `b #-4` back to the store.
pub open spec fn doorbell_words() -> Seq<u32> {
    seq![0xd2a1_4000u32, 0x5280_0001u32, 0xb900_0001u32, 0x17ff_ffffu32]
}

/// The little-endian encodings of `words`, in order.
pub open spec fn words_le(words: Seq<u32>) -> Seq<u8>
    decreases words.len(),
{
    if words.len() == 0 {
        Seq::empty()
    } else {
        words_le(words.drop_last()) + spec_u32_to_le_bytes(words.last())
    }
}

/// The benchmark guest's code bytes (see [`doorbell_words`]).
pub fn doorbell_code() -> (r: Vec<u8>)
    ensures
        r@ == words_le(doorbell_words()),
{
    let words: [u32; 4] = [0xd2a1_4000u32, 0x5280_0001u32, 0xb900_0001u32, 0x17ff_ffffu32];
    assert(words@ =~= doorbell_words());
    let mut code: Vec<u8> = Vec::new();
    let mut i: usize = 0;
    while i < 4
        invariant
            i <= 4,
            words@ == doorbell_words(),
            code@ == words_le(words@.subrange(0, i as int)),
        decreases 4 - i,
    {
        let b = u32_to_le_bytes(words[i]);
        append(&mut code, b.as_slice());
        i = i + 1;
        assert(words@.subrange(0, i as int).drop_last() =~= words@.subrange(0, i - 1));
    }
    assert(words@.subrange(0, 4) =~= words@);
    code
}

/// The benchmark guard's domain tag, `harmony-arm64-doorbell-bench-v1` and a
/// NUL.
pub open spec fn bench_guard_tag() -> Seq<u8> {
    "harmony-arm64-doorbell-bench-v1\0".spec_bytes()
}

/// The benchmark guard preimage: the tag, the seed, the iteration count, the
/// source commit (length-prefixed), the doorbell exit count, the doorbell
/// address, the doorbell value, and the guest image.
pub open spec fn bench_guard_preimage(
    seed: u64,
    iterations: u64,
    source_commit: Seq<u8>,
    doorbell_exits: u64,
    doorbell_gpa: u64,
    image: Seq<u8>,
) -> Seq<u8> {
    bench_guard_tag() + spec_u64_to_le_bytes(seed) + spec_u64_to_le_bytes(iterations)
        + spec_u64_to_le_bytes(source_commit.len() as u64) + source_commit + spec_u64_to_le_bytes(
        doorbell_exits,
    ) + spec_u64_to_le_bytes(doorbell_gpa) + spec_u32_to_le_bytes(DOORBELL_VALUE) + image
}

/// The digest that binds a benchmark result to its inputs and guest image.
pub fn guard_hash(
    seed: u64,
    iterations: u64,
    source_commit: &str,
    doorbell_exits: u64,
    doorbell_gpa: u64,
    image: &[u8],
) -> (r: [u8; 32])
    ensures
        r@ == sha256_spec(
            bench_guard_preimage(
                seed,
                iterations,
                source_commit.spec_bytes(),
                doorbell_exits,
                doorbell_gpa,
                image@,
            ),
        ),
{
    let mut pre: Vec<u8> = Vec::new();
    append(&mut pre, "harmony-arm64-doorbell-bench-v1\0".as_bytes());
    put_u64(&mut pre, seed);
    put_u64(&mut pre, iterations);
    let commit = source_commit.as_bytes();
    put_u64(&mut pre, commit.len() as u64);
    append(&mut pre, commit);
    put_u64(&mut pre, doorbell_exits);
    put_u64(&mut pre, doorbell_gpa);
    let value = u32_to_le_bytes(DOORBELL_VALUE);
    append(&mut pre, value.as_slice());
    append(&mut pre, image);
    assert(pre@ =~= bench_guard_preimage(
        seed,
        iterations,
        source_commit.spec_bytes(),
        doorbell_exits,
        doorbell_gpa,
        image@,
    ));
    sha256(pre.as_slice())
}

} // verus!

verus! {

// ---------------------------------------------------------------------------
// ARM64 device-blob diagnostic.
// ---------------------------------------------------------------------------

/// ARM64 device-blob magic (`ADV1`).
pub const ARM64_DEVICE_MAGIC: u32 = 0x3156_4441;

pub open spec fn offset_overflow() -> Seq<char> {
    "device offset overflow"@
}

pub open spec fn blob_truncated() -> Seq<char> {
    "truncated ARM64 device blob"@
}

/// One cursor read of `len` bytes at `pos` in a blob of `total` bytes: the
/// next position, or why it failed.
pub open spec fn take_step(total: nat, pos: nat, len: nat) -> Result<nat, Seq<char>> {
    if pos + len > usize::MAX {
        Err(offset_overflow())
    } else if pos + len > total {
        Err(blob_truncated())
    } else {
        Ok(pos + len)
    }
}

/// `n` consecutive 32-bit reads starting at `pos`.
pub open spec fn words_step(total: nat, pos: nat, n: nat) -> Result<nat, Seq<char>>
    decreases n,
{
    if n == 0 {
        Ok(pos)
    } else {
        match take_step(total, pos, 4) {
            Err(e) => Err(e),
            Ok(p) => words_step(total, p, (n - 1) as nat),
        }
    }
}

/// `label`, then `0x` and `v` in at least `width` hexadecimal digits.
pub open spec fn hex_field(label: Seq<u8>, v: nat, width: nat) -> Seq<u8> {
    label + seq![48u8, 120u8] + zero_pad(hex(v), width)
}

pub open spec fn label_ctlr() -> Seq<u8> {
    seq![103u8, 105u8, 99u8, 100u8, 95u8, 99u8, 116u8, 108u8, 114u8, 61u8]
}

pub open spec fn label_group0() -> Seq<u8> {
    seq![32u8, 103u8, 114u8, 111u8, 117u8, 112u8, 48u8, 61u8]
}

pub open spec fn label_enable0() -> Seq<u8> {
    seq![32u8, 101u8, 110u8, 97u8, 98u8, 108u8, 101u8, 48u8, 61u8]
}

pub open spec fn label_pending0() -> Seq<u8> {
    seq![32u8, 112u8, 101u8, 110u8, 100u8, 105u8, 110u8, 103u8, 48u8, 61u8]
}

pub open spec fn label_active0() -> Seq<u8> {
    seq![32u8, 97u8, 99u8, 116u8, 105u8, 118u8, 101u8, 48u8, 61u8]
}

pub open spec fn label_pmr() -> Seq<u8> {
    seq![32u8, 112u8, 109u8, 114u8, 61u8]
}

/// The rendered GIC summary line:
/// `gicd_ctlr=0x…(8) group0=0x…(8) enable0=0x…(8) pending0=0x…(8) active0=0x…(8) pmr=0x…(2)`.
pub open spec fn gic_line(ctlr: nat, group0: nat, enable0: nat, pending0: nat, active0: nat, pmr: nat) -> Seq<char> {
    ascii_chars(
        hex_field(label_ctlr(), ctlr, 8) + hex_field(label_group0(), group0, 8) + hex_field(
            label_enable0(),
            enable0,
            8,
        ) + hex_field(label_pending0(), pending0, 8) + hex_field(label_active0(), active0, 8)
            + hex_field(label_pmr(), pmr, 2),
    )
}

/// The tail of the blob after the serial capture: the fixed device header,
/// the GIC distributor record, and the CPU interface's priority mask.
pub open spec fn gic_tail_spec(b: Seq<u8>, p7: nat) -> Result<Seq<char>, Seq<char>> {
    let n = b.len();
    match take_step(n, p7, 20) {
        Err(e) => Err(e),
        Ok(p8) => match take_step(n, p8, 4) {
            Err(e) => Err(e),
            Ok(p9) => match take_step(n, p9, 4) {
                Err(e) => Err(e),
                Ok(p10) => match take_step(n, p10, 8) {
                    Err(e) => Err(e),
                    Ok(p11) => match take_step(n, p11, 4) {
                        Err(e) => Err(e),
                        Ok(p12) => match take_step(n, p12, 4) {
                            Err(e) => Err(e),
                            Ok(p13) => gic_record_spec(b, p12, p13),
                        },
                    },
                },
            },
        },
    }
}

/// The four 32-word GIC bitmaps, the reserved block, and the priority mask,
/// with the distributor control word at `ctlr_at`.
pub open spec fn gic_record_spec(b: Seq<u8>, ctlr_at: nat, p13: nat) -> Result<Seq<char>, Seq<char>> {
    let n = b.len();
    match words_step(n, p13, 32) {
        Err(e) => Err(e),
        Ok(p14) => match words_step(n, p14, 32) {
            Err(e) => Err(e),
            Ok(p15) => match words_step(n, p15, 32) {
                Err(e) => Err(e),
                Ok(p16) => match words_step(n, p16, 32) {
                    Err(e) => Err(e),
                    Ok(p17) => match take_step(n, p17, 1020) {
                        Err(e) => Err(e),
                        Ok(p18) => match take_step(n, p18, 1) {
                            Err(e) => Err(e),
                            Ok(_) => Ok(
                                gic_line(
                                    crate::bringup::le32(b, ctlr_at as int),
                                    crate::bringup::le32(b, p13 as int),
                                    crate::bringup::le32(b, p14 as int),
                                    crate::bringup::le32(b, p15 as int),
                                    crate::bringup::le32(b, p16 as int),
                                    b[p18 as int] as nat,
                                ),
                            ),
                        },
                    },
                },
            },
        },
    }
}

/// The diagnostic of an ARM64 device blob: after the magic, a version that
/// carries a GIC record, the clock offset, the report stream, and the serial
/// capture, the GIC summary (see [`gic_tail_spec`]).
pub open spec fn gic_spec(b: Seq<u8>) -> Result<Seq<char>, Seq<char>> {
    let n = b.len();
    match take_step(n, 0, 4) {
        Err(e) => Err(e),
        Ok(p1) => if crate::bringup::le32(b, 0) != ARM64_DEVICE_MAGIC {
            Err("bad ARM64 device-blob magic"@)
        } else {
            match take_step(n, p1, 2) {
                Err(e) => Err(e),
                Ok(p2) => {
                    let v = crate::bringup::le16(b, p1 as int);
                    if !(v == 2 || v == 4 || v == 6 || v == 8) {
                        Err("ARM64 device blob has no GIC record"@)
                    } else {
                        match take_step(n, p2, 8) {
                            Err(e) => Err(e),
                            Ok(p3) => match take_step(n, p3, 4) {
                                Err(e) => Err(e),
                                Ok(p4) => {
                                    let rw = crate::bringup::le32(b, p3 as int);
                                    if rw * 4 > usize::MAX {
                                        Err("report length overflow"@)
                                    } else {
                                        match take_step(n, p4, rw * 4) {
                                            Err(e) => Err(e),
                                            Ok(p5) => match take_step(n, p5, 4) {
                                                Err(e) => Err(e),
                                                Ok(p6) => match take_step(
                                                    n,
                                                    p6,
                                                    crate::bringup::le32(b, p5 as int),
                                                ) {
                                                    Err(e) => Err(e),
                                                    Ok(p7) => gic_tail_spec(b, p7),
                                                },
                                            },
                                        }
                                    }
                                },
                            },
                        }
                    }
                },
            }
        },
    }
}

/// A bounds-checked cursor over a device blob.
struct GicCursor<'a> {
    bytes: &'a [u8],
    pos: usize,
}

impl<'a> GicCursor<'a> {
    fn take(&mut self, len: usize) -> (r: Result<&'a [u8], &'static str>)
        requires
            old(self).pos <= old(self).bytes@.len(),
        ensures
            final(self).bytes == old(self).bytes,
            final(self).pos <= final(self).bytes@.len(),
            match take_step(old(self).bytes@.len(), old(self).pos as nat, len as nat) {
                Ok(p) => r matches Ok(s) && s@ == old(self).bytes@.subrange(
                    old(self).pos as int,
                    p as int,
                ) && final(self).pos == p,
                Err(m) => r matches Err(e) && e@ == m,
            },
    {
        let end = match self.pos.checked_add(len) {
            Some(e) => e,
            None => return Err("device offset overflow"),
        };
        if end > self.bytes.len() {
            return Err("truncated ARM64 device blob");
        }
        let s = vstd::slice::slice_subrange(self.bytes, self.pos, end);
        self.pos = end;
        Ok(s)
    }

    fn u16(&mut self) -> (r: Result<u16, &'static str>)
        requires
            old(self).pos <= old(self).bytes@.len(),
        ensures
            final(self).bytes == old(self).bytes,
            final(self).pos <= final(self).bytes@.len(),
            match take_step(old(self).bytes@.len(), old(self).pos as nat, 2) {
                Ok(p) => r == Ok::<u16, &'static str>(
                    crate::bringup::le16(old(self).bytes@, old(self).pos as int) as u16,
                ) && final(self).pos == p,
                Err(m) => r matches Err(e) && e@ == m,
            },
    {
        let s = self.take(2)?;
        Ok(crate::bringup::read_le16(s, 0))
    }

    fn u32(&mut self) -> (r: Result<u32, &'static str>)
        requires
            old(self).pos <= old(self).bytes@.len(),
        ensures
            final(self).bytes == old(self).bytes,
            final(self).pos <= final(self).bytes@.len(),
            match take_step(old(self).bytes@.len(), old(self).pos as nat, 4) {
                Ok(p) => r == Ok::<u32, &'static str>(
                    crate::bringup::le32(old(self).bytes@, old(self).pos as int) as u32,
                ) && final(self).pos == p,
                Err(m) => r matches Err(e) && e@ == m,
            },
    {
        let s = self.take(4)?;
        Ok(crate::bringup::read_le32(s, 0))
    }

    fn u64(&mut self) -> (r: Result<(), &'static str>)
        requires
            old(self).pos <= old(self).bytes@.len(),
        ensures
            final(self).bytes == old(self).bytes,
            final(self).pos <= final(self).bytes@.len(),
            match take_step(old(self).bytes@.len(), old(self).pos as nat, 8) {
                Ok(p) => r is Ok && final(self).pos == p,
                Err(m) => r matches Err(e) && e@ == m,
            },
    {
        self.take(8)?;
        Ok(())
    }

    /// `n` 32-bit words; returns the first.
    fn words(&mut self, n: usize) -> (r: Result<u32, &'static str>)
        requires
            old(self).pos <= old(self).bytes@.len(),
            n >= 1,
        ensures
            final(self).bytes == old(self).bytes,
            final(self).pos <= final(self).bytes@.len(),
            match words_step(old(self).bytes@.len(), old(self).pos as nat, n as nat) {
                Ok(p) => r == Ok::<u32, &'static str>(
                    crate::bringup::le32(old(self).bytes@, old(self).pos as int) as u32,
                ) && final(self).pos == p,
                Err(m) => r matches Err(e) && e@ == m,
            },
    {
        let first = self.u32()?;
        let mut k: usize = 1;
        while k < n
            invariant
                self.bytes == old(self).bytes,
                self.pos <= self.bytes@.len(),
                1 <= k <= n,
                words_step(old(self).bytes@.len(), old(self).pos as nat, n as nat) == words_step(
                    self.bytes@.len(),
                    self.pos as nat,
                    (n - k) as nat,
                ),
            decreases n - k,
        {
            self.u32()?;
            k = k + 1;
        }
        Ok(first)
    }
}

/// Appends `label`, `0x`, and `v` in at least `width` hexadecimal digits.
fn push_hex_field(out: &mut Vec<u8>, label: &[u8], v: u32, width: usize)
    ensures
        final(out)@ == old(out)@ + hex_field(label@, v as nat, width as nat),
{
    crate::text::append(out, label);
    out.push(48u8);
    out.push(120u8);
    push_hex_padded(out, v as u128, width);
    assert(out@ =~= old(out)@ + hex_field(label@, v as nat, width as nat));
}

/// A labelled hexadecimal field with an ASCII label is ASCII.
pub proof fn lemma_hex_field_ascii(label: Seq<u8>, v: nat, width: nat)
    requires
        all_ascii(label),
    ensures
        all_ascii(hex_field(label, v, width)),
{
    lemma_hex_ascii(v);
    assert(all_ascii(zero_pad(hex(v), width)));
}

/// The rendered GIC summary line.
fn render_gic_line(ctlr: u32, group0: u32, enable0: u32, pending0: u32, active0: u32, pmr: u8) -> (s: String)
    ensures
        s@ == gic_line(ctlr as nat, group0 as nat, enable0 as nat, pending0 as nat, active0 as nat, pmr as nat),
{
    let mut out: Vec<u8> = Vec::new();
    push_hex_field(&mut out, &[103u8, 105u8, 99u8, 100u8, 95u8, 99u8, 116u8, 108u8, 114u8, 61u8], ctlr, 8);
    assert(out@ =~= hex_field(label_ctlr(), ctlr as nat, 8));
    push_hex_field(&mut out, &[32u8, 103u8, 114u8, 111u8, 117u8, 112u8, 48u8, 61u8], group0, 8);
    push_hex_field(&mut out, &[32u8, 101u8, 110u8, 97u8, 98u8, 108u8, 101u8, 48u8, 61u8], enable0, 8);
    push_hex_field(&mut out, &[32u8, 112u8, 101u8, 110u8, 100u8, 105u8, 110u8, 103u8, 48u8, 61u8], pending0, 8);
    push_hex_field(&mut out, &[32u8, 97u8, 99u8, 116u8, 105u8, 118u8, 101u8, 48u8, 61u8], active0, 8);
    push_hex_field(&mut out, &[32u8, 112u8, 109u8, 114u8, 61u8], pmr as u32, 2);
    proof {
        lemma_hex_field_ascii(label_ctlr(), ctlr as nat, 8);
        lemma_hex_field_ascii(label_group0(), group0 as nat, 8);
        lemma_hex_field_ascii(label_enable0(), enable0 as nat, 8);
        lemma_hex_field_ascii(label_pending0(), pending0 as nat, 8);
        lemma_hex_field_ascii(label_active0(), active0 as nat, 8);
        lemma_hex_field_ascii(label_pmr(), pmr as nat, 2);
    }
    ascii_string(out)
}

/// Reads the blob tail after the serial capture (see [`gic_tail_spec`]).
fn gic_tail(c: &mut GicCursor) -> (r: Result<String, &'static str>)
    requires
        old(c).pos <= old(c).bytes@.len(),
    ensures
        match gic_tail_spec(old(c).bytes@, old(c).pos as nat) {
            Ok(line) => r matches Ok(s) && s@ == line,
            Err(m) => r matches Err(e) && e@ == m,
        },
{
    c.take(20)?;
    c.u32()?;
    c.u32()?;
    c.u64()?;
    c.u32()?;
    let ghost ctlr_at = c.pos;
    let gicd_ctlr = c.u32()?;
    gic_record(c, gicd_ctlr, Ghost(ctlr_at as nat))
}

/// Reads the four GIC bitmaps, the reserved block, and the priority mask.
fn gic_record(c: &mut GicCursor, gicd_ctlr: u32, Ghost(ctlr_at): Ghost<nat>) -> (r: Result<String, &'static str>)
    requires
        old(c).pos <= old(c).bytes@.len(),
        ctlr_at + 4 <= old(c).bytes@.len(),
        gicd_ctlr == crate::bringup::le32(old(c).bytes@, ctlr_at as int),
    ensures
        match gic_record_spec(old(c).bytes@, ctlr_at, old(c).pos as nat) {
            Ok(line) => r matches Ok(s) && s@ == line,
            Err(m) => r matches Err(e) && e@ == m,
        },
{
    let group0 = c.words(32)?;
    let enable0 = c.words(32)?;
    let pending0 = c.words(32)?;
    let active0 = c.words(32)?;
    c.take(1020)?;
    let last = c.take(1)?;
    let pmr = last[0];
    Ok(render_gic_line(gicd_ctlr, group0, enable0, pending0, active0, pmr))
}

proof fn lemma_words_step_fits(total: nat, pos: nat, n: nat)
    requires
        pos + 4 * n <= total <= usize::MAX,
    ensures
        words_step(total, pos, n) == Ok::<nat, Seq<char>>(pos + 4 * n),
    decreases n,
{
    if n > 0 {
        lemma_words_step_fits(total, pos + 4, (n - 1) as nat);
    }
}

proof fn lemma_words_step_errors(total: nat, pos: nat, n: nat)
    ensures
        words_step(total, pos, n) matches Err(e) ==> e == offset_overflow() || e == blob_truncated(),
    decreases n,
{
    if n > 0 {
        if let Ok(p) = take_step(total, pos, 4) {
            lemma_words_step_errors(total, p, (n - 1) as nat);
        }
    }
}

proof fn lemma_gic_tail_errors(b: Seq<u8>, p7: nat)
    ensures
        gic_tail_spec(b, p7) matches Err(e) ==> e == offset_overflow() || e == blob_truncated(),
{
    let n = b.len();
    if let Ok(p8) = take_step(n, p7, 20) {
        if let Ok(p9) = take_step(n, p8, 4) {
            if let Ok(p10) = take_step(n, p9, 4) {
                if let Ok(p11) = take_step(n, p10, 8) {
                    if let Ok(p12) = take_step(n, p11, 4) {
                        if let Ok(p13) = take_step(n, p12, 4) {
                            lemma_words_step_errors(n, p13, 32);
                            if let Ok(p14) = words_step(n, p13, 32) {
                                lemma_words_step_errors(n, p14, 32);
                                if let Ok(p15) = words_step(n, p14, 32) {
                                    lemma_words_step_errors(n, p15, 32);
                                    if let Ok(p16) = words_step(n, p15, 32) {
                                        lemma_words_step_errors(n, p16, 32);
                                    }
                                }
                            }
                        }
                    }
                }
            }
        }
    }
}

proof fn lemma_gic_errors_past_the_version(b: Seq<u8>)
    requires
        b.len() >= 6,
        crate::bringup::le32(b, 0) == ARM64_DEVICE_MAGIC,
        ({
            let v = crate::bringup::le16(b, 4);
            v == 2 || v == 4 || v == 6 || v == 8
        }),
    ensures
        gic_spec(b) matches Err(e) ==> e == offset_overflow() || e == blob_truncated() || e
            == "report length overflow"@,
{
    let n = b.len();
    assert(take_step(n, 0, 4) == Ok::<nat, Seq<char>>(4));
    assert(take_step(n, 4, 2) == Ok::<nat, Seq<char>>(6));
    if let Ok(p3) = take_step(n, 6, 8) {
        if let Ok(p4) = take_step(n, p3, 4) {
            let rw = crate::bringup::le32(b, p3 as int);
            if rw * 4 <= usize::MAX {
                if let Ok(p5) = take_step(n, p4, rw * 4) {
                    if let Ok(p6) = take_step(n, p5, 4) {
                        if let Ok(p7) = take_step(n, p6, crate::bringup::le32(b, p5 as int)) {
                            lemma_gic_tail_errors(b, p7);
                            assert(gic_spec(b) == gic_tail_spec(b, p7));
                        }
                    }
                }
            }
        }
    }
}

/// The version alone decides whether a blob has a GIC record: for a blob with
/// the `ADV1` magic and a version field, the diagnostic reports "no GIC record"
/// exactly when the version is not 2, 4, 6, or 8.
pub proof fn lemma_gic_version_decides(b: Seq<u8>)
    requires
        b.len() >= 6,
        crate::bringup::le32(b, 0) == ARM64_DEVICE_MAGIC,
    ensures
        ({
            let v = crate::bringup::le16(b, 4);
            (gic_spec(b) == Err::<Seq<char>, Seq<char>>("ARM64 device blob has no GIC record"@))
                <==> !(v == 2 || v == 4 || v == 6 || v == 8)
        }),
{
    let v = crate::bringup::le16(b, 4);
    let n = b.len();
    assert(take_step(n, 0, 4) == Ok::<nat, Seq<char>>(4));
    assert(take_step(n, 4, 2) == Ok::<nat, Seq<char>>(6));
    if v == 2 || v == 4 || v == 6 || v == 8 {
        lemma_gic_errors_past_the_version(b);
        reveal_strlit("ARM64 device blob has no GIC record");
        reveal_strlit("device offset overflow");
        reveal_strlit("truncated ARM64 device blob");
        reveal_strlit("report length overflow");
        assert(offset_overflow().len() != "ARM64 device blob has no GIC record"@.len());
        assert(blob_truncated().len() != "ARM64 device blob has no GIC record"@.len());
        assert("report length overflow"@.len() != "ARM64 device blob has no GIC record"@.len());
    }
}

/// A complete blob renders its GIC record: given the `ADV1` magic, a version
/// that carries a GIC record (2, 4, 6, or 8), and every field present (the
/// report stream of `report_words` words at byte 18, the serial capture of
/// `serial_bytes` bytes after its length, then the 40-byte header, the GIC
/// distributor control word, four 32-word bitmaps, 1020 reserved bytes, and
/// the priority mask), the diagnostic is the GIC line of the control word, the
/// first word of each bitmap, and the priority mask.
pub proof fn lemma_complete_gic_blob_renders(b: Seq<u8>)
    requires
        b.len() <= usize::MAX,
        b.len() >= 22,
        crate::bringup::le32(b, 0) == ARM64_DEVICE_MAGIC,
        ({
            let v = crate::bringup::le16(b, 4);
            v == 2 || v == 4 || v == 6 || v == 8
        }),
        ({
            let p5: int = 18 + 4 * crate::bringup::le32(b, 14) as int;
            &&& b.len() >= p5 + 4
            &&& b.len() >= p5 + 4 + crate::bringup::le32(b, p5) + 1577
        }),
    ensures
        ({
            let p5: int = 18 + 4 * crate::bringup::le32(b, 14) as int;
            let p7: int = p5 + 4 + crate::bringup::le32(b, p5);
            gic_spec(b) == Ok::<Seq<char>, Seq<char>>(
                gic_line(
                    crate::bringup::le32(b, p7 + 40),
                    crate::bringup::le32(b, p7 + 44),
                    crate::bringup::le32(b, p7 + 172),
                    crate::bringup::le32(b, p7 + 300),
                    crate::bringup::le32(b, p7 + 428),
                    b[p7 + 1576] as nat,
                ),
            )
        }),
{
    let n = b.len();
    let rw = crate::bringup::le32(b, 14);
    let p5: nat = 18 + 4 * rw;
    let sl = crate::bringup::le32(b, p5 as int);
    let p7: nat = p5 + 4 + sl;
    assert(rw * 4 == 4 * rw);
    assert(take_step(n, 18, rw * 4) == Ok::<nat, Seq<char>>(p5));
    assert(gic_spec(b) == gic_tail_spec(b, p7));
    let p13: nat = p7 + 44;
    lemma_words_step_fits(n, p13, 32);
    lemma_words_step_fits(n, p13 + 128, 32);
    lemma_words_step_fits(n, p13 + 256, 32);
    lemma_words_step_fits(n, p13 + 384, 32);
    assert(gic_tail_spec(b, p7) == gic_record_spec(b, p7 + 40, p13));
}

/// Summarizes the GIC state recorded in an ARM64 device blob (see
/// [`gic_spec`]).
pub fn arm64_gic_diagnostic(blob: &[u8]) -> (r: Result<String, &'static str>)
    ensures
        match gic_spec(blob@) {
            Ok(line) => r matches Ok(s) && s@ == line,
            Err(m) => r matches Err(e) && e@ == m,
        },
{
    let mut c = GicCursor { bytes: blob, pos: 0 };
    let magic = c.u32()?;
    if magic != ARM64_DEVICE_MAGIC {
        return Err("bad ARM64 device-blob magic");
    }
    let version = c.u16()?;
    if !(version == 2 || version == 4 || version == 6 || version == 8) {
        return Err("ARM64 device blob has no GIC record");
    }
    c.u64()?;
    let report_words = c.u32()?;
    let report_len = match (report_words as usize).checked_mul(4) {
        Some(l) => l,
        None => return Err("report length overflow"),
    };
    c.take(report_len)?;
    let serial_bytes = c.u32()?;
    c.take(serial_bytes as usize)?;
    gic_tail(&mut c)
}

} // verus!
