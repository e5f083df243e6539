//! Serial `exec` sessions: a shell command is injected followed by an `echo` of
//! a per-session sentinel carrying `$?`, and the guest's serial output is
//! scanned until the echoed sentinel with a numeric status appears.
//!
//! A sentinel is `marker ':' digits ':' marker` where `marker` is
//! `HXEC-<nonce>-` and `digits` is a non-empty run of ASCII digits. The literal
//! command echo (`marker:$?:marker`) therefore never completes a session.

use vstd::prelude::*;
use crate::text::{append, decimal, push_decimal};
use vstd::string::StringSliceAdditionalSpecFns;

verus! {

/// Capacity of the output capture, in bytes.
pub const MAX_CAPTURE: usize = 1048576;

/// The most status digits a sentinel may carry and still be found however the
/// output is split across feeds.
pub const STATUS_DIGITS: usize = 20;

// ---------------------------------------------------------------------------
// Mathematical model of the sentinel grammar.
// ---------------------------------------------------------------------------

pub open spec fn is_digit(c: u8) -> bool {
    48 <= c <= 57
}

/// The session marker for `nonce`: `HXEC-<decimal nonce>-`.
pub open spec fn marker_for(nonce: u64) -> Seq<u8> {
    seq![72u8, 88u8, 69u8, 67u8, 45u8] + decimal(nonce as nat) + seq![45u8]
}

/// The bytes injected for `cmd`: the command, a newline, then
/// `echo <marker>:$?:<marker>` and a newline.
pub open spec fn injected_input(cmd: Seq<u8>, marker: Seq<u8>) -> Seq<u8> {
    cmd + seq![10u8] + seq![101u8, 99u8, 104u8, 111u8, 32u8] + marker + seq![58u8, 36u8, 63u8, 58u8]
        + marker + seq![10u8]
}

/// Whether `m` occurs in `buf` at position `p`.
pub open spec fn occurs_at(buf: Seq<u8>, m: Seq<u8>, p: int) -> bool {
    0 <= p && p + m.len() <= buf.len() && buf.subrange(p, p + m.len()) == m
}

/// The end (exclusive) of the run of ASCII digits starting at `i`.
pub open spec fn digit_run_end(buf: Seq<u8>, i: int) -> int
    decreases buf.len() - i,
{
    if 0 <= i < buf.len() && is_digit(buf[i]) {
        digit_run_end(buf, i + 1)
    } else {
        i
    }
}

/// Whether a complete sentinel `m ':' digits ':' m` starts at `p`.
pub open spec fn sentinel_at(buf: Seq<u8>, m: Seq<u8>, p: int) -> bool {
    let i = p + m.len();
    let e = digit_run_end(buf, i + 1);
    &&& occurs_at(buf, m, p)
    &&& i < buf.len()
    &&& buf[i] == 58u8
    &&& e > i + 1
    &&& e < buf.len()
    &&& buf[e] == 58u8
    &&& occurs_at(buf, m, e + 1)
}

/// The total length of the sentinel starting at `p`.
pub open spec fn sentinel_len(buf: Seq<u8>, m: Seq<u8>, p: int) -> int {
    digit_run_end(buf, p + m.len() + 1) + 1 + m.len() - p
}

/// One saturating decimal step: `min(acc * 10 + digit, u64::MAX)`.
pub open spec fn sat_step(acc: u64, c: u8) -> u64 {
    if acc * 10 + (c - 48) > u64::MAX {
        u64::MAX
    } else {
        (acc * 10 + (c - 48)) as u64
    }
}

/// The saturating value of the digits `buf[a..b]`.
pub open spec fn sat_value(buf: Seq<u8>, a: int, b: int) -> u64
    decreases b - a,
{
    if b <= a {
        0
    } else {
        sat_step(sat_value(buf, a, b - 1), buf[b - 1])
    }
}

/// The (saturating) status the sentinel at `p` carries.
pub open spec fn status_at(buf: Seq<u8>, m: Seq<u8>, p: int) -> u64 {
    let i = p + m.len() + 1;
    sat_value(buf, i, digit_run_end(buf, i))
}

/// The first sentinel position at or after `from`.
pub open spec fn first_sentinel(buf: Seq<u8>, m: Seq<u8>, from: int) -> Option<int>
    decreases buf.len() - from,
{
    if from < 0 || from >= buf.len() {
        None
    } else if sentinel_at(buf, m, from) {
        Some(from)
    } else {
        first_sentinel(buf, m, from + 1)
    }
}

/// A sentinel whose status has at most [`STATUS_DIGITS`] digits: one that any
/// split of the output across feeds still reveals.
pub open spec fn short_sentinel_at(buf: Seq<u8>, m: Seq<u8>, p: int) -> bool {
    sentinel_at(buf, m, p) && sentinel_len(buf, m, p) <= 2 * m.len() + 2 + STATUS_DIGITS
}

/// The rescan window: the longest short sentinel.
pub open spec fn window(m: Seq<u8>) -> int {
    2 * m.len() + 2 + STATUS_DIGITS
}

/// A digit run from `i` consists of digits and ends at the buffer's end or
/// at a non-digit.
pub proof fn lemma_digit_run_end_bounds(buf: Seq<u8>, i: int)
    requires
        0 <= i,
    ensures
        i <= digit_run_end(buf, i),
        digit_run_end(buf, i) <= buf.len() || digit_run_end(buf, i) == i,
        forall|k: int| i <= k < digit_run_end(buf, i) ==> is_digit(#[trigger] buf[k]),
        digit_run_end(buf, i) < buf.len() ==> !is_digit(buf[digit_run_end(buf, i)]),
    decreases buf.len() - i,
{
    if 0 <= i < buf.len() && is_digit(buf[i]) {
        lemma_digit_run_end_bounds(buf, i + 1);
    }
}

/// The digit run is determined by the bytes it covers and the one after it.
pub proof fn lemma_digit_run_end_prefix(short: Seq<u8>, long: Seq<u8>, i: int)
    requires
        0 <= i,
        short.len() <= long.len(),
        short =~= long.subrange(0, short.len() as int),
        digit_run_end(long, i) < short.len(),
    ensures
        digit_run_end(short, i) == digit_run_end(long, i),
    decreases long.len() - i,
{
    lemma_digit_run_end_bounds(long, i);
    if 0 <= i < long.len() && is_digit(long[i]) {
        assert(short[i] == long[i]);
        lemma_digit_run_end_prefix(short, long, i + 1);
    } else {
        if i < short.len() {
            assert(short[i] == long[i]);
        }
    }
}

/// The value of digits inside a prefix does not depend on what follows it.
pub proof fn lemma_sat_value_prefix(short: Seq<u8>, long: Seq<u8>, a: int, b: int)
    requires
        0 <= a,
        b <= short.len() <= long.len(),
        short =~= long.subrange(0, short.len() as int),
    ensures
        sat_value(short, a, b) == sat_value(long, a, b),
    decreases b - a,
{
    if b > a {
        lemma_sat_value_prefix(short, long, a, b - 1);
        assert(short[b - 1] == long[b - 1]);
    }
}

/// A sentinel that ends inside a prefix of the buffer is a sentinel of that
/// prefix too, with the same length and status.
pub proof fn lemma_sentinel_in_prefix(short: Seq<u8>, long: Seq<u8>, m: Seq<u8>, p: int)
    requires
        short.len() <= long.len(),
        short =~= long.subrange(0, short.len() as int),
        sentinel_at(long, m, p),
        p + sentinel_len(long, m, p) <= short.len(),
    ensures
        sentinel_at(short, m, p),
        sentinel_len(short, m, p) == sentinel_len(long, m, p),
        status_at(short, m, p) == status_at(long, m, p),
{
    let i = p + m.len();
    let e = digit_run_end(long, i + 1);
    lemma_digit_run_end_prefix(short, long, i + 1);
    assert(short.subrange(p, p + m.len()) =~= long.subrange(p, p + m.len()));
    assert(short.subrange(e + 1, e + 1 + m.len()) =~= long.subrange(e + 1, e + 1 + m.len()));
    assert(short[i] == long[i]);
    assert(short[e] == long[e]);
    lemma_sat_value_prefix(short, long, i + 1, e);
}

/// No sentinel in `[a, b)` means the first sentinel from `a` is the first from `b`.
pub proof fn lemma_first_sentinel_skip(buf: Seq<u8>, m: Seq<u8>, a: int, b: int)
    requires
        0 <= a <= b,
        forall|q: int| a <= q < b ==> !sentinel_at(buf, m, q),
    ensures
        first_sentinel(buf, m, a) == first_sentinel(buf, m, b),
    decreases b - a,
{
    if a < b {
        lemma_first_sentinel_skip(buf, m, a + 1, b);
        if a >= buf.len() {
            assert(first_sentinel(buf, m, a) == None::<int>);
            lemma_first_sentinel_none_beyond(buf, m, b);
        }
    }
}

/// No sentinel starts at or past the end of the buffer.
pub proof fn lemma_first_sentinel_none_beyond(buf: Seq<u8>, m: Seq<u8>, a: int)
    requires
        a >= buf.len(),
    ensures
        first_sentinel(buf, m, a) == None::<int>,
{
}

/// The first sentinel from `a` is a sentinel, and none precedes it.
pub proof fn lemma_first_sentinel_spec(buf: Seq<u8>, m: Seq<u8>, a: int)
    requires
        0 <= a,
    ensures
        match first_sentinel(buf, m, a) {
            Some(p) => a <= p && sentinel_at(buf, m, p) && forall|q: int|
                a <= q < p ==> !sentinel_at(buf, m, q),
            None => forall|q: int| a <= q ==> !sentinel_at(buf, m, q),
        },
    decreases buf.len() - a,
{
    if a < buf.len() && !sentinel_at(buf, m, a) {
        lemma_first_sentinel_spec(buf, m, a + 1);
    }
    if a >= buf.len() {
        assert forall|q: int| a <= q implies !sentinel_at(buf, m, q) by {
            if sentinel_at(buf, m, q) {
                assert(occurs_at(buf, m, q));
            }
        }
    }
}

// ---------------------------------------------------------------------------
// Executable scanning.
// ---------------------------------------------------------------------------

/// The first index at which `needle` occurs in `haystack`; `None` for an empty
/// or over-long needle.
pub fn find(haystack: &[u8], needle: &[u8]) -> (r: Option<usize>)
    ensures
        match r {
            Some(i) => needle@.len() > 0 && occurs_at(haystack@, needle@, i as int) && forall|j: int|
                0 <= j < i ==> !occurs_at(haystack@, needle@, j),
            None => needle@.len() == 0 || forall|j: int| !occurs_at(haystack@, needle@, j),
        },
{
    let n = needle.len();
    let h = haystack.len();
    if n == 0 || n > h {
        return None;
    }
    let mut i: usize = 0;
    while i <= h - n
        invariant
            n == needle@.len(),
            h == haystack@.len(),
            0 < n <= h,
            i <= h - n + 1,
            forall|j: int| 0 <= j < i ==> !occurs_at(haystack@, needle@, j),
        decreases h - n + 1 - i,
    {
        if matches_at(haystack, needle, i) {
            return Some(i);
        }
        i = i + 1;
    }
    None
}

/// Whether `needle` occurs in `haystack` at `at`.
pub fn matches_at(haystack: &[u8], needle: &[u8], at: usize) -> (r: bool)
    ensures
        r == occurs_at(haystack@, needle@, at as int),
{
    let n = needle.len();
    let h = haystack.len();
    if at > h || n > h - at {
        return false;
    }
    let mut k: usize = 0;
    while k < n
        invariant
            n == needle@.len(),
            h == haystack@.len(),
            at + n <= h,
            k <= n,
            forall|j: int| 0 <= j < k ==> haystack@[at + j] == needle@[j],
        decreases n - k,
    {
        if haystack[at + k] != needle[k] {
            assert(haystack@.subrange(at as int, at + n)[k as int] != needle@[k as int]);
            return false;
        }
        k = k + 1;
    }
    assert(haystack@.subrange(at as int, at + n) =~= needle@);
    true
}

/// The saturating value and end of the digit run starting at `i`.
fn digit_run(buf: &[u8], i: usize) -> (r: (u64, usize))
    requires
        i <= buf@.len(),
    ensures
        r.1 == digit_run_end(buf@, i as int),
        r.0 == sat_value(buf@, i as int, r.1 as int),
{
    let mut j = i;
    let mut status: u64 = 0;
    while j < buf.len() && is_ascii_digit(buf[j])
        invariant
            i <= j <= buf@.len(),
            status == sat_value(buf@, i as int, j as int),
            digit_run_end(buf@, i as int) == digit_run_end(buf@, j as int),
        decreases buf@.len() - j,
    {
        let d: u64 = (buf[j] - 48u8) as u64;
        status = match status.checked_mul(10) {
            Some(t) => match t.checked_add(d) {
                Some(v) => v,
                None => u64::MAX,
            },
            None => u64::MAX,
        };
        j = j + 1;
        assert(sat_value(buf@, i as int, j as int) == sat_step(
            sat_value(buf@, i as int, j - 1),
            buf@[j - 1],
        ));
    }
    (status, j)
}

fn is_ascii_digit(c: u8) -> (r: bool)
    ensures
        r == is_digit(c),
{
    48u8 <= c && c <= 57u8
}

// ---------------------------------------------------------------------------
// The session.
// ---------------------------------------------------------------------------

/// How a session finished.
#[derive(Clone, PartialEq, Eq, Debug)]
pub enum Done {
    /// The sentinel with `status` was seen; the output ends at `cut`.
    Sentinel { status: u64, cut: usize },
    /// The caller gave up before a sentinel appeared.
    Timeout,
}

/// What a finished session reports.
#[derive(Clone, PartialEq, Eq, Debug)]
pub struct ExecOutcome {
    /// The captured output, up to (not including) the sentinel.
    pub output: Vec<u8>,
    /// Whether the sentinel was seen.
    pub ok: bool,
    /// The command's exit status, when the sentinel was seen.
    pub status: Option<u64>,
}

/// One injected command and the scan of its serial output.
pub struct ExecSession {
    marker: Vec<u8>,
    input: Vec<u8>,
    capture: Vec<u8>,
    done: Option<Done>,
    truncated: bool,
    scan_from: usize,
}

impl ExecSession {
    /// The session marker.
    pub closed spec fn marker_view(&self) -> Seq<u8> {
        self.marker@
    }

    /// The bytes to inject.
    pub closed spec fn input_view(&self) -> Seq<u8> {
        self.input@
    }

    /// The output captured so far.
    pub closed spec fn capture_view(&self) -> Seq<u8> {
        self.capture@
    }

    /// How the session finished, if it has.
    pub closed spec fn done_view(&self) -> Option<Done> {
        self.done
    }

    /// Whether output was dropped at the capture limit.
    pub closed spec fn truncated_view(&self) -> bool {
        self.truncated
    }

    /// Where the next scan starts.
    pub closed spec fn scan_from_view(&self) -> usize {
        self.scan_from
    }

    /// The session invariant. While the session is running, no sentinel starts
    /// at or after the scan position and no short sentinel exists anywhere in
    /// the capture; once it has finished on a sentinel, that sentinel is in the
    /// capture at the cut with the reported status and no short sentinel
    /// precedes it.
    pub open spec fn wf(&self) -> bool {
        let m = self.marker_view();
        let c = self.capture_view();
        &&& m.len() >= 1
        &&& m.len() <= 26
        &&& c.len() <= MAX_CAPTURE
        &&& self.truncated_view() ==> c.len() == MAX_CAPTURE
        &&& match self.done_view() {
            None => {
                &&& self.scan_from_view() <= c.len()
                &&& (self.scan_from_view() == 0 || self.scan_from_view() + window(m) <= c.len())
                &&& forall|q: int| self.scan_from_view() <= q ==> !sentinel_at(c, m, q)
                &&& forall|q: int| !short_sentinel_at(c, m, q)
            },
            Some(Done::Sentinel { status, cut }) => {
                &&& sentinel_at(c, m, cut as int)
                &&& status == status_at(c, m, cut as int)
                &&& forall|q: int| q < cut ==> !short_sentinel_at(c, m, q)
            },
            Some(Done::Timeout) => forall|q: int| !short_sentinel_at(c, m, q),
        }
    }

    /// Starts a session for `cmd` with marker `HXEC-<nonce>-`.
    pub fn new(cmd: &str, nonce: u64) -> (s: ExecSession)
        ensures
            s.wf(),
            s.marker_view() == marker_for(nonce),
            s.input_view() == injected_input(cmd.spec_bytes(), marker_for(nonce)),
            s.capture_view() == Seq::<u8>::empty(),
            s.done_view() == None::<Done>,
            !s.truncated_view(),
            s.scan_from_view() == 0,
    {
        let mut marker: Vec<u8> = Vec::new();
        marker.push(72u8);
        marker.push(88u8);
        marker.push(69u8);
        marker.push(67u8);
        marker.push(45u8);
        push_decimal(&mut marker, nonce as u128);
        marker.push(45u8);
        proof {
            lemma_decimal_len_u64(nonce as nat);
        }
        assert(marker@ =~= marker_for(nonce));

        let mut input: Vec<u8> = Vec::new();
        append(&mut input, cmd.as_bytes());
        input.push(10u8);
        input.push(101u8);
        input.push(99u8);
        input.push(104u8);
        input.push(111u8);
        input.push(32u8);
        append(&mut input, marker.as_slice());
        input.push(58u8);
        input.push(36u8);
        input.push(63u8);
        input.push(58u8);
        append(&mut input, marker.as_slice());
        input.push(10u8);
        assert(input@ =~= injected_input(cmd.spec_bytes(), marker_for(nonce)));

        ExecSession {
            marker,
            input,
            capture: Vec::new(),
            done: None,
            truncated: false,
            scan_from: 0,
        }
    }

    /// The bytes to inject into the guest's serial input.
    pub fn input(&self) -> (r: &[u8])
        ensures
            r@ == self.input_view(),
    {
        self.input.as_slice()
    }

    /// Feeds serial output to the session. A finished session ignores it.
    /// Otherwise the bytes are captured up to [`MAX_CAPTURE`] (marking the
    /// session truncated when some are dropped), and the capture is scanned for
    /// the first sentinel at or after the scan position; if none is found the
    /// scan position moves to one window before the end of the capture.
    pub fn feed(&mut self, bytes: &[u8])
        requires
            old(self).wf(),
        ensures
            final(self).wf(),
            final(self).marker_view() == old(self).marker_view(),
            final(self).input_view() == old(self).input_view(),
            old(self).done_view() is Some ==> *final(self) == *old(self),
            old(self).done_view() is None ==> {
                let room = MAX_CAPTURE - old(self).capture_view().len();
                let kept = if bytes@.len() > room {
                    room as int
                } else {
                    bytes@.len() as int
                };
                let c = old(self).capture_view() + bytes@.subrange(0, kept);
                let m = old(self).marker_view();
                &&& final(self).capture_view() == c
                &&& final(self).truncated_view() == (old(self).truncated_view() || bytes@.len()
                    > room)
                &&& match first_sentinel(c, m, old(self).scan_from_view() as int) {
                    Some(p) => final(self).done_view() == Some(
                        Done::Sentinel { status: status_at(c, m, p), cut: p as usize },
                    ),
                    None => {
                        &&& final(self).done_view() == None::<Done>
                        &&& final(self).scan_from_view() == if c.len() > window(m) {
                            c.len() - window(m)
                        } else {
                            0
                        }
                    },
                }
            },
    {
        if self.done.is_some() {
            return;
        }
        let ghost old_c = self.capture@;
        let ghost m = self.marker@;
        let ghost old_sf = self.scan_from as int;
        let room = MAX_CAPTURE - self.capture.len();
        if bytes.len() > room {
            let head = vstd::slice::slice_subrange(bytes, 0, room);
            append(&mut self.capture, head);
            self.truncated = true;
        } else {
            append(&mut self.capture, bytes);
            assert(bytes@.subrange(0, bytes@.len() as int) =~= bytes@);
        }
        let ghost c = self.capture@;
        proof {
            assert(old_c =~= c.subrange(0, old_c.len() as int));
            // A short sentinel before the old scan position ends inside the old
            // capture, where none exists.
            assert forall|q: int| q < self.scan_from implies !short_sentinel_at(c, m, q) by {
                if short_sentinel_at(c, m, q) {
                    lemma_sentinel_in_prefix(old_c, c, m, q);
                    assert(short_sentinel_at(old_c, m, q));
                }
            }
        }
        let found = self.scan(self.scan_from);
        proof {
            lemma_first_sentinel_spec(c, m, self.scan_from as int);
        }
        match found {
            Some((status, cut)) => {
                self.done = Some(Done::Sentinel { status, cut });
            },
            None => {
                let w = self.sentinel_max_len();
                self.scan_from = if self.capture.len() > w {
                    self.capture.len() - w
                } else {
                    0
                };
                proof {
                    assert forall|q: int| !short_sentinel_at(c, m, q) by {
                        if q >= old_sf {
                        }
                    }
                    assert forall|q: int| self.scan_from <= q implies !sentinel_at(c, m, q) by {
                        if sentinel_at(c, m, q) {
                            assert(short_sentinel_at(c, m, q));
                        }
                    }
                }
            },
        }
    }

    /// The longest short sentinel for this session's marker.
    fn sentinel_max_len(&self) -> (r: usize)
        requires
            self.marker_view().len() <= 26,
        ensures
            r == window(self.marker_view()),
    {
        2 * self.marker.len() + 2 + STATUS_DIGITS
    }

    /// Gives up waiting: a running session finishes as timed out.
    pub fn finish_timeout(&mut self)
        requires
            old(self).wf(),
        ensures
            final(self).wf(),
            final(self).marker_view() == old(self).marker_view(),
            final(self).input_view() == old(self).input_view(),
            final(self).capture_view() == old(self).capture_view(),
            final(self).truncated_view() == old(self).truncated_view(),
            final(self).done_view() == match old(self).done_view() {
                None => Some(Done::Timeout),
                Some(d) => Some(d),
            },
    {
        if self.done.is_none() {
            self.done = Some(Done::Timeout);
        }
    }

    /// Whether the session has finished.
    pub fn is_done(&self) -> (r: bool)
        ensures
            r == self.done_view() is Some,
    {
        self.done.is_some()
    }

    /// Whether output was dropped at the capture limit.
    pub fn truncated(&self) -> (r: bool)
        ensures
            r == self.truncated_view(),
    {
        self.truncated
    }

    /// The session's result: on a sentinel, the output before it, `ok`, and the
    /// status; otherwise the whole capture, not `ok`, and no status.
    pub fn into_outcome(self) -> (o: ExecOutcome)
        requires
            self.wf(),
        ensures
            match self.done_view() {
                Some(Done::Sentinel { status, cut }) => o.output@ == self.capture_view().subrange(
                    0,
                    cut as int,
                ) && o.ok && o.status == Some(status),
                _ => o.output@ == self.capture_view() && !o.ok && o.status == None::<u64>,
            },
    {
        match self.done {
            Some(Done::Sentinel { status, cut }) => {
                proof {
                    assert(occurs_at(self.capture@, self.marker@, cut as int));
                }
                let head = vstd::slice::slice_subrange(self.capture.as_slice(), 0, cut);
                let mut output: Vec<u8> = Vec::new();
                append(&mut output, head);
                ExecOutcome { output, ok: true, status: Some(status) }
            },
            _ => ExecOutcome { output: self.capture, ok: false, status: None },
        }
    }

    /// The first sentinel in the capture at or after `start` (clamped to the
    /// capture's length), with its status.
    fn scan(&self, start: usize) -> (r: Option<(u64, usize)>)
        requires
            self.marker_view().len() >= 1,
        ensures
            ({
                let c = self.capture_view();
                let m = self.marker_view();
                let from = if start < c.len() {
                    start as int
                } else {
                    c.len() as int
                };
                match r {
                    Some((status, cut)) => first_sentinel(c, m, from) == Some(cut as int)
                        && status == status_at(c, m, cut as int),
                    None => first_sentinel(c, m, from) == None::<int>,
                }
            }),
    {
        find_sentinel(self.capture.as_slice(), self.marker.as_slice(), start)
    }
}

/// The first complete sentinel `m ':' digits ':' m` in `buf` at or after
/// `start` (clamped to the buffer's length), with its saturating status.
pub fn find_sentinel(buf: &[u8], m: &[u8], start: usize) -> (r: Option<(u64, usize)>)
    requires
        m@.len() >= 1,
    ensures
        ({
            let from = if start < buf@.len() {
                start as int
            } else {
                buf@.len() as int
            };
            match r {
                Some((status, cut)) => first_sentinel(buf@, m@, from) == Some(cut as int)
                    && status == status_at(buf@, m@, cut as int),
                None => first_sentinel(buf@, m@, from) == None::<int>,
            }
        }),
{
    let ghost from0: int = if start < buf@.len() {
        start as int
    } else {
        buf@.len() as int
    };
    let mut from: usize = if start < buf.len() {
        start
    } else {
        buf.len()
    };
    loop
        invariant
            m@.len() >= 1,
            from0 <= from <= buf@.len(),
            from0 == (if start < buf@.len() {
                start as int
            } else {
                buf@.len() as int
            }),
            0 <= from0,
            first_sentinel(buf@, m@, from0) == first_sentinel(buf@, m@, from as int),
        decreases buf@.len() - from,
    {
        let rest = vstd::slice::slice_subrange(buf, from, buf.len());
        match find(rest, m) {
            None => {
                proof {
                    assert forall|q: int| from <= q < buf@.len() implies !sentinel_at(
                        buf@,
                        m@,
                        q,
                    ) by {
                        if sentinel_at(buf@, m@, q) {
                            assert(rest@.subrange(q - from, q - from + m@.len())
                                =~= buf@.subrange(q, q + m@.len()));
                            assert(occurs_at(rest@, m@, q - from));
                        }
                    }
                    lemma_first_sentinel_skip(buf@, m@, from as int, buf@.len() as int);
                    lemma_first_sentinel_none_beyond(buf@, m@, buf@.len() as int);
                }
                return None;
            },
            Some(rel) => {
                let start = from + rel;
                proof {
                    assert(rest@.subrange(rel as int, rel + m@.len()) =~= buf@.subrange(
                        start as int,
                        start + m@.len(),
                    ));
                    assert forall|q: int| from <= q < start implies !sentinel_at(
                        buf@,
                        m@,
                        q,
                    ) by {
                        if sentinel_at(buf@, m@, q) {
                            assert(rest@.subrange(q - from, q - from + m@.len())
                                =~= buf@.subrange(q, q + m@.len()));
                            assert(occurs_at(rest@, m@, q - from));
                        }
                    }
                    lemma_first_sentinel_skip(buf@, m@, from as int, start as int);
                }
                if let Some(status) = sentinel_status(buf, m, start) {
                    assert(first_sentinel(buf@, m@, start as int) == Some(start as int));
                    return Some((status, start));
                }
                from = start + 1;
            },
        }
    }
}

/// The status of the sentinel at `p`, if one starts there.
fn sentinel_status(buf: &[u8], m: &[u8], p: usize) -> (r: Option<u64>)
    requires
        p + m@.len() <= buf@.len(),
        occurs_at(buf@, m@, p as int),
    ensures
        match r {
            Some(s) => sentinel_at(buf@, m@, p as int) && s == status_at(buf@, m@, p as int),
            None => !sentinel_at(buf@, m@, p as int),
        },
{
    let n = buf.len();
    let i = p + m.len();
    if i >= n || buf[i] != 58u8 {
        return None;
    }
    let digit_start = i + 1;
    let (status, e) = digit_run(buf, digit_start);
    proof {
        lemma_digit_run_end_bounds(buf@, digit_start as int);
    }
    if e == digit_start {
        return None;
    }
    if e >= n || buf[e] != 58u8 {
        return None;
    }
    if !matches_at(buf, m, e + 1) {
        return None;
    }
    assert(sentinel_at(buf@, m@, p as int));
    Some(status)
}

// ---------------------------------------------------------------------------
// Laws.
// ---------------------------------------------------------------------------

/// The echo line of the injected input: `echo <marker>:$?:<marker>` and a
/// newline, as the guest's terminal echoes it back.
pub open spec fn echo_line(m: Seq<u8>) -> Seq<u8> {
    seq![101u8, 99u8, 104u8, 111u8, 32u8] + m + seq![58u8, 36u8, 63u8, 58u8] + m + seq![10u8]
}

proof fn lemma_decimal_digits(v: nat)
    ensures
        forall|i: int| 0 <= i < decimal(v).len() ==> is_digit(#[trigger] decimal(v)[i]),
    decreases v,
{
    if v >= 10 {
        lemma_decimal_digits(v / 10);
        assert forall|i: int| 0 <= i < decimal(v).len() implies is_digit(#[trigger] decimal(v)[i]) by {
            if i < decimal(v / 10).len() {
                assert(decimal(v)[i] == decimal(v / 10)[i]);
            }
        }
    }
}

proof fn lemma_marker_starts_once(nonce: u64)
    ensures
        marker_for(nonce)[0] == 72u8,
        forall|k: int| 1 <= k < marker_for(nonce).len() ==> #[trigger] marker_for(nonce)[k] != 72u8,
{
    let m = marker_for(nonce);
    let d = decimal(nonce as nat);
    lemma_decimal_digits(nonce as nat);
    assert forall|k: int| 1 <= k < m.len() implies #[trigger] m[k] != 72u8 by {
        if 5 <= k < m.len() - 1 {
            assert(m[k] == d[k - 5]);
            assert(is_digit(d[k - 5]));
        }
    }
}

proof fn lemma_echo_marker_positions(nonce: u64)
    ensures
        ({
            let m = marker_for(nonce);
            let e = echo_line(m);
            forall|q: int|
                0 <= q < e.len() && #[trigger] e[q] == 72u8 ==> q == 5 || q == 9 + m.len()
        }),
{
    let m = marker_for(nonce);
    let e = echo_line(m);
    let l = m.len() as int;
    lemma_marker_starts_once(nonce);
    assert forall|q: int| 0 <= q < e.len() && #[trigger] e[q] == 72u8 implies q == 5 || q == 9 + l by {
        if q < 5 {
            assert(e[q] == seq![101u8, 99u8, 104u8, 111u8, 32u8][q]);
        } else if q < 5 + l {
            assert(e[q] == m[q - 5]);
        } else if q < 9 + l {
            assert(e[q] == seq![58u8, 36u8, 63u8, 58u8][q - 5 - l]);
        } else if q < 9 + 2 * l {
            assert(e[q] == m[q - 9 - l]);
        } else {
            assert(e[q] == 10u8);
        }
    }
}

/// The terminal's echo of the injected command line never completes a
/// session: the literal `$?` is no exit status, so the echo line holds no
/// sentinel for its own marker.
pub proof fn lemma_echo_line_has_no_sentinel(nonce: u64)
    ensures
        forall|p: int| !sentinel_at(echo_line(marker_for(nonce)), marker_for(nonce), p),
{
    let m = marker_for(nonce);
    let e = echo_line(m);
    let l = m.len() as int;
    lemma_echo_marker_positions(nonce);
    lemma_marker_starts_once(nonce);
    assert forall|p: int| !sentinel_at(e, m, p) by {
        if sentinel_at(e, m, p) {
            assert(e.subrange(p, p + l)[0] == m[0]);
            assert(e[p] == 72u8);
            if p == 5 {
                assert(e[p + l + 1] == 36u8);
                assert(digit_run_end(e, p + l + 1) == p + l + 1);
            } else {
                assert(p == 9 + l);
                assert(e[p + l] == 10u8);
            }
        }
    }
}

/// A byte a terminal shows as text: printable ASCII or a newline.
pub open spec fn printable(b: u8) -> bool {
    b == 10 || 0x20 <= b < 0x7f
}

/// The session adds only printable bytes around the command: when the command
/// is printable, so is everything injected for it.
pub proof fn lemma_injected_input_printable(cmd: Seq<u8>, nonce: u64)
    requires
        forall|i: int| 0 <= i < cmd.len() ==> printable(#[trigger] cmd[i]),
    ensures
        ({
            let input = injected_input(cmd, marker_for(nonce));
            forall|i: int| 0 <= i < input.len() ==> printable(#[trigger] input[i])
        }),
{
    let m = marker_for(nonce);
    let d = decimal(nonce as nat);
    lemma_decimal_digits(nonce as nat);
    assert forall|k: int| 0 <= k < m.len() implies printable(#[trigger] m[k]) by {
        if 5 <= k < m.len() - 1 {
            assert(m[k] == d[k - 5]);
            assert(is_digit(d[k - 5]));
        }
    }
    let input = injected_input(cmd, m);
    let c = cmd.len() as int;
    let l = m.len() as int;
    assert forall|i: int| 0 <= i < input.len() implies printable(#[trigger] input[i]) by {
        if i < c {
            assert(input[i] == cmd[i]);
        } else if i == c {
        } else if i < c + 6 {
            assert(input[i] == seq![101u8, 99u8, 104u8, 111u8, 32u8][i - c - 1]);
        } else if i < c + 6 + l {
            assert(input[i] == m[i - c - 6]);
        } else if i < c + 10 + l {
            assert(input[i] == seq![58u8, 36u8, 63u8, 58u8][i - c - 6 - l]);
        } else if i < c + 10 + 2 * l {
            assert(input[i] == m[i - c - 10 - l]);
        }
    }
}

/// While a session runs, its capture holds no short sentinel anywhere: every
/// sentinel whose status has at most [`STATUS_DIGITS`] digits is detected, so a
/// running session has seen none, however its output was split across feeds.
pub proof fn lemma_running_session_has_seen_no_short_sentinel(s: &ExecSession)
    requires
        s.wf(),
        s.done_view() is None,
    ensures
        forall|q: int| !short_sentinel_at(s.capture_view(), s.marker_view(), q),
{
}

/// A 64-bit value has at most 20 decimal digits.
pub proof fn lemma_decimal_len_u64(v: nat)
    requires
        v <= u64::MAX,
    ensures
        decimal(v).len() <= 20,
{
    reveal_with_fuel(pow10, 21);
    assert(pow10(20) == 100000000000000000000nat);
    lemma_decimal_len_bound(v, 20);
}

/// A value below `10^k` has at most `k` decimal digits.
pub proof fn lemma_decimal_len_bound(v: nat, k: nat)
    requires
        v < pow10(k),
        k >= 1,
    ensures
        decimal(v).len() <= k,
    decreases k,
{
    if v >= 10 {
        assert(v / 10 < pow10((k - 1) as nat)) by {
            assert(pow10(k) == 10 * pow10((k - 1) as nat));
        }
        if k == 1 {
            assert(pow10(1) == 10 * pow10(0));
        }
        lemma_decimal_len_bound(v / 10, (k - 1) as nat);
    }
}

pub open spec fn pow10(k: nat) -> nat
    decreases k,
{
    if k == 0 {
        1
    } else {
        10 * pow10((k - 1) as nat)
    }
}

} // verus!
