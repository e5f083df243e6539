//! The control-plane state a snapshot carries: the consumed and pending input
//! plans, the schedule failure that poisoned the session (if any), and the
//! next exec nonce.
//!
//! The record is `HCSTATE1`, the two plan lengths and the nonce as
//! little-endian 64-bit integers, a poison tag (`0`, or `1` followed by the
//! failed moment and virtual time), and then the two plans in their own
//! encodings. Decoding is strict: the record is framed here, the plans are
//! decoded by their own codec, and [`finish_decode`] holds the decoded plans
//! to the consistency rules a restorable control state obeys.

use vstd::prelude::*;
use vstd::bytes::{spec_u64_from_le_bytes, spec_u64_to_le_bytes};
use crate::text::append;
use crate::wire::{number, put_u64, take};

verus! {

/// A staged schedule entry that could not be satisfied: the moment it was
/// staged for and the virtual time at which the run passed it.
#[derive(Clone, Copy, Debug, PartialEq, Eq)]
pub struct ScheduleFailure {
    pub moment: u64,
    pub vtime: u64,
}

/// The control state: the recorded (consumed) and pending input plans, each
/// in its own encoding, the failure that poisoned the session, and the next
/// exec nonce.
#[derive(Clone, Debug, PartialEq, Eq)]
pub struct ControlState {
    pub recorded: Vec<u8>,
    pub pending: Vec<u8>,
    pub poisoned: Option<ScheduleFailure>,
    pub exec_nonce: u64,
}

/// A framed control state and whether bytes follow the pending plan.
#[derive(Clone, Debug, PartialEq, Eq)]
pub struct ControlFrame {
    pub state: ControlState,
    pub trailing: bool,
}

/// `HCSTATE1`.
pub open spec fn control_magic() -> Seq<u8> {
    seq![72u8, 67u8, 83u8, 84u8, 65u8, 84u8, 69u8, 49u8]
}

/// The poison tag and, when poisoned, the failed moment and virtual time.
pub open spec fn failure_bytes(poisoned: Option<ScheduleFailure>) -> Seq<u8> {
    match poisoned {
        None => seq![0u8],
        Some(f) => seq![1u8] + spec_u64_to_le_bytes(f.moment) + spec_u64_to_le_bytes(f.vtime),
    }
}

/// The record of a control state whose plans encode to `recorded` and
/// `pending`.
pub open spec fn control_record(
    recorded: Seq<u8>,
    pending: Seq<u8>,
    poisoned: Option<ScheduleFailure>,
    exec_nonce: u64,
) -> Seq<u8> {
    control_magic() + spec_u64_to_le_bytes(recorded.len() as u64) + spec_u64_to_le_bytes(
        pending.len() as u64,
    ) + spec_u64_to_le_bytes(exec_nonce) + failure_bytes(poisoned) + recorded + pending
}

/// The little-endian 64-bit integer at `o`.
pub open spec fn u64_at(b: Seq<u8>, o: int) -> u64 {
    spec_u64_from_le_bytes(b.subrange(o, o + 8))
}

/// The error of a read past the end of the record.
pub open spec fn control_truncated() -> Seq<char> {
    "truncated control state"@
}

/// The plan bytes, the poison, the nonce, and whether bytes trail.
pub type FrameView = (Seq<u8>, Seq<u8>, Option<ScheduleFailure>, u64, bool);

/// What framing `b` yields: nothing for the empty record (a snapshot from
/// before control state was recorded), the framed fields, or the first error
/// a strict left-to-right read meets.
pub open spec fn frame_spec(b: Seq<u8>) -> Result<Option<FrameView>, Seq<char>> {
    if b.len() == 0 {
        Ok(None)
    } else if b.len() < 8 {
        Err(control_truncated())
    } else if b.subrange(0, 8) != control_magic() {
        Err("control state magic"@)
    } else if b.len() < 16 {
        Err(control_truncated())
    } else if u64_at(b, 8) > usize::MAX {
        Err("control length"@)
    } else if b.len() < 24 {
        Err(control_truncated())
    } else if u64_at(b, 16) > usize::MAX {
        Err("control length"@)
    } else if b.len() < 33 {
        Err(control_truncated())
    } else if b[32] != 0 && b[32] != 1 {
        Err("control failure tag"@)
    } else {
        let rl = u64_at(b, 8) as int;
        let pl = u64_at(b, 16) as int;
        let p: int = if b[32] == 0 {
            33
        } else {
            49
        };
        if b.len() < p || p + rl + pl > b.len() {
            Err(control_truncated())
        } else {
            let poisoned = if b[32] == 0 {
                None
            } else {
                Some(ScheduleFailure { moment: u64_at(b, 33), vtime: u64_at(b, 41) })
            };
            Ok(
                Some(
                    (
                        b.subrange(p, p + rl),
                        b.subrange(p + rl, p + rl + pl),
                        poisoned,
                        u64_at(b, 24),
                        p + rl + pl < b.len(),
                    ),
                ),
            )
        }
    }
}

/// The view of a framed control state.
pub open spec fn frame_view(f: ControlFrame) -> FrameView {
    (f.state.recorded@, f.state.pending@, f.state.poisoned, f.state.exec_nonce, f.trailing)
}

impl ControlState {
    /// The record of this control state.
    pub open spec fn record(&self) -> Seq<u8> {
        control_record(self.recorded@, self.pending@, self.poisoned, self.exec_nonce)
    }

    /// Encodes the control state record.
    pub fn encode(&self) -> (r: Vec<u8>)
        ensures
            r@ == self.record(),
    {
        let mut out: Vec<u8> = Vec::new();
        out.push(72u8);
        out.push(67u8);
        out.push(83u8);
        out.push(84u8);
        out.push(65u8);
        out.push(84u8);
        out.push(69u8);
        out.push(49u8);
        put_u64(&mut out, self.recorded.len() as u64);
        put_u64(&mut out, self.pending.len() as u64);
        put_u64(&mut out, self.exec_nonce);
        match self.poisoned {
            None => out.push(0u8),
            Some(f) => {
                out.push(1u8);
                put_u64(&mut out, f.moment);
                put_u64(&mut out, f.vtime);
            },
        }
        append(&mut out, self.recorded.as_slice());
        append(&mut out, self.pending.as_slice());
        assert(out@ =~= self.record());
        out
    }

    /// Appends this control state to a state-hash suffix as a `CPLN` section:
    /// the tag, the record length, and the record.
    pub fn append_hash(&self, suffix: &mut Vec<u8>)
        ensures
            final(suffix)@ == old(suffix)@ + seq![67u8, 80u8, 76u8, 78u8] + spec_u64_to_le_bytes(
                self.record().len() as u64,
            ) + self.record(),
    {
        let state = self.encode();
        suffix.push(67u8);
        suffix.push(80u8);
        suffix.push(76u8);
        suffix.push(78u8);
        put_u64(suffix, state.len() as u64);
        append(suffix, state.as_slice());
    }
}

/// Frames a control-state record (see [`frame_spec`]); the plans themselves
/// are left encoded.
pub fn decode_frame(bytes: &[u8]) -> (r: Result<Option<ControlFrame>, &'static str>)
    ensures
        match frame_spec(bytes@) {
            Ok(None) => r matches Ok(None),
            Ok(Some(v)) => r matches Ok(Some(f)) && frame_view(f) == v,
            Err(m) => r matches Err(e) && e@ == m,
        },
{
    if bytes.len() == 0 {
        return Ok(None);
    }
    let ghost b = bytes@;
    let mut input = bytes;
    let head = take(&mut input, 8)?;
    if !(head[0] == 72u8 && head[1] == 67u8 && head[2] == 83u8 && head[3] == 84u8 && head[4]
        == 65u8 && head[5] == 84u8 && head[6] == 69u8 && head[7] == 49u8) {
        proof {
            if b.subrange(0, 8) == control_magic() {
                assert(head@[0] == b.subrange(0, 8)[0]);
                assert(head@[1] == b.subrange(0, 8)[1]);
                assert(head@[2] == b.subrange(0, 8)[2]);
                assert(head@[3] == b.subrange(0, 8)[3]);
                assert(head@[4] == b.subrange(0, 8)[4]);
                assert(head@[5] == b.subrange(0, 8)[5]);
                assert(head@[6] == b.subrange(0, 8)[6]);
                assert(head@[7] == b.subrange(0, 8)[7]);
            }
        }
        return Err("control state magic");
    }
    assert(b.subrange(0, 8) =~= control_magic());
    assert(input@ =~= b.subrange(8, b.len() as int));
    let recorded_raw = number(&mut input)?;
    assert(input@.subrange(0, 0) =~= Seq::<u8>::empty());
    assert(b.subrange(8, b.len() as int).subrange(0, 8) =~= b.subrange(8, 16));
    if recorded_raw > usize::MAX as u64 {
        return Err("control length");
    }
    assert(input@ =~= b.subrange(16, b.len() as int));
    let pending_raw = number(&mut input)?;
    assert(b.subrange(16, b.len() as int).subrange(0, 8) =~= b.subrange(16, 24));
    if pending_raw > usize::MAX as u64 {
        return Err("control length");
    }
    let recorded_len = recorded_raw as usize;
    let pending_len = pending_raw as usize;
    assert(input@ =~= b.subrange(24, b.len() as int));
    let exec_nonce = number(&mut input)?;
    assert(b.subrange(24, b.len() as int).subrange(0, 8) =~= b.subrange(24, 32));
    assert(input@ =~= b.subrange(32, b.len() as int));
    let tag_bytes = take(&mut input, 1)?;
    let tag = tag_bytes[0];
    assert(tag == b[32]);
    assert(input@ =~= b.subrange(33, b.len() as int));
    let poisoned = if tag == 0u8 {
        None
    } else if tag == 1u8 {
        let moment = number(&mut input)?;
        assert(b.subrange(33, b.len() as int).subrange(0, 8) =~= b.subrange(33, 41));
        assert(input@ =~= b.subrange(41, b.len() as int));
        let vtime = number(&mut input)?;
        assert(b.subrange(41, b.len() as int).subrange(0, 8) =~= b.subrange(41, 49));
        assert(input@ =~= b.subrange(49, b.len() as int));
        Some(ScheduleFailure { moment, vtime })
    } else {
        return Err("control failure tag");
    };
    let ghost p: int = if tag == 0 {
        33
    } else {
        49
    };
    assert(input@ =~= b.subrange(p, b.len() as int));
    let recorded = take(&mut input, recorded_len)?;
    assert(recorded@ =~= b.subrange(p, p + recorded_len));
    assert(input@ =~= b.subrange(p + recorded_len, b.len() as int));
    let pending = take(&mut input, pending_len)?;
    assert(pending@ =~= b.subrange(p + recorded_len, p + recorded_len + pending_len));
    let trailing = input.len() > 0;
    let mut recorded_vec: Vec<u8> = Vec::new();
    append(&mut recorded_vec, recorded);
    let mut pending_vec: Vec<u8> = Vec::new();
    append(&mut pending_vec, pending);
    Ok(
        Some(
            ControlFrame {
                state: ControlState {
                    recorded: recorded_vec,
                    pending: pending_vec,
                    poisoned,
                    exec_nonce,
                },
                trailing,
            },
        ),
    )
}

/// Decoding a control state's record frames exactly that state, with nothing
/// trailing.
pub proof fn lemma_control_record_round_trip(
    recorded: Seq<u8>,
    pending: Seq<u8>,
    poisoned: Option<ScheduleFailure>,
    exec_nonce: u64,
)
    requires
        recorded.len() <= usize::MAX,
        pending.len() <= usize::MAX,
    ensures
        frame_spec(control_record(recorded, pending, poisoned, exec_nonce)) == Ok::<
            Option<FrameView>,
            Seq<char>,
        >(Some((recorded, pending, poisoned, exec_nonce, false))),
{
    vstd::bytes::lemma_auto_spec_u64_to_from_le_bytes();
    let b = control_record(recorded, pending, poisoned, exec_nonce);
    let rl = spec_u64_to_le_bytes(recorded.len() as u64);
    let pl = spec_u64_to_le_bytes(pending.len() as u64);
    let nl = spec_u64_to_le_bytes(exec_nonce);
    assert(b.subrange(0, 8) =~= control_magic());
    assert(b.subrange(8, 16) =~= rl);
    assert(b.subrange(16, 24) =~= pl);
    assert(b.subrange(24, 32) =~= nl);
    assert(b[32] == failure_bytes(poisoned)[0]);
    let p: int = if poisoned is None {
        33
    } else {
        49
    };
    match poisoned {
        None => {},
        Some(f) => {
            assert(b.subrange(33, 41) =~= spec_u64_to_le_bytes(f.moment));
            assert(b.subrange(41, 49) =~= spec_u64_to_le_bytes(f.vtime));
        },
    }
    assert(b.subrange(p, p + recorded.len()) =~= recorded);
    assert(b.subrange(p + recorded.len(), p + recorded.len() + pending.len()) =~= pending);
}

/// A record that frames with nothing trailing is exactly the record of the
/// state it frames: the encoding is canonical.
pub proof fn lemma_control_record_canonical(b: Seq<u8>)
    requires
        frame_spec(b) matches Ok(Some(v)) && !v.4,
    ensures
        ({
            let v = frame_spec(b)->Ok_0->Some_0;
            control_record(v.0, v.1, v.2, v.3) == b
        }),
{
    vstd::bytes::lemma_auto_spec_u64_to_from_le_bytes();
    let v = frame_spec(b)->Ok_0->Some_0;
    let r = control_record(v.0, v.1, v.2, v.3);
    let p: int = if b[32] == 0 {
        33
    } else {
        49
    };
    assert(spec_u64_to_le_bytes(u64_at(b, 8)) == b.subrange(8, 16));
    assert(spec_u64_to_le_bytes(u64_at(b, 16)) == b.subrange(16, 24));
    assert(spec_u64_to_le_bytes(u64_at(b, 24)) == b.subrange(24, 32));
    if b[32] == 1 {
        assert(spec_u64_to_le_bytes(u64_at(b, 33)) == b.subrange(33, 41));
        assert(spec_u64_to_le_bytes(u64_at(b, 41)) == b.subrange(41, 49));
        assert(failure_bytes(v.2) =~= b.subrange(32, 49));
    } else {
        assert(failure_bytes(v.2) =~= b.subrange(32, 33));
    }
    assert(v.0.len() == u64_at(b, 8));
    assert(v.1.len() == u64_at(b, 16));
    assert(r =~= b);
}

// ---------------------------------------------------------------------------
// Consistency of the decoded plans.
// ---------------------------------------------------------------------------

/// What the consistency rules read of a decoded input plan: its seed, whether
/// its service configuration is the default one, whether it carries payloads or
/// recorded answers, and the moments of its staged effects and reseeds.
#[derive(Clone, Debug, PartialEq, Eq)]
pub struct PlanSummary {
    pub seed: u64,
    pub default_config: bool,
    pub has_payloads: bool,
    pub has_answers: bool,
    pub effect_moments: Vec<u64>,
    pub reseed_moments: Vec<u64>,
}

/// Whether a plan carries guest-SDK inputs, which only a recorded plan may.
pub open spec fn carries_sdk_inputs(p: &PlanSummary) -> bool {
    p.seed != 0 || !p.default_config || p.has_payloads || p.has_answers
}

/// Whether some moment of `a` is also a moment of `b`.
pub open spec fn shares_moment(a: Seq<u64>, b: Seq<u64>) -> bool {
    exists|i: int| 0 <= i < a.len() && b.contains(#[trigger] a[i])
}

/// What finishing a decode yields, given the framed record and each plan's
/// decoded summary (`None` where the plan did not decode): the framed state, or
/// the first rule it breaks.
pub open spec fn finish_spec(
    frame: ControlFrame,
    recorded: Option<&PlanSummary>,
    pending: Option<&PlanSummary>,
) -> Result<ControlState, Seq<char>> {
    match (recorded, pending) {
        (None, _) => Err("recorded control inputs"@),
        (Some(_), None) => Err("pending control inputs"@),
        (Some(rec), Some(pen)) => if frame.trailing {
            Err("trailing control state"@)
        } else if carries_sdk_inputs(pen) {
            Err("pending control plan contains SDK inputs"@)
        } else if shares_moment(pen.effect_moments@, rec.effect_moments@) || shares_moment(
            pen.reseed_moments@,
            rec.reseed_moments@,
        ) {
            Err("control input is both pending and consumed"@)
        } else if frame.state.poisoned matches Some(f) && !pen.effect_moments@.contains(f.moment)
            && !pen.reseed_moments@.contains(f.moment) {
            Err("failed control moment is absent from the pending plan"@)
        } else {
            Ok(frame.state)
        },
    }
}

/// Whether `x` is among `v`.
fn contains_moment(v: &[u64], x: u64) -> (r: bool)
    ensures
        r == v@.contains(x),
{
    let n = v.len();
    let mut i: usize = 0;
    while i < n
        invariant
            n == v@.len(),
            i <= n,
            forall|k: int| 0 <= k < i ==> v@[k] != x,
        decreases n - i,
    {
        if v[i] == x {
            assert(v@[i as int] == x);
            return true;
        }
        i = i + 1;
    }
    false
}

/// Whether some moment of `a` is also a moment of `b`.
fn share_moment(a: &[u64], b: &[u64]) -> (r: bool)
    ensures
        r == shares_moment(a@, b@),
{
    let n = a.len();
    let mut i: usize = 0;
    while i < n
        invariant
            n == a@.len(),
            i <= n,
            forall|k: int| 0 <= k < i ==> !b@.contains(#[trigger] a@[k]),
        decreases n - i,
    {
        if contains_moment(b, a[i]) {
            return true;
        }
        i = i + 1;
    }
    false
}

/// Holds a framed control state to the rules of a restorable one (see
/// [`finish_spec`]), given what each of its plans decoded to.
pub fn finish_decode(
    frame: ControlFrame,
    recorded: Option<&PlanSummary>,
    pending: Option<&PlanSummary>,
) -> (r: Result<ControlState, &'static str>)
    ensures
        match finish_spec(frame, recorded, pending) {
            Ok(s) => r == Ok::<ControlState, &'static str>(s),
            Err(m) => r matches Err(e) && e@ == m,
        },
{
    let rec = match recorded {
        Some(p) => p,
        None => return Err("recorded control inputs"),
    };
    let pen = match pending {
        Some(p) => p,
        None => return Err("pending control inputs"),
    };
    if frame.trailing {
        return Err("trailing control state");
    }
    if pen.seed != 0 || !pen.default_config || pen.has_payloads || pen.has_answers {
        return Err("pending control plan contains SDK inputs");
    }
    if share_moment(pen.effect_moments.as_slice(), rec.effect_moments.as_slice()) || share_moment(
        pen.reseed_moments.as_slice(),
        rec.reseed_moments.as_slice(),
    ) {
        return Err("control input is both pending and consumed");
    }
    if let Some(f) = frame.state.poisoned {
        if !contains_moment(pen.effect_moments.as_slice(), f.moment) && !contains_moment(
            pen.reseed_moments.as_slice(),
            f.moment,
        ) {
            return Err("failed control moment is absent from the pending plan");
        }
    }
    Ok(frame.state)
}

} // verus!
