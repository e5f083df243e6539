//! The progress of a corpus machine: one payload run to its terminal state,
//! observed by determinism and conformance oracles.
//!
//! A corpus payload always runs to a terminal state, so a machine's work count
//! is `0` before its single run and `1` after it. A request to run to a target
//! below the current work count is a rewind, which machines refuse before
//! anything else; the first accepted request runs the payload, and a failed run
//! is recorded rather than mistaken for a pass. The determinism hash folds the
//! observable digest of the report stream into the monitor's state hash, so a
//! run that diverges only on the report channel still hashes differently.

use vstd::prelude::*;
use crate::digest::{sha256, sha256_spec};
use crate::text::append;

verus! {

/// A request to run a machine backwards: `target` is below its work count.
#[derive(Clone, Copy, Debug, PartialEq, Eq)]
pub struct TargetBehind {
    pub target: u64,
    pub current: u64,
}

/// What a corpus machine has done: whether its payload has run, and how that
/// run failed, if it did.
#[derive(Clone, Debug)]
pub struct CorpusProgress {
    ran: bool,
    error: Option<String>,
}

impl CorpusProgress {
    /// Whether the payload has run.
    pub closed spec fn ran_view(&self) -> bool {
        self.ran
    }

    /// How the run failed, if it did.
    pub closed spec fn error_view(&self) -> Option<Seq<char>> {
        match self.error {
            Some(e) => Some(e@),
            None => None,
        }
    }

    /// The work count: `0` before the run, `1` after.
    pub open spec fn work_view(&self) -> u64 {
        if self.ran_view() {
            1
        } else {
            0
        }
    }

    /// A machine that has not run.
    pub fn new() -> (p: Self)
        ensures
            !p.ran_view(),
            p.error_view() is None,
    {
        CorpusProgress { ran: false, error: None }
    }

    /// The work count (see [`CorpusProgress::work_view`]).
    pub fn work(&self) -> (r: u64)
        ensures
            r == self.work_view(),
    {
        if self.ran {
            1
        } else {
            0
        }
    }

    /// Decides a request to run to `target`: a target below the work count is
    /// refused as a rewind and changes nothing; otherwise the result says
    /// whether the payload must run now (only the first time), after which the
    /// machine counts as run.
    pub fn begin_run_to(&mut self, target: u64) -> (r: Result<bool, TargetBehind>)
        ensures
            target < old(self).work_view() ==> r == Err::<bool, TargetBehind>(
                TargetBehind { target, current: old(self).work_view() },
            ) && *final(self) == *old(self),
            target >= old(self).work_view() ==> r == Ok::<bool, TargetBehind>(!old(self).ran_view())
                && final(self).ran_view() && final(self).error_view() == old(self).error_view(),
    {
        let current = self.work();
        if target < current {
            return Err(TargetBehind { target, current });
        }
        let must_run = !self.ran;
        self.ran = true;
        Ok(must_run)
    }

    /// Records how the run failed.
    pub fn record_run_error(&mut self, error: String)
        ensures
            final(self).ran_view() == old(self).ran_view(),
            final(self).error_view() == Some(error@),
    {
        self.error = Some(error);
    }

    /// How the run failed: `None` on a clean run and before any run.
    pub fn run_error(&self) -> (r: Option<&str>)
        ensures
            match self.error_view() {
                Some(e) => r matches Some(s) && s@ == e,
                None => r is None,
            },
    {
        match &self.error {
            Some(e) => Some(e.as_str()),
            None => None,
        }
    }
}

/// The determinism hash of a corpus machine: SHA-256 over the monitor's state
/// hash followed by the observable digest of its report stream.
pub fn corpus_state_hash(vmm_state_hash: &[u8; 32], observable_digest: &[u8; 32]) -> (r: [u8; 32])
    ensures
        r@ == sha256_spec(vmm_state_hash@ + observable_digest@),
{
    let mut pre: Vec<u8> = Vec::new();
    append(&mut pre, vmm_state_hash.as_slice());
    append(&mut pre, observable_digest.as_slice());
    sha256(pre.as_slice())
}

} // verus!
