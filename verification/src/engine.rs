//! The run's decision core: what one candidate's invocation meant, how
//! the cutoff instant is computed, and how per-candidate results fold
//! into the final totals.
//!
//! The binary around the crate walks the directory tree, spawns the
//! cleanup command and renders progress; every decision in between is
//! made here, on plain values.

use crate::detect::Classification;
use crate::output::{parse_clean_output, parse_spec, CleanOutcome};
use crate::stats::CleanupStats;
use vstd::prelude::*;

verus! {

/// The outcome of one candidate directory in a run. Exactly one variant
/// holds per candidate.
#[derive(Clone, Copy, Debug, PartialEq, Eq, Structural)]
pub enum CleanupResult {
    /// Not a project, or modified too recently: nothing was invoked.
    Skipped,
    /// The command ran and removed nothing.
    NoOp,
    /// The command ran and removed this many files and this size, in
    /// millionths of a kibibyte.
    Cleaned { files: u64, size_micro_kib: u64 },
    /// The command exited unsuccessfully; the candidate contributes
    /// nothing.
    Failed,
}

/// A run-aborting fault: the command exited successfully but its output
/// did not carry a summary of the expected shape, so the freed space
/// cannot be accounted for.
#[derive(Clone, Copy, Debug, PartialEq, Eq, Structural)]
pub enum EngineError {
    FormatMismatch,
}

/// What one invocation's exit status and captured text mean: an
/// unsuccessful exit is a failed candidate; otherwise the text decides
/// between a no-op, a cleaned project, and a format mismatch.
pub open spec fn invocation_outcome(exit_success: bool, out: Seq<u8>) -> Result<
    CleanupResult,
    EngineError,
> {
    if !exit_success {
        Ok(CleanupResult::Failed)
    } else {
        match parse_spec(out) {
            CleanOutcome::NoOpRemoved => Ok(CleanupResult::NoOp),
            CleanOutcome::Removed { files, size_micro_kib } => Ok(
                CleanupResult::Cleaned { files, size_micro_kib },
            ),
            CleanOutcome::Unparseable => Err(EngineError::FormatMismatch),
        }
    }
}

/// Judges one invocation of the cleanup command from its exit status and
/// captured diagnostic bytes.
pub fn evaluate_invocation(exit_success: bool, output: &[u8]) -> (r: Result<
    CleanupResult,
    EngineError,
>)
    ensures
        r == invocation_outcome(exit_success, output@),
{
    if !exit_success {
        return Ok(CleanupResult::Failed);
    }
    match parse_clean_output(output) {
        CleanOutcome::NoOpRemoved => Ok(CleanupResult::NoOp),
        CleanOutcome::Removed { files, size_micro_kib } => Ok(
            CleanupResult::Cleaned { files, size_micro_kib },
        ),
        CleanOutcome::Unparseable => Err(EngineError::FormatMismatch),
    }
}

/// What one whole candidate amounts to: a directory that is not an
/// eligible project is skipped outright; an eligible one is judged by
/// its invocation, and an invocation that could not even be started —
/// `None` — is a failed candidate.
pub open spec fn candidate_outcome(
    c: Classification,
    invocation: Option<(bool, Seq<u8>)>,
) -> Result<CleanupResult, EngineError> {
    match c {
        Classification::Eligible => match invocation {
            Some(inv) => invocation_outcome(inv.0, inv.1),
            None => Ok(CleanupResult::Failed),
        },
        _ => Ok(CleanupResult::Skipped),
    }
}

/// Decides one candidate directory: its classification, and — where it
/// was eligible and the cleanup command could be spawned — the command's
/// exit status and captured diagnostic bytes.
pub fn candidate_step(c: Classification, invocation: Option<(bool, &[u8])>) -> (r: Result<
    CleanupResult,
    EngineError,
>)
    ensures
        r == candidate_outcome(
            c,
            match invocation {
                Some(inv) => Some((inv.0, inv.1@)),
                None => None,
            },
        ),
{
    match c {
        Classification::Eligible => match invocation {
            Some((exit_success, output)) => evaluate_invocation(exit_success, output),
            None => Ok(CleanupResult::Failed),
        },
        _ => Ok(CleanupResult::Skipped),
    }
}

/// The cutoff instant: the present minus the idle period, in seconds
/// since the epoch, saturating at the present itself when the period
/// reaches back past the epoch.
pub fn cutoff_from_now(now: u64, idle_seconds: u64) -> (r: u64)
    ensures
        idle_seconds <= now ==> r == now - idle_seconds,
        idle_seconds > now ==> r == now,
{
    match now.checked_sub(idle_seconds) {
        Some(c) => c,
        None => now,
    }
}

/// How many results are cleaned projects.
pub open spec fn count_cleaned(rs: Seq<CleanupResult>) -> nat
    decreases rs.len(),
{
    if rs.len() == 0 {
        0
    } else {
        count_cleaned(rs.drop_last()) + match rs.last() {
            CleanupResult::Cleaned { .. } => 1 as nat,
            _ => 0 as nat,
        }
    }
}

/// The files removed, summed over the cleaned results.
pub open spec fn sum_files(rs: Seq<CleanupResult>) -> nat
    decreases rs.len(),
{
    if rs.len() == 0 {
        0
    } else {
        sum_files(rs.drop_last()) + match rs.last() {
            CleanupResult::Cleaned { files, .. } => files as nat,
            _ => 0 as nat,
        }
    }
}

/// The size removed in millionths of a kibibyte, summed over the cleaned
/// results.
pub open spec fn sum_size(rs: Seq<CleanupResult>) -> nat
    decreases rs.len(),
{
    if rs.len() == 0 {
        0
    } else {
        sum_size(rs.drop_last()) + match rs.last() {
            CleanupResult::Cleaned { size_micro_kib, .. } => size_micro_kib as nat,
            _ => 0 as nat,
        }
    }
}

/// Every leading part of a run contributes no more than the whole run.
proof fn lemma_sums_prefix_le(rs: Seq<CleanupResult>, i: int)
    requires
        0 <= i <= rs.len(),
    ensures
        count_cleaned(rs.take(i)) <= count_cleaned(rs),
        sum_files(rs.take(i)) <= sum_files(rs),
        sum_size(rs.take(i)) <= sum_size(rs),
    decreases rs.len() - i,
{
    if i < rs.len() {
        lemma_sums_prefix_le(rs, i + 1);
        assert(rs.take(i + 1).drop_last() =~= rs.take(i));
        assert(rs.take(i + 1).last() == rs[i]);
    } else {
        assert(rs.take(i) =~= rs);
    }
}

/// Law: folding a whole run yields totals that are exactly the number of
/// cleaned results, the sum of their file counts, and the sum of their
/// sizes; the other result kinds contribute nothing.
pub fn aggregate(results: &Vec<CleanupResult>) -> (s: CleanupStats)
    requires
        count_cleaned(results@) <= u64::MAX,
        sum_files(results@) <= u128::MAX,
        sum_size(results@) <= u128::MAX,
    ensures
        s.projects == count_cleaned(results@),
        s.files == sum_files(results@),
        s.size_micro_kib == sum_size(results@),
{
    let mut s = CleanupStats::new();
    let mut i: usize = 0;
    while i < results.len()
        invariant
            0 <= i <= results@.len(),
            count_cleaned(results@) <= u64::MAX,
            sum_files(results@) <= u128::MAX,
            sum_size(results@) <= u128::MAX,
            s.projects == count_cleaned(results@.take(i as int)),
            s.files == sum_files(results@.take(i as int)),
            s.size_micro_kib == sum_size(results@.take(i as int)),
        decreases results@.len() - i,
    {
        proof {
            assert(results@.take(i + 1).drop_last() =~= results@.take(i as int));
            assert(results@.take(i + 1).last() == results@[i as int]);
            lemma_sums_prefix_le(results@, i + 1);
        }
        match results[i] {
            CleanupResult::Cleaned { files, size_micro_kib } => {
                let ok = s.record(files, size_micro_kib);
                assert(ok);
            }
            _ => {
            }
        }
        i += 1;
    }
    proof {
        assert(results@.take(i as int) =~= results@);
    }
    s
}

} // verus!
