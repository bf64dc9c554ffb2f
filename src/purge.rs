//! Removing a scratch directory that a writer may still be filling: retry
//! while it is not empty, within a time budget.
use vstd::prelude::*;

verus! {

/// How long a removal may keep retrying, in milliseconds.
pub const REMOVE_BUDGET_MS: u64 = 10000;

/// The outcome of one attempt to remove a directory recursively.
#[derive(PartialEq, Eq, Structural, Clone, Copy, Debug)]
pub enum RemoveAttempt {
    Removed,
    /// The directory did not exist.
    NotFound,
    /// A writer put something in it meanwhile.
    NotEmpty,
    /// Any other failure.
    Failed,
}

/// What to do after an attempt.
#[derive(PartialEq, Eq, Structural, Clone, Copy, Debug)]
pub enum RemovalStep {
    /// The directory is gone; nothing to report.
    Done,
    /// Try the same removal again.
    Retry,
    /// Give up and log the failure.
    GiveUp,
    /// Give up and log that the budget ran out.
    TimedOut,
}

/// The step after `attempt`, made `elapsed_ms` after the first attempt.
pub open spec fn removal_step_of(attempt: RemoveAttempt, elapsed_ms: u64) -> RemovalStep {
    match attempt {
        RemoveAttempt::Removed | RemoveAttempt::NotFound => RemovalStep::Done,
        RemoveAttempt::Failed => RemovalStep::GiveUp,
        RemoveAttempt::NotEmpty => if elapsed_ms > REMOVE_BUDGET_MS {
            RemovalStep::TimedOut
        } else {
            RemovalStep::Retry
        },
    }
}

/// Decides what follows an attempt: a directory that is gone, or was never
/// there, is done with; one that is not empty is tried again until the
/// budget is spent; any other failure ends the removal.
pub fn removal_step(attempt: RemoveAttempt, elapsed_ms: u64) -> (r: RemovalStep)
    ensures
        r == removal_step_of(attempt, elapsed_ms),
{
    match attempt {
        RemoveAttempt::Removed => RemovalStep::Done,
        RemoveAttempt::NotFound => RemovalStep::Done,
        RemoveAttempt::Failed => RemovalStep::GiveUp,
        RemoveAttempt::NotEmpty => {
            if elapsed_ms > REMOVE_BUDGET_MS {
                RemovalStep::TimedOut
            } else {
                RemovalStep::Retry
            }
        },
    }
}

pub open spec fn classify_of(code: Option<i32>, not_found: i32, not_empty: i32) -> RemoveAttempt {
    match code {
        Some(c) => if c == not_found {
            RemoveAttempt::NotFound
        } else if c == not_empty {
            RemoveAttempt::NotEmpty
        } else {
            RemoveAttempt::Failed
        },
        None => RemoveAttempt::Failed,
    }
}

/// The attempt that a failed removal with OS error code `code` stands for,
/// given the platform's codes for "no such file or directory"
/// (`not_found`) and "directory not empty" (`not_empty`). Every other
/// failure, one without a code too, is `Failed`.
pub fn classify_os_error(code: Option<i32>, not_found: i32, not_empty: i32) -> (r: RemoveAttempt)
    ensures
        r == classify_of(code, not_found, not_empty),
{
    match code {
        None => RemoveAttempt::Failed,
        Some(c) => {
            if c == not_found {
                RemoveAttempt::NotFound
            } else if c == not_empty {
                RemoveAttempt::NotEmpty
            } else {
                RemoveAttempt::Failed
            }
        },
    }
}

/// Removing a path that is already gone is done with at once, silently:
/// a second removal has the effect of none.
pub proof fn lemma_missing_path_removal_silent(not_found: i32, not_empty: i32, elapsed_ms: u64)
    ensures
        removal_step_of(classify_of(Some(not_found), not_found, not_empty), elapsed_ms) == RemovalStep::Done,
{
}

/// A removal that is retried ends, whatever the attempts give, once the
/// clock has passed the budget.
pub proof fn lemma_removal_ends_after_budget(attempt: RemoveAttempt, elapsed_ms: u64)
    requires
        elapsed_ms > REMOVE_BUDGET_MS,
    ensures
        removal_step_of(attempt, elapsed_ms) != RemovalStep::Retry,
{
}

/// Removing a directory that does not exist succeeds, and nothing is
/// reported, however long the removal has been going.
pub proof fn lemma_missing_dir_is_done(elapsed_ms: u64)
    ensures
        removal_step_of(RemoveAttempt::NotFound, elapsed_ms) == RemovalStep::Done,
{
}

/// A directory that a writer holds non-empty is tried again for as long as
/// the budget lasts, and is done with once an attempt removes it.
pub proof fn lemma_busy_dir_retried_within_budget(elapsed_ms: u64)
    requires
        elapsed_ms <= REMOVE_BUDGET_MS,
    ensures
        removal_step_of(RemoveAttempt::NotEmpty, elapsed_ms) == RemovalStep::Retry,
        removal_step_of(RemoveAttempt::Removed, elapsed_ms) == RemovalStep::Done,
{
}

} // verus!
