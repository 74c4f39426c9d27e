//! The decisions of the git store: which references a branch reads and
//! writes, commit messages, when a branch is pushed, and how the background
//! sync backs off after failures.
use vstd::prelude::*;
use crate::text::push_str;

verus! {

/// Author information for a commit.
pub struct Author {
    pub name: String,
    pub email: String,
}

/// The references a read or write on a branch goes through.
pub struct BranchRefs {
    /// The branch, `prime` when none is given.
    pub branch: String,
    /// `refs/remotes/origin/{branch}`, read first.
    pub remote_ref: String,
    /// `refs/remotes/origin/prime`, read when the branch has no remote ref.
    pub fallback_ref: String,
    /// `refs/heads/{branch}`, the local branch a write commits to.
    pub local_ref: String,
}

pub open spec fn branch_or_prime(branch_name: Option<Seq<char>>) -> Seq<char> {
    match branch_name {
        Some(b) => b,
        None => "prime"@,
    }
}

/// The references of `branch_name`, or of `prime` when it is `None`.
pub fn branch_refs(branch_name: Option<&str>) -> (r: BranchRefs)
    ensures
        r.branch@ == branch_or_prime(match branch_name {
            Some(b) => Some(b@),
            None => None,
        }),
        r.remote_ref@ == "refs/remotes/origin/"@ + r.branch@,
        r.fallback_ref@ == "refs/remotes/origin/prime"@,
        r.local_ref@ == "refs/heads/"@ + r.branch@,
{
    let branch = match branch_name {
        Some(b) => b.to_owned(),
        None => "prime".to_owned(),
    };
    let mut remote_ref = "refs/remotes/origin/".to_owned();
    push_str(&mut remote_ref, branch.as_str());
    let mut local_ref = "refs/heads/".to_owned();
    push_str(&mut local_ref, branch.as_str());
    BranchRefs { branch, remote_ref, fallback_ref: "refs/remotes/origin/prime".to_owned(), local_ref }
}

/// The message of the commit that writes `relative_path`.
pub fn commit_message(relative_path: &str) -> (r: String)
    ensures
        r@ == "Update "@ + relative_path@,
{
    let mut r = "Update ".to_owned();
    push_str(&mut r, relative_path);
    r
}

/// The refspec that pushes the local branch to the same branch of origin.
pub fn push_refspec(branch: &str) -> (r: String)
    ensures
        r@ == "refs/heads/"@ + branch@ + ":refs/heads/"@ + branch@,
{
    let mut r = "refs/heads/".to_owned();
    push_str(&mut r, branch);
    push_str(&mut r, ":refs/heads/");
    push_str(&mut r, branch);
    r
}

/// A local branch is pushed unless its remote branch exists and it is not
/// ahead of it; `ahead` is how many commits it is ahead, `None` when the
/// remote branch or its commit cannot be found.
pub fn push_needed(ahead: Option<usize>) -> (b: bool)
    ensures
        b == match ahead {
            Some(n) => n > 0,
            None => true,
        },
{
    match ahead {
        Some(n) => n > 0,
        None => true,
    }
}

/// The longest pause between failed syncs, in milliseconds.
pub const MAX_BACKOFF_MS: u64 = 30000;

/// The background sync's timing: the regular interval and the pause after
/// the next failure, in milliseconds.
pub struct SyncBackoff {
    pub interval_ms: u64,
    pub backoff_ms: u64,
}

impl SyncBackoff {
    /// The pause after a failure is the interval itself or at most the cap.
    pub open spec fn wf(self) -> bool {
        self.backoff_ms == self.interval_ms || self.backoff_ms <= MAX_BACKOFF_MS
    }

    /// A fresh state: the pause after a failure starts at the interval.
    pub fn new(interval_ms: u64) -> (s: SyncBackoff)
        ensures
            s.interval_ms == interval_ms,
            s.backoff_ms == interval_ms,
            s.wf(),
    {
        SyncBackoff { interval_ms, backoff_ms: interval_ms }
    }

    /// After an attempt: how long to sleep, and the new state. A success
    /// sleeps the interval and resets the pause; a failure sleeps the pause
    /// and doubles it, up to the cap.
    pub fn after_attempt(&mut self, succeeded: bool) -> (sleep_ms: u64)
        requires
            old(self).wf(),
        ensures
            final(self).wf(),
            final(self).interval_ms == old(self).interval_ms,
            succeeded ==> sleep_ms == old(self).interval_ms && final(self).backoff_ms == old(self).interval_ms,
            !succeeded ==> sleep_ms == old(self).backoff_ms && final(self).backoff_ms == (if 2 * old(self).backoff_ms
                < MAX_BACKOFF_MS {
                2 * old(self).backoff_ms
            } else {
                MAX_BACKOFF_MS as int
            }),
    {
        if succeeded {
            self.backoff_ms = self.interval_ms;
            self.interval_ms
        } else {
            let sleep = self.backoff_ms;
            self.backoff_ms = if self.backoff_ms < MAX_BACKOFF_MS / 2 {
                self.backoff_ms * 2
            } else {
                MAX_BACKOFF_MS
            };
            sleep
        }
    }
}

/// Every pause of the background sync is at most the larger of the
/// interval and the cap.
pub proof fn law_sync_pause_bounded(s: SyncBackoff)
    requires
        s.wf(),
    ensures
        s.backoff_ms <= (if s.interval_ms > MAX_BACKOFF_MS {
            s.interval_ms
        } else {
            MAX_BACKOFF_MS
        }),
{
}

} // verus!
