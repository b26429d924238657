//! A flag record and the rules by which its state moves.
//!
//! A flag starts `Pending`. It is eligible for submission while it is
//! `Pending`, or in `Error` with a retry count within the configured maximum.
//! Only an eligible flag moves:
//!
//! | Event, for an attempt or check at time `t` | New state |
//! |---|---|
//! | anything, once `first_seen + scoring_window < t` | `Expired` |
//! | verdict `Valid` | `Valid` |
//! | verdict `AlreadySubmitted` | `AlreadySubmitted` |
//! | verdict `Invalid` | `Invalid` |
//! | verdict `Expired` | `Expired` |
//! | verdict `Own` | `Own` |
//! | verdict `NOPTeam` | `NOPTeam` |
//! | verdict `Error`, or a retryable failure | `Error`, retry counter one higher |
//! | a failure that is not retryable | `Error`, retry counter set past the maximum |
//!
//! A flag in `Error` whose retry counter exceeds the maximum is abandoned:
//! like a flag in any state but `Pending` and `Error`, it never moves again.

use vstd::prelude::*;

verus! {

/// Lifecycle state of a flag.
#[derive(Clone, Copy, Debug, PartialEq, Eq, Structural)]
pub enum FlagState {
    /// Not yet sent to the scoring endpoint.
    Pending,
    /// Accepted; gained points.
    Valid,
    /// Was submitted previously.
    AlreadySubmitted,
    /// Not a valid flag.
    Invalid,
    /// Too old, no points anymore.
    Expired,
    /// Belongs to our own team.
    Own,
    /// Belongs to the NOP team.
    NOPTeam,
    /// The last submission attempt failed.
    Error,
}

/// What the scoring endpoint answered for one submitted flag.
#[derive(Clone, Copy, Debug, PartialEq, Eq, Structural)]
pub enum Verdict {
    Valid,
    AlreadySubmitted,
    Invalid,
    Expired,
    Own,
    NOPTeam,
    Error,
}

/// The two limits that govern retries and expiration.
#[derive(Clone, Copy, Debug, PartialEq, Eq, Structural)]
pub struct Policy {
    /// Time after the first capture during which a flag can still score.
    pub scoring_window: u64,
    /// Number of retries granted after the first failed attempt.
    pub max_retries: u32,
}

/// What one verdict or failure did to the flag it was meant for.
#[derive(Clone, Copy, Debug, PartialEq, Eq, Structural)]
pub enum Reconciled {
    /// No flag with that value is tracked.
    Unknown,
    /// The flag was already final; nothing was applied.
    Ignored,
    /// The flag moved to (or stayed in) the given state and is not abandoned.
    Updated(FlagState),
    /// The flag ran out of retries and is abandoned in `Error`.
    Exhausted,
}

/// One distinct flag value and its lifecycle.
#[derive(Debug)]
pub struct Flag {
    /// Handle by which occurrences refer to this flag.
    pub id: u64,
    /// Normalized flag value.
    pub value: Vec<u8>,
    /// Capture time of the first occurrence.
    pub first_seen: u64,
    /// Time of the latest submission attempt, if any.
    pub last_submission_attempt: Option<u64>,
    /// Current lifecycle state.
    pub state: FlagState,
    /// Retry counter. Each retryable failure of an attempt adds one to it; a
    /// failure that is not retryable sets it to one more than the configured
    /// maximum at once. A flag in `Error` whose counter exceeds the maximum is
    /// abandoned.
    pub retry_count: u64,
}

/// An answer of the submission server that no verdict could be made of.
#[derive(Debug)]
pub struct UnknownFlagResponse {
    /// Value of the flag that was submitted.
    pub flag: Vec<u8>,
    /// Whatever we got from the submission server.
    pub raw_submission_result: Vec<u8>,
}

/// Mathematical value of a [`Flag`].
pub struct FlagView {
    pub id: nat,
    pub value: Seq<u8>,
    pub first_seen: u64,
    pub last_submission_attempt: Option<u64>,
    pub state: FlagState,
    pub retry_count: u64,
}

impl View for Flag {
    type V = FlagView;

    open spec fn view(&self) -> FlagView {
        FlagView {
            id: self.id as nat,
            value: self.value@,
            first_seen: self.first_seen,
            last_submission_attempt: self.last_submission_attempt,
            state: self.state,
            retry_count: self.retry_count,
        }
    }
}

/// The state that a verdict other than `Error` settles a flag in.
pub open spec fn settled_state(verdict: Verdict) -> FlagState {
    match verdict {
        Verdict::Valid => FlagState::Valid,
        Verdict::AlreadySubmitted => FlagState::AlreadySubmitted,
        Verdict::Invalid => FlagState::Invalid,
        Verdict::Expired => FlagState::Expired,
        Verdict::Own => FlagState::Own,
        Verdict::NOPTeam => FlagState::NOPTeam,
        Verdict::Error => FlagState::Error,
    }
}

/// A counter one step further, held at the largest value it can take.
pub open spec fn bumped(n: u64) -> u64 {
    if n < u64::MAX {
        (n + 1) as u64
    } else {
        n
    }
}

/// A state that no verdict, failure or sweep leaves again.
pub open spec fn is_terminal(state: FlagState) -> bool {
    state != FlagState::Pending && state != FlagState::Error
}

impl FlagView {
    /// May still be submitted: `Pending`, or `Error` with retries left.
    pub open spec fn eligible(self, policy: Policy) -> bool {
        self.state == FlagState::Pending || (self.state == FlagState::Error && self.retry_count
            <= policy.max_retries)
    }

    /// The scoring window has closed at `now`.
    pub open spec fn overdue(self, policy: Policy, now: u64) -> bool {
        self.first_seen + policy.scoring_window < now
    }

    /// The flag after an expiration check at `now`.
    pub open spec fn expire(self, policy: Policy, now: u64) -> FlagView {
        if self.eligible(policy) && self.overdue(policy, now) {
            FlagView { state: FlagState::Expired, ..self }
        } else {
            self
        }
    }

    /// The flag after a failed attempt at `at`. A retryable failure counts one
    /// attempt; any other failure abandons the flag at once.
    pub open spec fn fail(self, policy: Policy, retryable: bool, at: u64) -> FlagView {
        if !self.eligible(policy) {
            self
        } else if self.overdue(policy, at) {
            FlagView { state: FlagState::Expired, last_submission_attempt: Some(at), ..self }
        } else {
            FlagView {
                state: FlagState::Error,
                last_submission_attempt: Some(at),
                retry_count: if retryable {
                    bumped(self.retry_count)
                } else {
                    (policy.max_retries + 1) as u64
                },
                ..self
            }
        }
    }

    /// The flag after `verdict` for an attempt made at `at`. A flag that is no
    /// longer eligible ignores it; one whose window closed before the attempt
    /// expires whatever the verdict says.
    pub open spec fn judge(self, policy: Policy, verdict: Verdict, at: u64) -> FlagView {
        if !self.eligible(policy) {
            self
        } else if self.overdue(policy, at) {
            FlagView { state: FlagState::Expired, last_submission_attempt: Some(at), ..self }
        } else if verdict == Verdict::Error {
            self.fail(policy, true, at)
        } else {
            FlagView {
                state: settled_state(verdict),
                last_submission_attempt: Some(at),
                ..self
            }
        }
    }
}

/// How a step from `before` to `after` is reported.
pub open spec fn report_of(before: FlagView, after: FlagView, policy: Policy) -> Reconciled {
    if !before.eligible(policy) {
        Reconciled::Ignored
    } else if after.state == FlagState::Error && !after.eligible(policy) {
        Reconciled::Exhausted
    } else {
        Reconciled::Updated(after.state)
    }
}

impl Flag {
    /// A fresh flag, first captured at `first_seen`.
    pub fn create(id: u64, value: Vec<u8>, first_seen: u64) -> (flag: Flag)
        ensures
            flag@ == (FlagView {
                id: id as nat,
                value: value@,
                first_seen,
                last_submission_attempt: None,
                state: FlagState::Pending,
                retry_count: 0,
            }),
    {
        Flag {
            id,
            value,
            first_seen,
            last_submission_attempt: None,
            state: FlagState::Pending,
            retry_count: 0,
        }
    }

    /// Did this flag gain points at the endpoint?
    pub fn is_valid(&self) -> (r: bool)
        ensures
            r == (self@.state == FlagState::Valid),
    {
        self.state == FlagState::Valid
    }

    /// Is this flag still pending, that is, may it be put into a batch? It is
    /// while it is `Pending`, or in `Error` with a retry count within the
    /// maximum; a flag abandoned in `Error` is final and no longer pending.
    pub fn is_pending(&self, policy: &Policy) -> (r: bool)
        ensures
            r == self@.eligible(*policy),
    {
        match self.state {
            FlagState::Pending => true,
            FlagState::Error => self.retry_count <= policy.max_retries as u64,
            _ => false,
        }
    }

    /// Has the scoring window closed at `now`?
    pub fn is_overdue(&self, policy: &Policy, now: u64) -> (r: bool)
        ensures
            r == self@.overdue(*policy, now),
    {
        now > self.first_seen && now - self.first_seen > policy.scoring_window
    }

    /// Retires the flag if it is still eligible and its window has closed.
    /// Returns whether it expired by this call.
    pub fn expire(&mut self, policy: &Policy, now: u64) -> (expired: bool)
        ensures
            final(self)@ == old(self)@.expire(*policy, now),
            expired == (old(self)@.eligible(*policy) && old(self)@.overdue(*policy, now)),
    {
        if self.is_pending(policy) && self.is_overdue(policy, now) {
            self.state = FlagState::Expired;
            true
        } else {
            false
        }
    }

    /// Applies a failed attempt made at `at`.
    pub fn apply_failure(&mut self, policy: &Policy, retryable: bool, at: u64) -> (report:
        Reconciled)
        ensures
            final(self)@ == old(self)@.fail(*policy, retryable, at),
            report == report_of(old(self)@, final(self)@, *policy),
    {
        if !self.is_pending(policy) {
            return Reconciled::Ignored;
        }
        self.last_submission_attempt = Some(at);
        if self.is_overdue(policy, at) {
            self.state = FlagState::Expired;
            return Reconciled::Updated(FlagState::Expired);
        }
        self.state = FlagState::Error;
        if retryable {
            if self.retry_count < u64::MAX {
                self.retry_count = self.retry_count + 1;
            }
        } else {
            self.retry_count = policy.max_retries as u64 + 1;
        }
        if self.retry_count <= policy.max_retries as u64 {
            Reconciled::Updated(FlagState::Error)
        } else {
            Reconciled::Exhausted
        }
    }

    /// Applies the endpoint's verdict for an attempt made at `at`.
    pub fn apply_verdict(&mut self, policy: &Policy, verdict: Verdict, at: u64) -> (report:
        Reconciled)
        ensures
            final(self)@ == old(self)@.judge(*policy, verdict, at),
            report == report_of(old(self)@, final(self)@, *policy),
    {
        if !self.is_pending(policy) {
            return Reconciled::Ignored;
        }
        let state = match verdict {
            Verdict::Error => {
                return self.apply_failure(policy, true, at);
            },
            Verdict::Valid => FlagState::Valid,
            Verdict::AlreadySubmitted => FlagState::AlreadySubmitted,
            Verdict::Invalid => FlagState::Invalid,
            Verdict::Expired => FlagState::Expired,
            Verdict::Own => FlagState::Own,
            Verdict::NOPTeam => FlagState::NOPTeam,
        };
        self.last_submission_attempt = Some(at);
        if self.is_overdue(policy, at) {
            self.state = FlagState::Expired;
            return Reconciled::Updated(FlagState::Expired);
        }
        self.state = state;
        Reconciled::Updated(state)
    }

    /// A copy of this flag.
    pub fn duplicate(&self) -> (copy: Flag)
        ensures
            copy@ == self@,
    {
        Flag {
            id: self.id,
            value: crate::normalize::copy_bytes(&self.value),
            first_seen: self.first_seen,
            last_submission_attempt: self.last_submission_attempt,
            state: self.state,
            retry_count: self.retry_count,
        }
    }
}

/// Does a flag in `state` count for points? A NOP-team flag does only where
/// the event grants points for it.
pub fn scores_points(state: FlagState, nop_team_grants_points: bool) -> (r: bool)
    ensures
        r == (state == FlagState::Valid || (state == FlagState::NOPTeam
            && nop_team_grants_points)),
{
    match state {
        FlagState::Valid => true,
        FlagState::NOPTeam => nop_team_grants_points,
        _ => false,
    }
}

} // verus!
