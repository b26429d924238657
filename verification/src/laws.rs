//! What holds of the lifecycle of a single flag, whatever happens to it.

use vstd::prelude::*;
use crate::flag::{is_terminal, settled_state, FlagState, FlagView, Policy, Verdict};

verus! {

/// Nothing leaves a final state: a flag that is terminal, or abandoned in
/// `Error`, is left as it is by every verdict, failure and expiration check.
pub proof fn law_final_states_stay(
    f: FlagView,
    policy: Policy,
    verdict: Verdict,
    retryable: bool,
    at: u64,
)
    requires
        is_terminal(f.state) || !f.eligible(policy),
    ensures
        f.judge(policy, verdict, at) == f,
        f.fail(policy, retryable, at) == f,
        f.expire(policy, at) == f,
{
}

/// From `Pending`, and from `Error` with retries left, a step goes where the
/// transition table says: a verdict within the scoring window settles the
/// flag in the state of that verdict, a failure within the window leads to
/// `Error` and counts, and past the window every step leads to `Expired`.
/// Value, handle and first capture never change.
pub proof fn law_transitions(
    f: FlagView,
    policy: Policy,
    verdict: Verdict,
    retryable: bool,
    at: u64,
)
    requires
        f.eligible(policy),
    ensures
        f.overdue(policy, at) ==> {
            &&& f.judge(policy, verdict, at).state == FlagState::Expired
            &&& f.fail(policy, retryable, at).state == FlagState::Expired
            &&& f.expire(policy, at).state == FlagState::Expired
        },
        !f.overdue(policy, at) ==> {
            &&& f.judge(policy, verdict, at).state == settled_state(verdict)
            &&& f.fail(policy, retryable, at).state == FlagState::Error
            &&& f.expire(policy, at) == f
        },
        !f.overdue(policy, at) && verdict != Verdict::Error ==> {
            &&& is_terminal(f.judge(policy, verdict, at).state)
            &&& f.judge(policy, verdict, at).retry_count == f.retry_count
        },
        !f.overdue(policy, at) && verdict == Verdict::Error ==> f.judge(policy, verdict, at)
            == f.fail(policy, true, at),
        !f.overdue(policy, at) && !retryable ==> !f.fail(policy, retryable, at).eligible(policy),
        f.judge(policy, verdict, at).value == f.value && f.judge(policy, verdict, at).id == f.id
            && f.judge(policy, verdict, at).first_seen == f.first_seen,
        f.fail(policy, retryable, at).value == f.value && f.fail(policy, retryable, at).id == f.id
            && f.fail(policy, retryable, at).first_seen == f.first_seen,
{
}

/// Expiration wins: once the scoring window of an eligible flag has closed at
/// `now`, the flag ends up `Expired` whether the expiration check comes before
/// the answer to an attempt made after the window closed or behind it, and
/// whatever that answer is. After the check no answer, of whatever time,
/// changes the flag any more.
pub proof fn law_expiration_wins(
    f: FlagView,
    policy: Policy,
    verdict: Verdict,
    now: u64,
    at: u64,
    late: u64,
)
    requires
        f.eligible(policy),
        f.overdue(policy, now),
        f.overdue(policy, late),
    ensures
        f.expire(policy, now).state == FlagState::Expired,
        f.expire(policy, now).judge(policy, verdict, at) == f.expire(policy, now),
        f.expire(policy, now).fail(policy, true, at) == f.expire(policy, now),
        f.judge(policy, verdict, late).expire(policy, now).state == FlagState::Expired,
        f.fail(policy, true, late).expire(policy, now).state == FlagState::Expired,
{
}

/// The flag after one retryable failure at each of the given times, in order.
pub open spec fn after_failures(f: FlagView, policy: Policy, times: Seq<u64>) -> FlagView
    decreases times.len(),
{
    if times.len() == 0 {
        f
    } else {
        after_failures(f, policy, times.drop_last()).fail(policy, true, times.last())
    }
}

/// The retry bound: a flag that meets nothing but retryable failures within
/// its scoring window stays eligible through the first attempt and
/// `max_retries` retries, each of which counts; the failure of the last retry
/// abandons it in `Error`, and no failure after that changes it.
pub proof fn law_retry_bound(f: FlagView, policy: Policy, times: Seq<u64>)
    requires
        f.state == FlagState::Pending,
        f.retry_count == 0,
        forall|i: int| 0 <= i < times.len() ==> !f.overdue(policy, #[trigger] times[i]),
    ensures
        times.len() == 0 ==> after_failures(f, policy, times) == f,
        0 < times.len() ==> after_failures(f, policy, times).state == FlagState::Error,
        times.len() <= policy.max_retries + 1 ==> after_failures(f, policy, times).retry_count
            == times.len(),
        times.len() <= policy.max_retries <==> after_failures(f, policy, times).eligible(policy),
        times.len() > policy.max_retries + 1 ==> after_failures(f, policy, times)
            == after_failures(f, policy, times.take(policy.max_retries + 1)),
    decreases times.len(),
{
    if times.len() > 0 {
        let front = times.drop_last();
        law_retry_bound(f, policy, front);
        let g = after_failures(f, policy, front);
        assert(g.first_seen == f.first_seen) by {
            lemma_failures_keep_identity(f, policy, front);
        }
        assert(!g.overdue(policy, times.last()));
        if times.len() > policy.max_retries + 1 {
            let cap = policy.max_retries + 1;
            if front.len() == cap {
                assert(front =~= times.take(cap));
            } else {
                assert(front.take(cap) =~= times.take(cap));
            }
        }
    }
}

/// Failures leave a flag's value, handle and first capture alone.
pub proof fn lemma_failures_keep_identity(f: FlagView, policy: Policy, times: Seq<u64>)
    ensures
        after_failures(f, policy, times).first_seen == f.first_seen,
        after_failures(f, policy, times).value == f.value,
        after_failures(f, policy, times).id == f.id,
    decreases times.len(),
{
    if times.len() > 0 {
        lemma_failures_keep_identity(f, policy, times.drop_last());
    }
}

} // verus!
