//! What holds of the store and the engine as a whole: one record per value,
//! one ledger entry per capture, and answers that reach the flag at their
//! own position of the batch.

use vstd::prelude::*;
use crate::engine::{
    answer_at, answered, applied, report_for, store_answered, Answer, EngineView, ReplyView,
};
use crate::flag::{FlagState, FlagView, Verdict};
use crate::ledger::{references, ExploitRun, OccurrenceView};
use crate::order::{lemma_slot, slot};
use crate::store::{
    batch_of, copies, distinct, first_seen_of, fresh, lemma_lookup, lemma_lookup_at,
    lemma_pending, lemma_record_wf, lemma_same_identities_wf, lookup, pending, same_identities,
    StoreView,
};

verus! {

/// The last position at which `value` stands, or -1.
pub open spec fn position(flags: Seq<FlagView>, value: Seq<u8>) -> int
    decreases flags.len(),
{
    if flags.len() == 0 {
        -1
    } else if flags.last().value == value {
        flags.len() - 1
    } else {
        position(flags.drop_last(), value)
    }
}

/// `lookup` finds the flag at `position`.
pub proof fn lemma_position(flags: Seq<FlagView>, value: Seq<u8>)
    ensures
        -1 <= position(flags, value) < flags.len(),
        position(flags, value) >= 0 ==> lookup(flags, value) == Some(
            flags[position(flags, value)],
        ) && flags[position(flags, value)].value == value,
        position(flags, value) < 0 ==> lookup(flags, value).is_none(),
    decreases flags.len(),
{
    if flags.len() > 0 && flags.last().value != value {
        lemma_position(flags.drop_last(), value);
    }
}

/// Sequences that hold the same values hold them at the same positions.
pub proof fn lemma_position_parallel(a: Seq<FlagView>, b: Seq<FlagView>, value: Seq<u8>)
    requires
        same_identities(a, b),
    ensures
        position(a, value) == position(b, value),
    decreases a.len(),
{
    if a.len() > 0 {
        assert(b[b.len() - 1].value == a[a.len() - 1].value);
        if a.last().value != value {
            assert forall|i: int| 0 <= i < a.len() - 1 implies {
                &&& (#[trigger] b.drop_last()[i]).id == a.drop_last()[i].id
                &&& b.drop_last()[i].value == a.drop_last()[i].value
                &&& b.drop_last()[i].first_seen == a.drop_last()[i].first_seen
            } by {
                assert(b[i].id == a[i].id);
            }
            lemma_position_parallel(a.drop_last(), b.drop_last(), value);
        }
    }
}

/// An answer for one value reaches the flag of that value and no other.
pub proof fn law_answer_reaches_its_flag(
    s: StoreView,
    value: Seq<u8>,
    answer: Answer,
    at: u64,
    other: Seq<u8>,
)
    ensures
        store_answered(s, value, answer, at).policy == s.policy,
        store_answered(s, value, answer, at).ledger == s.ledger,
        same_identities(s.flags, store_answered(s, value, answer, at).flags),
        lookup(store_answered(s, value, answer, at).flags, other) == match lookup(
            s.flags,
            other,
        ) {
            Some(f) => Some(
                if other == value {
                    answered(f, s.policy, answer, at)
                } else {
                    f
                },
            ),
            None => None,
        },
{
    let t = store_answered(s, value, answer, at);
    assert(same_identities(s.flags, t.flags)) by {
        assert forall|i: int| 0 <= i < s.flags.len() implies {
            &&& (#[trigger] t.flags[i]).id == s.flags[i].id
            &&& t.flags[i].value == s.flags[i].value
            &&& t.flags[i].first_seen == s.flags[i].first_seen
        } by {}
    }
    lemma_position(s.flags, other);
    lemma_position(t.flags, other);
    lemma_position_parallel(s.flags, t.flags, other);
}

/// An expiration check of one value reaches the flag of that value and no
/// other; a sweep reaches every flag.
pub proof fn law_expiration_reaches_its_flag(
    s: StoreView,
    value: Seq<u8>,
    now: u64,
    other: Seq<u8>,
)
    ensures
        lookup(s.expire(value, now).flags, other) == match lookup(s.flags, other) {
            Some(f) => Some(
                if other == value {
                    f.expire(s.policy, now)
                } else {
                    f
                },
            ),
            None => None,
        },
        lookup(s.sweep(now).flags, other) == match lookup(s.flags, other) {
            Some(f) => Some(f.expire(s.policy, now)),
            None => None,
        },
{
    let t = s.expire(value, now);
    let u = s.sweep(now);
    assert(same_identities(s.flags, t.flags)) by {
        assert forall|i: int| 0 <= i < s.flags.len() implies {
            &&& (#[trigger] t.flags[i]).id == s.flags[i].id
            &&& t.flags[i].value == s.flags[i].value
            &&& t.flags[i].first_seen == s.flags[i].first_seen
        } by {}
    }
    assert(same_identities(s.flags, u.flags)) by {
        assert forall|i: int| 0 <= i < s.flags.len() implies {
            &&& (#[trigger] u.flags[i]).id == s.flags[i].id
            &&& u.flags[i].value == s.flags[i].value
            &&& u.flags[i].first_seen == s.flags[i].first_seen
        } by {}
    }
    lemma_position(s.flags, other);
    lemma_position(t.flags, other);
    lemma_position(u.flags, other);
    lemma_position_parallel(s.flags, t.flags, other);
    lemma_position_parallel(s.flags, u.flags, other);
}

/// Expiration wins in the store: once a sweep has found the scoring window of
/// an eligible flag closed, the flag is `Expired`, and it stays so whatever
/// verdict arrives for it afterwards.
pub proof fn law_store_expiration_wins(
    s: StoreView,
    value: Seq<u8>,
    verdict: Verdict,
    now: u64,
    at: u64,
)
    requires
        lookup(s.flags, value).is_some(),
        lookup(s.flags, value).unwrap().eligible(s.policy),
        lookup(s.flags, value).unwrap().overdue(s.policy, now),
    ensures
        lookup(s.sweep(now).flags, value).unwrap().state == FlagState::Expired,
        lookup(s.expire(value, now).flags, value).unwrap().state == FlagState::Expired,
        lookup(s.sweep(now).judge(value, verdict, at).flags, value) == lookup(
            s.sweep(now).flags,
            value,
        ),
        lookup(s.expire(value, now).judge(value, verdict, at).flags, value) == lookup(
            s.expire(value, now).flags,
            value,
        ),
{
    law_expiration_reaches_its_flag(s, value, now, value);
    law_answer_reaches_its_flag(s.sweep(now), value, Answer::Verdict(verdict), at, value);
    law_answer_reaches_its_flag(s.expire(value, now), value, Answer::Verdict(verdict), at, value);
}

/// Answers to a batch leave policy and ledger alone and keep every flag's
/// value, handle and first capture.
pub proof fn lemma_applied_frame(
    s: StoreView,
    batch: Seq<Seq<u8>>,
    reply: ReplyView,
    at: u64,
    n: nat,
)
    ensures
        applied(s, batch, reply, at, n).policy == s.policy,
        applied(s, batch, reply, at, n).case_policy == s.case_policy,
        applied(s, batch, reply, at, n).ledger == s.ledger,
        same_identities(s.flags, applied(s, batch, reply, at, n).flags),
        s.wf() ==> applied(s, batch, reply, at, n).wf(),
    decreases n,
{
    if n > 0 {
        let mid = applied(s, batch, reply, at, (n - 1) as nat);
        lemma_applied_frame(s, batch, reply, at, (n - 1) as nat);
        let answer = answer_at(reply, batch.len(), n - 1);
        law_answer_reaches_its_flag(mid, batch[n - 1], answer, at, batch[n - 1]);
        let t = applied(s, batch, reply, at, n);
        assert(same_identities(s.flags, t.flags)) by {
            assert forall|i: int| 0 <= i < s.flags.len() implies {
                &&& (#[trigger] t.flags[i]).id == s.flags[i].id
                &&& t.flags[i].value == s.flags[i].value
                &&& t.flags[i].first_seen == s.flags[i].first_seen
            } by {
                assert(mid.flags[i].id == s.flags[i].id);
            }
        }
        if s.wf() {
            lemma_same_identities_wf(s, t);
        }
    }
}

/// The answers to the first `n` flags of a batch leave alone every flag whose
/// value is not among them.
pub proof fn lemma_applied_elsewhere(
    s: StoreView,
    batch: Seq<Seq<u8>>,
    reply: ReplyView,
    at: u64,
    n: nat,
    other: Seq<u8>,
)
    requires
        n <= batch.len(),
        forall|i: int| 0 <= i < n ==> batch[i] != other,
    ensures
        lookup(applied(s, batch, reply, at, n).flags, other) == lookup(s.flags, other),
    decreases n,
{
    if n > 0 {
        let mid = applied(s, batch, reply, at, (n - 1) as nat);
        lemma_applied_elsewhere(s, batch, reply, at, (n - 1) as nat, other);
        law_answer_reaches_its_flag(
            mid,
            batch[n - 1],
            answer_at(reply, batch.len(), n - 1),
            at,
            other,
        );
    }
}

/// Batch ordering: where no value occurs twice in the batch, the answer at
/// position `i` of the reply is applied to the flag at position `i` of the
/// batch, and to that flag as it was before the batch was reconciled; the
/// report at that position speaks of that flag.
pub proof fn law_batch_positional(
    s: StoreView,
    batch: Seq<Seq<u8>>,
    reply: ReplyView,
    at: u64,
    n: nat,
    i: int,
)
    requires
        distinct(batch),
        0 <= i < n <= batch.len(),
    ensures
        lookup(applied(s, batch, reply, at, n).flags, batch[i]) == match lookup(
            s.flags,
            batch[i],
        ) {
            Some(f) => Some(answered(f, s.policy, answer_at(reply, batch.len(), i), at)),
            None => None,
        },
        report_for(
            applied(s, batch, reply, at, i as nat),
            batch[i],
            answer_at(reply, batch.len(), i),
            at,
        ) == report_for(s, batch[i], answer_at(reply, batch.len(), i), at),
    decreases n,
{
    let mid = applied(s, batch, reply, at, (n - 1) as nat);
    let answer = answer_at(reply, batch.len(), n - 1);
    lemma_applied_frame(s, batch, reply, at, (n - 1) as nat);
    lemma_applied_frame(s, batch, reply, at, i as nat);
    lemma_applied_elsewhere(s, batch, reply, at, i as nat, batch[i]);
    law_answer_reaches_its_flag(mid, batch[n - 1], answer, at, batch[i]);
    if i < n - 1 {
        law_batch_positional(s, batch, reply, at, (n - 1) as nat, i);
    }
}

/// Batch ordering in the engine: reconciling the reply with the batch in
/// flight applies the answer at each position to the flag at that position,
/// as that flag was when the reply arrived.
pub proof fn law_reconcile_positional(e: EngineView, reply: ReplyView, now: u64, i: int)
    requires
        e.wf(),
        e.in_flight.is_some(),
        0 <= i < e.in_flight.unwrap().len(),
    ensures
        e.reconcile(reply, now).wf(),
        e.reconcile(reply, now).in_flight.is_none(),
        lookup(e.reconcile(reply, now).store.flags, e.in_flight.unwrap()[i]) == match lookup(
            e.store.flags,
            e.in_flight.unwrap()[i],
        ) {
            Some(f) => Some(
                answered(
                    f,
                    e.store.policy,
                    answer_at(reply, e.in_flight.unwrap().len(), i),
                    now,
                ),
            ),
            None => None,
        },
{
    let batch = e.in_flight.unwrap();
    lemma_applied_frame(e.store, batch, reply, now, batch.len());
    law_batch_positional(e.store, batch, reply, now, batch.len(), i);
}

/// One batch at a time: while a batch is in flight a tick draws nothing and
/// changes nothing, whatever the time.
pub proof fn law_one_batch_in_flight(e: EngineView, now: u64)
    requires
        e.in_flight.is_some(),
    ensures
        e.tick(now) == e,
{
}

/// The batch that a tick draws from a well-formed store holds at most
/// `batch_size` values, none of them twice, all of flags that are eligible
/// for submission, oldest first capture first.
pub proof fn law_drawn_batch(e: EngineView)
    requires
        e.wf(),
    ensures
        e.drawn().len() <= e.batch_size,
        distinct(e.drawn()),
        forall|i: int|
            0 <= i < e.drawn().len() ==> {
                &&& lookup(e.store.flags, #[trigger] e.drawn()[i]).is_some()
                &&& lookup(e.store.flags, e.drawn()[i]).unwrap().eligible(e.store.policy)
            },
        forall|i: int, j: int|
            0 <= i < j < e.drawn().len() ==> lookup(e.store.flags, e.drawn()[i]).unwrap().first_seen
                <= lookup(e.store.flags, e.drawn()[j]).unwrap().first_seen,
{
    let flags = e.store.flags;
    let all = pending(flags, e.store.policy);
    let batch = batch_of(flags, e.store.policy, e.batch_size as nat);
    lemma_pending(flags, e.store.policy);
    assert forall|i: int| 0 <= i < batch.len() implies batch[i] == all[i] by {}
    assert forall|i: int| 0 <= i < batch.len() implies lookup(flags, #[trigger] e.drawn()[i])
        == Some(batch[i]) by {
        assert(batch[i] == all[i]);
        let k = choose|k: int| 0 <= k < flags.len() && flags[k] == all[i];
        lemma_lookup_at(flags, k);
    }
    assert forall|i: int, j: int| 0 <= i < j < e.drawn().len() implies e.drawn()[i]
        != e.drawn()[j] && lookup(e.store.flags, e.drawn()[i]).unwrap().first_seen <= lookup(
        e.store.flags,
        e.drawn()[j],
    ).unwrap().first_seen by {
        assert(batch[i] == all[i]);
        assert(batch[j] == all[j]);
    }
}

/// Where no value occurs twice, a value is recorded once if it is known and
/// not at all otherwise.
pub proof fn lemma_copies(flags: Seq<FlagView>, value: Seq<u8>)
    requires
        forall|a: int, b: int| 0 <= a < b < flags.len() ==> flags[a].value != flags[b].value,
    ensures
        copies(flags, value) == if lookup(flags, value).is_some() {
            1nat
        } else {
            0nat
        },
    decreases flags.len(),
{
    if flags.len() > 0 {
        let front = flags.drop_last();
        assert forall|a: int, b: int| 0 <= a < b < front.len() implies front[a].value
            != front[b].value by {
            assert(flags[a].value != flags[b].value);
        }
        lemma_copies(front, value);
        if flags.last().value == value {
            lemma_lookup(front, value);
            if lookup(front, value).is_some() {
                let f = lookup(front, value).unwrap();
                let k = choose|k: int| 0 <= k < front.len() && front[k] == f;
                assert(flags[k].value != flags[flags.len() - 1].value);
            }
        }
    }
}

/// No ledger entry refers to a handle that none of its entries carries.
pub proof fn lemma_no_references(entries: Seq<OccurrenceView>, flag_id: nat)
    requires
        forall|k: int| 0 <= k < entries.len() ==> entries[k].flag_id != flag_id,
    ensures
        references(entries, flag_id) == 0,
    decreases entries.len(),
{
    if entries.len() > 0 {
        let front = entries.drop_last();
        assert forall|k: int| 0 <= k < front.len() implies front[k].flag_id != flag_id by {
            assert(entries[k].flag_id != flag_id);
        }
        assert(entries[entries.len() - 1].flag_id != flag_id);
        lemma_no_references(front, flag_id);
    }
}

/// How many ledger entries refer to the flag of `value`; none if the value is
/// not recorded.
pub open spec fn captures_of(s: StoreView, value: Seq<u8>) -> nat {
    match lookup(s.flags, value) {
        Some(f) => references(s.ledger, f.id),
        None => 0,
    }
}

/// One capture: afterwards exactly one flag carries the value, one more
/// ledger entry refers to it than before, and a flag that existed already is
/// as it was. No other value gains or loses a flag, and no other flag gains
/// or loses a ledger entry.
pub proof fn law_record_once(
    s: StoreView,
    value: Seq<u8>,
    time: u64,
    run: ExploitRun,
    other: Seq<u8>,
)
    requires
        s.wf(),
    ensures
        s.record(value, time, run).wf(),
        s.record(value, time, run).flags.len() == s.flags.len() + if lookup(
            s.flags,
            value,
        ).is_some() {
            0int
        } else {
            1int
        },
        copies(s.record(value, time, run).flags, value) == 1,
        captures_of(s.record(value, time, run), value) == captures_of(s, value) + 1,
        lookup(s.flags, value).is_some() ==> s.record(value, time, run).flags == s.flags,
        lookup(s.flags, value).is_none() ==> lookup(s.record(value, time, run).flags, value)
            == Some(fresh(s.flags.len(), value, time)),
        other != value ==> copies(s.record(value, time, run).flags, other) == copies(
            s.flags,
            other,
        ),
        forall|id: nat|
            id != lookup(s.record(value, time, run).flags, value).unwrap().id ==> references(
                s.record(value, time, run).ledger,
                id,
            ) == references(s.ledger, id),
{
    let t = s.record(value, time, run);
    lemma_record_wf(s, value, time, run);
    lemma_copies(t.flags, value);
    lemma_copies(t.flags, other);
    lemma_copies(s.flags, other);
    let entry = t.ledger.last();
    assert(t.ledger.drop_last() =~= s.ledger);
    match lookup(s.flags, value) {
        Some(f) => {},
        None => {
            let id = s.flags.len();
            lemma_no_references(s.ledger, id);
            lemma_slot(first_seen_of(s.flags), time);
            if other != value {
                lemma_position(s.flags, other);
                lemma_position(t.flags, other);
                lemma_lookup(s.flags, other);
                lemma_lookup(t.flags, other);
                let j = slot(first_seen_of(s.flags), time);
                if lookup(s.flags, other).is_some() {
                    let f = lookup(s.flags, other).unwrap();
                    let k = choose|k: int| 0 <= k < s.flags.len() && s.flags[k] == f;
                    let k2 = if k < j {
                        k
                    } else {
                        k + 1
                    };
                    assert(t.flags[k2] == f);
                    assert(lookup(t.flags, other).is_some());
                } else if lookup(t.flags, other).is_some() {
                    let f = lookup(t.flags, other).unwrap();
                    let k = choose|k: int| 0 <= k < t.flags.len() && t.flags[k] == f;
                    if k < j {
                        assert(s.flags[k] == f);
                    } else if k > j {
                        assert(s.flags[k - 1] == f);
                    }
                }
            }
        },
    }
}

/// The store after captures of one value at the given times, in order.
pub open spec fn after_captures(
    s: StoreView,
    value: Seq<u8>,
    captures: Seq<(u64, ExploitRun)>,
) -> StoreView
    decreases captures.len(),
{
    if captures.len() == 0 {
        s
    } else {
        after_captures(s, value, captures.drop_last()).record(
            value,
            captures.last().0,
            captures.last().1,
        )
    }
}

/// Deduplication: after a value was captured one or more times, exactly one
/// flag carries it, and the ledger holds one more entry that refers to that
/// flag for each of the captures, so as many as there were captures if the
/// value was new. The flag is the one that existed before, or else a
/// `Pending` one first seen at the first of the captures. The entries that
/// refer to other flags are as many as before.
pub proof fn law_dedup(s: StoreView, value: Seq<u8>, captures: Seq<(u64, ExploitRun)>)
    requires
        s.wf(),
        captures.len() >= 1,
    ensures
        after_captures(s, value, captures).wf(),
        copies(after_captures(s, value, captures).flags, value) == 1,
        captures_of(after_captures(s, value, captures), value) == captures_of(s, value)
            + captures.len(),
        lookup(after_captures(s, value, captures).flags, value) == Some(
            match lookup(s.flags, value) {
                Some(f) => f,
                None => fresh(s.flags.len(), value, captures[0].0),
            },
        ),
        after_captures(s, value, captures).flags.len() == s.flags.len() + if lookup(
            s.flags,
            value,
        ).is_some() {
            0int
        } else {
            1int
        },
        forall|id: nat|
            id != lookup(after_captures(s, value, captures).flags, value).unwrap().id
                ==> references(after_captures(s, value, captures).ledger, id) == references(
                s.ledger,
                id,
            ),
    decreases captures.len(),
{
    let front = captures.drop_last();
    let mid = after_captures(s, value, front);
    if front.len() == 0 {
        law_record_once(s, value, captures.last().0, captures.last().1, value);
    } else {
        law_dedup(s, value, front);
        assert(front[0] == captures[0]);
        law_record_once(mid, value, captures.last().0, captures.last().1, value);
    }
}

} // verus!
