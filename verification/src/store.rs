//! The deduplicated record of every flag value ever seen.

use vstd::prelude::*;
use crate::flag::{report_of, Flag, FlagState, FlagView, Policy, Reconciled, Verdict};
use crate::ledger::{
    history, occurrence_views, ExploitRun, FlagOccurence, OccurrenceLedger, OccurrenceView,
};
use crate::normalize::{normalize, normalized, same_bytes, CasePolicy};
use crate::order::{ascending, lemma_insert_ascending, lemma_slot, lemma_slot_unique, slot};

verus! {

/// A verdict, failure or query named a flag value that was never recorded.
#[derive(Clone, Copy, Debug, PartialEq, Eq, Structural)]
pub struct NotFoundError;

/// The values of a sequence of flags.
pub open spec fn views_of(flags: Seq<Flag>) -> Seq<FlagView> {
    Seq::new(flags.len(), |i: int| flags[i]@)
}

/// The first-capture times of a sequence of flags.
pub open spec fn first_seen_of(flags: Seq<FlagView>) -> Seq<u64> {
    Seq::new(flags.len(), |i: int| flags[i].first_seen)
}

/// The flag with the given value, if one is recorded.
pub open spec fn lookup(flags: Seq<FlagView>, value: Seq<u8>) -> Option<FlagView>
    decreases flags.len(),
{
    if flags.len() == 0 {
        None
    } else if flags.last().value == value {
        Some(flags.last())
    } else {
        lookup(flags.drop_last(), value)
    }
}

/// How many flags carry the given value.
pub open spec fn copies(flags: Seq<FlagView>, value: Seq<u8>) -> nat
    decreases flags.len(),
{
    if flags.len() == 0 {
        0
    } else if flags.last().value == value {
        copies(flags.drop_last(), value) + 1
    } else {
        copies(flags.drop_last(), value)
    }
}

/// The flags that may still be submitted, in the order of the store.
pub open spec fn pending(flags: Seq<FlagView>, policy: Policy) -> Seq<FlagView>
    decreases flags.len(),
{
    if flags.len() == 0 {
        Seq::empty()
    } else if flags.last().eligible(policy) {
        pending(flags.drop_last(), policy).push(flags.last())
    } else {
        pending(flags.drop_last(), policy)
    }
}

/// The first `max` of the flags that may still be submitted.
pub open spec fn batch_of(flags: Seq<FlagView>, policy: Policy, max: nat) -> Seq<FlagView> {
    let all = pending(flags, policy);
    if all.len() <= max {
        all
    } else {
        all.take(max as int)
    }
}

/// The flags that are in the given state, in the order of the store.
pub open spec fn in_state(flags: Seq<FlagView>, state: FlagState) -> Seq<FlagView>
    decreases flags.len(),
{
    if flags.len() == 0 {
        Seq::empty()
    } else if flags.last().state == state {
        in_state(flags.drop_last(), state).push(flags.last())
    } else {
        in_state(flags.drop_last(), state)
    }
}

/// A flag as it is when first captured.
pub open spec fn fresh(id: nat, value: Seq<u8>, first_seen: u64) -> FlagView {
    FlagView {
        id,
        value,
        first_seen,
        last_submission_attempt: None,
        state: FlagState::Pending,
        retry_count: 0,
    }
}

/// Mathematical value of a [`FlagStore`]: its flags, oldest first capture
/// first, and the ledger of captures in order of arrival.
pub struct StoreView {
    pub policy: Policy,
    pub case_policy: CasePolicy,
    pub flags: Seq<FlagView>,
    pub ledger: Seq<OccurrenceView>,
}

impl StoreView {
    /// No value and no handle occurs twice, flags are ordered by first
    /// capture, and every ledger entry refers to a recorded flag.
    pub open spec fn wf(self) -> bool {
        &&& forall|i: int, j: int|
            0 <= i < j < self.flags.len() ==> self.flags[i].value != self.flags[j].value
        &&& forall|i: int, j: int|
            0 <= i < j < self.flags.len() ==> self.flags[i].id != self.flags[j].id
        &&& forall|i: int| 0 <= i < self.flags.len() ==> self.flags[i].id < self.flags.len()
        &&& ascending(first_seen_of(self.flags))
        &&& forall|k: int| 0 <= k < self.ledger.len() ==> self.ledger[k].flag_id < self.flags.len()
    }

    /// The store after a capture of the (normalized) `value`.
    pub open spec fn record(self, value: Seq<u8>, time: u64, run: ExploitRun) -> StoreView {
        match lookup(self.flags, value) {
            Some(f) => StoreView {
                ledger: self.ledger.push(
                    OccurrenceView { flag_id: f.id, collection_time: time, exploit_run: run },
                ),
                ..self
            },
            None => StoreView {
                flags: self.flags.insert(
                    slot(first_seen_of(self.flags), time),
                    fresh(self.flags.len(), value, time),
                ),
                ledger: self.ledger.push(
                    OccurrenceView {
                        flag_id: self.flags.len(),
                        collection_time: time,
                        exploit_run: run,
                    },
                ),
                ..self
            },
        }
    }

    /// The store after a verdict for `value`.
    pub open spec fn judge(self, value: Seq<u8>, verdict: Verdict, at: u64) -> StoreView {
        StoreView {
            flags: Seq::new(
                self.flags.len(),
                |i: int|
                    if self.flags[i].value == value {
                        self.flags[i].judge(self.policy, verdict, at)
                    } else {
                        self.flags[i]
                    },
            ),
            ..self
        }
    }

    /// The store after a failed attempt for `value`.
    pub open spec fn fail(self, value: Seq<u8>, retryable: bool, at: u64) -> StoreView {
        StoreView {
            flags: Seq::new(
                self.flags.len(),
                |i: int|
                    if self.flags[i].value == value {
                        self.flags[i].fail(self.policy, retryable, at)
                    } else {
                        self.flags[i]
                    },
            ),
            ..self
        }
    }

    /// The store after an expiration check of `value`.
    pub open spec fn expire(self, value: Seq<u8>, now: u64) -> StoreView {
        StoreView {
            flags: Seq::new(
                self.flags.len(),
                |i: int|
                    if self.flags[i].value == value {
                        self.flags[i].expire(self.policy, now)
                    } else {
                        self.flags[i]
                    },
            ),
            ..self
        }
    }

    /// The store after an expiration check of every flag.
    pub open spec fn sweep(self, now: u64) -> StoreView {
        StoreView {
            flags: Seq::new(self.flags.len(), |i: int| self.flags[i].expire(self.policy, now)),
            ..self
        }
    }
}

/// `b` holds the same flags as `a`, by value, handle and first capture.
pub open spec fn same_identities(a: Seq<FlagView>, b: Seq<FlagView>) -> bool {
    &&& a.len() == b.len()
    &&& forall|i: int|
        0 <= i < a.len() ==> {
            &&& (#[trigger] b[i]).id == a[i].id
            &&& b[i].value == a[i].value
            &&& b[i].first_seen == a[i].first_seen
        }
}

/// What `lookup` finds is in the sequence and carries the value; where it
/// finds nothing, no flag carries it.
pub proof fn lemma_lookup(flags: Seq<FlagView>, value: Seq<u8>)
    ensures
        match lookup(flags, value) {
            Some(f) => f.value == value && flags.contains(f),
            None => forall|i: int| 0 <= i < flags.len() ==> (#[trigger] flags[i]).value != value,
        },
    decreases flags.len(),
{
    if flags.len() > 0 {
        if flags.last().value == value {
            assert(flags[flags.len() - 1] == flags.last());
        } else {
            let front = flags.drop_last();
            lemma_lookup(front, value);
            match lookup(front, value) {
                Some(f) => {
                    let k = choose|k: int| 0 <= k < front.len() && front[k] == f;
                    assert(flags[k] == f);
                },
                None => {
                    assert forall|i: int| 0 <= i < flags.len() implies (
                    #[trigger] flags[i]).value != value by {
                        if i < front.len() {
                            assert(front[i] == flags[i]);
                        }
                    }
                },
            }
        }
    }
}

/// Where no value occurs twice, `lookup` finds the flag that carries it.
pub proof fn lemma_lookup_at(flags: Seq<FlagView>, i: int)
    requires
        0 <= i < flags.len(),
        forall|a: int, b: int| 0 <= a < b < flags.len() ==> flags[a].value != flags[b].value,
    ensures
        lookup(flags, flags[i].value) == Some(flags[i]),
{
    lemma_lookup(flags, flags[i].value);
    match lookup(flags, flags[i].value) {
        Some(f) => {
            let k = choose|k: int| 0 <= k < flags.len() && flags[k] == f;
            if k < i {
                assert(flags[k].value != flags[i].value);
            } else if i < k {
                assert(flags[i].value != flags[k].value);
            }
        },
        None => {
            assert(flags[i].value != flags[i].value);
        },
    }
}

/// A step that keeps every flag's value, handle and first capture keeps the
/// store well-formed.
pub proof fn lemma_same_identities_wf(s: StoreView, t: StoreView)
    requires
        s.wf(),
        same_identities(s.flags, t.flags),
        t.ledger == s.ledger,
    ensures
        t.wf(),
{
    assert forall|i: int, j: int| 0 <= i <= j < t.flags.len() implies first_seen_of(t.flags)[i]
        <= first_seen_of(t.flags)[j] by {
        assert(first_seen_of(s.flags)[i] <= first_seen_of(s.flags)[j]);
    }
}

/// A prefix of the store yields a prefix of the pending flags.
pub proof fn lemma_pending_prefix(flags: Seq<FlagView>, policy: Policy, i: int)
    requires
        0 <= i <= flags.len(),
    ensures
        pending(flags.take(i), policy).len() <= pending(flags, policy).len(),
        pending(flags.take(i), policy) == pending(flags, policy).take(
            pending(flags.take(i), policy).len() as int,
        ),
    decreases flags.len(),
{
    let all = pending(flags, policy);
    if i == flags.len() {
        assert(flags.take(i) =~= flags);
        assert(all.take(all.len() as int) =~= all);
    } else {
        let front = flags.drop_last();
        lemma_pending_prefix(front, policy, i);
        assert(front.take(i) =~= flags.take(i));
        let part = pending(flags.take(i), policy);
        assert(part =~= all.take(part.len() as int));
    }
}

/// Recording a capture keeps the store well-formed, and afterwards the value
/// is known: as the flag it was before, or as a fresh one.
pub proof fn lemma_record_wf(s: StoreView, value: Seq<u8>, time: u64, run: ExploitRun)
    requires
        s.wf(),
    ensures
        s.record(value, time, run).wf(),
        lookup(s.record(value, time, run).flags, value) == Some(
            match lookup(s.flags, value) {
                Some(f) => f,
                None => fresh(s.flags.len(), value, time),
            },
        ),
{
    let t = s.record(value, time, run);
    lemma_lookup(s.flags, value);
    match lookup(s.flags, value) {
        Some(f) => {
            let k = choose|k: int| 0 <= k < s.flags.len() && s.flags[k] == f;
            assert(s.flags[k].id < s.flags.len());
        },
        None => {
            let j = slot(first_seen_of(s.flags), time);
            let f = fresh(s.flags.len(), value, time);
            lemma_slot(first_seen_of(s.flags), time);
            lemma_insert_ascending(first_seen_of(s.flags), time);
            assert(first_seen_of(t.flags) =~= first_seen_of(s.flags).insert(j, time));
            assert forall|a: int| 0 <= a < t.flags.len() implies (#[trigger] t.flags[a]).id
                < t.flags.len() by {
                if a < j {
                    assert(t.flags[a] == s.flags[a]);
                } else if a > j {
                    assert(t.flags[a] == s.flags[a - 1]);
                }
            }
            assert forall|a: int, b: int| 0 <= a < b < t.flags.len() implies t.flags[a].value
                != t.flags[b].value && t.flags[a].id != t.flags[b].id by {
                let fa = if a < j {
                    s.flags[a]
                } else if a == j {
                    f
                } else {
                    s.flags[a - 1]
                };
                let fb = if b < j {
                    s.flags[b]
                } else if b == j {
                    f
                } else {
                    s.flags[b - 1]
                };
                assert(t.flags[a] == fa);
                assert(t.flags[b] == fb);
            }
            assert(t.flags[j] == f);
            lemma_lookup_at(t.flags, j);
        },
    }
}

/// No two of the given values are the same.
pub open spec fn distinct(values: Seq<Seq<u8>>) -> bool {
    forall|i: int, j: int| 0 <= i < j < values.len() ==> values[i] != values[j]
}

/// Of a well-formed store, the pending flags are all eligible and recorded,
/// no value occurs twice among them, and they are ordered by first capture.
pub proof fn lemma_pending(flags: Seq<FlagView>, policy: Policy)
    requires
        forall|a: int, b: int| 0 <= a < b < flags.len() ==> flags[a].value != flags[b].value,
        ascending(first_seen_of(flags)),
    ensures
        forall|a: int|
            0 <= a < pending(flags, policy).len() ==> {
                &&& (#[trigger] pending(flags, policy)[a]).eligible(policy)
                &&& flags.contains(pending(flags, policy)[a])
            },
        forall|a: int, b: int|
            0 <= a < b < pending(flags, policy).len() ==> {
                &&& pending(flags, policy)[a].value != pending(flags, policy)[b].value
                &&& pending(flags, policy)[a].first_seen <= pending(flags, policy)[b].first_seen
            },
    decreases flags.len(),
{
    if flags.len() > 0 {
        let front = flags.drop_last();
        let last = flags.last();
        assert forall|a: int, b: int| 0 <= a <= b < front.len() implies first_seen_of(front)[a]
            <= first_seen_of(front)[b] by {
            assert(first_seen_of(flags)[a] <= first_seen_of(flags)[b]);
        }
        assert forall|a: int, b: int| 0 <= a < b < front.len() implies front[a].value
            != front[b].value by {
            assert(flags[a].value != flags[b].value);
        }
        lemma_pending(front, policy);
        let mine = pending(front, policy);
        let all = pending(flags, policy);
        assert forall|a: int| 0 <= a < mine.len() implies flags.contains(#[trigger] mine[a])
            && mine[a].value != last.value && mine[a].first_seen <= last.first_seen by {
            let k = choose|k: int| 0 <= k < front.len() && front[k] == mine[a];
            assert(flags[k] == mine[a]);
            assert(flags[k].value != flags[flags.len() - 1].value);
            assert(first_seen_of(flags)[k] <= first_seen_of(flags)[flags.len() - 1]);
        }
        assert(flags[flags.len() - 1] == last);
        assert forall|a: int| 0 <= a < all.len() implies (#[trigger] all[a]).eligible(policy)
            && flags.contains(all[a]) by {
            if a < mine.len() {
                assert(all[a] == mine[a]);
            }
        }
        assert forall|a: int, b: int| 0 <= a < b < all.len() implies all[a].value != all[b].value
            && all[a].first_seen <= all[b].first_seen by {
            assert(all[a] == mine[a]);
            if b < mine.len() {
                assert(all[b] == mine[b]);
            }
        }
    }
}

/// The deduplicated, authoritative record of all flags, together with the
/// ledger of their captures.
#[derive(Debug)]
pub struct FlagStore {
    policy: Policy,
    case_policy: CasePolicy,
    flags: Vec<Flag>,
    ledger: OccurrenceLedger,
}

impl View for FlagStore {
    type V = StoreView;

    closed spec fn view(&self) -> StoreView {
        StoreView {
            policy: self.policy,
            case_policy: self.case_policy,
            flags: views_of(self.flags@),
            ledger: self.ledger@,
        }
    }
}

impl FlagStore {
    /// An empty store.
    pub fn new(policy: Policy, case_policy: CasePolicy) -> (store: FlagStore)
        ensures
            store@ == (StoreView {
                policy,
                case_policy,
                flags: Seq::empty(),
                ledger: Seq::empty(),
            }),
            store@.wf(),
    {
        let store = FlagStore {
            policy,
            case_policy,
            flags: Vec::new(),
            ledger: OccurrenceLedger::new(),
        };
        proof {
            assert(views_of(store.flags@) =~= Seq::<FlagView>::empty());
        }
        store
    }

    /// Rebuilds a store from records that were kept elsewhere: the flags in
    /// the order of the store, the captures in the order of their arrival.
    /// Records that no store could have held are turned away.
    pub fn restore(
        policy: Policy,
        case_policy: CasePolicy,
        flags: Vec<Flag>,
        occurrences: Vec<FlagOccurence>,
    ) -> (r: Option<FlagStore>)
        ensures
            match r {
                Some(store) => store@.wf() && store@ == (StoreView {
                    policy,
                    case_policy,
                    flags: views_of(flags@),
                    ledger: occurrence_views(occurrences@),
                }),
                None => !(StoreView {
                    policy,
                    case_policy,
                    flags: views_of(flags@),
                    ledger: occurrence_views(occurrences@),
                }).wf(),
            },
    {
        let ghost view = StoreView {
            policy,
            case_policy,
            flags: views_of(flags@),
            ledger: occurrence_views(occurrences@),
        };
        let n: usize = flags.len();
        let mut k: usize = 0;
        while k < occurrences.len()
            invariant
                k <= occurrences@.len(),
                n == flags@.len(),
                view == (StoreView {
                    policy,
                    case_policy,
                    flags: views_of(flags@),
                    ledger: occurrence_views(occurrences@),
                }),
                forall|a: int| 0 <= a < k ==> (#[trigger] view.ledger[a]).flag_id < n,
            decreases occurrences@.len() - k,
        {
            if occurrences[k].flag_id >= n as u64 {
                proof {
                    assert(!(view.ledger[k as int].flag_id < view.flags.len()));
                }
                return None;
            }
            k += 1;
        }
        let mut j: usize = 0;
        while j < n
            invariant
                j <= n,
                n == flags@.len(),
                view == (StoreView {
                    policy,
                    case_policy,
                    flags: views_of(flags@),
                    ledger: occurrence_views(occurrences@),
                }),
                forall|a: int| 0 <= a < occurrences@.len() ==> (#[trigger] view.ledger[a]).flag_id < n,
                forall|b: int| 0 <= b < j ==> (#[trigger] view.flags[b]).id < n,
                forall|a: int, b: int|
                    0 <= a <= b < j ==> first_seen_of(view.flags)[a] <= first_seen_of(
                        view.flags,
                    )[b],
                forall|a: int, b: int|
                    0 <= a < b < j ==> view.flags[a].value != view.flags[b].value
                        && view.flags[a].id != view.flags[b].id,
            decreases n - j,
        {
            if flags[j].id >= n as u64 {
                proof {
                    assert(!(view.flags[j as int].id < view.flags.len()));
                }
                return None;
            }
            if j > 0 && flags[j - 1].first_seen > flags[j].first_seen {
                proof {
                    assert(!(first_seen_of(view.flags)[j - 1] <= first_seen_of(
                        view.flags,
                    )[j as int]));
                }
                return None;
            }
            let mut i: usize = 0;
            while i < j
                invariant
                    i <= j < n,
                    n == flags@.len(),
                    view == (StoreView {
                        policy,
                        case_policy,
                        flags: views_of(flags@),
                        ledger: occurrence_views(occurrences@),
                    }),
                    forall|a: int|
                        0 <= a < i ==> (#[trigger] view.flags[a]).value != view.flags[j as int].value
                            && view.flags[a].id != view.flags[j as int].id,
                decreases j - i,
            {
                if flags[i].id == flags[j].id || same_bytes(
                    flags[i].value.as_slice(),
                    flags[j].value.as_slice(),
                ) {
                    proof {
                        assert(view.flags[i as int].id == view.flags[j as int].id
                            || view.flags[i as int].value == view.flags[j as int].value);
                    }
                    return None;
                }
                i += 1;
            }
            proof {
                assert forall|a: int, b: int| 0 <= a <= b < j + 1 implies first_seen_of(
                    view.flags,
                )[a] <= first_seen_of(view.flags)[b] by {
                    if b == j && a < j {
                        assert(first_seen_of(view.flags)[a] <= first_seen_of(view.flags)[j - 1]);
                    }
                }
            }
            j += 1;
        }
        Some(FlagStore { policy, case_policy, flags, ledger: OccurrenceLedger::from_entries(occurrences) })
    }

    /// All flags, oldest first capture first.
    pub fn flags(&self) -> (out: Vec<Flag>)
        ensures
            views_of(out@) == self@.flags,
    {
        let mut out: Vec<Flag> = Vec::new();
        let n: usize = self.flags.len();
        let mut i: usize = 0;
        while i < n
            invariant
                i <= n,
                n == self.flags@.len(),
                out@.len() == i,
                forall|k: int| 0 <= k < i ==> (#[trigger] out@[k])@ == self.flags@[k]@,
            decreases n - i,
        {
            out.push(self.flags[i].duplicate());
            i += 1;
        }
        proof {
            assert(views_of(out@) =~= views_of(self.flags@));
        }
        out
    }

    /// All captures, in the order in which they arrived.
    pub fn occurrences(&self) -> (out: Vec<FlagOccurence>)
        ensures
            occurrence_views(out@) == self@.ledger,
    {
        self.ledger.entries()
    }

    /// Number of distinct flags recorded.
    pub fn len(&self) -> (n: usize)
        ensures
            n == self@.flags.len(),
    {
        self.flags.len()
    }

    /// Number of captures recorded.
    pub fn occurrence_count(&self) -> (n: usize)
        ensures
            n == self@.ledger.len(),
    {
        self.ledger.len()
    }

    fn find(&self, value: &[u8]) -> (r: Option<usize>)
        ensures
            match r {
                Some(i) => i < self@.flags.len() && self@.flags[i as int].value == value@
                    && lookup(self@.flags, value@) == Some(self@.flags[i as int]),
                None => lookup(self@.flags, value@).is_none(),
            },
    {
        let ghost all = views_of(self.flags@);
        let mut i: usize = self.flags.len();
        proof {
            assert(all.take(i as int) =~= all);
        }
        while i > 0
            invariant
                i <= self.flags@.len(),
                all == views_of(self.flags@),
                lookup(all, value@) == lookup(all.take(i as int), value@),
            decreases i,
        {
            proof {
                assert(all.take(i as int).drop_last() =~= all.take(i - 1));
                assert(all.take(i as int).last() == self.flags@[i - 1]@);
            }
            if same_bytes(self.flags[i - 1].value.as_slice(), value) {
                return Some(i - 1);
            }
            i -= 1;
        }
        None
    }

    /// How letter case enters a flag's identity in this store.
    pub fn case_policy(&self) -> (p: CasePolicy)
        ensures
            p == self@.case_policy,
    {
        self.case_policy
    }

    /// The limits that govern retries and expiration in this store.
    pub fn policy(&self) -> (p: Policy)
        ensures
            p == self@.policy,
    {
        self.policy
    }

    /// Records one capture of `raw`: the value is normalized, a flag is
    /// created for it if none exists, and the capture is appended to the
    /// ledger either way. Returns the flag and whether it is new.
    pub fn record(&mut self, raw: &[u8], exploit_run: ExploitRun, collection_time: u64) -> (r: (
        Flag,
        bool,
    ))
        requires
            old(self)@.wf(),
        ensures
            final(self)@ == old(self)@.record(
                normalized(raw@, old(self)@.case_policy),
                collection_time,
                exploit_run,
            ),
            final(self)@.wf(),
            r.1 == lookup(old(self)@.flags, normalized(raw@, old(self)@.case_policy)).is_none(),
            lookup(final(self)@.flags, normalized(raw@, old(self)@.case_policy)) == Some(r.0@),
            !r.1 ==> lookup(old(self)@.flags, normalized(raw@, old(self)@.case_policy)) == Some(
                r.0@,
            ),
    {
        let value = normalize(raw, self.case_policy);
        self.record_value(value, exploit_run, collection_time)
    }

    /// Records one capture of a value that is normalized already.
    pub fn record_value(&mut self, value: Vec<u8>, exploit_run: ExploitRun, collection_time: u64)
        -> (r: (Flag, bool))
        requires
            old(self)@.wf(),
        ensures
            final(self)@ == old(self)@.record(value@, collection_time, exploit_run),
            final(self)@.wf(),
            r.1 == lookup(old(self)@.flags, value@).is_none(),
            lookup(final(self)@.flags, value@) == Some(r.0@),
            !r.1 ==> lookup(old(self)@.flags, value@) == Some(r.0@),
    {
        let ghost before = self@;
        proof {
            lemma_lookup(before.flags, value@);
        }
        match self.find(value.as_slice()) {
            Some(i) => {
                let copy = self.flags[i].duplicate();
                self.ledger.append(copy.id, exploit_run, collection_time);
                proof {
                    lemma_record_wf(before, value@, collection_time, exploit_run);
                }
                (copy, false)
            },
            None => {
                let n: usize = self.flags.len();
                let id: u64 = n as u64;
                let mut j: usize = n;
                while j > 0 && self.flags[j - 1].first_seen > collection_time
                    invariant
                        j <= n,
                        n == self.flags@.len(),
                        before.flags == views_of(self.flags@),
                        forall|k: int|
                            j <= k < n ==> first_seen_of(before.flags)[k] > collection_time,
                    decreases j,
                {
                    j -= 1;
                }
                let flag = Flag::create(id, value, collection_time);
                let copy = flag.duplicate();
                proof {
                    lemma_slot_unique(first_seen_of(before.flags), collection_time, j as int);
                }
                self.flags.insert(j, flag);
                self.ledger.append(id, exploit_run, collection_time);
                proof {
                    assert(self@.flags =~= before.flags.insert(j as int, copy@));
                    lemma_record_wf(before, value@, collection_time, exploit_run);
                }
                (copy, true)
            },
        }
    }

    /// The flags to submit next: up to `max` of those that are `Pending` or in
    /// `Error` with retries left, oldest first capture first.
    pub fn list_pending(&self, max: usize) -> (out: Vec<Flag>)
        ensures
            views_of(out@) == batch_of(self@.flags, self@.policy, max as nat),
    {
        let ghost all = views_of(self.flags@);
        let mut out: Vec<Flag> = Vec::new();
        let n: usize = self.flags.len();
        let mut i: usize = 0;
        proof {
            assert(views_of(out@) =~= pending(all.take(0), self.policy));
        }
        while i < n && out.len() < max
            invariant
                i <= n,
                n == self.flags@.len(),
                all == views_of(self.flags@),
                out@.len() <= max,
                views_of(out@) == pending(all.take(i as int), self.policy),
            decreases n - i,
        {
            proof {
                assert(all.take(i + 1).drop_last() =~= all.take(i as int));
                assert(all.take(i + 1).last() == self.flags@[i as int]@);
            }
            if self.flags[i].is_pending(&self.policy) {
                let ghost prev = views_of(out@);
                let copy = self.flags[i].duplicate();
                out.push(copy);
                proof {
                    assert(views_of(out@) =~= prev.push(self.flags@[i as int]@));
                }
            }
            i += 1;
        }
        proof {
            lemma_pending_prefix(all, self.policy, i as int);
            if i == n {
                assert(all.take(n as int) =~= all);
            }
        }
        out
    }

    /// Applies the endpoint's verdict for the flag `value`, for an attempt made
    /// at `attempt_time`. Fails if no such flag is recorded.
    pub fn apply_verdict(&mut self, value: &[u8], verdict: Verdict, attempt_time: u64) -> (r:
        Result<Reconciled, NotFoundError>)
        requires
            old(self)@.wf(),
        ensures
            final(self)@ == old(self)@.judge(value@, verdict, attempt_time),
            final(self)@.wf(),
            match lookup(old(self)@.flags, value@) {
                Some(f) => r == Ok::<Reconciled, NotFoundError>(
                    report_of(
                        f,
                        f.judge(old(self)@.policy, verdict, attempt_time),
                        old(self)@.policy,
                    ),
                ),
                None => r.is_err() && final(self)@ == old(self)@,
            },
    {
        let ghost before = self@;
        let policy = self.policy;
        proof {
            lemma_lookup(before.flags, value@);
        }
        let r = match self.find(value) {
            Some(i) => Ok(self.flags[i].apply_verdict(&policy, verdict, attempt_time)),
            None => Err(NotFoundError),
        };
        proof {
            assert(self@.flags =~= before.judge(value@, verdict, attempt_time).flags);
            lemma_same_identities_wf(before, self@);
        }
        r
    }

    /// Applies a failed submission attempt, made at `attempt_time`, to the flag
    /// `value`. Fails if no such flag is recorded.
    pub fn apply_failure(&mut self, value: &[u8], retryable: bool, attempt_time: u64) -> (r:
        Result<Reconciled, NotFoundError>)
        requires
            old(self)@.wf(),
        ensures
            final(self)@ == old(self)@.fail(value@, retryable, attempt_time),
            final(self)@.wf(),
            match lookup(old(self)@.flags, value@) {
                Some(f) => r == Ok::<Reconciled, NotFoundError>(
                    report_of(
                        f,
                        f.fail(old(self)@.policy, retryable, attempt_time),
                        old(self)@.policy,
                    ),
                ),
                None => r.is_err() && final(self)@ == old(self)@,
            },
    {
        let ghost before = self@;
        let policy = self.policy;
        proof {
            lemma_lookup(before.flags, value@);
        }
        let r = match self.find(value) {
            Some(i) => Ok(self.flags[i].apply_failure(&policy, retryable, attempt_time)),
            None => Err(NotFoundError),
        };
        proof {
            assert(self@.flags =~= before.fail(value@, retryable, attempt_time).flags);
            lemma_same_identities_wf(before, self@);
        }
        r
    }

    /// Retires the flag `value` if it is still eligible for submission and its
    /// scoring window has closed at `now`. Returns whether it expired by this
    /// call; an unknown value changes nothing.
    pub fn apply_expiration(&mut self, value: &[u8], now: u64) -> (expired: bool)
        requires
            old(self)@.wf(),
        ensures
            final(self)@ == old(self)@.expire(value@, now),
            final(self)@.wf(),
            expired == match lookup(old(self)@.flags, value@) {
                Some(f) => f.eligible(old(self)@.policy) && f.overdue(old(self)@.policy, now),
                None => false,
            },
    {
        let ghost before = self@;
        let policy = self.policy;
        proof {
            lemma_lookup(before.flags, value@);
        }
        let r = match self.find(value) {
            Some(i) => self.flags[i].expire(&policy, now),
            None => false,
        };
        proof {
            assert(self@.flags =~= before.expire(value@, now).flags);
            lemma_same_identities_wf(before, self@);
        }
        r
    }

    /// Retires every flag that is still eligible for submission and whose
    /// scoring window has closed at `now`.
    pub fn sweep(&mut self, now: u64)
        requires
            old(self)@.wf(),
        ensures
            final(self)@ == old(self)@.sweep(now),
            final(self)@.wf(),
    {
        let ghost before = self@;
        let policy = self.policy;
        let n: usize = self.flags.len();
        let mut i: usize = 0;
        while i < n
            invariant
                i <= n,
                n == self.flags@.len(),
                n == before.flags.len(),
                self@.policy == before.policy,
                self@.case_policy == before.case_policy,
                self@.ledger == before.ledger,
                policy == before.policy,
                forall|k: int|
                    0 <= k < i ==> (#[trigger] self@.flags[k]) == before.flags[k].expire(
                        policy,
                        now,
                    ),
                forall|k: int| i <= k < n ==> (#[trigger] self@.flags[k]) == before.flags[k],
            decreases n - i,
        {
            let ghost prev = self@.flags;
            self.flags[i].expire(&policy, now);
            proof {
                let cur = self@.flags;
                assert(prev[i as int] == before.flags[i as int]);
                assert(cur[i as int] == prev[i as int].expire(policy, now));
                assert forall|k: int| 0 <= k <= i implies (#[trigger] cur[k])
                    == before.flags[k].expire(policy, now) by {
                    if k < i {
                        assert(cur[k] == prev[k]);
                    }
                }
                assert forall|k: int| i < k < n implies (#[trigger] cur[k]) == before.flags[k] by {
                    assert(cur[k] == prev[k]);
                }
            }
            i += 1;
        }
        proof {
            assert(self@.flags =~= before.sweep(now).flags);
            lemma_same_identities_wf(before, self@);
        }
    }

    /// The flags that are in the given state, oldest first capture first.
    pub fn flags_in_state(&self, state: FlagState) -> (out: Vec<Flag>)
        ensures
            views_of(out@) == in_state(self@.flags, state),
    {
        let ghost all = views_of(self.flags@);
        let mut out: Vec<Flag> = Vec::new();
        let n: usize = self.flags.len();
        let mut i: usize = 0;
        proof {
            assert(views_of(out@) =~= in_state(all.take(0), state));
        }
        while i < n
            invariant
                i <= n,
                n == self.flags@.len(),
                all == views_of(self.flags@),
                views_of(out@) == in_state(all.take(i as int), state),
            decreases n - i,
        {
            proof {
                assert(all.take(i + 1).drop_last() =~= all.take(i as int));
                assert(all.take(i + 1).last() == self.flags@[i as int]@);
            }
            if self.flags[i].state == state {
                let ghost prev = views_of(out@);
                let copy = self.flags[i].duplicate();
                out.push(copy);
                proof {
                    assert(views_of(out@) =~= prev.push(self.flags@[i as int]@));
                }
            }
            i += 1;
        }
        proof {
            assert(all.take(n as int) =~= all);
        }
        out
    }

    /// How many flags are in the given state.
    pub fn count_in_state(&self, state: FlagState) -> (n: usize)
        ensures
            n == in_state(self@.flags, state).len(),
    {
        let ghost all = views_of(self.flags@);
        let len: usize = self.flags.len();
        let mut count: usize = 0;
        let mut i: usize = 0;
        while i < len
            invariant
                i <= len,
                len == self.flags@.len(),
                all == views_of(self.flags@),
                count <= i,
                count == in_state(all.take(i as int), state).len(),
            decreases len - i,
        {
            proof {
                assert(all.take(i + 1).drop_last() =~= all.take(i as int));
                assert(all.take(i + 1).last() == self.flags@[i as int]@);
            }
            if self.flags[i].state == state {
                count += 1;
            }
            i += 1;
        }
        proof {
            assert(all.take(len as int) =~= all);
        }
        count
    }

    /// The flag recorded for `value`, if any.
    pub fn get(&self, value: &[u8]) -> (r: Option<Flag>)
        ensures
            match r {
                Some(f) => lookup(self@.flags, value@) == Some(f@),
                None => lookup(self@.flags, value@).is_none(),
            },
    {
        match self.find(value) {
            Some(i) => Some(self.flags[i].duplicate()),
            None => None,
        }
    }

    /// The state of the flag recorded for `value`, if any.
    pub fn state_of(&self, value: &[u8]) -> (r: Option<FlagState>)
        ensures
            r == match lookup(self@.flags, value@) {
                Some(f) => Some(f.state),
                None => None,
            },
    {
        match self.find(value) {
            Some(i) => Some(self.flags[i].state),
            None => None,
        }
    }

    /// All captures of the flag `value`, ordered by collection time. Fails if
    /// no such flag is recorded.
    pub fn occurrences_of(&self, value: &[u8]) -> (r: Result<Vec<FlagOccurence>, NotFoundError>)
        ensures
            match lookup(self@.flags, value@) {
                Some(f) => r.is_ok() && occurrence_views(r.unwrap()@) == history(self@.ledger, f.id),
                None => r.is_err(),
            },
    {
        match self.find(value) {
            Some(i) => Ok(self.ledger.occurrences_for(self.flags[i].id)),
            None => Err(NotFoundError),
        }
    }
}

} // verus!
